//! The parts of a Nostr event that the relay reads: its id, author, kind,
//! creation time and tags, beside the event's full JSON text.
//!
//! A field that is missing from the JSON, or holds a value of another type,
//! is `None`; a tag that is not an array holds no items.

use vstd::prelude::*;
use crate::text::str_eq;

verus! {

/// One element of a tag array.
#[derive(Clone, Debug)]
pub enum TagItem {
    /// A JSON string.
    Text(String),
    /// A JSON number that is a non-negative integer fitting in 64 bits.
    Number(u64),
    /// Any other JSON value.
    Other,
}

/// The mathematical value of a tag element.
pub enum TagItemView {
    Text(Seq<char>),
    Number(u64),
    Other,
}

impl View for TagItem {
    type V = TagItemView;

    open spec fn view(&self) -> TagItemView {
        match self {
            TagItem::Text(s) => TagItemView::Text(s@),
            TagItem::Number(n) => TagItemView::Number(*n),
            TagItem::Other => TagItemView::Other,
        }
    }
}

/// A tag: the elements of one entry of the event's `tags` array.
#[derive(Clone, Debug)]
pub struct Tag {
    pub items: Vec<TagItem>,
}

impl View for Tag {
    type V = Seq<TagItemView>;

    open spec fn view(&self) -> Seq<TagItemView> {
        self.items@.map_values(|x: TagItem| x@)
    }
}

/// An event as the relay sees it.
#[derive(Clone, Debug)]
pub struct Event {
    /// The event's JSON text as `serde_json` writes the parsed value (compact,
    /// keys in order), as it is stored and sent on.
    pub raw: String,
    /// `id`, where it is a string.
    pub id: Option<String>,
    /// `pubkey`, where it is a string.
    pub pubkey: Option<String>,
    /// `kind`, where it is a non-negative integer.
    pub kind: Option<u64>,
    /// `created_at`, where it is a non-negative integer.
    pub created_at: Option<u64>,
    /// `tags`, where it is an array.
    pub tags: Option<Vec<Tag>>,
}

/// The mathematical value of an event.
pub struct EventView {
    pub raw: Seq<char>,
    pub id: Option<Seq<char>>,
    pub pubkey: Option<Seq<char>>,
    pub kind: Option<u64>,
    pub created_at: Option<u64>,
    pub tags: Option<Seq<Seq<TagItemView>>>,
}

pub open spec fn opt_text_view(s: Option<String>) -> Option<Seq<char>> {
    match s {
        Some(t) => Some(t@),
        None => None,
    }
}

pub open spec fn tags_view(tags: Seq<Tag>) -> Seq<Seq<TagItemView>> {
    tags.map_values(|t: Tag| t@)
}

impl View for Event {
    type V = EventView;

    open spec fn view(&self) -> EventView {
        EventView {
            raw: self.raw@,
            id: opt_text_view(self.id),
            pubkey: opt_text_view(self.pubkey),
            kind: self.kind,
            created_at: self.created_at,
            tags: match self.tags {
                Some(t) => Some(tags_view(t@)),
                None => None,
            },
        }
    }
}

/// The text at position `i` of a tag, where the element there is a string.
pub open spec fn item_text(tag: Seq<TagItemView>, i: int) -> Option<Seq<char>> {
    if 0 <= i < tag.len() {
        match tag[i] {
            TagItemView::Text(s) => Some(s),
            _ => None,
        }
    } else {
        None
    }
}

/// The integer at position `i` of a tag, where the element there is one.
pub open spec fn item_u64(tag: Seq<TagItemView>, i: int) -> Option<u64> {
    if 0 <= i < tag.len() {
        match tag[i] {
            TagItemView::Number(n) => Some(n),
            _ => None,
        }
    } else {
        None
    }
}

/// The tag's first element is the string `name`.
pub open spec fn tag_named(tag: Seq<TagItemView>, name: Seq<char>) -> bool {
    item_text(tag, 0) == Some(name)
}

/// `i` is the position of the first tag named `name`.
pub open spec fn first_named_at(tags: Seq<Seq<TagItemView>>, name: Seq<char>, i: int) -> bool {
    &&& 0 <= i < tags.len()
    &&& tag_named(tags[i], name)
    &&& forall|j: int| 0 <= j < i ==> !tag_named(#[trigger] tags[j], name)
}

/// Some tag is named `name`.
pub open spec fn has_tag_named(tags: Seq<Seq<TagItemView>>, name: Seq<char>) -> bool {
    exists|i: int| 0 <= i < tags.len() && tag_named(#[trigger] tags[i], name)
}

/// The first tag named `name`.
pub open spec fn find_named(tags: Seq<Seq<TagItemView>>, name: Seq<char>) -> Option<
    Seq<TagItemView>,
> {
    if has_tag_named(tags, name) {
        Some(tags[choose|i: int| first_named_at(tags, name, i)])
    } else {
        None
    }
}

/// The string value (second element) of the first tag named `name`.
pub open spec fn named_text(tags: Seq<Seq<TagItemView>>, name: Seq<char>) -> Option<Seq<char>> {
    match find_named(tags, name) {
        Some(t) => item_text(t, 1),
        None => None,
    }
}

/// The integer value (second element) of the first tag named `name`.
pub open spec fn named_u64(tags: Seq<Seq<TagItemView>>, name: Seq<char>) -> Option<u64> {
    match find_named(tags, name) {
        Some(t) => item_u64(t, 1),
        None => None,
    }
}

/// The string value of the event's first tag named `name`.
pub open spec fn event_tag_text(e: EventView, name: Seq<char>) -> Option<Seq<char>> {
    match e.tags {
        Some(tags) => named_text(tags, name),
        None => None,
    }
}

/// The integer value of the event's first tag named `name`.
pub open spec fn event_tag_u64(e: EventView, name: Seq<char>) -> Option<u64> {
    match e.tags {
        Some(tags) => named_u64(tags, name),
        None => None,
    }
}

/// The room an event belongs to: the value of its first `room` tag.
pub open spec fn room_of(e: EventView) -> Option<Seq<char>> {
    event_tag_text(e, "room"@)
}

/// The event carries a `room` tag.
pub open spec fn in_room(e: EventView) -> bool {
    match e.tags {
        Some(tags) => has_tag_named(tags, "room"@),
        None => false,
    }
}

pub proof fn lemma_first_named_unique(tags: Seq<Seq<TagItemView>>, name: Seq<char>, i: int)
    requires
        first_named_at(tags, name, i),
    ensures
        has_tag_named(tags, name),
        find_named(tags, name) == Some(tags[i]),
{
    assert(tag_named(tags[i], name));
    let j = choose|j: int| first_named_at(tags, name, j);
    if j < i {
        assert(!tag_named(tags[j], name));
    } else if i < j {
        assert(!tag_named(tags[i], name));
    }
}

impl TagItem {
    /// The element as a string, where it is one.
    pub fn as_text(&self) -> (r: Option<&String>)
        ensures
            match r {
                Some(s) => self@ == TagItemView::Text(s@),
                None => !(self@ is Text),
            },
    {
        match self {
            TagItem::Text(s) => Some(s),
            _ => None,
        }
    }

    /// The element as an integer, where it is one.
    pub fn as_u64(&self) -> (r: Option<u64>)
        ensures
            match r {
                Some(n) => self@ == TagItemView::Number(n),
                None => !(self@ is Number),
            },
    {
        match self {
            TagItem::Number(n) => Some(*n),
            _ => None,
        }
    }

    /// A copy of the element.
    pub fn copy(&self) -> (r: TagItem)
        ensures
            r@ == self@,
    {
        match self {
            TagItem::Text(s) => TagItem::Text(s.clone()),
            TagItem::Number(n) => TagItem::Number(*n),
            TagItem::Other => TagItem::Other,
        }
    }
}

impl Tag {
    /// The string at position `i`, where the element there is one.
    pub fn text_at(&self, i: usize) -> (r: Option<&String>)
        ensures
            match r {
                Some(s) => item_text(self@, i as int) == Some(s@),
                None => item_text(self@, i as int) is None,
            },
    {
        if i < self.items.len() {
            self.items[i].as_text()
        } else {
            None
        }
    }

    /// The integer at position `i`, where the element there is one.
    pub fn u64_at(&self, i: usize) -> (r: Option<u64>)
        ensures
            r == item_u64(self@, i as int),
    {
        if i < self.items.len() {
            self.items[i].as_u64()
        } else {
            None
        }
    }

    /// The first element is the string `name`.
    pub fn is_named(&self, name: &str) -> (r: bool)
        ensures
            r == tag_named(self@, name@),
    {
        match self.text_at(0) {
            Some(s) => str_eq(s.as_str(), name),
            None => false,
        }
    }

    /// A copy of the tag.
    pub fn copy(&self) -> (r: Tag)
        ensures
            r@ == self@,
    {
        let mut items: Vec<TagItem> = Vec::new();
        for i in 0..self.items.len()
            invariant
                items@.len() == i,
                forall|j: int| 0 <= j < i ==> (#[trigger] items@[j])@ == self.items@[j]@,
        {
            items.push(self.items[i].copy());
        }
        let r = Tag { items };
        assert(r@ =~= self@);
        r
    }
}

/// The position of the first tag named `name`.
pub fn find_tag(tags: &Vec<Tag>, name: &str) -> (r: Option<usize>)
    ensures
        match r {
            Some(i) => first_named_at(tags_view(tags@), name@, i as int),
            None => !has_tag_named(tags_view(tags@), name@),
        },
{
    let ghost tv = tags_view(tags@);
    for i in 0..tags.len()
        invariant
            tv == tags_view(tags@),
            forall|j: int| 0 <= j < i ==> !tag_named(#[trigger] tv[j], name@),
    {
        if tags[i].is_named(name) {
            return Some(i);
        }
    }
    None
}

/// The string value of the first tag named `name`, where there is one.
pub fn tag_text<'a>(tags: &'a Vec<Tag>, name: &str) -> (r: Option<&'a String>)
    ensures
        match r {
            Some(s) => named_text(tags_view(tags@), name@) == Some(s@),
            None => named_text(tags_view(tags@), name@) is None,
        },
{
    match find_tag(tags, name) {
        Some(i) => {
            proof {
                lemma_first_named_unique(tags_view(tags@), name@, i as int);
            }
            tags[i].text_at(1)
        },
        None => None,
    }
}

/// The integer value of the first tag named `name`, where there is one.
pub fn tag_u64(tags: &Vec<Tag>, name: &str) -> (r: Option<u64>)
    ensures
        r == named_u64(tags_view(tags@), name@),
{
    match find_tag(tags, name) {
        Some(i) => {
            proof {
                lemma_first_named_unique(tags_view(tags@), name@, i as int);
            }
            tags[i].u64_at(1)
        },
        None => None,
    }
}

impl Event {
    /// The string value of the event's first tag named `name`.
    pub fn tag_text(&self, name: &str) -> (r: Option<&String>)
        ensures
            match r {
                Some(s) => event_tag_text(self@, name@) == Some(s@),
                None => event_tag_text(self@, name@) is None,
            },
    {
        match &self.tags {
            Some(tags) => tag_text(tags, name),
            None => None,
        }
    }

    /// The integer value of the event's first tag named `name`.
    pub fn tag_u64(&self, name: &str) -> (r: Option<u64>)
        ensures
            r == event_tag_u64(self@, name@),
    {
        match &self.tags {
            Some(tags) => tag_u64(tags, name),
            None => None,
        }
    }

    /// A copy of the event.
    pub fn copy(&self) -> (r: Event)
        ensures
            r@ == self@,
    {
        let tags = match &self.tags {
            Some(ts) => {
                let mut out: Vec<Tag> = Vec::new();
                for i in 0..ts.len()
                    invariant
                        out@.len() == i,
                        forall|j: int| 0 <= j < i ==> (#[trigger] out@[j])@ == ts@[j]@,
                {
                    out.push(ts[i].copy());
                }
                assert(tags_view(out@) =~= tags_view(ts@));
                Some(out)
            },
            None => None,
        };
        Event {
            raw: self.raw.clone(),
            id: match &self.id {
                Some(s) => Some(s.clone()),
                None => None,
            },
            pubkey: match &self.pubkey {
                Some(s) => Some(s.clone()),
                None => None,
            },
            kind: self.kind,
            created_at: self.created_at,
            tags,
        }
    }
}

/// The room id of a room message: the string value of its first `room` tag.
pub fn extract_room_id(event: &Event) -> (r: Option<String>)
    ensures
        r.is_some() == room_of(event@).is_some(),
        r matches Some(s) ==> room_of(event@) == Some(s@),
{
    match event.tag_text("room") {
        Some(s) => Some(s.clone()),
        None => None,
    }
}

/// The event carries a `room` tag.
pub fn is_room_message(event: &Event) -> (r: bool)
    ensures
        r == in_room(event@),
{
    match &event.tags {
        Some(tags) => find_tag(tags, "room").is_some(),
        None => false,
    }
}

} // verus!
