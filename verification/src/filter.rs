//! Subscription filters restricted to what an IM relay serves, and the test
//! of an event against a filter.

use vstd::prelude::*;
use crate::event::{Event, EventView, Tag, TagItemView, item_text, opt_text_view, tags_view};
use crate::keyed::{TextMap, holds_key};
use crate::text::{contains_text, str_eq, texts_view, lowercase, to_lowercase};

verus! {

/// A subscription filter. `tags` maps a tag name (`e`, `p`, `room`) to the
/// values accepted for it; no name occurs twice.
#[derive(Clone, Debug)]
pub struct Filter {
    /// The subscription id the filter was sent with.
    pub id: Option<String>,
    pub authors: Vec<String>,
    pub kinds: Vec<u64>,
    pub since: Option<u64>,
    pub until: Option<u64>,
    pub ids: Vec<String>,
    pub tags: TextMap<Vec<String>>,
}

/// The mathematical value of a filter.
pub struct FilterView {
    pub id: Option<Seq<char>>,
    pub authors: Seq<Seq<char>>,
    pub kinds: Seq<u64>,
    pub since: Option<u64>,
    pub until: Option<u64>,
    pub ids: Seq<Seq<char>>,
    pub tags: Seq<(Seq<char>, Seq<Seq<char>>)>,
}

pub open spec fn tag_filters_view(t: Seq<(Seq<char>, Vec<String>)>) -> Seq<(Seq<char>, Seq<Seq<char>>)> {
    t.map_values(|e: (Seq<char>, Vec<String>)| (e.0, texts_view(e.1@)))
}

impl View for Filter {
    type V = FilterView;

    open spec fn view(&self) -> FilterView {
        FilterView {
            id: opt_text_view(self.id),
            authors: texts_view(self.authors@),
            kinds: self.kinds@,
            since: self.since,
            until: self.until,
            ids: texts_view(self.ids@),
            tags: tag_filters_view(self.tags.model()),
        }
    }
}

/// The filter names the tag `name`.
pub open spec fn names_tag(f: FilterView, name: Seq<char>) -> bool {
    exists|i: int| 0 <= i < f.tags.len() && (#[trigger] f.tags[i]).0 == name
}

/// A tag name that an IM filter may use.
pub open spec fn im_tag_name(name: Seq<char>) -> bool {
    name == "e"@ || name == "p"@ || name == "room"@
}

/// The filter limits the kinds, uses only IM tag names, and targets authors,
/// a room or a recipient.
pub open spec fn im_compatible(f: FilterView) -> bool {
    &&& f.kinds.len() > 0
    &&& forall|i: int| 0 <= i < f.tags.len() ==> im_tag_name(#[trigger] f.tags[i].0)
    &&& (f.authors.len() > 0 || names_tag(f, "room"@) || names_tag(f, "p"@))
}

/// The tag is an array of at least two elements whose first is `name` and
/// whose second is a string among `values`.
pub open spec fn tag_hits(tag: Seq<TagItemView>, name: Seq<char>, values: Seq<Seq<char>>) -> bool {
    &&& tag.len() >= 2
    &&& item_text(tag, 0) == Some(name)
    &&& match item_text(tag, 1) {
        Some(v) => values.contains(v),
        None => false,
    }
}

/// Some tag of the event satisfies the filter entry for `name`.
pub open spec fn tags_hit(
    tags: Seq<Seq<TagItemView>>,
    name: Seq<char>,
    values: Seq<Seq<char>>,
) -> bool {
    exists|j: int| 0 <= j < tags.len() && tag_hits(#[trigger] tags[j], name, values)
}

pub open spec fn kind_ok(f: FilterView, e: EventView) -> bool {
    match e.kind {
        Some(k) => f.kinds.len() == 0 || f.kinds.contains(k),
        None => false,
    }
}

pub open spec fn authors_ok(f: FilterView, e: EventView) -> bool {
    f.authors.len() == 0 || match e.pubkey {
        Some(p) => f.authors.contains(p),
        None => false,
    }
}

pub open spec fn time_ok(f: FilterView, e: EventView) -> bool {
    match e.created_at {
        Some(ts) => (match f.since {
            Some(s) => ts >= s,
            None => true,
        }) && (match f.until {
            Some(u) => ts <= u,
            None => true,
        }),
        None => true,
    }
}

pub open spec fn ids_ok(f: FilterView, e: EventView) -> bool {
    f.ids.len() == 0 || match e.id {
        Some(i) => f.ids.contains(i),
        None => false,
    }
}

pub open spec fn tags_ok(f: FilterView, e: EventView) -> bool {
    match e.tags {
        Some(tags) => forall|i: int|
            0 <= i < f.tags.len() ==> tags_hit(
                tags,
                lowercase(#[trigger] f.tags[i].0),
                f.tags[i].1,
            ),
        None => true,
    }
}

/// The event satisfies the filter: its kind is present and allowed, its
/// author, time, id and tags are allowed.
pub open spec fn filter_matches(f: FilterView, e: EventView) -> bool {
    &&& kind_ok(f, e)
    &&& authors_ok(f, e)
    &&& time_ok(f, e)
    &&& ids_ok(f, e)
    &&& tags_ok(f, e)
}

/// The author test admits exactly the events whose author is one of the
/// filter's authors, at any position: where the filter lists authors, an
/// event matches if and only if its author is one of them and it passes the
/// filter's other tests.
pub proof fn law_matches_any_listed_author(f: FilterView, e: EventView)
    ensures
        f.authors.len() > 0 ==> (filter_matches(f, e) <==> ((exists|i: int|
            0 <= i < f.authors.len() && e.pubkey == Some(#[trigger] f.authors[i])) && kind_ok(f, e)
            && time_ok(f, e) && ids_ok(f, e) && tags_ok(f, e))),
{
    if f.authors.len() > 0 {
        if let Some(p) = e.pubkey {
            if f.authors.contains(p) {
                let i = choose|i: int| 0 <= i < f.authors.len() && f.authors[i] == p;
                assert(e.pubkey == Some(f.authors[i]));
            }
        }
    }
}

/// Some tag, at some position, has at least two elements, the first being
/// `name` and the second the value at some position of `values`.
pub open spec fn entry_met(tags: Seq<Seq<TagItemView>>, name: Seq<char>, values: Seq<Seq<char>>) -> bool {
    exists|j: int, k: int|
        0 <= j < tags.len() && 0 <= k < values.len() && #[trigger] tags[j].len() >= 2
            && item_text(tags[j], 0) == Some(name) && item_text(tags[j], 1) == Some(
            #[trigger] values[k],
        )
}

/// A tag entry of a filter is met by an event's tags exactly when some tag,
/// at any position, names it and holds one of its values, at any position.
pub proof fn law_tag_entry_met_by_any_tag(
    tags: Seq<Seq<TagItemView>>,
    name: Seq<char>,
    values: Seq<Seq<char>>,
)
    ensures
        tags_hit(tags, name, values) <==> entry_met(tags, name, values),
{
    if tags_hit(tags, name, values) {
        let j = choose|j: int| 0 <= j < tags.len() && tag_hits(#[trigger] tags[j], name, values);
        let v = item_text(tags[j], 1)->0;
        let k = choose|k: int| 0 <= k < values.len() && values[k] == v;
        assert(item_text(tags[j], 1) == Some(values[k]));
    }
    if entry_met(tags, name, values) {
        let (j, k) = choose|j: int, k: int|
            0 <= j < tags.len() && 0 <= k < values.len() && #[trigger] tags[j].len() >= 2
                && item_text(tags[j], 0) == Some(name) && item_text(tags[j], 1) == Some(
                #[trigger] values[k],
            );
        assert(values.contains(values[k]));
        assert(tag_hits(tags[j], name, values));
    }
}

/// An event satisfies a filter exactly when it has a kind, and its kind,
/// author and id are each one of the filter's (at any position) where the
/// filter lists any; its time, where it has one, lies within the filter's
/// window; and, where it has tags, each of the filter's tag entries is met by
/// some tag whose first element is the entry's lowercase name and whose
/// second is one of the entry's values.
pub proof fn law_filter_matches_exactly(f: FilterView, e: EventView)
    ensures
        filter_matches(f, e) <==> {
            &&& e.kind is Some
            &&& (f.kinds.len() == 0 || exists|i: int|
                0 <= i < f.kinds.len() && e.kind == Some(#[trigger] f.kinds[i]))
            &&& (f.authors.len() == 0 || exists|i: int|
                0 <= i < f.authors.len() && e.pubkey == Some(#[trigger] f.authors[i]))
            &&& (e.created_at matches Some(ts) ==> ((f.since matches Some(s) ==> s <= ts) && (
            f.until matches Some(u) ==> ts <= u)))
            &&& (f.ids.len() == 0 || exists|i: int|
                0 <= i < f.ids.len() && e.id == Some(#[trigger] f.ids[i]))
            &&& (e.tags matches Some(tags) ==> forall|i: int|
                0 <= i < f.tags.len() ==> entry_met(
                    tags,
                    lowercase(#[trigger] f.tags[i].0),
                    f.tags[i].1,
                ))
        },
{
    assert(kind_ok(f, e) <==> (e.kind is Some && (f.kinds.len() == 0 || exists|i: int|
        0 <= i < f.kinds.len() && e.kind == Some(#[trigger] f.kinds[i])))) by {
        if let Some(k) = e.kind {
            if f.kinds.contains(k) {
                let i = choose|i: int| 0 <= i < f.kinds.len() && f.kinds[i] == k;
                assert(e.kind == Some(f.kinds[i]));
            }
        }
    }
    assert(authors_ok(f, e) <==> (f.authors.len() == 0 || exists|i: int|
        0 <= i < f.authors.len() && e.pubkey == Some(#[trigger] f.authors[i]))) by {
        if let Some(p) = e.pubkey {
            if f.authors.contains(p) {
                let i = choose|i: int| 0 <= i < f.authors.len() && f.authors[i] == p;
                assert(e.pubkey == Some(f.authors[i]));
            }
        }
    }
    assert(ids_ok(f, e) <==> (f.ids.len() == 0 || exists|i: int|
        0 <= i < f.ids.len() && e.id == Some(#[trigger] f.ids[i]))) by {
        if let Some(id) = e.id {
            if f.ids.contains(id) {
                let i = choose|i: int| 0 <= i < f.ids.len() && f.ids[i] == id;
                assert(e.id == Some(f.ids[i]));
            }
        }
    }
    if let Some(tags) = e.tags {
        assert(tags_ok(f, e) <==> forall|i: int|
            0 <= i < f.tags.len() ==> entry_met(tags, lowercase(#[trigger] f.tags[i].0), f.tags[i].1))
            by {
            assert forall|i: int| 0 <= i < f.tags.len() implies tags_hit(
                tags,
                lowercase(#[trigger] f.tags[i].0),
                f.tags[i].1,
            ) == entry_met(tags, lowercase(f.tags[i].0), f.tags[i].1) by {
                law_tag_entry_met_by_any_tag(tags, lowercase(f.tags[i].0), f.tags[i].1);
            }
        }
    }
}

/// A filter that names a tag other than `e`, `p` and `room`, at any
/// position, is not IM compatible.
pub proof fn law_im_compatible_rejects_other_tags(f: FilterView, i: int)
    requires
        0 <= i < f.tags.len(),
        f.tags[i].0 != "e"@,
        f.tags[i].0 != "p"@,
        f.tags[i].0 != "room"@,
    ensures
        !im_compatible(f),
{
    assert(!im_tag_name(f.tags[i].0));
}

/// A filter is IM compatible exactly when it limits the kinds, every tag it
/// names is `e`, `p` or `room`, and it names authors, or a `room` or `p`
/// tag.
pub proof fn law_im_compatible_exactly(f: FilterView)
    ensures
        im_compatible(f) <==> {
            &&& f.kinds.len() > 0
            &&& forall|i: int|
                0 <= i < f.tags.len() ==> (#[trigger] f.tags[i]).0 == "e"@ || f.tags[i].0 == "p"@
                    || f.tags[i].0 == "room"@
            &&& (f.authors.len() > 0 || (exists|i: int|
                0 <= i < f.tags.len() && ((#[trigger] f.tags[i]).0 == "room"@ || f.tags[i].0
                    == "p"@)))
        },
{
    if im_compatible(f) {
        if f.authors.len() == 0 {
            if names_tag(f, "room"@) {
                let i = choose|i: int| 0 <= i < f.tags.len() && (#[trigger] f.tags[i]).0 == "room"@;
                assert(f.tags[i].0 == "room"@);
            } else {
                let i = choose|i: int| 0 <= i < f.tags.len() && (#[trigger] f.tags[i]).0 == "p"@;
                assert(f.tags[i].0 == "p"@);
            }
        }
    }
    if (exists|i: int|
        0 <= i < f.tags.len() && ((#[trigger] f.tags[i]).0 == "room"@ || f.tags[i].0 == "p"@)) {
        let i = choose|i: int|
            0 <= i < f.tags.len() && ((#[trigger] f.tags[i]).0 == "room"@ || f.tags[i].0 == "p"@);
        if f.tags[i].0 == "room"@ {
            assert(names_tag(f, "room"@));
        } else {
            assert(names_tag(f, "p"@));
        }
    }
}

fn contains_u64(v: &Vec<u64>, x: u64) -> (r: bool)
    ensures
        r == v@.contains(x),
{
    for i in 0..v.len()
        invariant
            forall|j: int| 0 <= j < i ==> v@[j] != x,
    {
        if v[i] == x {
            assert(v@[i as int] == x);
            return true;
        }
    }
    false
}

fn tag_hit(tag: &Tag, name: &str, values: &Vec<String>) -> (r: bool)
    ensures
        r == tag_hits(tag@, name@, texts_view(values@)),
{
    if tag.items.len() < 2 {
        return false;
    }
    match tag.text_at(0) {
        Some(first) => {
            if !str_eq(first.as_str(), name) {
                return false;
            }
        },
        None => {
            return false;
        },
    }
    match tag.text_at(1) {
        Some(v) => contains_text(values, v.as_str()),
        None => false,
    }
}

fn any_tag_hits(tags: &Vec<Tag>, name: &str, values: &Vec<String>) -> (r: bool)
    ensures
        r == tags_hit(tags_view(tags@), name@, texts_view(values@)),
{
    let ghost tv = tags_view(tags@);
    for j in 0..tags.len()
        invariant
            tv == tags_view(tags@),
            forall|k: int| 0 <= k < j ==> !tag_hits(#[trigger] tv[k], name@, texts_view(values@)),
    {
        if tag_hit(&tags[j], name, values) {
            assert(tag_hits(tv[j as int], name@, texts_view(values@)));
            return true;
        }
    }
    false
}

impl Filter {
    /// IM compatibility: the filter limits the kinds, names no tag but `e`,
    /// `p` and `room`, and targets authors, a room or a recipient.
    pub fn is_im_compatible(&self) -> (r: bool)
        ensures
            r == im_compatible(self@),
    {
        proof {
            reveal_strlit("e");
            reveal_strlit("p");
            reveal_strlit("room");
        }
        if self.kinds.len() == 0 {
            return false;
        }
        let ghost tv = tag_filters_view(self.tags.model());
        let mut has_room = false;
        let mut has_p = false;
        let ntags = self.tags.len();
        for i in 0..ntags
            invariant
                ntags == self.tags.model().len(),
                tv == tag_filters_view(self.tags.model()),
                forall|j: int| 0 <= j < i ==> im_tag_name(#[trigger] tv[j].0),
                has_room == (exists|j: int| 0 <= j < i && (#[trigger] tv[j]).0 == "room"@),
                has_p == (exists|j: int| 0 <= j < i && (#[trigger] tv[j]).0 == "p"@),
        {
            let key = self.tags.key_at(i).as_str();
            assert(tv[i as int].0 == key@);
            let is_e = str_eq(key, "e");
            let is_p = str_eq(key, "p");
            let is_room = str_eq(key, "room");
            if !(is_e || is_p || is_room) {
                assert(!im_tag_name(tv[i as int].0));
                assert(!im_tag_name(self@.tags[i as int].0));
                return false;
            }
            if is_room {
                assert(tv[i as int].0 == "room"@);
                has_room = true;
            }
            if is_p {
                assert(tv[i as int].0 == "p"@);
                has_p = true;
            }
        }
        if self.authors.len() == 0 && !has_room && !has_p {
            assert(!names_tag(self@, "room"@));
            assert(!names_tag(self@, "p"@));
            return false;
        }
        assert(forall|j: int| 0 <= j < self@.tags.len() ==> im_tag_name(#[trigger] self@.tags[j].0));
        true
    }

    /// Whether `event` satisfies the filter.
    pub fn matches(&self, event: &Event) -> (r: bool)
        ensures
            r == filter_matches(self@, event@),
    {
        let kind = match event.kind {
            Some(k) => k,
            None => {
                return false;
            },
        };
        if self.kinds.len() > 0 && !contains_u64(&self.kinds, kind) {
            return false;
        }
        if self.authors.len() > 0 {
            let pubkey = match &event.pubkey {
                Some(p) => p,
                None => {
                    return false;
                },
            };
            if !contains_text(&self.authors, pubkey.as_str()) {
                return false;
            }
        }
        if let Some(ts) = event.created_at {
            if let Some(since) = self.since {
                if ts < since {
                    return false;
                }
            }
            if let Some(until) = self.until {
                if ts > until {
                    return false;
                }
            }
        }
        if self.ids.len() > 0 {
            let id = match &event.id {
                Some(i) => i,
                None => {
                    return false;
                },
            };
            if !contains_text(&self.ids, id.as_str()) {
                return false;
            }
        }
        if let Some(tags) = &event.tags {
            let ghost fv = tag_filters_view(self.tags.model());
            let ghost ev = tags_view(tags@);
            let ntags = self.tags.len();
            for i in 0..ntags
                invariant
                    ntags == self.tags.model().len(),
                    fv == tag_filters_view(self.tags.model()),
                    ev == tags_view(tags@),
                    event@.tags == Some(ev),
                    forall|k: int|
                        0 <= k < i ==> tags_hit(ev, lowercase(#[trigger] fv[k].0), fv[k].1),
            {
                let lower = to_lowercase(self.tags.key_at(i).as_str());
                if !any_tag_hits(tags, lower.as_str(), self.tags.value_at(i)) {
                    assert(fv[i as int].1 == texts_view(self.tags.model()[i as int].1@));
                    assert(fv[i as int].0 == self.tags.model()[i as int].0);
                    assert(!tags_hit(ev, lowercase(fv[i as int].0), fv[i as int].1));
                    assert(self@.tags[i as int] == fv[i as int]);
                    assert(!tags_hit(ev, lowercase(self@.tags[i as int].0), self@.tags[i as int].1));
                    return false;
                }
            }
        }
        true
    }

    /// Builds a filter from the parts of a `REQ` array: its length, the
    /// subscription id at position 1 where it is a string, and the filter
    /// object at position 2 where there is one and it parsed.
    pub fn from_req_array(arr_len: usize, sub_id: Option<String>, parsed: Option<Filter>) -> (r:
        Option<Filter>)
        ensures
            (arr_len < 2 || parsed is None) ==> r is None,
            (arr_len >= 2 && parsed is Some) ==> r is Some,
            r matches Some(f) ==> ({
                let p = parsed->0@;
                &&& f@.id == opt_text_view(sub_id)
                &&& f@.authors == p.authors
                &&& f@.kinds == p.kinds
                &&& f@.since == p.since
                &&& f@.until == p.until
                &&& f@.ids == p.ids
                &&& f@.tags == p.tags
            }),
    {
        if arr_len < 2 {
            return None;
        }
        match parsed {
            Some(mut filter) => {
                filter.id = sub_id;
                Some(filter)
            },
            None => None,
        }
    }
}

/// A copy of a list of strings.
pub fn copy_texts(v: &Vec<String>) -> (r: Vec<String>)
    ensures
        r@ == v@,
{
    let mut out: Vec<String> = Vec::new();
    for i in 0..v.len()
        invariant
            out@ == v@.take(i as int),
    {
        out.push(v[i].clone());
        assert(out@ =~= v@.take(i + 1));
    }
    assert(v@.take(v.len() as int) =~= v@);
    out
}

impl Filter {
    /// A copy of the filter.
    pub fn copy(&self) -> (r: Filter)
        ensures
            r@ == self@,
    {
        let ghost src = self.tags.model();
        let mut tags: TextMap<Vec<String>> = TextMap::new();
        assert(tags.model() =~= src.take(0));
        let ntags = self.tags.len();
        for i in 0..ntags
            invariant
                ntags == self.tags.model().len(),
                src == self.tags.model(),
                tags.model().len() == i,
                tag_filters_view(tags.model()) == tag_filters_view(src.take(i as int)),
        {
            let key = self.tags.key_at(i);
            let values = copy_texts(self.tags.value_at(i));
            let ghost prev = tags.model();
            proof {
                if holds_key(prev, key@) {
                    let j = choose|j: int| 0 <= j < prev.len() && #[trigger] prev[j].0 == key@;
                    assert(tag_filters_view(prev)[j].0 == tag_filters_view(src.take(i as int))[j].0);
                    assert(src[j].0 != key@);
                }
            }
            tags.insert(key.clone(), values);
            proof {
                let a = tag_filters_view(tags.model());
                let b = tag_filters_view(src.take(i + 1));
                assert(tags.model() == prev.push((key@, values)));
                assert forall|j: int| 0 <= j < a.len() implies a[j] == b[j] by {
                    if j < i {
                        assert(tag_filters_view(prev)[j] == tag_filters_view(src.take(i as int))[j]);
                    }
                }
                assert(a =~= b);
            }
        }
        assert(src.take(src.len() as int) =~= src);
        Filter {
            id: match &self.id {
                Some(s) => Some(s.clone()),
                None => None,
            },
            authors: copy_texts(&self.authors),
            kinds: self.kinds.clone(),
            since: self.since,
            until: self.until,
            ids: copy_texts(&self.ids),
            tags,
        }
    }
}

impl Default for Filter {
    fn default() -> (f: Filter)
        ensures
            f@.id is None,
            f@.authors.len() == 0,
            f@.kinds.len() == 0,
            f@.since is None,
            f@.until is None,
            f@.ids.len() == 0,
            f@.tags.len() == 0,
    {
        Filter {
            id: None,
            authors: Vec::new(),
            kinds: Vec::new(),
            since: None,
            until: None,
            ids: Vec::new(),
            tags: TextMap::new(),
        }
    }
}

} // verus!
