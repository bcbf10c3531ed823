//! Event storage for the relay: a main tree of events keyed by event id and
//! a room index keyed by `room:created_at` whose values are the ids of the
//! events of that room and time.

use vstd::prelude::*;
use vstd::string::StrSliceExecFns;
use vstd::string::StringExecFns;
use vstd::utf8::encode_utf8;
use crate::error::AppError;
use crate::event::{Event, EventView, event_tag_u64, room_of};
use crate::filter::{Filter, FilterView, filter_matches};
use crate::store::{KeyOrder, OrderedTree, compare_keys, key_lt, lookup, has_key};
use crate::text::{decimal, push_decimal, str_eq};

verus! {

/// The main-tree key of an event id: its UTF-8 bytes.
pub open spec fn id_key(id: Seq<char>) -> Seq<u8> {
    encode_utf8(id)
}

/// The room-index key of an event of room `room` created at `ts`.
pub open spec fn room_key(room: Seq<char>, ts: u64) -> Seq<u8> {
    encode_utf8(room + ":"@ + decimal(ts as nat))
}

/// The start of every room-index key of room `room`.
pub open spec fn room_prefix(room: Seq<char>) -> Seq<u8> {
    encode_utf8(room + ":"@)
}

/// The key prefixes of a list of rooms.
pub open spec fn room_prefixes(rooms: Seq<Seq<char>>) -> Seq<Seq<u8>> {
    rooms.map_values(|r: Seq<char>| room_prefix(r))
}

/// The key starts with one of the prefixes.
pub open spec fn in_rooms(k: Seq<u8>, prefixes: Seq<Seq<u8>>) -> bool {
    exists|j: int| 0 <= j < prefixes.len() && (#[trigger] prefixes[j]).is_prefix_of(k)
}

/// UTF-8 encoding distributes over concatenation.
pub proof fn lemma_encode_utf8_concat(a: Seq<char>, b: Seq<char>)
    ensures
        encode_utf8(a + b) == encode_utf8(a) + encode_utf8(b),
    decreases a.len(),
{
    if a.len() == 0 {
        assert(a + b =~= b);
        assert(encode_utf8(a) =~= Seq::<u8>::empty());
        assert(encode_utf8(a) + encode_utf8(b) =~= encode_utf8(b));
    } else {
        lemma_encode_utf8_concat(a.drop_first(), b);
        assert((a + b).drop_first() =~= a.drop_first() + b);
        assert((a + b)[0] == a[0]);
        assert(encode_utf8(a + b) =~= encode_utf8(a) + encode_utf8(b));
    }
}

/// A room's prefix starts each of its index keys.
pub proof fn lemma_room_prefix_of_key(room: Seq<char>, ts: u64)
    ensures
        room_prefix(room).is_prefix_of(room_key(room, ts)),
{
    lemma_encode_utf8_concat(room + ":"@, decimal(ts as nat));
    let p = room_prefix(room);
    let k = room_key(room, ts);
    assert(k == p + encode_utf8(decimal(ts as nat)));
    assert(p =~= k.subrange(0, p.len() as int));
}

/// The views of a sequence of events.
pub open spec fn events_view(v: Seq<Event>) -> Seq<EventView> {
    v.map_values(|e: Event| e@)
}

/// `i` is the position of the first tag entry of the filter named `name`.
pub open spec fn first_entry_at(tags: Seq<(Seq<char>, Seq<Seq<char>>)>, name: Seq<char>, i: int) -> bool {
    &&& 0 <= i < tags.len()
    &&& tags[i].0 == name
    &&& forall|j: int| 0 <= j < i ==> (#[trigger] tags[j]).0 != name
}

/// The rooms a filter asks for: the values of its `room` entry, or none.
pub open spec fn filter_rooms(f: FilterView) -> Seq<Seq<char>> {
    if exists|i: int| first_entry_at(f.tags, "room"@, i) {
        f.tags[choose|i: int| first_entry_at(f.tags, "room"@, i)].1
    } else {
        Seq::empty()
    }
}

/// The events that a list of ids names, in its order, where the main tree
/// holds them and they satisfy the filter.
pub open spec fn ids_scan(ids: Seq<Seq<char>>, main: Seq<(Seq<u8>, Event)>, f: FilterView) -> Seq<
    EventView,
>
    decreases ids.len(),
{
    if ids.len() == 0 {
        Seq::empty()
    } else {
        let rest = ids_scan(ids.drop_last(), main, f);
        match lookup(main, id_key(ids.last())) {
            Some(e) => if filter_matches(f, e@) {
                rest.push(e@)
            } else {
                rest
            },
            None => rest,
        }
    }
}

/// The events a room scan yields: for each room-index entry, in key order,
/// whose key starts with one of the prefixes, the events its ids name,
/// where the main tree holds them and they satisfy the filter.
pub open spec fn room_scan(
    index: Seq<(Seq<u8>, Vec<String>)>,
    prefixes: Seq<Seq<u8>>,
    main: Seq<(Seq<u8>, Event)>,
    f: FilterView,
) -> Seq<EventView>
    decreases index.len(),
{
    if index.len() == 0 {
        Seq::empty()
    } else {
        let rest = room_scan(index.drop_last(), prefixes, main, f);
        if in_rooms(index.last().0, prefixes) {
            rest + ids_scan(crate::text::texts_view(index.last().1@), main, f)
        } else {
            rest
        }
    }
}

/// What a query with filter `f` yields: a scan of the rooms the filter
/// names, or, where it names none, a full scan.
pub open spec fn query_result(
    index: Seq<(Seq<u8>, Vec<String>)>,
    main: Seq<(Seq<u8>, Event)>,
    f: FilterView,
) -> Seq<EventView> {
    if filter_rooms(f).len() > 0 {
        room_scan(index, room_prefixes(filter_rooms(f)), main, f)
    } else {
        full_scan(main, f)
    }
}

/// A room message is in the room index: its room and time key holds its id.
pub open spec fn indexed(index: Seq<(Seq<u8>, Vec<String>)>, e: EventView) -> bool {
    match room_of(e) {
        Some(r) => {
            &&& e.created_at is Some
            &&& e.id is Some
            &&& lookup(index, room_key(r, e.created_at->0)) matches Some(ids)
                && crate::text::texts_view(ids@).contains(e.id->0)
        },
        None => true,
    }
}

/// The ids under a room-index key after `id` is recorded there: those
/// already there, and `id` after them where it was not among them.
pub open spec fn with_id(old: Option<Vec<String>>, id: Seq<char>) -> Seq<Seq<char>> {
    let ids = match old {
        Some(v) => crate::text::texts_view(v@),
        None => Seq::empty(),
    };
    if ids.contains(id) {
        ids
    } else {
        ids.push(id)
    }
}

/// The time of an event that a full scan holds against the filter's window:
/// its `created_at`, or 0 (the time of its `EventTimeKey`).
pub open spec fn scan_time(e: EventView) -> u64 {
    match e.created_at {
        Some(t) => t,
        None => 0,
    }
}

/// `t` lies within the filter's `since`/`until` window.
pub open spec fn in_window(f: FilterView, t: u64) -> bool {
    &&& (match f.since {
        Some(s) => t >= s,
        None => true,
    })
    &&& (match f.until {
        Some(u) => t <= u,
        None => true,
    })
}

/// The events a full scan yields: every stored event, in key order, whose
/// scan time lies within the filter's window and that satisfies the filter.
pub open spec fn full_scan(main: Seq<(Seq<u8>, Event)>, f: FilterView) -> Seq<EventView>
    decreases main.len(),
{
    if main.len() == 0 {
        Seq::empty()
    } else {
        let rest = full_scan(main.drop_last(), f);
        let e = main.last().1@;
        if in_window(f, scan_time(e)) && filter_matches(f, e) {
            rest.push(e)
        } else {
            rest
        }
    }
}

/// `a + b`, or the largest `u64` where the sum exceeds it.
pub open spec fn sat_add(a: u64, b: u64) -> u64 {
    if a + b <= u64::MAX {
        (a + b) as u64
    } else {
        u64::MAX
    }
}

/// The time an event expires at. Without a retention policy, the integer
/// value of its `expire` tag, if any. With a policy `(min_ttl, ttl)`, the
/// `expire` tag, but never before `min_ttl` after the event's time, or else
/// `ttl` after the event's time (its `created_at`, or 0).
pub open spec fn expiry(e: EventView, policy: Option<(u64, u64)>) -> Option<u64> {
    match policy {
        None => event_tag_u64(e, "expire"@),
        Some((min_ttl, ttl)) => {
            let floor = sat_add(scan_time(e), min_ttl);
            match event_tag_u64(e, "expire"@) {
                Some(x) => Some(if x >= floor { x } else { floor }),
                None => Some(sat_add(scan_time(e), ttl)),
            }
        },
    }
}

/// The event has expired by `now`.
pub open spec fn expired(e: EventView, now: u64, policy: Option<(u64, u64)>) -> bool {
    match expiry(e, policy) {
        Some(x) => x < now,
        None => false,
    }
}

/// The entries that survive a sweep of expired events.
pub open spec fn unexpired(s: Seq<(Seq<u8>, Event)>, now: u64, policy: Option<(u64, u64)>) -> Seq<
    (Seq<u8>, Event),
>
    decreases s.len(),
{
    if s.len() == 0 {
        s
    } else {
        let r = unexpired(s.drop_last(), now, policy);
        if expired(s.last().1@, now, policy) {
            r
        } else {
            r.push(s.last())
        }
    }
}

/// Where a stored event stands in time: its creation time, and its id to
/// break ties between events of the same time.
#[derive(Clone, Debug)]
pub struct EventTimeKey {
    pub created_at: u64,
    pub id: String,
}

/// `a` comes before `b`: by time, then by the bytes of the id.
pub open spec fn time_key_lt(a: EventTimeKey, b: EventTimeKey) -> bool {
    a.created_at < b.created_at || (a.created_at == b.created_at && key_lt(
        encode_utf8(a.id@),
        encode_utf8(b.id@),
    ))
}

/// The order of time keys is a strict order: no key comes before itself,
/// and it is transitive.
pub proof fn law_time_key_strict_order(a: EventTimeKey, b: EventTimeKey, c: EventTimeKey)
    ensures
        !time_key_lt(a, a),
        time_key_lt(a, b) && time_key_lt(b, c) ==> time_key_lt(a, c),
{
    crate::store::lemma_key_lt_irreflexive(encode_utf8(a.id@));
    if time_key_lt(a, b) && time_key_lt(b, c) && a.created_at == b.created_at && b.created_at
        == c.created_at {
        crate::store::lemma_key_lt_transitive(encode_utf8(a.id@), encode_utf8(b.id@), encode_utf8(c.id@));
    }
}

impl EventTimeKey {
    /// The creation time.
    pub fn time(&self) -> (t: u64)
        ensures
            t == self.created_at,
    {
        self.created_at
    }

    /// The key of this event moved to `time`: the bytes of `time:id`.
    pub fn change_time(&self, key: &[u8], time: u64) -> (k: Vec<u8>)
        ensures
            k@ == encode_utf8(decimal(time as nat) + ":"@ + self.id@),
    {
        let mut s = crate::text::decimal_string(time);
        s.append(":");
        s.append(self.id.as_str());
        s.as_str().as_bytes_vec()
    }

    /// Orders two keys by time, then by the bytes of the id.
    pub fn cmp(&self, other: &EventTimeKey) -> (r: KeyOrder)
        ensures
            r == KeyOrder::Less <==> time_key_lt(*self, *other),
            r == KeyOrder::Equal <==> (self.created_at == other.created_at && self.id@ == other.id@),
            r == KeyOrder::Greater <==> time_key_lt(*other, *self),
    {
        proof {
            vstd::utf8::encode_utf8_decode_utf8(self.id@);
            vstd::utf8::encode_utf8_decode_utf8(other.id@);
            crate::store::lemma_key_lt_irreflexive(encode_utf8(self.id@));
        }
        if self.created_at < other.created_at {
            KeyOrder::Less
        } else if other.created_at < self.created_at {
            KeyOrder::Greater
        } else {
            compare_keys(self.id.as_str().as_bytes(), other.id.as_str().as_bytes())
        }
    }

    /// Whether two keys have the same time and id.
    pub fn eq(&self, other: &EventTimeKey) -> (r: bool)
        ensures
            r == (self.created_at == other.created_at && self.id@ == other.id@),
    {
        self.created_at == other.created_at && str_eq(self.id.as_str(), other.id.as_str())
    }
}

/// `new` is `old` after event `e` was saved: the main tree holds `e` under
/// its id and every other key as before; a room message's id is recorded
/// under its room and time in the room index, which is otherwise as before.
pub open spec fn event_saved(old: ImStorage, new: ImStorage, e: EventView) -> bool {
    let id = e.id->0;
    &&& new.path() == old.path()
    &&& lookup(new.events(), id_key(id)) matches Some(x) && x@ == e
    &&& forall|k: Seq<u8>| k != id_key(id) ==> #[trigger] lookup(new.events(), k) == lookup(old.events(), k)
    &&& match room_of(e) {
        Some(room) => {
            let rk = room_key(room, e.created_at->0);
            &&& lookup(new.room_index(), rk) matches Some(v) && crate::text::texts_view(v@) == with_id(
                lookup(old.room_index(), rk),
                id,
            )
            &&& forall|k: Seq<u8>|
                k != rk ==> #[trigger] lookup(new.room_index(), k) == lookup(old.room_index(), k)
        },
        None => new.room_index() == old.room_index(),
    }
}

/// Event storage for the relay.
pub struct ImStorage {
    db_path: String,
    main_tree: OrderedTree<Event>,
    room_index_tree: OrderedTree<Vec<String>>,
}

/// The views of byte vectors.
pub open spec fn bytes_view(v: Seq<Vec<u8>>) -> Seq<Seq<u8>> {
    v.map_values(|b: Vec<u8>| b@)
}

/// Whether the key starts with the prefix.
fn starts_with(key: &[u8], prefix: &[u8]) -> (r: bool)
    ensures
        r == prefix@.is_prefix_of(key@),
{
    if prefix.len() > key.len() {
        return false;
    }
    for i in 0..prefix.len()
        invariant
            prefix@.len() <= key@.len(),
            forall|j: int| 0 <= j < i ==> key@[j] == prefix@[j],
    {
        if key[i] != prefix[i] {
            assert(prefix@.subrange(0, prefix@.len() as int)[i as int] != key@.subrange(
                0,
                prefix@.len() as int,
            )[i as int]);
            assert(!(prefix@ =~= key@.subrange(0, prefix@.len() as int)));
            return false;
        }
    }
    assert(prefix@ =~= key@.subrange(0, prefix@.len() as int));
    true
}

/// Whether the key starts with one of the prefixes.
fn key_in_rooms(key: &[u8], prefixes: &Vec<Vec<u8>>) -> (r: bool)
    ensures
        r == in_rooms(key@, bytes_view(prefixes@)),
{
    let ghost pv = bytes_view(prefixes@);
    for j in 0..prefixes.len()
        invariant
            pv == bytes_view(prefixes@),
            forall|jj: int| 0 <= jj < j ==> !(#[trigger] pv[jj]).is_prefix_of(key@),
    {
        if starts_with(key, prefixes[j].as_slice()) {
            assert(pv[j as int].is_prefix_of(key@));
            return true;
        }
    }
    false
}

impl ImStorage {
    /// The stored events in key order, keyed by the bytes of their ids.
    pub closed spec fn events(&self) -> Seq<(Seq<u8>, Event)> {
        self.main_tree.model()
    }

    /// The room index in key order: `room:created_at` keys and the ids of
    /// the events of that room and time.
    pub closed spec fn room_index(&self) -> Seq<(Seq<u8>, Vec<String>)> {
        self.room_index_tree.model()
    }

    /// The location the storage was opened for.
    pub closed spec fn path(&self) -> Seq<char> {
        self.db_path@
    }

    /// Both trees are in key order, each stored event is keyed by its own
    /// id, and each stored room message is in the room index.
    pub closed spec fn wf(&self) -> bool {
        &&& self.main_tree.wf()
        &&& self.room_index_tree.wf()
        &&& forall|i: int|
            0 <= i < self.main_tree.model().len() ==> {
                let e = #[trigger] self.main_tree.model()[i];
                &&& e.1@.id is Some
                &&& e.0 == id_key(e.1@.id->0)
                &&& indexed(self.room_index_tree.model(), e.1@)
            }
    }

    #[verifier::type_invariant]
    spec fn inv(&self) -> bool {
        self.wf()
    }

    /// Opens an empty storage for `db_path`. The events are kept in memory,
    /// in the trees above; nothing is read from or written to the path.
    pub fn new(db_path: &str) -> (r: Result<Self, AppError>)
        ensures
            r matches Ok(s) && s.wf() && s.events().len() == 0 && s.room_index().len() == 0
                && s.path() == db_path@,
    {
        Ok(ImStorage {
            db_path: db_path.to_owned(),
            main_tree: OrderedTree::new(),
            room_index_tree: OrderedTree::new(),
        })
    }

    /// Stores an event under its id and, for a room message, records its id
    /// in the room index under `room:created_at`, beside the ids of other
    /// events of that room and time.
    ///
    /// Fails, storing nothing, when the event has no id, or when it is a room
    /// message without `created_at`.
    pub fn save_event(&mut self, event: &Event) -> (r: Result<(), AppError>)
        ensures
            final(self).path() == old(self).path(),
            event@.id is None ==> (r matches Err(AppError::InvalidEvent(m)) && m@ == "missing id"@),
            (event@.id is Some && room_of(event@) is Some && event@.created_at is None) ==> (
            r matches Err(AppError::InvalidEvent(m)) && m@ == "missing created_at"@),
            r is Err ==> final(self).events() == old(self).events() && final(self).room_index()
                == old(self).room_index(),
            (event@.id is Some && (room_of(event@) is None || event@.created_at is Some))
                ==> r is Ok,
            r is Ok ==> event_saved(*old(self), *final(self), event@),
    {
        proof {
            use_type_invariant(&*self);
        }
        let id = match &event.id {
            Some(i) => i.clone(),
            None => {
                return Err(AppError::InvalidEvent(String::from_str("missing id")));
            },
        };
        let room = crate::event::extract_room_id(event);
        let index_entry = match room {
            Some(room_id) => {
                let created_at = match event.created_at {
                    Some(t) => t,
                    None => {
                        return Err(AppError::InvalidEvent(String::from_str("missing created_at")));
                    },
                };
                let mut index_key = room_id;
                index_key.append(":");
                push_decimal(&mut index_key, created_at);
                Some(index_key)
            },
            None => None,
        };
        let mut main = OrderedTree::new();
        std::mem::swap(&mut main, &mut self.main_tree);
        let mut index = OrderedTree::new();
        std::mem::swap(&mut index, &mut self.room_index_tree);
        let ghost old_main = main.model();
        let ghost old_index = index.model();
        let ghost rk = index_entry.unwrap()@;
        match index_entry {
            Some(index_key) => {
                let key_bytes = index_key.as_str().as_bytes_vec();
                let mut ids = match index.get(key_bytes.as_slice()) {
                    Some(v) => crate::filter::copy_texts(v),
                    None => Vec::new(),
                };
                if !crate::text::contains_text(&ids, id.as_str()) {
                    ids.push(id.clone());
                }
                let ghost ids_view = crate::text::texts_view(ids@);
                proof {
                    assert(ids_view =~= with_id(lookup(old_index, key_bytes@), id@));
                }
                let ghost kb = key_bytes@;
                index.put(key_bytes, ids);
                proof {
                    assert(room_of(event@) == Some(room.unwrap()@));
                    assert(kb == room_key(room.unwrap()@, event@.created_at->0));
                    assert(index_recorded(old_index, index.model(), event@, id@));
                }
            },
            None => {
                assert(index_recorded(old_index, index.model(), event@, id@));
            },
        }
        let ghost new_index = index.model();
        let key = id.as_str().as_bytes_vec();
        main.put(key, event.copy());
        proof {
            let m = main.model();
            assert forall|i: int| 0 <= i < m.len() implies {
                let e = #[trigger] m[i];
                &&& e.1@.id is Some
                &&& e.0 == id_key(e.1@.id->0)
                &&& indexed(new_index, e.1@)
            } by {
                crate::store::lemma_lookup_at(m, i);
                if m[i].0 != id_key(id@) {
                    let k = m[i].0;
                    assert(lookup(old_main, k) == Some(m[i].1));
                    assert(has_key(old_main, k));
                    let j = choose|j: int| 0 <= j < old_main.len() && #[trigger] old_main[j].0 == k;
                    crate::store::lemma_lookup_at(old_main, j);
                    assert(old_main[j].1@.id is Some);
                    assert(indexed(old_index, old_main[j].1@));
                    lemma_indexed_kept(old_index, new_index, old_main[j].1@, event@, id@);
                } else {
                    assert(m[i].1@ == event@);
                    if let Some(r) = room_of(event@) {
                        let rk2 = room_key(r, event@.created_at->0);
                        let v = lookup(new_index, rk2)->0;
                        let w = with_id(lookup(old_index, rk2), id@);
                        if !w.contains(id@) {
                            assert(w[w.len() - 1] == id@);
                        }
                    }
                }
            }
        }
        self.room_index_tree = index;
        self.main_tree = main;
        Ok(())
    }

    /// The stored events that satisfy `filter`.
    ///
    /// Where the filter's `room` entry names rooms, every room-index entry,
    /// in key order, whose key starts with `room:` for one of them, gives
    /// the stored events its ids name that satisfy the filter; otherwise
    /// every stored event is scanned in key order and kept where its time
    /// lies within the filter's window and it satisfies the filter.
    pub fn query_by_filter(&self, filter: &Filter) -> (r: Result<Vec<Event>, AppError>)
        ensures
            r is Ok,
            r matches Ok(v) ==> events_view(v@) == query_result(
                self.room_index(),
                self.events(),
                filter@,
            ),
    {
        proof {
            use_type_invariant(self);
        }
        let ghost fv = filter@;
        let mut room_pos: Option<usize> = None;
        let ntags = filter.tags.len();
        for i in 0..ntags
            invariant
                ntags == filter.tags.model().len(),
                fv == filter@,
                room_pos is None ==> forall|j: int| 0 <= j < i ==> (#[trigger] fv.tags[j]).0 != "room"@,
                room_pos matches Some(p) ==> first_entry_at(fv.tags, "room"@, p as int),
        {
            if room_pos.is_none() && str_eq(filter.tags.key_at(i).as_str(), "room") {
                assert(fv.tags[i as int].0 == "room"@);
                room_pos = Some(i);
            }
        }
        proof {
            match room_pos {
                Some(p) => {
                    let c = choose|i: int| first_entry_at(fv.tags, "room"@, i);
                    if c < p {
                        assert(fv.tags[c].0 != "room"@);
                    } else if p < c {
                        assert(fv.tags[p as int].0 != "room"@);
                    }
                },
                None => {
                    if exists|i: int| first_entry_at(fv.tags, "room"@, i) {
                        let c = choose|i: int| first_entry_at(fv.tags, "room"@, i);
                        assert(fv.tags[c].0 != "room"@);
                    }
                },
            }
        }
        if let Some(p) = room_pos {
            let rooms = filter.tags.value_at(p);
            let ghost rv = crate::text::texts_view(rooms@);
            assert(fv.tags[p as int].1 == rv);
            if rooms.len() > 0 {
                let mut prefixes: Vec<Vec<u8>> = Vec::new();
                for i in 0..rooms.len()
                    invariant
                        rv == crate::text::texts_view(rooms@),
                        bytes_view(prefixes@) == room_prefixes(rv.take(i as int)),
                {
                    let mut prefix = rooms[i].clone();
                    prefix.append(":");
                    let bytes = prefix.as_str().as_bytes_vec();
                    let ghost before = prefixes@;
                    prefixes.push(bytes);
                    assert(rv.take(i + 1) =~= rv.take(i as int).push(rv[i as int]));
                    assert(bytes_view(prefixes@) =~= bytes_view(before).push(bytes@));
                    assert(room_prefixes(rv.take(i + 1)) =~= room_prefixes(rv.take(i as int)).push(
                        room_prefix(rv[i as int]),
                    ));
                }
                assert(rv.take(rooms.len() as int) =~= rv);
                return Ok(self.scan_room(&prefixes, filter));
            }
        }
        Ok(self.scan_all(filter))
    }

    fn scan_room(&self, prefixes: &Vec<Vec<u8>>, filter: &Filter) -> (v: Vec<Event>)
        requires
            self.wf(),
        ensures
            events_view(v@) == room_scan(
                self.room_index(),
                bytes_view(prefixes@),
                self.events(),
                filter@,
            ),
    {
        let ghost index = self.room_index();
        let ghost main = self.events();
        let ghost pv = bytes_view(prefixes@);
        let mut results: Vec<Event> = Vec::new();
        let n = self.room_index_tree.len();
        for i in 0..n
            invariant
                self.wf(),
                index == self.room_index(),
                main == self.events(),
                pv == bytes_view(prefixes@),
                n == index.len(),
                events_view(results@) == room_scan(index.take(i as int), pv, main, filter@),
        {
            assert(index.take(i + 1).drop_last() =~= index.take(i as int));
            assert(index.take(i + 1).last() == index[i as int]);
            let key = self.room_index_tree.key_at(i);
            if key_in_rooms(key, prefixes) {
                let ids = self.room_index_tree.value_at(i);
                let ghost iv = crate::text::texts_view(ids@);
                let ghost start = events_view(results@);
                for j in 0..ids.len()
                    invariant
                        self.wf(),
                        main == self.events(),
                        iv == crate::text::texts_view(ids@),
                        events_view(results@) == start + ids_scan(iv.take(j as int), main, filter@),
                {
                    let ghost before = results@;
                    assert(iv.take(j + 1).drop_last() =~= iv.take(j as int));
                    assert(iv.take(j + 1).last() == ids@[j as int]@);
                    match self.main_tree.get(ids[j].as_str().as_bytes()) {
                        Some(e) => {
                            if filter.matches(e) {
                                results.push(e.copy());
                                assert(events_view(results@) =~= events_view(before).push(e@));
                                assert(start + ids_scan(iv.take(j as int), main, filter@).push(e@)
                                    =~= start + ids_scan(iv.take(j as int), main, filter@).push(e@));
                            }
                        },
                        None => {},
                    }
                }
                assert(iv.take(ids@.len() as int) =~= iv);
            }
        }
        assert(index.take(n as int) =~= index);
        results
    }

    fn scan_all(&self, filter: &Filter) -> (v: Vec<Event>)
        requires
            self.wf(),
        ensures
            events_view(v@) == full_scan(self.events(), filter@),
    {
        let ghost main = self.events();
        let mut results: Vec<Event> = Vec::new();
        let n = self.main_tree.len();
        for i in 0..n
            invariant
                self.wf(),
                main == self.events(),
                n == main.len(),
                events_view(results@) == full_scan(main.take(i as int), filter@),
        {
            let ghost before = results@;
            assert(main.take(i + 1).drop_last() =~= main.take(i as int));
            assert(main.take(i + 1).last() == main[i as int]);
            let e = self.main_tree.value_at(i);
            let key = EventTimeKey {
                created_at: match e.created_at {
                    Some(t) => t,
                    None => 0,
                },
                id: match &e.id {
                    Some(id) => id.clone(),
                    None => String::new(),
                },
            };
            let time = key.time();
            let within = match filter.since {
                Some(s) => time >= s,
                None => true,
            } && match filter.until {
                Some(u) => time <= u,
                None => true,
            };
            if within && filter.matches(e) {
                results.push(e.copy());
                assert(events_view(results@) =~= events_view(before).push(e@));
            }
        }
        assert(main.take(n as int) =~= main);
        results
    }

    /// Removes every stored event whose `expire` tag holds an integer below
    /// `now`, and returns how many were removed. The room index is left as
    /// it is.
    pub fn gc_expired(&mut self, now: u64) -> (r: Result<usize, AppError>)
        ensures
            final(self).path() == old(self).path(),
            final(self).events() == unexpired(old(self).events(), now, None),
            final(self).room_index() == old(self).room_index(),
            r matches Ok(n) && n + final(self).events().len() == old(self).events().len(),
    {
        Ok(self.sweep(now, None))
    }

    /// The number of stored events.
    pub fn len(&self) -> (n: usize)
        ensures
            n == self.events().len(),
    {
        self.main_tree.len()
    }

    /// The stored event at position `i` in key order.
    pub fn event_at(&self, i: usize) -> (e: &Event)
        requires
            i < self.events().len(),
        ensures
            *e == self.events()[i as int].1,
    {
        self.main_tree.value_at(i)
    }

    /// Removes every stored event whose expiry under the retention policy
    /// (see `expiry`) lies below `now`, and returns how many were removed.
    pub fn sweep(&mut self, now: u64, policy: Option<(u64, u64)>) -> (n: usize)
        ensures
            final(self).path() == old(self).path(),
            final(self).events() == unexpired(old(self).events(), now, policy),
            final(self).room_index() == old(self).room_index(),
            n + final(self).events().len() == old(self).events().len(),
    {
        proof {
            use_type_invariant(&*self);
        }
        let ghost old_m = self.main_tree.model();
        let ghost index = self.room_index_tree.model();
        let mut main = OrderedTree::new();
        std::mem::swap(&mut main, &mut self.main_tree);
        let n0 = main.len();
        let mut i: usize = 0;
        let mut j: usize = 0;
        let mut removed: usize = 0;
        while i < main.len()
            invariant
                main.wf(),
                self.room_index_tree == old(self).room_index_tree,
                self.db_path == old(self).db_path,
                index == self.room_index_tree.model(),
                j <= old_m.len(),
                old_m.len() == n0,
                main.model() == unexpired(old_m.take(j as int), now, policy)
                    + old_m.skip(j as int),
                i == unexpired(old_m.take(j as int), now, policy).len(),
                removed == j - i,
                forall|k: int|
                    0 <= k < old_m.len() ==> {
                        let e = #[trigger] old_m[k];
                        &&& e.1@.id is Some
                        &&& e.0 == id_key(e.1@.id->0)
                        &&& indexed(index, e.1@)
                    },
            decreases old_m.len() - j,
        {
            let ghost m = main.model();
            let ghost kept = unexpired(old_m.take(j as int), now, policy);
            assert(j < old_m.len());
            assert(m[i as int] == old_m[j as int]);
            assert(old_m.take(j + 1).drop_last() =~= old_m.take(j as int));
            assert(old_m.take(j + 1).last() == old_m[j as int]);
            let e = main.value_at(i);
            let stale = match policy {
                None => match e.tag_u64("expire") {
                    Some(x) => x < now,
                    None => false,
                },
                Some((min_ttl, ttl)) => {
                    let time = match e.created_at {
                        Some(t) => t,
                        None => 0,
                    };
                    let floor = time.saturating_add(min_ttl);
                    match e.tag_u64("expire") {
                        Some(x) => (if x >= floor { x } else { floor }) < now,
                        None => time.saturating_add(ttl) < now,
                    }
                },
            };
            if stale {
                main.remove_at(i);
                assert(main.model() =~= kept + old_m.skip(j + 1));
                removed = removed + 1;
            } else {
                assert(kept.push(old_m[j as int]) + old_m.skip(j + 1) =~= m);
                i = i + 1;
            }
            j = j + 1;
        }
        proof {
            let m = main.model();
            let kept = unexpired(old_m.take(j as int), now, policy);
            assert(m.len() == kept.len() + old_m.skip(j as int).len());
            assert(j == old_m.len());
            assert(old_m.take(j as int) =~= old_m);
            assert(m =~= kept);
            lemma_unexpired_keeps_ids(old_m, index, now, policy);
        }
        self.main_tree = main;
        removed
    }
}

/// `new_index` is `old_index` with `id` recorded under the room-index key
/// of `new_event`, where it is a room message.
pub open spec fn index_recorded(
    old_index: Seq<(Seq<u8>, Vec<String>)>,
    new_index: Seq<(Seq<u8>, Vec<String>)>,
    new_event: EventView,
    id: Seq<char>,
) -> bool {
    match room_of(new_event) {
        Some(room) => {
            let rk = room_key(room, new_event.created_at->0);
            &&& lookup(new_index, rk) matches Some(v) && crate::text::texts_view(v@) == with_id(
                lookup(old_index, rk),
                id,
            )
            &&& forall|k: Seq<u8>| k != rk ==> #[trigger] lookup(new_index, k) == lookup(old_index, k)
        },
        None => new_index == old_index,
    }
}

/// Recording `id` under the key of `new_event` keeps every other stored
/// room message in the index.
proof fn lemma_indexed_kept(
    old_index: Seq<(Seq<u8>, Vec<String>)>,
    new_index: Seq<(Seq<u8>, Vec<String>)>,
    e: EventView,
    new_event: EventView,
    id: Seq<char>,
)
    requires
        indexed(old_index, e),
        index_recorded(old_index, new_index, new_event, id),
    ensures
        indexed(new_index, e),
{
    if let Some(r) = room_of(e) {
        if let Some(room) = room_of(new_event) {
            let rk = room_key(room, new_event.created_at->0);
            let k = room_key(r, e.created_at->0);
            if k == rk {
                let old_ids = crate::text::texts_view(lookup(old_index, k)->0@);
                assert(old_ids.contains(e.id->0));
                let w = with_id(lookup(old_index, rk), id);
                if !old_ids.contains(id) {
                    let j = choose|j: int| 0 <= j < old_ids.len() && old_ids[j] == e.id->0;
                    assert(w[j] == old_ids[j]);
                }
            }
        }
    }
}

/// Every entry of `unexpired(s, now)` is an entry of `s`.
pub proof fn lemma_unexpired_subset(s: Seq<(Seq<u8>, Event)>, now: u64, policy: Option<(u64, u64)>)
    ensures
        unexpired(s, now, policy).len() <= s.len(),
        forall|i: int|
            0 <= i < unexpired(s, now, policy).len() ==> exists|j: int|
                0 <= j < s.len() && s[j] == #[trigger] unexpired(s, now, policy)[i],
    decreases s.len(),
{
    if s.len() > 0 {
        lemma_unexpired_subset(s.drop_last(), now, policy);
        let r = unexpired(s.drop_last(), now, policy);
        assert forall|i: int| 0 <= i < unexpired(s, now, policy).len() implies exists|j: int|
            0 <= j < s.len() && s[j] == #[trigger] unexpired(s, now, policy)[i] by {
            if i < r.len() {
                let j = choose|j: int| 0 <= j < s.drop_last().len() && s.drop_last()[j] == r[i];
                assert(s[j] == unexpired(s, now, policy)[i]);
            } else {
                assert(s[s.len() - 1] == unexpired(s, now, policy)[i]);
            }
        }
    }
}

proof fn lemma_unexpired_keeps_ids(
    s: Seq<(Seq<u8>, Event)>,
    index: Seq<(Seq<u8>, Vec<String>)>,
    now: u64,
    policy: Option<(u64, u64)>,
)
    requires
        forall|k: int|
            0 <= k < s.len() ==> {
                let e = #[trigger] s[k];
                &&& e.1@.id is Some
                &&& e.0 == id_key(e.1@.id->0)
                &&& indexed(index, e.1@)
            },
    ensures
        forall|k: int|
            0 <= k < unexpired(s, now, policy).len() ==> {
                let e = #[trigger] unexpired(s, now, policy)[k];
                &&& e.1@.id is Some
                &&& e.0 == id_key(e.1@.id->0)
                &&& indexed(index, e.1@)
            },
{
    lemma_unexpired_subset(s, now, policy);
    assert forall|k: int| 0 <= k < unexpired(s, now, policy).len() implies {
        let e = #[trigger] unexpired(s, now, policy)[k];
        &&& e.1@.id is Some
        &&& e.0 == id_key(e.1@.id->0)
        &&& indexed(index, e.1@)
    } by {
        let j = choose|j: int| 0 <= j < s.len() && s[j] == unexpired(s, now, policy)[k];
        assert(s[j] == unexpired(s, now, policy)[k]);
    }
}

/// No entry left by a sweep has expired, and every entry that had not
/// expired is left.
pub proof fn lemma_unexpired_exact(s: Seq<(Seq<u8>, Event)>, now: u64, policy: Option<(u64, u64)>)
    ensures
        forall|i: int|
            0 <= i < unexpired(s, now, policy).len() ==> !expired(
                #[trigger] unexpired(s, now, policy)[i].1@,
                now,
                policy,
            ),
        forall|i: int|
            0 <= i < s.len() && !expired(#[trigger] s[i].1@, now, policy) ==> unexpired(
                s,
                now,
                policy,
            ).contains(s[i]),
    decreases s.len(),
{
    if s.len() > 0 {
        let t = s.drop_last();
        lemma_unexpired_exact(t, now, policy);
        let r = unexpired(t, now, policy);
        let u = unexpired(s, now, policy);
        assert forall|i: int| 0 <= i < u.len() implies !expired(#[trigger] u[i].1@, now, policy) by {
            if i < r.len() {
                assert(u[i] == r[i]);
            }
        }
        assert forall|i: int| 0 <= i < s.len() && !expired(#[trigger] s[i].1@, now, policy) implies u.contains(s[i]) by {
            if i < t.len() {
                assert(s[i] == t[i]);
                assert(r.contains(t[i]));
                let j = choose|j: int| 0 <= j < r.len() && r[j] == t[i];
                assert(u[j] == r[j]);
            } else {
                assert(u[u.len() - 1] == s[i]);
            }
        }
    }
}

/// A sweep removes exactly the expired events: looking up any key after a
/// sweep gives the event found before, unless it had expired.
pub proof fn law_sweep_removes_exactly_expired(
    old_events: Seq<(Seq<u8>, Event)>,
    new_events: Seq<(Seq<u8>, Event)>,
    now: u64,
    policy: Option<(u64, u64)>,
    k: Seq<u8>,
)
    requires
        crate::store::sorted_keys(old_events),
        crate::store::sorted_keys(new_events),
        new_events == unexpired(old_events, now, policy),
    ensures
        lookup(new_events, k) == match lookup(old_events, k) {
            Some(e) => if expired(e@, now, policy) {
                None
            } else {
                Some(e)
            },
            None => None,
        },
{
    lemma_unexpired_exact(old_events, now, policy);
    lemma_unexpired_subset(old_events, now, policy);
    if has_key(old_events, k) {
        let i = choose|i: int| 0 <= i < old_events.len() && #[trigger] old_events[i].0 == k;
        crate::store::lemma_lookup_at(old_events, i);
        if !expired(old_events[i].1@, now, policy) {
            assert(new_events.contains(old_events[i]));
            let j = choose|j: int| 0 <= j < new_events.len() && new_events[j] == old_events[i];
            crate::store::lemma_lookup_at(new_events, j);
        } else if has_key(new_events, k) {
            let j = choose|j: int| 0 <= j < new_events.len() && #[trigger] new_events[j].0 == k;
            let i2 = choose|i2: int| 0 <= i2 < old_events.len() && old_events[i2] == new_events[j];
            crate::store::lemma_lookup_at(old_events, i2);
            assert(!expired(new_events[j].1@, now, policy));
        }
    } else if has_key(new_events, k) {
        let j = choose|j: int| 0 <= j < new_events.len() && #[trigger] new_events[j].0 == k;
        let i2 = choose|i2: int| 0 <= i2 < old_events.len() && old_events[i2] == new_events[j];
        assert(old_events[i2].0 == k);
    }
}

/// A full scan yields exactly the stored events that lie within the
/// filter's window and satisfy it.
pub proof fn law_full_scan_exact(s: Seq<(Seq<u8>, Event)>, f: FilterView, v: EventView)
    ensures
        full_scan(s, f).contains(v) <==> exists|i: int|
            0 <= i < s.len() && #[trigger] s[i].1@ == v && in_window(f, scan_time(v))
                && filter_matches(f, v),
    decreases s.len(),
{
    if s.len() > 0 {
        let t = s.drop_last();
        law_full_scan_exact(t, f, v);
        let r = full_scan(t, f);
        let u = full_scan(s, f);
        if u.contains(v) {
            let j = choose|j: int| 0 <= j < u.len() && u[j] == v;
            if j < r.len() {
                assert(u[j] == r[j]);
                assert(r.contains(v));
                let i = choose|i: int|
                    0 <= i < t.len() && #[trigger] t[i].1@ == v && in_window(f, scan_time(v))
                        && filter_matches(f, v);
                assert(s[i] == t[i]);
            } else {
                assert(s[s.len() - 1].1@ == v);
            }
        }
        if exists|i: int|
            0 <= i < s.len() && #[trigger] s[i].1@ == v && in_window(f, scan_time(v))
                && filter_matches(f, v) {
            let i = choose|i: int|
                0 <= i < s.len() && #[trigger] s[i].1@ == v && in_window(f, scan_time(v))
                    && filter_matches(f, v);
            if i < t.len() {
                assert(t[i] == s[i]);
                assert(r.contains(v));
                let j = choose|j: int| 0 <= j < r.len() && r[j] == v;
                assert(u[j] == r[j]);
            } else {
                assert(u[u.len() - 1] == v);
            }
        }
    }
}

/// Every event an id scan yields satisfies the filter.
proof fn lemma_ids_scan_sound(ids: Seq<Seq<char>>, main: Seq<(Seq<u8>, Event)>, f: FilterView)
    ensures
        forall|i: int|
            0 <= i < ids_scan(ids, main, f).len() ==> filter_matches(
                f,
                #[trigger] ids_scan(ids, main, f)[i],
            ),
    decreases ids.len(),
{
    if ids.len() > 0 {
        lemma_ids_scan_sound(ids.drop_last(), main, f);
        let r = ids_scan(ids.drop_last(), main, f);
        let u = ids_scan(ids, main, f);
        assert forall|i: int| 0 <= i < u.len() implies filter_matches(f, #[trigger] u[i]) by {
            if i < r.len() {
                assert(u[i] == r[i]);
            }
        }
    }
}

/// Every event a room scan yields satisfies the filter.
pub proof fn law_room_scan_sound(
    index: Seq<(Seq<u8>, Vec<String>)>,
    prefixes: Seq<Seq<u8>>,
    main: Seq<(Seq<u8>, Event)>,
    f: FilterView,
)
    ensures
        forall|i: int|
            0 <= i < room_scan(index, prefixes, main, f).len() ==> filter_matches(
                f,
                #[trigger] room_scan(index, prefixes, main, f)[i],
            ),
    decreases index.len(),
{
    if index.len() > 0 {
        let t = index.drop_last();
        law_room_scan_sound(t, prefixes, main, f);
        let r = room_scan(t, prefixes, main, f);
        let u = room_scan(index, prefixes, main, f);
        let ids = crate::text::texts_view(index.last().1@);
        lemma_ids_scan_sound(ids, main, f);
        assert forall|i: int| 0 <= i < u.len() implies filter_matches(f, #[trigger] u[i]) by {
            if i < r.len() {
                assert(u[i] == r[i]);
            } else {
                assert(u[i] == ids_scan(ids, main, f)[i - r.len()]);
            }
        }
    }
}

/// A stored event that satisfies a filter without a room, within the
/// filter's window, is found by a query with that filter.
pub proof fn law_stored_event_is_found(
    s: Seq<(Seq<u8>, Event)>,
    f: FilterView,
    k: Seq<u8>,
    e: Event,
)
    requires
        lookup(s, k) == Some(e),
        in_window(f, scan_time(e@)),
        filter_matches(f, e@),
    ensures
        full_scan(s, f).contains(e@),
{
    crate::store::lemma_lookup_some(s, k);
    let i = choose|i: int| 0 <= i < s.len() && #[trigger] s[i].0 == k && s[i].1 == e;
    law_full_scan_exact(s, f, e@);
    assert(s[i].1@ == e@);
}

/// An id scan yields every event that one of its ids names, where the main
/// tree holds it and it satisfies the filter.
proof fn lemma_ids_scan_complete(
    ids: Seq<Seq<char>>,
    main: Seq<(Seq<u8>, Event)>,
    f: FilterView,
    j: int,
    e: Event,
)
    requires
        0 <= j < ids.len(),
        lookup(main, id_key(ids[j])) == Some(e),
        filter_matches(f, e@),
    ensures
        ids_scan(ids, main, f).contains(e@),
    decreases ids.len(),
{
    let r = ids_scan(ids.drop_last(), main, f);
    let u = ids_scan(ids, main, f);
    if j == ids.len() - 1 {
        assert(u[u.len() - 1] == e@);
    } else {
        assert(ids.drop_last()[j] == ids[j]);
        lemma_ids_scan_complete(ids.drop_last(), main, f, j, e);
        let k = choose|k: int| 0 <= k < r.len() && r[k] == e@;
        assert(u[k] == r[k]);
    }
}

/// A room scan yields every event that an id of an entry in one of its
/// rooms names, where the main tree holds it and it satisfies the filter.
proof fn lemma_room_scan_complete(
    index: Seq<(Seq<u8>, Vec<String>)>,
    prefixes: Seq<Seq<u8>>,
    main: Seq<(Seq<u8>, Event)>,
    f: FilterView,
    i: int,
    j: int,
    e: Event,
)
    requires
        0 <= i < index.len(),
        in_rooms(index[i].0, prefixes),
        0 <= j < crate::text::texts_view(index[i].1@).len(),
        lookup(main, id_key(crate::text::texts_view(index[i].1@)[j])) == Some(e),
        filter_matches(f, e@),
    ensures
        room_scan(index, prefixes, main, f).contains(e@),
    decreases index.len(),
{
    let t = index.drop_last();
    let r = room_scan(t, prefixes, main, f);
    let u = room_scan(index, prefixes, main, f);
    if i == index.len() - 1 {
        let ids = crate::text::texts_view(index.last().1@);
        lemma_ids_scan_complete(ids, main, f, j, e);
        let k = choose|k: int| 0 <= k < ids_scan(ids, main, f).len() && ids_scan(ids, main, f)[k]
            == e@;
        assert(u[r.len() + k] == e@);
    } else {
        assert(t[i] == index[i]);
        lemma_room_scan_complete(t, prefixes, main, f, i, j, e);
        let k = choose|k: int| 0 <= k < r.len() && r[k] == e@;
        assert(u[k] == r[k]);
    }
}

/// A query finds every stored event that satisfies its filter: where the
/// filter names rooms, every such event whose room is among them; where it
/// names none, every such event whose time lies within the filter's window.
pub proof fn law_query_finds_stored_event(s: ImStorage, f: FilterView, k: Seq<u8>, e: Event)
    requires
        s.wf(),
        lookup(s.events(), k) == Some(e),
        filter_matches(f, e@),
        filter_rooms(f).len() > 0 ==> (room_of(e@) matches Some(r) && filter_rooms(f).contains(r)),
        filter_rooms(f).len() == 0 ==> in_window(f, scan_time(e@)),
    ensures
        query_result(s.room_index(), s.events(), f).contains(e@),
{
    let main = s.events();
    let index = s.room_index();
    if filter_rooms(f).len() > 0 {
        crate::store::lemma_lookup_some(main, k);
        let i = choose|i: int| 0 <= i < main.len() && #[trigger] main[i].0 == k && main[i].1 == e;
        assert(indexed(index, main[i].1@));
        let r = room_of(e@)->0;
        let ts = e@.created_at->0;
        let id = e@.id->0;
        let rk = room_key(r, ts);
        let ids = lookup(index, rk)->0;
        let iv = crate::text::texts_view(ids@);
        assert(iv.contains(id));
        let j = choose|j: int| 0 <= j < iv.len() && iv[j] == id;
        crate::store::lemma_lookup_some(index, rk);
        let p = choose|p: int| 0 <= p < index.len() && #[trigger] index[p].0 == rk && index[p].1 == ids;
        let rooms = filter_rooms(f);
        let q = choose|q: int| 0 <= q < rooms.len() && rooms[q] == r;
        lemma_room_prefix_of_key(r, ts);
        assert(room_prefixes(rooms)[q] == room_prefix(r));
        assert(in_rooms(index[p].0, room_prefixes(rooms)));
        assert(k == id_key(id));
        lemma_room_scan_complete(index, room_prefixes(rooms), main, f, p, j, e);
    } else {
        law_stored_event_is_found(main, f, k, e);
    }
}

} // verus!
