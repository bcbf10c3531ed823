//! The relay's shared state: settings, the state of each connection
//! (authentication and subscriptions), the number of open connections, and
//! the per-room index of `(created_at, event id)` pairs kept in time order.

use vstd::prelude::*;
use crate::event::{Event, EventView};
use crate::filter::{Filter, filter_matches};
use crate::keyed::{TextMap, holds_key, lemma_value_at, unique_keys, value_of};

verus! {

/// How a connection has authenticated.
#[derive(Clone, Debug)]
pub enum AuthState {
    Unauthenticated,
    /// An Ethereum address (hex).
    SiweAddress(String),
    /// A Nostr public key (hex).
    Pubkey(String),
}

impl AuthState {
    /// Whether the connection has authenticated in any way.
    pub fn is_authenticated(&self) -> (r: bool)
        ensures
            r == !(*self is Unauthenticated),
    {
        match self {
            AuthState::Unauthenticated => false,
            _ => true,
        }
    }

    /// The address or public key the connection authenticated as.
    pub fn address_or_pubkey(&self) -> (r: Option<String>)
        ensures
            match *self {
                AuthState::SiweAddress(a) => r == Some(a),
                AuthState::Pubkey(p) => r == Some(p),
                AuthState::Unauthenticated => r is None,
            },
    {
        match self {
            AuthState::SiweAddress(addr) => Some(addr.clone()),
            AuthState::Pubkey(pk) => Some(pk.clone()),
            _ => None,
        }
    }
}

/// The relay's settings.
#[derive(Clone, Debug)]
pub struct Setting {
    pub listen_addr: String,
    pub siwe_domain: String,
    pub siwe_uri: String,
    pub siwe_chain_id: u64,
    pub max_subscriptions_per_conn: usize,
    /// The most connections open at once.
    pub max_connections: usize,
    /// Seconds an event is kept by default (one year is 31536000).
    pub event_ttl_seconds: u64,
    /// The directory uploaded files are stored in.
    pub blob_dir: String,
}

impl Default for Setting {
    fn default() -> (s: Setting)
        ensures
            s.listen_addr@.len() == 0,
            s.siwe_domain@.len() == 0,
            s.siwe_uri@.len() == 0,
            s.siwe_chain_id == 0,
            s.max_subscriptions_per_conn == 0,
            s.max_connections == 0,
            s.event_ttl_seconds == 0,
            s.blob_dir@.len() == 0,
    {
        Setting {
            listen_addr: String::new(),
            siwe_domain: String::new(),
            siwe_uri: String::new(),
            siwe_chain_id: 0,
            max_subscriptions_per_conn: 0,
            max_connections: 0,
            event_ttl_seconds: 0,
            blob_dir: String::new(),
        }
    }
}

/// The state of one connection.
pub struct ConnectionState {
    pub id: u128,
    pub auth_state: AuthState,
    /// Subscriptions by subscription id.
    pub subscriptions: TextMap<Filter>,
}

/// An index entry sorts before another where its time is smaller.
pub open spec fn ts_sorted<T>(s: Seq<(u64, T)>) -> bool {
    forall|i: int, j: int| 0 <= i < j < s.len() ==> #[trigger] s[i].0 <= #[trigger] s[j].0
}

/// Inserts `x` after every entry whose time is not above its own: one step
/// of a stable insertion sort by time.
pub open spec fn insert_by_time<T>(s: Seq<(u64, T)>, x: (u64, T)) -> Seq<(u64, T)>
    decreases s.len(),
{
    if s.len() == 0 {
        seq![x]
    } else if s.last().0 <= x.0 {
        s.push(x)
    } else {
        insert_by_time(s.drop_last(), x).push(s.last())
    }
}

/// A stable sort by time: what `sort_by_key` on the time yields.
pub open spec fn sort_by_time<T>(s: Seq<(u64, T)>) -> Seq<(u64, T)>
    decreases s.len(),
{
    if s.len() == 0 {
        s
    } else {
        insert_by_time(sort_by_time(s.drop_last()), s.last())
    }
}

/// Inserting at position `p`, where every entry before `p` has a time not
/// above `x`'s and every entry from `p` on has a greater time.
pub proof fn lemma_insert_by_time_at<T>(s: Seq<(u64, T)>, x: (u64, T), p: int)
    requires
        0 <= p <= s.len(),
        p == 0 || s[p - 1].0 <= x.0,
        forall|i: int| p <= i < s.len() ==> #[trigger] s[i].0 > x.0,
    ensures
        insert_by_time(s, x) == s.take(p).push(x) + s.skip(p),
    decreases s.len(),
{
    if s.len() == 0 {
        assert(s.take(p).push(x) + s.skip(p) =~= seq![x]);
    } else if p == s.len() {
        assert(s.take(p) =~= s);
        assert(s.take(p).push(x) + s.skip(p) =~= s.push(x));
    } else {
        let t = s.drop_last();
        assert(s.last().0 > x.0);
        lemma_insert_by_time_at(t, x, p);
        assert(t.take(p) =~= s.take(p));
        assert((t.take(p).push(x) + t.skip(p)).push(s.last()) =~= s.take(p).push(x) + s.skip(p));
    }
}

/// The number of leading entries of a sorted index whose time is not above
/// `x`'s.
pub open spec fn insertion_point<T>(s: Seq<(u64, T)>, x: (u64, T)) -> int
    decreases s.len(),
{
    if s.len() == 0 {
        0
    } else if s.last().0 <= x.0 {
        s.len() as int
    } else {
        insertion_point(s.drop_last(), x)
    }
}

proof fn lemma_insertion_point<T>(s: Seq<(u64, T)>, x: (u64, T))
    requires
        ts_sorted(s),
    ensures
        0 <= insertion_point(s, x) <= s.len(),
        insertion_point(s, x) == 0 || s[insertion_point(s, x) - 1].0 <= x.0,
        forall|i: int| insertion_point(s, x) <= i < s.len() ==> #[trigger] s[i].0 > x.0,
    decreases s.len(),
{
    if s.len() > 0 && s.last().0 > x.0 {
        let t = s.drop_last();
        assert(ts_sorted(t));
        lemma_insertion_point(t, x);
        assert forall|i: int| insertion_point(s, x) <= i < s.len() implies #[trigger] s[i].0 > x.0 by {
            if i < s.len() - 1 {
                assert(s[i] == t[i]);
            }
        }
    }
}

/// Inserting into a time-sorted index keeps it sorted, and the result is the
/// index with `x` added at one position.
pub proof fn lemma_insert_by_time_sorted<T>(s: Seq<(u64, T)>, x: (u64, T))
    requires
        ts_sorted(s),
    ensures
        ts_sorted(insert_by_time(s, x)),
        insert_by_time(s, x).len() == s.len() + 1,
        exists|p: int|
            0 <= p <= s.len() && #[trigger] insert_by_time(s, x) == s.take(p).push(x) + s.skip(p),
{
    lemma_insertion_point(s, x);
    let p = insertion_point(s, x);
    lemma_insert_by_time_at(s, x, p);
    let r = s.take(p).push(x) + s.skip(p);
    assert forall|i: int, j: int| 0 <= i < j < r.len() implies #[trigger] r[i].0 <= #[trigger] r[j].0 by {
        if j < p {
            assert(r[i] == s[i] && r[j] == s[j]);
        } else if j == p {
            assert(r[j] == x);
            assert(r[i] == s[i]);
            assert(s[i].0 <= s[p - 1].0);
        } else if i == p {
            assert(r[j] == s[j - 1]);
        } else if i < p {
            assert(r[i] == s[i] && r[j] == s[j - 1]);
        } else {
            assert(r[i] == s[i - 1] && r[j] == s[j - 1]);
        }
    }
}

/// A time-sorted index is its own stable sort.
pub proof fn lemma_sort_of_sorted<T>(s: Seq<(u64, T)>)
    requires
        ts_sorted(s),
    ensures
        sort_by_time(s) == s,
    decreases s.len(),
{
    if s.len() > 0 {
        let t = s.drop_last();
        assert(ts_sorted(t));
        lemma_sort_of_sorted(t);
        assert(t.push(s.last()) =~= s);
    }
}

/// Inserting into a sorted index gives what pushing and then sorting stably
/// by time gives.
pub proof fn lemma_insert_is_push_then_sort<T>(s: Seq<(u64, T)>, x: (u64, T))
    requires
        ts_sorted(s),
    ensures
        insert_by_time(s, x) == sort_by_time(s.push(x)),
{
    lemma_sort_of_sorted(s);
    assert(s.push(x).drop_last() =~= s);
}

/// The view of a room index: times and event ids as text.
pub open spec fn index_view(s: Seq<(u64, String)>) -> Seq<(u64, Seq<char>)> {
    s.map_values(|e: (u64, String)| (e.0, e.1@))
}

/// Inserting commutes with taking the view of the entries.
pub proof fn lemma_index_view_insert(s: Seq<(u64, String)>, x: (u64, String))
    ensures
        index_view(insert_by_time(s, x)) == insert_by_time(index_view(s), (x.0, x.1@)),
        ts_sorted(s) ==> ts_sorted(index_view(s)),
    decreases s.len(),
{
    let v = index_view(s);
    if ts_sorted(s) {
        assert forall|i: int, j: int| 0 <= i < j < v.len() implies #[trigger] v[i].0 <= #[trigger] v[j].0 by {
            assert(s[i].0 <= s[j].0);
        }
    }
    if s.len() == 0 {
        assert(index_view(seq![x]) =~= seq![(x.0, x.1@)]);
    } else {
        let t = s.drop_last();
        assert(index_view(t) =~= v.drop_last());
        if s.last().0 <= x.0 {
            assert(index_view(s.push(x)) =~= v.push((x.0, x.1@)));
        } else {
            lemma_index_view_insert(t, x);
            assert(index_view(insert_by_time(t, x).push(s.last())) =~= index_view(insert_by_time(t, x)).push(
                (s.last().0, s.last().1@),
            ));
        }
    }
}

/// Inserts `x` into a time-sorted index.
pub fn insert_entry_by_time(index: &Vec<(u64, String)>, x: (u64, String)) -> (r: Vec<(u64, String)>)
    requires
        ts_sorted(index@),
    ensures
        r@ == insert_by_time(index@, x),
{
    let n = index.len();
    let mut p = n;
    while p > 0 && index[p - 1].0 > x.0
        invariant
            p <= n,
            n == index@.len(),
            forall|i: int| p <= i < n ==> #[trigger] index@[i].0 > x.0,
        decreases p,
    {
        p = p - 1;
    }
    proof {
        lemma_insert_by_time_at(index@, x, p as int);
    }
    let mut out: Vec<(u64, String)> = Vec::new();
    for i in 0..n
        invariant
            n == index@.len(),
            out@ == index@.take(i as int),
    {
        out.push((index[i].0, index[i].1.clone()));
        assert(out@ =~= index@.take(i + 1));
    }
    assert(index@.take(n as int) =~= index@);
    out.insert(p, x);
    assert(out@ =~= index@.take(p as int).push(x) + index@.skip(p as int));
    out
}

/// The table of connections, keyed by connection id.
pub struct ConnectionTable {
    conns: Vec<ConnectionState>,
}

pub open spec fn conn_entries(v: Seq<ConnectionState>) -> Seq<(u128, ConnectionState)> {
    v.map_values(|c: ConnectionState| (c.id, c))
}

impl ConnectionTable {
    pub closed spec fn model(&self) -> Seq<(u128, ConnectionState)> {
        conn_entries(self.conns@)
    }

    #[verifier::type_invariant]
    spec fn inv(&self) -> bool {
        unique_keys(self.model())
    }

    /// The connection with id `id`, if any.
    pub open spec fn get_spec(&self, id: u128) -> Option<ConnectionState> {
        value_of(self.model(), id)
    }

    /// An empty table.
    pub fn new() -> (t: Self)
        ensures
            forall|id: u128| #[trigger] t.get_spec(id) is None,
            t.model().len() == 0,
    {
        let t = ConnectionTable { conns: Vec::new() };
        assert(t.model() =~= Seq::<(u128, ConnectionState)>::empty());
        t
    }

    /// The number of connections.
    pub fn len(&self) -> (n: usize)
        ensures
            n == self.model().len(),
    {
        self.conns.len()
    }

    /// The connection at position `i`.
    pub fn value_at(&self, i: usize) -> (c: &ConnectionState)
        requires
            i < self.model().len(),
        ensures
            *c == self.model()[i as int].1,
            self.get_spec(self.model()[i as int].0) == Some(*c),
    {
        proof {
            use_type_invariant(self);
            lemma_value_at(self.model(), i as int);
        }
        &self.conns[i]
    }

    fn position(&self, id: u128) -> (r: Option<usize>)
        ensures
            match r {
                Some(i) => i < self.model().len() && self.model()[i as int].0 == id,
                None => !holds_key(self.model(), id),
            },
    {
        let ghost m = self.model();
        for i in 0..self.conns.len()
            invariant
                m == self.model(),
                m.len() == self.conns@.len(),
                forall|j: int| 0 <= j < i ==> (#[trigger] m[j]).0 != id,
        {
            assert(m[i as int].0 == self.conns@[i as int].id);
            if self.conns[i].id == id {
                return Some(i);
            }
        }
        None
    }

    /// The connection with id `id`.
    pub fn get(&self, id: u128) -> (r: Option<&ConnectionState>)
        ensures
            match r {
                Some(c) => self.get_spec(id) == Some(*c),
                None => self.get_spec(id) is None,
            },
    {
        proof {
            use_type_invariant(self);
        }
        match self.position(id) {
            Some(i) => {
                proof {
                    lemma_value_at(self.model(), i as int);
                }
                Some(&self.conns[i])
            },
            None => None,
        }
    }

    /// Stores `conn` under its id, replacing any connection with that id.
    pub fn insert(&mut self, conn: ConnectionState)
        ensures
            final(self).get_spec(conn.id) == Some(conn),
            forall|k: u128| k != conn.id ==> #[trigger] final(self).get_spec(k) == old(self).get_spec(k),
    {
        proof {
            use_type_invariant(&*self);
        }
        let ghost old_m = self.model();
        let ghost c = conn;
        let id = conn.id;
        let pos = self.position(id);
        let mut conns = Vec::new();
        std::mem::swap(&mut conns, &mut self.conns);
        let ghost m: Seq<(u128, ConnectionState)>;
        let ghost at: int;
        match pos {
            Some(i) => {
                conns.set(i, conn);
                proof {
                    m = old_m.update(i as int, (id, c));
                    at = i as int;
                    assert(conn_entries(conns@) =~= m);
                }
            },
            None => {
                conns.push(conn);
                proof {
                    m = old_m.push((id, c));
                    at = old_m.len() as int;
                    assert(conn_entries(conns@) =~= m);
                }
            },
        }
        proof {
            assert forall|a: int, b: int|
                0 <= a < m.len() && 0 <= b < m.len() && a != b implies #[trigger] m[a].0
                != #[trigger] m[b].0 by {
                if a != at && b != at {
                    assert(m[a] == old_m[a] && m[b] == old_m[b]);
                } else if a == at {
                    assert(m[b] == old_m[b]);
                } else {
                    assert(m[a] == old_m[a]);
                }
            }
            lemma_value_at(m, at);
            assert forall|k: u128| k != id implies #[trigger] value_of(m, k) == value_of(old_m, k) by {
                if holds_key(old_m, k) {
                    let j = choose|j: int| 0 <= j < old_m.len() && #[trigger] old_m[j].0 == k;
                    lemma_value_at(old_m, j);
                    assert(m[j] == old_m[j]);
                    lemma_value_at(m, j);
                }
                if holds_key(m, k) {
                    let j = choose|j: int| 0 <= j < m.len() && #[trigger] m[j].0 == k;
                    assert(m[j] == old_m[j]);
                }
            }
        }
        self.conns = conns;
    }

    /// Takes the connection with id `id` out of the table.
    pub fn take(&mut self, id: u128) -> (r: Option<ConnectionState>)
        ensures
            r == old(self).get_spec(id),
            r matches Some(c) ==> c.id == id,
            final(self).get_spec(id) is None,
            forall|k: u128| k != id ==> #[trigger] final(self).get_spec(k) == old(self).get_spec(k),
    {
        proof {
            use_type_invariant(&*self);
        }
        let ghost old_m = self.model();
        match self.position(id) {
            Some(i) => {
                proof {
                    lemma_value_at(old_m, i as int);
                }
                let mut conns = Vec::new();
                std::mem::swap(&mut conns, &mut self.conns);
                let c = conns.remove(i);
                assert(old_m[i as int] == (c.id, c));
                let ghost m = conn_entries(conns@);
                assert(m =~= old_m.remove(i as int));
                proof {
                    assert forall|a: int, b: int|
                        0 <= a < m.len() && 0 <= b < m.len() && a != b implies #[trigger] m[a].0
                        != #[trigger] m[b].0 by {
                        let oa = if a < i {
                            a
                        } else {
                            a + 1
                        };
                        let ob = if b < i {
                            b
                        } else {
                            b + 1
                        };
                        assert(m[a] == old_m[oa] && m[b] == old_m[ob]);
                    }
                    if holds_key(m, id) {
                        let j = choose|j: int| 0 <= j < m.len() && #[trigger] m[j].0 == id;
                        let oj = if j < i {
                            j
                        } else {
                            j + 1
                        };
                        assert(m[j] == old_m[oj]);
                    }
                    assert forall|k: u128| k != id implies #[trigger] value_of(m, k) == value_of(
                        old_m,
                        k,
                    ) by {
                        if holds_key(old_m, k) {
                            let j = choose|j: int| 0 <= j < old_m.len() && #[trigger] old_m[j].0 == k;
                            lemma_value_at(old_m, j);
                            let nj = if j < i {
                                j
                            } else {
                                j - 1
                            };
                            assert(m[nj] == old_m[j]);
                            lemma_value_at(m, nj);
                        }
                        if holds_key(m, k) {
                            let j = choose|j: int| 0 <= j < m.len() && #[trigger] m[j].0 == k;
                            let oj = if j < i {
                                j
                            } else {
                                j + 1
                            };
                            assert(m[j] == old_m[oj]);
                        }
                    }
                }
                self.conns = conns;
                Some(c)
            },
            None => None,
        }
    }
}

/// `n + 1`, wrapping around to 0 at the maximum.
pub open spec fn count_up(n: u64) -> u64 {
    if n == u64::MAX {
        0
    } else {
        (n + 1) as u64
    }
}

/// `n - 1`, wrapping around to the maximum at 0.
pub open spec fn count_down(n: u64) -> u64 {
    if n == 0 {
        u64::MAX
    } else {
        (n - 1) as u64
    }
}

/// The state did not change in any way a caller can see.
pub open spec fn unchanged(old: AppState, new: AppState) -> bool {
    &&& new.count() == old.count()
    &&& new.settings() == old.settings()
    &&& forall|id: u128| #[trigger] new.conn(id) == old.conn(id)
    &&& forall|r: Seq<char>| #[trigger] new.room(r) == old.room(r)
}

/// `new` is `old` with connection `conn_id` opened: counted, and given an
/// unauthenticated state without subscriptions.
pub open spec fn opened(old: AppState, new: AppState, conn_id: u128) -> bool {
    &&& new.count() == count_up(old.count())
    &&& new.conn(conn_id) is Some
    &&& new.conn(conn_id)->0.id == conn_id
    &&& new.conn(conn_id)->0.auth_state is Unauthenticated
    &&& forall|k: Seq<char>| #[trigger] new.conn(conn_id)->0.subscriptions.get_spec(k) is None
    &&& forall|id: u128| id != conn_id ==> #[trigger] new.conn(id) == old.conn(id)
    &&& forall|r: Seq<char>| #[trigger] new.room(r) == old.room(r)
    &&& new.settings() == old.settings()
}

/// `new` is `old` with connection `conn_id` closed: forgotten, and counted
/// down.
pub open spec fn closed(old: AppState, new: AppState, conn_id: u128) -> bool {
    &&& new.count() == count_down(old.count())
    &&& new.conn(conn_id) is None
    &&& forall|id: u128| id != conn_id ==> #[trigger] new.conn(id) == old.conn(id)
    &&& forall|r: Seq<char>| #[trigger] new.room(r) == old.room(r)
    &&& new.settings() == old.settings()
}

/// Opening and then closing a connection that was not open leaves the
/// state as it was, count included.
pub proof fn law_open_then_close_restores(s0: AppState, s1: AppState, s2: AppState, conn_id: u128)
    requires
        s0.conn(conn_id) is None,
        opened(s0, s1, conn_id),
        closed(s1, s2, conn_id),
    ensures
        unchanged(s0, s2),
{
    assert forall|id: u128| #[trigger] s2.conn(id) == s0.conn(id) by {
        if id != conn_id {
            assert(s1.conn(id) == s0.conn(id));
        }
    }
    assert forall|r: Seq<char>| #[trigger] s2.room(r) == s0.room(r) by {
        assert(s1.room(r) == s0.room(r));
    }
}

/// Connection `c` is open and holds, under subscription id `k`, a filter
/// that event `e` satisfies.
pub open spec fn conn_subscribes(c: Option<ConnectionState>, k: Seq<char>, e: EventView) -> bool {
    c matches Some(c) && (c.subscriptions.get_spec(k) matches Some(f) && filter_matches(f@, e))
}

/// Some open connection holds a subscription whose filter `e` satisfies.
pub open spec fn subscribed(state: AppState, e: EventView) -> bool {
    exists|id: u128, k: Seq<char>| #[trigger] conn_subscribes(state.conn(id), k, e)
}

/// The relay's shared state.
pub struct AppState {
    connections: ConnectionTable,
    setting: Setting,
    connection_count: u64,
    room_index: TextMap<Vec<(u64, String)>>,
}

impl AppState {
    /// The connection with id `id`, if open.
    pub closed spec fn conn(&self, id: u128) -> Option<ConnectionState> {
        self.connections.get_spec(id)
    }

    /// The relay's settings.
    pub closed spec fn settings(&self) -> Setting {
        self.setting
    }

    /// The number of open connections, as counted.
    pub closed spec fn count(&self) -> u64 {
        self.connection_count
    }

    /// The index of room `room`, if the room is indexed.
    pub closed spec fn room(&self, room: Seq<char>) -> Option<Seq<(u64, Seq<char>)>> {
        match self.room_index.get_spec(room) {
            Some(v) => Some(index_view(v@)),
            None => None,
        }
    }

    /// Every room index is in time order.
    #[verifier::type_invariant]
    spec fn inv(&self) -> bool {
        forall|r: Seq<char>| #[trigger] self.room_index.get_spec(r) matches Some(v) ==> ts_sorted(v@)
    }

    /// A state with no connections and no indexed room.
    pub fn new(setting: Setting) -> (s: Self)
        ensures
            forall|id: u128| #[trigger] s.conn(id) is None,
            forall|r: Seq<char>| #[trigger] s.room(r) is None,
            s.count() == 0,
            s.settings() == setting,
    {
        AppState {
            connections: ConnectionTable::new(),
            setting,
            connection_count: 0,
            room_index: TextMap::new(),
        }
    }

    /// The relay's settings.
    pub fn setting(&self) -> (s: &Setting)
        ensures
            *s == self.settings(),
    {
        &self.setting
    }

    /// The number of open connections, as counted.
    pub fn connection_count(&self) -> (n: u64)
        ensures
            n == self.count(),
    {
        self.connection_count
    }

    /// The connection with id `id`, if open.
    pub fn connection(&self, id: u128) -> (r: Option<&ConnectionState>)
        ensures
            match r {
                Some(c) => self.conn(id) == Some(*c),
                None => self.conn(id) is None,
            },
    {
        self.connections.get(id)
    }

    /// Whether some open connection holds a subscription whose filter the
    /// event satisfies.
    pub fn has_matching_subscription(&self, event: &Event) -> (r: bool)
        ensures
            r == subscribed(*self, event@),
    {
        let ghost e = event@;
        let ghost m = self.connections.model();
        let n = self.connections.len();
        for i in 0..n
            invariant
                n == m.len(),
                m == self.connections.model(),
                e == event@,
                forall|j: int, k: Seq<char>|
                    0 <= j < i ==> !#[trigger] conn_subscribes(Some(m[j].1), k, e),
        {
            let c = self.connections.value_at(i);
            let ghost sm = c.subscriptions.model();
            let nsubs = c.subscriptions.len();
            for j in 0..nsubs
                invariant
                    nsubs == sm.len(),
                    sm == c.subscriptions.model(),
                    i < m.len(),
                    *c == m[i as int].1,
                    self.connections.get_spec(m[i as int].0) == Some(*c),
                    e == event@,
                    forall|jj: int| 0 <= jj < j ==> !filter_matches((#[trigger] sm[jj]).1@, e),
            {
                let f = c.subscriptions.value_at(j);
                if f.matches(event) {
                    proof {
                        assert(self.conn(m[i as int].0) == Some(*c));
                        assert(conn_subscribes(self.conn(m[i as int].0), sm[j as int].0, e));
                    }
                    return true;
                }
            }
            proof {
                assert forall|k: Seq<char>| !conn_subscribes(Some(*c), k, e) by {
                    crate::keyed::lemma_value_of_some(sm, k);
                    if c.subscriptions.get_spec(k) is Some {
                        let jj = choose|jj: int|
                            0 <= jj < sm.len() && #[trigger] sm[jj].0 == k && sm[jj].1
                                == c.subscriptions.get_spec(k)->0;
                        assert(!filter_matches(sm[jj].1@, e));
                    }
                }
            }
        }
        proof {
            assert forall|id: u128, k: Seq<char>| !#[trigger] conn_subscribes(self.conn(id), k, e) by {
                crate::keyed::lemma_value_of_some(m, id);
                if self.conn(id) is Some {
                    let j = choose|j: int|
                        0 <= j < m.len() && #[trigger] m[j].0 == id && m[j].1 == self.conn(id)->0;
                    assert(!conn_subscribes(Some(m[j].1), k, e));
                }
            }
        }
        false
    }

    /// Whether connection `conn_id` is open and holds a subscription whose
    /// filter the event satisfies.
    pub fn connection_subscribes(&self, conn_id: u128, event: &Event) -> (r: bool)
        ensures
            r == exists|k: Seq<char>| #[trigger] conn_subscribes(self.conn(conn_id), k, event@),
    {
        let c = match self.connections.get(conn_id) {
            Some(c) => c,
            None => {
                return false;
            },
        };
        let ghost e = event@;
        let ghost sm = c.subscriptions.model();
        let nsubs = c.subscriptions.len();
        for j in 0..nsubs
            invariant
                nsubs == sm.len(),
                sm == c.subscriptions.model(),
                self.conn(conn_id) == Some(*c),
                e == event@,
                forall|jj: int| 0 <= jj < j ==> !filter_matches((#[trigger] sm[jj]).1@, e),
        {
            let f = c.subscriptions.value_at(j);
            if f.matches(event) {
                assert(conn_subscribes(self.conn(conn_id), sm[j as int].0, e));
                return true;
            }
        }
        proof {
            assert forall|k: Seq<char>| !#[trigger] conn_subscribes(self.conn(conn_id), k, e) by {
                crate::keyed::lemma_value_of_some(sm, k);
                if c.subscriptions.get_spec(k) is Some {
                    let jj = choose|jj: int|
                        0 <= jj < sm.len() && #[trigger] sm[jj].0 == k && sm[jj].1
                            == c.subscriptions.get_spec(k)->0;
                    assert(!filter_matches(sm[jj].1@, e));
                }
            }
        }
        false
    }

    /// The index of room `room`, if the room is indexed.
    pub fn room_entries(&self, room: &str) -> (r: Option<&Vec<(u64, String)>>)
        ensures
            match r {
                Some(v) => self.room(room@) == Some(index_view(v@)) && ts_sorted(v@),
                None => self.room(room@) is None,
            },
    {
        proof {
            use_type_invariant(self);
        }
        self.room_index.get(room)
    }

    /// Counts one more open connection; the count wraps around at its
    /// maximum.
    pub fn increment_connection(&mut self)
        ensures
            final(self).count() == count_up(old(self).count()),
            forall|id: u128| #[trigger] final(self).conn(id) == old(self).conn(id),
            forall|r: Seq<char>| #[trigger] final(self).room(r) == old(self).room(r),
            final(self).settings() == old(self).settings(),
    {
        proof {
            use_type_invariant(&*self);
        }
        self.connection_count = self.connection_count.wrapping_add(1);
    }

    /// Counts one fewer open connection; the count wraps around at zero.
    pub fn decrement_connection(&mut self)
        ensures
            final(self).count() == count_down(old(self).count()),
            forall|id: u128| #[trigger] final(self).conn(id) == old(self).conn(id),
            forall|r: Seq<char>| #[trigger] final(self).room(r) == old(self).room(r),
            final(self).settings() == old(self).settings(),
    {
        proof {
            use_type_invariant(&*self);
        }
        self.connection_count = self.connection_count.wrapping_sub(1);
    }

    /// Registers a new connection: counts it and gives it an unauthenticated
    /// state with no subscription, replacing any state under that id.
    pub fn open_connection(&mut self, conn_id: u128)
        ensures
            opened(*old(self), *final(self), conn_id),
    {
        proof {
            use_type_invariant(&*self);
        }
        self.connection_count = self.connection_count.wrapping_add(1);
        let mut conns = ConnectionTable::new();
        std::mem::swap(&mut conns, &mut self.connections);
        conns.insert(
            ConnectionState {
                id: conn_id,
                auth_state: AuthState::Unauthenticated,
                subscriptions: TextMap::new(),
            },
        );
        self.connections = conns;
    }

    /// Opens connection `conn_id` where fewer connections than the limit
    /// are open; otherwise refuses it and changes nothing.
    pub fn admit_connection(&mut self, conn_id: u128) -> (admitted: bool)
        ensures
            admitted == (old(self).count() < old(self).settings().max_connections),
            admitted ==> opened(*old(self), *final(self), conn_id),
            !admitted ==> *final(self) == *old(self),
    {
        if self.connection_count < self.setting.max_connections as u64 {
            self.open_connection(conn_id);
            true
        } else {
            false
        }
    }

    /// Forgets a connection and counts it closed.
    pub fn close_connection(&mut self, conn_id: u128)
        ensures
            closed(*old(self), *final(self), conn_id),
    {
        proof {
            use_type_invariant(&*self);
        }
        let mut conns = ConnectionTable::new();
        std::mem::swap(&mut conns, &mut self.connections);
        let _ = conns.take(conn_id);
        self.connections = conns;
        self.decrement_connection();
    }

    /// Takes a connection's state out, to be put back with `put_connection`.
    pub fn take_connection(&mut self, conn_id: u128) -> (r: Option<ConnectionState>)
        ensures
            r == old(self).conn(conn_id),
            r matches Some(c) ==> c.id == conn_id,
            final(self).conn(conn_id) is None,
            forall|id: u128| id != conn_id ==> #[trigger] final(self).conn(id) == old(self).conn(id),
            forall|r: Seq<char>| #[trigger] final(self).room(r) == old(self).room(r),
            final(self).count() == old(self).count(),
            final(self).settings() == old(self).settings(),
    {
        proof {
            use_type_invariant(&*self);
        }
        let mut conns = ConnectionTable::new();
        std::mem::swap(&mut conns, &mut self.connections);
        let r = conns.take(conn_id);
        self.connections = conns;
        r
    }

    /// Stores a connection's state under its id.
    pub fn put_connection(&mut self, conn: ConnectionState)
        ensures
            final(self).conn(conn.id) == Some(conn),
            forall|id: u128| id != conn.id ==> #[trigger] final(self).conn(id) == old(self).conn(id),
            forall|r: Seq<char>| #[trigger] final(self).room(r) == old(self).room(r),
            final(self).count() == old(self).count(),
            final(self).settings() == old(self).settings(),
    {
        proof {
            use_type_invariant(&*self);
        }
        let mut conns = ConnectionTable::new();
        std::mem::swap(&mut conns, &mut self.connections);
        conns.insert(conn);
        self.connections = conns;
    }

    /// Starts an empty index for room `room`, replacing any index it had.
    pub fn insert_room(&mut self, room: String)
        ensures
            final(self).room(room@) == Some(Seq::<(u64, Seq<char>)>::empty()),
            forall|r: Seq<char>| r != room@ ==> #[trigger] final(self).room(r) == old(self).room(r),
            forall|id: u128| #[trigger] final(self).conn(id) == old(self).conn(id),
            final(self).count() == old(self).count(),
            final(self).settings() == old(self).settings(),
    {
        proof {
            use_type_invariant(&*self);
        }
        let ghost old_rooms = self.room_index;
        let ghost key = room@;
        let empty: Vec<(u64, String)> = Vec::new();
        let mut rooms = TextMap::new();
        std::mem::swap(&mut rooms, &mut self.room_index);
        rooms.insert(room, empty);
        proof {
            assert forall|r: Seq<char>| #[trigger] rooms.get_spec(r) is Some implies ts_sorted(rooms.get_spec(r)->0@) by {
                if r != key {
                    assert(rooms.get_spec(r) == old_rooms.get_spec(r));
                }
            }
        }
        self.room_index = rooms;
    }

    /// Records `(created_at, event id)` in the index of room `room`, starting
    /// the room's index where it has none, and keeping the index in time
    /// order; an entry with the same time goes after those already there.
    pub fn index_room_event(&mut self, room: &str, entry: (u64, String))
        ensures
            ({
                let v = match old(self).room(room@) {
                    Some(v) => v,
                    None => Seq::<(u64, Seq<char>)>::empty(),
                };
                let x = (entry.0, entry.1@);
                &&& final(self).room(room@) == Some(insert_by_time(v, x))
                &&& ts_sorted(insert_by_time(v, x))
                &&& insert_by_time(v, x) == sort_by_time(v.push(x))
            }),
            forall|r: Seq<char>| r != room@ ==> #[trigger] final(self).room(r) == old(self).room(r),
            forall|id: u128| #[trigger] final(self).conn(id) == old(self).conn(id),
            final(self).count() == old(self).count(),
            final(self).settings() == old(self).settings(),
    {
        proof {
            use_type_invariant(&*self);
        }
        let ghost old_rooms = self.room_index;
        let ghost key = room@;
        let empty: Vec<(u64, String)> = Vec::new();
        let updated = match self.room_index.get(room) {
            Some(index) => {
                assert(ts_sorted(index@));
                proof {
                    lemma_insert_by_time_sorted(index@, entry);
                    lemma_index_view_insert(index@, entry);
                    lemma_insert_by_time_sorted(index_view(index@), (entry.0, entry.1@));
                    lemma_insert_is_push_then_sort(index_view(index@), (entry.0, entry.1@));
                }
                insert_entry_by_time(index, entry)
            },
            None => {
                proof {
                    assert(index_view(empty@) =~= Seq::<(u64, Seq<char>)>::empty());
                    lemma_insert_by_time_sorted(empty@, entry);
                    lemma_index_view_insert(empty@, entry);
                    lemma_insert_by_time_sorted(index_view(empty@), (entry.0, entry.1@));
                    lemma_insert_is_push_then_sort(index_view(empty@), (entry.0, entry.1@));
                }
                insert_entry_by_time(&empty, entry)
            },
        };
        let mut rooms = TextMap::new();
        std::mem::swap(&mut rooms, &mut self.room_index);
        rooms.insert(room.to_owned(), updated);
        proof {
            assert forall|r: Seq<char>| #[trigger] rooms.get_spec(r) is Some implies ts_sorted(rooms.get_spec(r)->0@) by {
                if r != key {
                    assert(rooms.get_spec(r) == old_rooms.get_spec(r));
                }
            }
        }
        self.room_index = rooms;
    }
}

} // verus!
