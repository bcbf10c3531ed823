//! What the relay decides for each message a client sends: which state
//! changes, whether an event is broadcast and forwarded to the mesh, and
//! which failure is reported.

use vstd::prelude::*;
use vstd::string::StringExecFns;
use crate::event::{Event, EventView, event_tag_u64, in_room, is_room_message, room_of};
use crate::storage::{ImStorage, event_saved, events_view, query_result};
use crate::filter::{Filter, im_compatible};
use crate::auth::{SiweAuthenticator, auth_handled};
use crate::message::{AuthPayload, IncomingMessage, OutgoingMessage, ReqPayload};
use crate::state::{AppState, insert_by_time, subscribed, unchanged};

verus! {

/// Why a message was refused.
#[derive(Clone, Copy, Debug, PartialEq, Eq, Structural)]
pub enum HandlerError {
    /// An event came on a connection the relay no longer knows.
    ConnectionGone,
    /// An event came before the connection authenticated.
    Unauthenticated,
    /// The event has no integer `kind`.
    MissingKind,
    /// The event's kind is neither a DM, a sealed DM nor a room control kind.
    NonImEvent,
    /// A subscription came on a connection the relay no longer knows.
    ConnGone,
    /// A filter is not IM compatible.
    UnsupportedFilter,
    /// The connection holds as many subscriptions as it may.
    TooManySubscriptions,
    /// An `AUTH` payload without a `message` string.
    MissingAuthMessage,
    /// An `AUTH` payload without a `signature` string.
    MissingAuthSignature,
    /// The event's `expire` tag lies in the past.
    EventExpired,
    /// The event has no string `id`.
    MissingEventId,
    /// A room message has no integer `created_at`.
    MissingCreatedAt,
}

/// The text that describes a refusal.
pub open spec fn handler_error_text(e: HandlerError) -> Seq<char> {
    match e {
        HandlerError::ConnectionGone => "connection gone"@,
        HandlerError::Unauthenticated => "unauthenticated"@,
        HandlerError::MissingKind => "missing kind"@,
        HandlerError::NonImEvent => "non-im event rejected"@,
        HandlerError::ConnGone => "conn gone"@,
        HandlerError::UnsupportedFilter => "unsupported filter fields for IM relay"@,
        HandlerError::TooManySubscriptions => "too many subscriptions"@,
        HandlerError::MissingAuthMessage => "missing message field"@,
        HandlerError::MissingAuthSignature => "missing signature field"@,
        HandlerError::EventExpired => "Event expired or invalid timestamp"@,
        HandlerError::MissingEventId => "Invalid Nostr event: missing id"@,
        HandlerError::MissingCreatedAt => "Invalid Nostr event: missing created_at"@,
    }
}

impl HandlerError {
    /// The text that describes the refusal.
    pub fn message(&self) -> (m: String)
        ensures
            m@ == handler_error_text(*self),
    {
        match self {
            HandlerError::ConnectionGone => String::from_str("connection gone"),
            HandlerError::Unauthenticated => String::from_str("unauthenticated"),
            HandlerError::MissingKind => String::from_str("missing kind"),
            HandlerError::NonImEvent => String::from_str("non-im event rejected"),
            HandlerError::ConnGone => String::from_str("conn gone"),
            HandlerError::UnsupportedFilter => String::from_str("unsupported filter fields for IM relay"),
            HandlerError::TooManySubscriptions => String::from_str("too many subscriptions"),
            HandlerError::MissingAuthMessage => String::from_str("missing message field"),
            HandlerError::MissingAuthSignature => String::from_str("missing signature field"),
            HandlerError::EventExpired => String::from_str("Event expired or invalid timestamp"),
            HandlerError::MissingEventId => String::from_str("Invalid Nostr event: missing id"),
            HandlerError::MissingCreatedAt => String::from_str(
                "Invalid Nostr event: missing created_at",
            ),
        }
    }
}

/// What remains to be done after a message was handled.
#[derive(Clone, Debug)]
pub enum HandlerOutcome {
    /// Nothing more.
    Done,
    /// Broadcast the event to local subscribers and, where `forward` holds,
    /// forward it to the mesh.
    Broadcast { event: Event, forward: bool },
    /// Send this answer to the client.
    Reply(OutgoingMessage),
    /// Send the stored events of subscription `sub_id`, then the end of
    /// stored events; where `ask_mesh` holds (no stored event was found),
    /// first ask the mesh for events.
    Stored { sub_id: String, events: Vec<Event>, ask_mesh: bool },
}

/// A kind reserved for room control events.
pub open spec fn room_control_kind(kind: u64) -> bool {
    39000 <= kind <= 39999
}

/// A kind the relay accepts: sealed DMs (1059), DMs (14) and room control
/// events.
pub open spec fn im_kind(kind: u64) -> bool {
    kind == 1059 || kind == 14 || room_control_kind(kind)
}

/// Whether `kind` is reserved for room control events.
pub fn is_room_control_kind(kind: u64) -> (r: bool)
    ensures
        r == room_control_kind(kind),
{
    39000 <= kind && kind <= 39999
}

/// Whether any local connection holds a subscription whose filter the
/// event satisfies, so that a room message need not go to the mesh.
pub fn has_local_subscribers_for_room(event: &Event, state: &AppState) -> (r: bool)
    ensures
        r == subscribed(*state, event@),
{
    state.has_matching_subscription(event)
}

/// Only the connection `conn_id` may have changed.
pub open spec fn only_conn_changed(old: AppState, new: AppState, conn_id: u128) -> bool {
    &&& new.count() == old.count()
    &&& new.settings() == old.settings()
    &&& forall|id: u128| id != conn_id ==> #[trigger] new.conn(id) == old.conn(id)
    &&& forall|r: Seq<char>| #[trigger] new.room(r) == old.room(r)
}

/// The refusal of an event, if it is refused: the connection must be open
/// and authenticated, the event must have an IM kind, an `expire` tag that
/// is not below `now`, an id, and, for a room message, a `created_at`.
pub open spec fn event_refusal(state: AppState, e: EventView, conn_id: u128, now: u64) -> Option<
    HandlerError,
> {
    match state.conn(conn_id) {
        None => Some(HandlerError::ConnectionGone),
        Some(c) => if c.auth_state is Unauthenticated {
            Some(HandlerError::Unauthenticated)
        } else {
            match e.kind {
                None => Some(HandlerError::MissingKind),
                Some(k) => if !im_kind(k) {
                    Some(HandlerError::NonImEvent)
                } else if event_tag_u64(e, "expire"@) matches Some(x) && x < now {
                    Some(HandlerError::EventExpired)
                } else if e.id is None {
                    Some(HandlerError::MissingEventId)
                } else if room_of(e) is Some && e.created_at is None {
                    Some(HandlerError::MissingCreatedAt)
                } else {
                    None
                },
            }
        },
    }
}

/// The room-index entry of an accepted event: its time (or 0) and its id
/// (or empty).
pub open spec fn index_entry(e: EventView) -> (u64, Seq<char>) {
    (
        match e.created_at {
            Some(t) => t,
            None => 0,
        },
        match e.id {
            Some(i) => i,
            None => Seq::empty(),
        },
    )
}

/// The state after an accepted event: where the event names a room, the
/// room's index (started where the room had none) gains the event's entry
/// in time order; all else stays.
pub open spec fn event_applied(old: AppState, new: AppState, e: EventView) -> bool {
    &&& new.count() == old.count()
    &&& new.settings() == old.settings()
    &&& forall|id: u128| #[trigger] new.conn(id) == old.conn(id)
    &&& match room_of(e) {
        Some(room) => {
            &&& forall|r: Seq<char>| r != room ==> #[trigger] new.room(r) == old.room(r)
            &&& new.room(room) == Some(
                insert_by_time(
                    match old.room(room) {
                        Some(v) => v,
                        None => Seq::empty(),
                    },
                    index_entry(e),
                ),
            )
        },
        None => forall|r: Seq<char>| #[trigger] new.room(r) == old.room(r),
    }
}

/// Handles an `EVENT` at time `now`: checks the connection, its
/// authentication, the event's kind and expiry, stores the event, records a
/// room message in its room's index, and asks for a broadcast, and for a
/// mesh forward of a room message that no local subscription matches.
pub fn handle_event(
    state: &mut AppState,
    storage: &mut ImStorage,
    event: Event,
    conn_id: u128,
    now: u64,
) -> (r: Result<HandlerOutcome, HandlerError>)
    ensures
        match event_refusal(*old(state), event@, conn_id, now) {
            Some(err) => {
                &&& r == Err::<HandlerOutcome, HandlerError>(err)
                &&& unchanged(*old(state), *final(state))
                &&& *final(storage) == *old(storage)
            },
            None => {
                &&& r matches Ok(HandlerOutcome::Broadcast { event: b, forward }) && b@ == event@
                    && forward == (in_room(event@) && !subscribed(*old(state), event@))
                &&& event_applied(*old(state), *final(state), event@)
                &&& event_saved(*old(storage), *final(storage), event@)
            },
        },
{
    proof {
        reveal_strlit("expire");
    }
    let conn = match state.connection(conn_id) {
        Some(c) => c,
        None => {
            return Err(HandlerError::ConnectionGone);
        },
    };
    if !conn.auth_state.is_authenticated() {
        return Err(HandlerError::Unauthenticated);
    }
    let kind = match event.kind {
        Some(k) => k,
        None => {
            return Err(HandlerError::MissingKind);
        },
    };
    if kind != 1059 && kind != 14 && !is_room_control_kind(kind) {
        return Err(HandlerError::NonImEvent);
    }
    match event.tag_u64("expire") {
        Some(x) => {
            if x < now {
                return Err(HandlerError::EventExpired);
            }
        },
        None => {},
    }
    if event.id.is_none() {
        return Err(HandlerError::MissingEventId);
    }
    if crate::event::extract_room_id(&event).is_some() && event.created_at.is_none() {
        return Err(HandlerError::MissingCreatedAt);
    }
    match storage.save_event(&event) {
        Ok(()) => {},
        Err(_) => {
            return Err(HandlerError::MissingEventId);
        },
    }
    let forward = is_room_message(&event) && !has_local_subscribers_for_room(&event, state);
    if let Some(room_id) = crate::event::extract_room_id(&event) {
        let created_at = match event.created_at {
            Some(t) => t,
            None => 0,
        };
        let event_id = match &event.id {
            Some(i) => i.clone(),
            None => String::new(),
        };
        state.index_room_event(room_id.as_str(), (created_at, event_id));
    }
    Ok(HandlerOutcome::Broadcast { event, forward })
}

/// The refusal of a subscription, if it is refused: the connection must be
/// open, every filter IM compatible, and the connection below its limit of
/// subscriptions.
pub open spec fn req_refusal(state: AppState, filters: Seq<Filter>, conn_id: u128) -> Option<
    HandlerError,
> {
    match state.conn(conn_id) {
        None => Some(HandlerError::ConnGone),
        Some(c) => if exists|i: int| 0 <= i < filters.len() && !im_compatible(#[trigger] filters[i]@) {
            Some(HandlerError::UnsupportedFilter)
        } else if c.subscriptions.model().len() >= state.settings().max_subscriptions_per_conn {
            Some(HandlerError::TooManySubscriptions)
        } else {
            None
        },
    }
}

/// `new` is `old` after subscription `sub_id` with `filters` was accepted on
/// connection `conn_id`: each filter was stored in turn under the id, so the
/// last one stays, and the connection holds no more subscriptions than it
/// may; nothing else changed.
pub open spec fn req_applied(
    old: AppState,
    new: AppState,
    sub_id: Seq<char>,
    filters: Seq<Filter>,
    conn_id: u128,
) -> bool {
    let old_c = old.conn(conn_id)->0;
    let new_c = new.conn(conn_id)->0;
    &&& only_conn_changed(old, new, conn_id)
    &&& new.conn(conn_id) is Some
    &&& new_c.id == old_c.id
    &&& new_c.auth_state == old_c.auth_state
    &&& new_c.subscriptions.model().len() <= old.settings().max_subscriptions_per_conn
    &&& forall|k: Seq<char>|
        k != sub_id ==> #[trigger] new_c.subscriptions.get_spec(k) == old_c.subscriptions.get_spec(k)
    &&& if filters.len() == 0 {
        new_c.subscriptions.get_spec(sub_id) == old_c.subscriptions.get_spec(sub_id)
    } else {
        (new_c.subscriptions.get_spec(sub_id) matches Some(f) && f@ == filters[filters.len() - 1]@)
    }
}

/// `new` is `old` after subscription `sub_id` of open connection `conn_id`
/// was closed: the subscription is gone, nothing else changed.
pub open spec fn close_applied(old: AppState, new: AppState, sub_id: Seq<char>, conn_id: u128) -> bool {
    let old_c = old.conn(conn_id)->0;
    let new_c = new.conn(conn_id)->0;
    &&& only_conn_changed(old, new, conn_id)
    &&& new.conn(conn_id) is Some
    &&& new_c.id == old_c.id
    &&& new_c.auth_state == old_c.auth_state
    &&& new_c.subscriptions.get_spec(sub_id) is None
    &&& forall|k: Seq<char>|
        k != sub_id ==> #[trigger] new_c.subscriptions.get_spec(k) == old_c.subscriptions.get_spec(k)
}

/// Closing a subscription that an accepted `REQ` opened, on a connection
/// that did not hold it, leaves the connection's subscriptions as they
/// were, and the rest of the state too.
pub proof fn law_close_undoes_req(
    s0: AppState,
    s1: AppState,
    s2: AppState,
    sub_id: Seq<char>,
    filters: Seq<Filter>,
    conn_id: u128,
)
    requires
        s0.conn(conn_id) is Some,
        s0.conn(conn_id)->0.subscriptions.get_spec(sub_id) is None,
        req_applied(s0, s1, sub_id, filters, conn_id),
        close_applied(s1, s2, sub_id, conn_id),
    ensures
        s2.count() == s0.count(),
        s2.settings() == s0.settings(),
        forall|id: u128| id != conn_id ==> #[trigger] s2.conn(id) == s0.conn(id),
        forall|r: Seq<char>| #[trigger] s2.room(r) == s0.room(r),
        s2.conn(conn_id) is Some,
        s2.conn(conn_id)->0.id == s0.conn(conn_id)->0.id,
        s2.conn(conn_id)->0.auth_state == s0.conn(conn_id)->0.auth_state,
        forall|k: Seq<char>|
            #[trigger] s2.conn(conn_id)->0.subscriptions.get_spec(k) == s0.conn(
                conn_id,
            )->0.subscriptions.get_spec(k),
{
    assert forall|id: u128| id != conn_id implies #[trigger] s2.conn(id) == s0.conn(id) by {
        assert(s1.conn(id) == s0.conn(id));
    }
    assert forall|r: Seq<char>| #[trigger] s2.room(r) == s0.room(r) by {
        assert(s1.room(r) == s0.room(r));
    }
    assert forall|k: Seq<char>|
        #[trigger] s2.conn(conn_id)->0.subscriptions.get_spec(k) == s0.conn(
            conn_id,
        )->0.subscriptions.get_spec(k) by {
        if k != sub_id {
            assert(s1.conn(conn_id)->0.subscriptions.get_spec(k) == s0.conn(
                conn_id,
            )->0.subscriptions.get_spec(k));
        }
    }
}

/// The stored events a subscription's filters find: what a query with each
/// filter yields, filter after filter.
pub open spec fn req_events(
    index: Seq<(Seq<u8>, Vec<String>)>,
    main: Seq<(Seq<u8>, Event)>,
    filters: Seq<Filter>,
) -> Seq<EventView>
    decreases filters.len(),
{
    if filters.len() == 0 {
        Seq::empty()
    } else {
        req_events(index, main, filters.drop_last()) + query_result(index, main, filters.last()@)
    }
}

/// A `REQ` on an open connection is refused as unsupported when any of
/// its filters, at any position, is not IM compatible; an accepted `REQ`
/// has only IM compatible filters.
pub proof fn law_req_needs_every_filter_compatible(
    state: AppState,
    filters: Seq<Filter>,
    conn_id: u128,
)
    ensures
        (state.conn(conn_id) is Some && exists|i: int|
            0 <= i < filters.len() && !im_compatible(#[trigger] filters[i]@)) ==> req_refusal(
            state,
            filters,
            conn_id,
        ) == Some(HandlerError::UnsupportedFilter),
        req_refusal(state, filters, conn_id) is None ==> forall|i: int|
            0 <= i < filters.len() ==> im_compatible(#[trigger] filters[i]@),
{
}

/// The number of stored events the filters' queries find, summed over the
/// filters.
pub open spec fn query_total(
    index: Seq<(Seq<u8>, Vec<String>)>,
    main: Seq<(Seq<u8>, Event)>,
    filters: Seq<Filter>,
) -> int
    decreases filters.len(),
{
    if filters.len() == 0 {
        0
    } else {
        query_total(index, main, filters.drop_last()) + query_result(
            index,
            main,
            filters.last()@,
        ).len()
    }
}

/// The events a `REQ` is answered with hold every event that the query of
/// any one of its filters finds, only such events, and as many as all the
/// filters' queries find together.
pub proof fn law_req_events_cover_every_filter(
    index: Seq<(Seq<u8>, Vec<String>)>,
    main: Seq<(Seq<u8>, Event)>,
    filters: Seq<Filter>,
    x: EventView,
)
    ensures
        (exists|i: int|
            0 <= i < filters.len() && #[trigger] query_result(index, main, filters[i]@).contains(x))
            <==> req_events(index, main, filters).contains(x),
        req_events(index, main, filters).len() == query_total(index, main, filters),
    decreases filters.len(),
{
    if filters.len() > 0 {
        let t = filters.drop_last();
        law_req_events_cover_every_filter(index, main, t, x);
        let r = req_events(index, main, t);
        let q = query_result(index, main, filters.last()@);
        let u = req_events(index, main, filters);
        assert(u == r + q);
        if exists|i: int|
            0 <= i < filters.len() && #[trigger] query_result(index, main, filters[i]@).contains(x) {
            let i = choose|i: int|
                0 <= i < filters.len() && #[trigger] query_result(index, main, filters[i]@).contains(
                    x,
                );
            if i < t.len() {
                assert(t[i] == filters[i]);
                assert(query_result(index, main, t[i]@).contains(x));
                assert(r.contains(x));
                let k = choose|k: int| 0 <= k < r.len() && r[k] == x;
                assert(u[k] == x);
            } else {
                let k = choose|k: int| 0 <= k < q.len() && q[k] == x;
                assert(u[r.len() + k] == x);
            }
        }
        if u.contains(x) {
            let k = choose|k: int| 0 <= k < u.len() && u[k] == x;
            if k < r.len() {
                assert(r[k] == x);
                assert(r.contains(x));
                let i = choose|i: int|
                    0 <= i < t.len() && #[trigger] query_result(index, main, t[i]@).contains(x);
                assert(t[i] == filters[i]);
                assert(query_result(index, main, filters[i]@).contains(x));
            } else {
                assert(q[k - r.len()] == x);
                assert(q.contains(x));
                assert(filters[filters.len() - 1] == filters.last());
                assert(query_result(index, main, filters[filters.len() - 1]@).contains(x));
            }
        }
    }
}

/// Handles a `REQ`: where it is accepted, each filter in turn is stored
/// under the subscription id, so the last one stays, and the stored events
/// that the filters find are given, filter after filter.
pub fn handle_req(state: &mut AppState, storage: &ImStorage, sub: &ReqPayload, conn_id: u128) -> (r:
    Result<Vec<Event>, HandlerError>)
    ensures
        match req_refusal(*old(state), sub.filters@, conn_id) {
            Some(err) => r == Err::<Vec<Event>, HandlerError>(err) && unchanged(
                *old(state),
                *final(state),
            ),
            None => {
                &&& r matches Ok(v) && events_view(v@) == req_events(
                    storage.room_index(),
                    storage.events(),
                    sub.filters@,
                )
                &&& req_applied(*old(state), *final(state), sub.sub_id@, sub.filters@, conn_id)
            },
        },
        (old(state).conn(conn_id) is Some && exists|i: int|
            0 <= i < sub.filters@.len() && !im_compatible(#[trigger] sub.filters@[i]@)) ==> (r
            == Err::<Vec<Event>, HandlerError>(HandlerError::UnsupportedFilter) && unchanged(
            *old(state),
            *final(state),
        )),
        r is Ok ==> forall|i: int| 0 <= i < sub.filters@.len() ==> im_compatible(#[trigger] sub.filters@[i]@),
{
    let count = match state.connection(conn_id) {
        Some(c) => c.subscriptions.len(),
        None => {
            return Err(HandlerError::ConnGone);
        },
    };
    for i in 0..sub.filters.len()
        invariant
            *state == *old(state),
            old(state).conn(conn_id) is Some,
            forall|j: int| 0 <= j < i ==> im_compatible(#[trigger] sub.filters@[j]@),
    {
        if !sub.filters[i].is_im_compatible() {
            assert(!im_compatible(sub.filters@[i as int]@));
            return Err(HandlerError::UnsupportedFilter);
        }
    }
    if count >= state.setting().max_subscriptions_per_conn {
        return Err(HandlerError::TooManySubscriptions);
    }
    let ghost old_state = *state;
    let mut conn = match state.take_connection(conn_id) {
        Some(c) => c,
        None => {
            return Err(HandlerError::ConnGone);
        },
    };
    let ghost old_c = conn;
    let max = state.setting().max_subscriptions_per_conn;
    assert(old_c.subscriptions.model().len() == count);
    for i in 0..sub.filters.len()
        invariant
            count < max,
            old_c.subscriptions.model().len() == count,
            conn.subscriptions.model().len() <= count + (if i > 0 {
                1int
            } else {
                0int
            }),
            conn.id == old_c.id,
            conn.auth_state == old_c.auth_state,
            forall|k: Seq<char>|
                k != sub.sub_id@ ==> #[trigger] conn.subscriptions.get_spec(k)
                    == old_c.subscriptions.get_spec(k),
            i == 0 ==> conn.subscriptions.get_spec(sub.sub_id@) == old_c.subscriptions.get_spec(
                sub.sub_id@,
            ),
            i > 0 ==> (conn.subscriptions.get_spec(sub.sub_id@) matches Some(f) && f@
                == sub.filters@[i - 1]@),
    {
        conn.subscriptions.insert(sub.sub_id.clone(), sub.filters[i].copy());
    }
    state.put_connection(conn);
    let ghost index = storage.room_index();
    let ghost main = storage.events();
    let mut events: Vec<Event> = Vec::new();
    for i in 0..sub.filters.len()
        invariant
            index == storage.room_index(),
            main == storage.events(),
            events_view(events@) == req_events(index, main, sub.filters@.take(i as int)),
    {
        assert(sub.filters@.take(i + 1).drop_last() =~= sub.filters@.take(i as int));
        assert(sub.filters@.take(i + 1).last() == sub.filters@[i as int]);
        let ghost before = events@;
        match storage.query_by_filter(&sub.filters[i]) {
            Ok(mut found) => {
                let ghost got = found@;
                events.append(&mut found);
                assert(events_view(events@) =~= events_view(before) + events_view(got));
            },
            Err(_) => {},
        }
    }
    assert(sub.filters@.take(sub.filters.len() as int) =~= sub.filters@);
    Ok(events)
}

/// Handles a `CLOSE`: drops the subscription from the connection, where
/// the connection is open.
pub fn handle_close(state: &mut AppState, sub_id: &str, conn_id: u128) -> (r: Result<(), HandlerError>)
    ensures
        r is Ok,
        old(state).conn(conn_id) is Some ==> close_applied(*old(state), *final(state), sub_id@, conn_id),
        old(state).conn(conn_id) is None ==> unchanged(*old(state), *final(state)),
{
    match state.take_connection(conn_id) {
        Some(mut conn) => {
            conn.subscriptions.remove(sub_id);
            state.put_connection(conn);
        },
        None => {},
    }
    Ok(())
}

/// Handles an `AUTH`: the SIWE message and its signature are checked, and
/// only a passing check marks the connection as authenticated.
pub fn handle_auth(
    state: &mut AppState,
    auth: &SiweAuthenticator,
    auth_event: &AuthPayload,
    conn_id: u128,
) -> (r: Result<OutgoingMessage, &'static str>)
    ensures
        auth_handled(*auth, *auth_event, *old(state), *final(state), conn_id, r),
{
    auth.handle_auth_message(auth_event, state, conn_id)
}

/// Handles a `COUNT`: nothing is counted and nothing changes.
pub fn handle_count(state: &mut AppState, sub: &ReqPayload, conn_id: u128) -> (r: Result<(), HandlerError>)
    ensures
        r is Ok,
        *final(state) == *old(state),
{
    Ok(())
}

/// Handles one message from connection `conn_id` at time `now`; events are
/// stored in and subscriptions answered from `storage`, and `AUTH` messages
/// are checked with `auth`.
pub fn handle_message(
    state: &mut AppState,
    storage: &mut ImStorage,
    auth: &SiweAuthenticator,
    msg: IncomingMessage,
    conn_id: u128,
    now: u64,
) -> (r: Result<HandlerOutcome, HandlerError>)
    ensures
        match msg {
            IncomingMessage::Event(e) => match event_refusal(*old(state), e@, conn_id, now) {
                Some(err) => {
                    &&& r == Err::<HandlerOutcome, HandlerError>(err)
                    &&& unchanged(*old(state), *final(state))
                    &&& *final(storage) == *old(storage)
                },
                None => {
                    &&& r matches Ok(HandlerOutcome::Broadcast { event: b, forward }) && b@ == e@
                        && forward == (in_room(e@) && !subscribed(*old(state), e@))
                    &&& event_applied(*old(state), *final(state), e@)
                    &&& event_saved(*old(storage), *final(storage), e@)
                },
            },
            IncomingMessage::Req(sub) => {
                &&& *final(storage) == *old(storage)
                &&& match req_refusal(*old(state), sub.filters@, conn_id) {
                    Some(err) => r == Err::<HandlerOutcome, HandlerError>(err) && unchanged(
                        *old(state),
                        *final(state),
                    ),
                    None => {
                        &&& r matches Ok(HandlerOutcome::Stored { sub_id, events, ask_mesh })
                            && sub_id@ == sub.sub_id@ && events_view(events@) == req_events(
                            old(storage).room_index(),
                            old(storage).events(),
                            sub.filters@,
                        ) && ask_mesh == (events@.len() == 0)
                        &&& req_applied(
                            *old(state),
                            *final(state),
                            sub.sub_id@,
                            sub.filters@,
                            conn_id,
                        )
                    },
                }
            },
            IncomingMessage::Close(sub_id) => {
                &&& *final(storage) == *old(storage)
                &&& r matches Ok(HandlerOutcome::Done)
                &&& old(state).conn(conn_id) is Some ==> close_applied(
                    *old(state),
                    *final(state),
                    sub_id@,
                    conn_id,
                )
                &&& old(state).conn(conn_id) is None ==> unchanged(*old(state), *final(state))
            },
            IncomingMessage::Auth(p) => {
                &&& *final(storage) == *old(storage)
                &&& p.message is None ==> r == Err::<HandlerOutcome, HandlerError>(
                    HandlerError::MissingAuthMessage,
                )
                &&& (p.message is Some && p.signature is None) ==> r == Err::<
                    HandlerOutcome,
                    HandlerError,
                >(HandlerError::MissingAuthSignature)
                &&& (p.message is Some && p.signature is Some) ==> (r matches Ok(
                    HandlerOutcome::Reply(m),
                ) && auth_handled(*auth, p, *old(state), *final(state), conn_id, Ok(m)))
                &&& (p.message is None || p.signature is None) ==> *final(state) == *old(state)
            },
            IncomingMessage::Count(_) => r matches Ok(HandlerOutcome::Done) && *final(state)
                == *old(state) && *final(storage) == *old(storage),
            IncomingMessage::Unknown => r matches Ok(HandlerOutcome::Done) && *final(state)
                == *old(state) && *final(storage) == *old(storage),
        },
{
    match msg {
        IncomingMessage::Event(event) => handle_event(state, storage, event, conn_id, now),
        IncomingMessage::Req(sub) => {
            match handle_req(state, storage, &sub, conn_id) {
                Ok(events) => {
                    let ask_mesh = events.len() == 0;
                    Ok(HandlerOutcome::Stored { sub_id: sub.sub_id.clone(), events, ask_mesh })
                },
                Err(e) => Err(e),
            }
        },
        IncomingMessage::Close(sub_id) => {
            let _ = handle_close(state, sub_id.as_str(), conn_id);
            Ok(HandlerOutcome::Done)
        },
        IncomingMessage::Auth(auth_event) => {
            let missing_message = auth_event.message.is_none();
            match handle_auth(state, auth, &auth_event, conn_id) {
                Ok(m) => Ok(HandlerOutcome::Reply(m)),
                Err(_) => {
                    if missing_message {
                        Err(HandlerError::MissingAuthMessage)
                    } else {
                        Err(HandlerError::MissingAuthSignature)
                    }
                },
            }
        },
        IncomingMessage::Count(sub) => {
            let _ = handle_count(state, &sub, conn_id);
            Ok(HandlerOutcome::Done)
        },
        IncomingMessage::Unknown => Ok(HandlerOutcome::Done),
    }
}

} // verus!
