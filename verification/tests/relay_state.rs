// Tests of connection state and message handling.

use relay_core::auth::SiweAuthenticator;
use relay_core::event::{Event, Tag, TagItem};
use relay_core::filter::Filter;
use relay_core::handler::{handle_auth, handle_close, handle_count, handle_event, handle_message, handle_req, has_local_subscribers_for_room, is_room_control_kind, HandlerError, HandlerOutcome};
use relay_core::message::{AuthPayload, IncomingMessage, OutgoingMessage, ReqPayload};
use relay_core::state::{insert_entry_by_time, AppState, AuthState, Setting};
use relay_core::storage::ImStorage;

fn setting(max_subs: usize) -> Setting {
    let mut s = Setting::default();
    s.max_subscriptions_per_conn = max_subs;
    s
}

fn room_event(id: &str, kind: u64, created_at: Option<u64>, room: Option<&str>) -> Event {
    let tags = match room {
        Some(r) => vec![Tag { items: vec![TagItem::Text("room".to_string()), TagItem::Text(r.to_string())] }],
        None => vec![],
    };
    Event {
        raw: format!("{{\"id\":\"{}\"}}", id),
        id: Some(id.to_string()),
        pubkey: Some("alice".to_string()),
        kind: Some(kind),
        created_at,
        tags: Some(tags),
    }
}

fn im_filter() -> Filter {
    let mut f = Filter::default();
    f.kinds = vec![14];
    f.authors = vec!["alice".to_string()];
    f
}

const SIWE_MSG: &str = "localhost:4361 wants you to sign in with your Ethereum account:\n0x6Da01670d8fc844e736095918bbE11fE8D564163\n\nSIWE Notepad Example\n\nURI: http://localhost:4361\nVersion: 1\nChain ID: 1\nNonce: kEWepMt9knR6lWJ6A\nIssued At: 2021-12-07T18:28:18.807Z";
const SIWE_SIG: &str = "0x6228b3ecd7bf2df018183aeab6b6f1db1e9f4e3cbe24560404112e25363540eb679934908143224d746bbb5e1aa65ab435684081f4dbb74a0fec57f98f40f5051c";
const ADDRESS: &str = "0x6Da01670d8fc844e736095918bbE11fE8D564163";

fn ev(s: &mut AppState, e: Event, id: u128) -> Result<HandlerOutcome, HandlerError> {
    let mut st = ImStorage::new("db").unwrap();
    handle_event(s, &mut st, e, id, 0)
}

fn req(s: &mut AppState, sub: &ReqPayload, id: u128) -> Result<Vec<Event>, HandlerError> {
    let st = ImStorage::new("db").unwrap();
    handle_req(s, &st, sub, id)
}

fn msg(s: &mut AppState, a: &SiweAuthenticator, m: IncomingMessage, id: u128) -> Result<HandlerOutcome, HandlerError> {
    let mut st = ImStorage::new("db").unwrap();
    handle_message(s, &mut st, a, m, id, 0)
}

fn authenticator() -> SiweAuthenticator {
    SiweAuthenticator::new("localhost:4361".to_string(), "http://localhost:4361".to_string(), 1)
}

fn signed_in() -> AuthPayload {
    AuthPayload { message: Some(SIWE_MSG.to_string()), signature: Some(SIWE_SIG.to_string()) }
}

fn authed(state: &mut AppState, id: u128) {
    state.open_connection(id);
    handle_auth(state, &authenticator(), &signed_in(), id).unwrap();
    assert!(state.connection(id).unwrap().auth_state.is_authenticated());
}

#[test]
fn auth_state_queries() {
    assert!(!AuthState::Unauthenticated.is_authenticated());
    assert!(AuthState::Pubkey("pk".to_string()).is_authenticated());
    assert_eq!(AuthState::SiweAddress("0xab".to_string()).address_or_pubkey(), Some("0xab".to_string()));
    assert_eq!(AuthState::Pubkey("pk".to_string()).address_or_pubkey(), Some("pk".to_string()));
    assert_eq!(AuthState::Unauthenticated.address_or_pubkey(), None);
}

#[test]
fn open_then_close_restores_count() {
    let mut s = AppState::new(setting(2));
    assert_eq!(s.connection_count(), 0);
    s.open_connection(7);
    assert_eq!(s.connection_count(), 1);
    let c = s.connection(7).unwrap();
    assert!(!c.auth_state.is_authenticated());
    assert_eq!(c.subscriptions.len(), 0);
    s.close_connection(7);
    assert_eq!(s.connection_count(), 0);
    assert!(s.connection(7).is_none());
}

#[test]
fn connection_count_wraps() {
    let mut s = AppState::new(setting(2));
    s.decrement_connection();
    assert_eq!(s.connection_count(), u64::MAX);
    s.increment_connection();
    assert_eq!(s.connection_count(), 0);
}

#[test]
fn event_refused_without_connection() {
    let mut s = AppState::new(setting(2));
    let r = ev(&mut s, room_event("e1", 14, Some(1), None), 1);
    assert_eq!(r.unwrap_err(), HandlerError::ConnectionGone);
    assert_eq!(HandlerError::ConnectionGone.message(), "connection gone");
}

#[test]
fn event_refused_before_auth() {
    let mut s = AppState::new(setting(2));
    s.open_connection(1);
    let r = ev(&mut s, room_event("e1", 14, Some(1), None), 1);
    assert_eq!(r.unwrap_err(), HandlerError::Unauthenticated);
    assert_eq!(HandlerError::Unauthenticated.message(), "unauthenticated");
}

#[test]
fn event_kinds() {
    let mut s = AppState::new(setting(2));
    authed(&mut s, 1);
    let mut no_kind = room_event("e1", 14, Some(1), None);
    no_kind.kind = None;
    assert_eq!(ev(&mut s, no_kind, 1).unwrap_err(), HandlerError::MissingKind);
    assert_eq!(ev(&mut s, room_event("e2", 1, Some(1), None), 1).unwrap_err(), HandlerError::NonImEvent);
    assert_eq!(HandlerError::NonImEvent.message(), "non-im event rejected");
    assert_eq!(HandlerError::MissingKind.message(), "missing kind");
    for k in [14u64, 1059, 39000, 39999] {
        assert!(ev(&mut s, room_event("e3", k, Some(1), None), 1).is_ok());
    }
    assert!(ev(&mut s, room_event("e4", 40000, Some(1), None), 1).is_err());
    assert!(is_room_control_kind(39500));
    assert!(!is_room_control_kind(38999));
}

#[test]
fn accepted_event_is_broadcast_and_room_events_forwarded() {
    let mut s = AppState::new(setting(2));
    authed(&mut s, 1);
    match ev(&mut s, room_event("e1", 14, Some(1), None), 1).unwrap() {
        HandlerOutcome::Broadcast { event, forward } => {
            assert_eq!(event.id, Some("e1".to_string()));
            assert!(!forward);
        }
        _ => panic!("expected a broadcast"),
    }
    match ev(&mut s, room_event("e2", 14, Some(1), Some("r")), 1).unwrap() {
        HandlerOutcome::Broadcast { forward, .. } => assert!(forward),
        _ => panic!("expected a broadcast"),
    }
    assert!(!has_local_subscribers_for_room(&room_event("e2", 14, Some(1), Some("r")), &s));
}

#[test]
fn room_events_with_local_subscribers_stay_local() {
    let mut s = AppState::new(setting(2));
    authed(&mut s, 1);
    s.open_connection(2);
    let mut f = im_filter();
    f.kinds = vec![1059];
    req(&mut s, &ReqPayload { sub_id: "other".to_string(), filters: vec![f] }, 2).unwrap();
    let e = room_event("e3", 14, Some(1), Some("r"));
    assert!(!has_local_subscribers_for_room(&e, &s));
    req(&mut s, &ReqPayload { sub_id: "dm".to_string(), filters: vec![im_filter()] }, 2).unwrap();
    assert!(has_local_subscribers_for_room(&e, &s));
    match ev(&mut s, e, 1).unwrap() {
        HandlerOutcome::Broadcast { forward, .. } => assert!(!forward),
        _ => panic!("expected a broadcast"),
    }
}

#[test]
fn room_index_keeps_time_order() {
    let mut s = AppState::new(setting(2));
    authed(&mut s, 1);
    assert!(s.room_entries("r").is_none());
    ev(&mut s, room_event("e0", 14, Some(1), Some("r")), 1).unwrap();
    assert_eq!(s.room_entries("r").unwrap().clone(), vec![(1, "e0".to_string())]);
    s.insert_room("r".to_string());
    assert_eq!(s.room_entries("r").unwrap().len(), 0);
    ev(&mut s, room_event("a", 14, Some(5), Some("r")), 1).unwrap();
    ev(&mut s, room_event("b", 14, Some(3), Some("r")), 1).unwrap();
    ev(&mut s, room_event("c", 14, Some(5), Some("r")), 1).unwrap();
    assert_eq!(ev(&mut s, room_event("d", 14, None, Some("r")), 1).unwrap_err(), HandlerError::MissingCreatedAt);
    let entries = s.room_entries("r").unwrap().clone();
    assert_eq!(entries, vec![(3, "b".to_string()), (5, "a".to_string()), (5, "c".to_string())]);
}

#[test]
fn insert_entry_matches_push_and_stable_sort() {
    let index = vec![(1u64, "a".to_string()), (4, "b".to_string()), (4, "c".to_string()), (9, "d".to_string())];
    let got = insert_entry_by_time(&index, (4, "x".to_string()));
    let mut expected = index.clone();
    expected.push((4, "x".to_string()));
    expected.sort_by_key(|&(ts, _)| ts);
    assert_eq!(got, expected);
}

#[test]
fn req_stores_last_filter_and_close_removes_it() {
    let mut s = AppState::new(setting(2));
    s.open_connection(1);
    let mut f1 = im_filter();
    f1.kinds = vec![14];
    let mut f2 = im_filter();
    f2.kinds = vec![1059];
    let sub = ReqPayload { sub_id: "s1".to_string(), filters: vec![f1, f2] };
    req(&mut s, &sub, 1).unwrap();
    let stored = s.connection(1).unwrap().subscriptions.get("s1").unwrap();
    assert_eq!(stored.kinds, vec![1059]);
    handle_close(&mut s, "s1", 1).unwrap();
    assert!(s.connection(1).unwrap().subscriptions.get("s1").is_none());
}

#[test]
fn req_errors() {
    let mut s = AppState::new(setting(1));
    let sub = ReqPayload { sub_id: "s1".to_string(), filters: vec![im_filter()] };
    assert_eq!(req(&mut s, &sub, 1).unwrap_err(), HandlerError::ConnGone);
    assert_eq!(HandlerError::ConnGone.message(), "conn gone");
    s.open_connection(1);
    let bad = ReqPayload { sub_id: "s1".to_string(), filters: vec![Filter::default()] };
    assert_eq!(req(&mut s, &bad, 1).unwrap_err(), HandlerError::UnsupportedFilter);
    assert_eq!(HandlerError::UnsupportedFilter.message(), "unsupported filter fields for IM relay");
    req(&mut s, &sub, 1).unwrap();
    let other = ReqPayload { sub_id: "s2".to_string(), filters: vec![im_filter()] };
    assert_eq!(req(&mut s, &other, 1).unwrap_err(), HandlerError::TooManySubscriptions);
    assert_eq!(HandlerError::TooManySubscriptions.message(), "too many subscriptions");
    assert!(s.connection(1).unwrap().subscriptions.get("s2").is_none());
}

#[test]
fn handle_auth_needs_a_valid_siwe_signature() {
    let mut s = AppState::new(setting(1));
    s.open_connection(3);
    let a = authenticator();
    assert_eq!(handle_auth(&mut s, &a, &AuthPayload { message: None, signature: None }, 3).unwrap_err(), "missing message field");
    let unsigned = AuthPayload { message: Some(SIWE_MSG.to_string()), signature: Some("0x00".to_string()) };
    match handle_auth(&mut s, &a, &unsigned, 3).unwrap() {
        OutgoingMessage::OkReply { status, .. } => assert!(!status),
        _ => panic!("expected OK"),
    }
    assert!(!s.connection(3).unwrap().auth_state.is_authenticated());
    handle_auth(&mut s, &a, &signed_in(), 3).unwrap();
    match &s.connection(3).unwrap().auth_state {
        AuthState::SiweAddress(addr) => assert_eq!(addr, ADDRESS),
        _ => panic!("expected an address"),
    }
    assert!(handle_auth(&mut s, &a, &signed_in(), 4).is_ok());
    assert!(s.connection(4).is_none());
}

#[test]
fn handle_message_dispatches() {
    let mut s = AppState::new(setting(1));
    let a = authenticator();
    s.open_connection(1);
    assert!(matches!(msg(&mut s, &a, IncomingMessage::Unknown, 1), Ok(HandlerOutcome::Done)));
    assert!(matches!(
        msg(&mut s, &a, IncomingMessage::Event(room_event("e", 14, Some(1), None)), 1),
        Err(HandlerError::Unauthenticated)
    ));
    let sub = ReqPayload { sub_id: "s".to_string(), filters: vec![im_filter()] };
    assert!(matches!(msg(&mut s, &a, IncomingMessage::Count(sub.clone()), 1), Ok(HandlerOutcome::Done)));
    assert!(matches!(msg(&mut s, &a, IncomingMessage::Req(sub), 1), Ok(HandlerOutcome::Stored { ask_mesh: true, .. })));
    assert!(s.connection(1).unwrap().subscriptions.contains_key("s"));
    assert!(matches!(msg(&mut s, &a, IncomingMessage::Close("s".to_string()), 1), Ok(HandlerOutcome::Done)));
    assert!(!s.connection(1).unwrap().subscriptions.contains_key("s"));
    assert!(matches!(
        msg(&mut s, &a, IncomingMessage::Auth(AuthPayload { message: None, signature: None }), 1),
        Err(HandlerError::MissingAuthMessage)
    ));
    assert!(matches!(
        msg(&mut s, &a, IncomingMessage::Auth(AuthPayload { message: Some("x".to_string()), signature: None }), 1),
        Err(HandlerError::MissingAuthSignature)
    ));
    assert_eq!(HandlerError::MissingAuthSignature.message(), "missing signature field");
    assert!(!s.connection(1).unwrap().auth_state.is_authenticated());
    match msg(&mut s, &a, IncomingMessage::Auth(signed_in()), 1) {
        Ok(HandlerOutcome::Reply(m)) => assert!(m.to_text().contains(ADDRESS)),
        _ => panic!("expected a reply"),
    }
    assert!(s.connection(1).unwrap().auth_state.is_authenticated());
    assert!(matches!(
        msg(&mut s, &a, IncomingMessage::Event(room_event("e", 14, Some(1), None)), 1),
        Ok(HandlerOutcome::Broadcast { .. })
    ));
    assert!(handle_count(&mut s, &ReqPayload { sub_id: "x".to_string(), filters: vec![] }, 1).is_ok());
}

#[test]
fn events_are_checked_stored_and_answered() {
    let mut s = AppState::new(setting(2));
    let mut st = ImStorage::new("db").unwrap();
    authed(&mut s, 1);
    let mut expired = room_event("old", 14, Some(1), None);
    expired.tags = Some(vec![Tag { items: vec![TagItem::Text("expire".to_string()), TagItem::Number(50)] }]);
    assert_eq!(handle_event(&mut s, &mut st, expired.clone(), 1, 100).unwrap_err(), HandlerError::EventExpired);
    assert_eq!(HandlerError::EventExpired.message(), "Event expired or invalid timestamp");
    assert!(handle_event(&mut s, &mut st, expired, 1, 50).is_ok());
    let mut no_id = room_event("x", 14, Some(1), None);
    no_id.id = None;
    assert_eq!(handle_event(&mut s, &mut st, no_id, 1, 0).unwrap_err(), HandlerError::MissingEventId);
    assert_eq!(handle_event(&mut s, &mut st, room_event("y", 14, None, Some("r")), 1, 0).unwrap_err(), HandlerError::MissingCreatedAt);
    assert_eq!(st.len(), 1);
    handle_event(&mut s, &mut st, room_event("r1", 14, Some(5), Some("r")), 1, 0).unwrap();
    handle_event(&mut s, &mut st, room_event("r2", 14, Some(5), Some("r")), 1, 0).unwrap();
    assert_eq!(st.len(), 3);
    s.open_connection(2);
    let mut room_filter = im_filter();
    room_filter.tags.insert("room".to_string(), vec!["r".to_string()]);
    let sub = ReqPayload { sub_id: "s".to_string(), filters: vec![room_filter] };
    match handle_message(&mut s, &mut st, &authenticator(), IncomingMessage::Req(sub), 2, 0).unwrap() {
        HandlerOutcome::Stored { sub_id, events, ask_mesh } => {
            assert_eq!(sub_id, "s");
            let ids: Vec<String> = events.iter().map(|e| e.id.clone().unwrap()).collect();
            assert_eq!(ids, vec!["r1", "r2"]);
            assert!(!ask_mesh);
        }
        _ => panic!("expected stored events"),
    }
    let mut none = im_filter();
    none.kinds = vec![1059];
    let empty = ReqPayload { sub_id: "t".to_string(), filters: vec![none] };
    match handle_message(&mut s, &mut st, &authenticator(), IncomingMessage::Req(empty), 2, 0).unwrap() {
        HandlerOutcome::Stored { events, ask_mesh, .. } => {
            assert!(events.is_empty());
            assert!(ask_mesh);
        }
        _ => panic!("expected stored events"),
    }
}

#[test]
fn connections_are_admitted_up_to_the_limit() {
    let mut st = Setting::default();
    st.max_connections = 2;
    let mut s = AppState::new(st);
    assert!(s.admit_connection(1));
    assert!(s.admit_connection(2));
    assert!(!s.admit_connection(3));
    assert!(s.connection(3).is_none());
    assert_eq!(s.connection_count(), 2);
    s.close_connection(1);
    assert!(s.admit_connection(3));
    assert!(s.connection(3).is_some());
    assert!(!AppState::new(Setting::default()).admit_connection(1));
}
