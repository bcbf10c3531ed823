// Tests of the event model, filters and storage.

use relay_core::event::{extract_room_id, is_room_message, Event, Tag, TagItem};
use relay_core::filter::Filter;
use relay_core::keyed::TextMap;
use relay_core::storage::{EventTimeKey, ImStorage};
use relay_core::store::{KeyOrder, OrderedTree};

fn tag(items: &[&str]) -> Tag {
    Tag { items: items.iter().map(|s| TagItem::Text(s.to_string())).collect() }
}

fn event(id: &str, pubkey: &str, kind: u64, created_at: u64, tags: Vec<Tag>) -> Event {
    Event {
        raw: format!("{{\"id\":\"{}\",\"kind\":{}}}", id, kind),
        id: Some(id.to_string()),
        pubkey: Some(pubkey.to_string()),
        kind: Some(kind),
        created_at: Some(created_at),
        tags: Some(tags),
    }
}

fn filter(kinds: &[u64]) -> Filter {
    let mut f = Filter::default();
    f.kinds = kinds.to_vec();
    f
}

fn tag_filter(name: &str, values: &[&str]) -> TextMap<Vec<String>> {
    let mut m = TextMap::new();
    m.insert(name.to_string(), values.iter().map(|s| s.to_string()).collect());
    m
}

fn ids(v: &[Event]) -> Vec<String> {
    v.iter().map(|e| e.id.clone().unwrap()).collect()
}

#[test]
fn im_compatible_needs_kinds() {
    let mut f = filter(&[]);
    f.authors = vec!["alice".to_string()];
    assert!(!f.is_im_compatible());
    f.kinds = vec![14];
    assert!(f.is_im_compatible());
}

#[test]
fn im_compatible_rejects_other_tags() {
    let mut f = filter(&[14]);
    f.authors = vec!["alice".to_string()];
    f.tags = tag_filter("t", &["x"]);
    assert!(!f.is_im_compatible());
}

#[test]
fn im_compatible_needs_a_target() {
    let f = filter(&[14]);
    assert!(!f.is_im_compatible());
    let mut g = filter(&[14]);
    g.tags = tag_filter("room", &["r1"]);
    assert!(g.is_im_compatible());
    let mut h = filter(&[14]);
    h.tags = tag_filter("p", &["bob"]);
    assert!(h.is_im_compatible());
    let mut e = filter(&[14]);
    e.tags = tag_filter("e", &["x"]);
    assert!(!e.is_im_compatible());
}

#[test]
fn matches_checks_kind_author_time_and_ids() {
    let e = event("id1", "alice", 14, 100, vec![]);
    let mut f = filter(&[14]);
    assert!(f.matches(&e));
    f.kinds = vec![1059];
    assert!(!f.matches(&e));
    f.kinds = vec![];
    assert!(f.matches(&e));
    f.authors = vec!["bob".to_string()];
    assert!(!f.matches(&e));
    f.authors = vec!["alice".to_string()];
    f.since = Some(101);
    assert!(!f.matches(&e));
    f.since = Some(100);
    f.until = Some(99);
    assert!(!f.matches(&e));
    f.until = Some(100);
    assert!(f.matches(&e));
    f.ids = vec!["id2".to_string()];
    assert!(!f.matches(&e));
    f.ids = vec!["id1".to_string()];
    assert!(f.matches(&e));
}

#[test]
fn matches_needs_a_kind() {
    let mut e = event("id1", "alice", 14, 100, vec![]);
    e.kind = None;
    assert!(!Filter::default().matches(&e));
}

#[test]
fn matches_ignores_time_of_untimed_event() {
    let mut e = event("id1", "alice", 14, 100, vec![]);
    e.created_at = None;
    let mut f = filter(&[14]);
    f.since = Some(500);
    assert!(f.matches(&e));
}

#[test]
fn matches_tags_with_lowercased_name() {
    let e = event("id1", "alice", 14, 100, vec![tag(&["room", "r1"])]);
    let mut f = filter(&[14]);
    f.tags = tag_filter("ROOM", &["r1"]);
    assert!(f.matches(&e));
    f.tags = tag_filter("room", &["r2"]);
    assert!(!f.matches(&e));
    let short = event("id2", "alice", 14, 100, vec![tag(&["room"])]);
    f.tags = tag_filter("room", &["r1"]);
    assert!(!f.matches(&short));
}

#[test]
fn filter_tag_names_are_kept_once() {
    let e = event("id1", "alice", 14, 100, vec![tag(&["room", "r1"]), tag(&["p", "bob"])]);
    let mut f = filter(&[14]);
    f.tags.insert("room".to_string(), vec!["r2".to_string()]);
    f.tags.insert("room".to_string(), vec!["r1".to_string()]);
    assert_eq!(f.tags.len(), 1);
    assert!(f.matches(&e));
    f.tags.insert("p".to_string(), vec!["carol".to_string()]);
    assert_eq!(f.tags.len(), 2);
    assert!(!f.matches(&e));
    let g = f.copy();
    assert_eq!(g.tags.len(), 2);
    assert_eq!(g.tags.key_at(0), "room");
    assert_eq!(g.tags.value_at(1), &vec!["carol".to_string()]);
    assert!(!g.matches(&e));
}

#[test]
fn matches_tag_value_must_be_text() {
    let e = event(
        "id1",
        "alice",
        14,
        100,
        vec![Tag { items: vec![TagItem::Text("room".to_string()), TagItem::Number(7)] }],
    );
    let mut f = filter(&[14]);
    f.tags = tag_filter("room", &["7"]);
    assert!(!f.matches(&e));
}

#[test]
fn matches_passes_tag_filters_without_tags_array() {
    let mut e = event("id1", "alice", 14, 100, vec![]);
    e.tags = None;
    let mut f = filter(&[14]);
    f.tags = tag_filter("room", &["r1"]);
    assert!(f.matches(&e));
}

#[test]
fn from_req_array_sets_sub_id() {
    let parsed = filter(&[14]);
    let f = Filter::from_req_array(3, Some("sub".to_string()), Some(parsed)).unwrap();
    assert_eq!(f.id, Some("sub".to_string()));
    assert_eq!(f.kinds, vec![14]);
    assert!(Filter::from_req_array(1, Some("sub".to_string()), Some(filter(&[14]))).is_none());
    assert!(Filter::from_req_array(3, Some("sub".to_string()), None).is_none());
}

#[test]
fn room_helpers_use_first_room_tag() {
    let e = event("id1", "alice", 14, 100, vec![tag(&["p", "bob"]), tag(&["room", "r1"]), tag(&["room", "r2"])]);
    assert_eq!(extract_room_id(&e), Some("r1".to_string()));
    assert!(is_room_message(&e));
    let plain = event("id2", "alice", 14, 100, vec![tag(&["p", "bob"])]);
    assert_eq!(extract_room_id(&plain), None);
    assert!(!is_room_message(&plain));
    let bare = event("id3", "alice", 14, 100, vec![tag(&["room"])]);
    assert_eq!(extract_room_id(&bare), None);
    assert!(is_room_message(&bare));
}

#[test]
fn save_then_query_in_id_order() {
    let mut s = ImStorage::new("db").unwrap();
    s.save_event(&event("c", "alice", 14, 3, vec![])).unwrap();
    s.save_event(&event("a", "alice", 14, 1, vec![])).unwrap();
    s.save_event(&event("b", "bob", 1059, 2, vec![])).unwrap();
    let all = s.query_by_filter(&filter(&[])).unwrap();
    assert_eq!(ids(&all), vec!["a", "b", "c"]);
    let dms = s.query_by_filter(&filter(&[14])).unwrap();
    assert_eq!(ids(&dms), vec!["a", "c"]);
}

#[test]
fn save_replaces_same_id() {
    let mut s = ImStorage::new("db").unwrap();
    s.save_event(&event("a", "alice", 14, 1, vec![])).unwrap();
    s.save_event(&event("a", "bob", 14, 2, vec![])).unwrap();
    let all = s.query_by_filter(&filter(&[])).unwrap();
    assert_eq!(all.len(), 1);
    assert_eq!(all[0].pubkey, Some("bob".to_string()));
}

#[test]
fn save_refuses_event_without_id() {
    let mut s = ImStorage::new("db").unwrap();
    let mut e = event("a", "alice", 14, 1, vec![]);
    e.id = None;
    let err = s.save_event(&e).unwrap_err();
    assert_eq!(err.message(), "Invalid Nostr event: missing id");
    assert_eq!(s.len(), 0);
}

#[test]
fn save_refuses_room_event_without_time() {
    let mut s = ImStorage::new("db").unwrap();
    let mut e = event("a", "alice", 14, 1, vec![tag(&["room", "r1"])]);
    e.created_at = None;
    let err = s.save_event(&e).unwrap_err();
    assert_eq!(err.message(), "Invalid Nostr event: missing created_at");
    assert_eq!(s.len(), 0);
}

#[test]
fn room_query_scans_index_from_room_prefix() {
    let mut s = ImStorage::new("db").unwrap();
    s.save_event(&event("x1", "alice", 14, 5, vec![tag(&["room", "a"])])).unwrap();
    s.save_event(&event("x2", "alice", 14, 7, vec![tag(&["room", "b"])])).unwrap();
    s.save_event(&event("x3", "alice", 14, 6, vec![tag(&["room", "b"])])).unwrap();
    let mut f = filter(&[14]);
    f.tags = tag_filter("room", &["b"]);
    let found = s.query_by_filter(&f).unwrap();
    assert_eq!(ids(&found), vec!["x3", "x2"]);
    let mut g = filter(&[14]);
    g.tags = tag_filter("room", &["a", "b"]);
    let found_ab = s.query_by_filter(&g).unwrap();
    assert_eq!(ids(&found_ab), vec!["x1", "x3", "x2"]);
}

#[test]
fn room_query_covers_every_named_room() {
    let mut s = ImStorage::new("db").unwrap();
    s.save_event(&event("x1", "alice", 14, 5, vec![tag(&["room", "a"])])).unwrap();
    s.save_event(&event("x2", "alice", 14, 7, vec![tag(&["room", "b"])])).unwrap();
    s.save_event(&event("x3", "alice", 14, 5, vec![tag(&["room", "c"])])).unwrap();
    let mut f = filter(&[14]);
    f.tags = tag_filter("room", &["b", "a"]);
    let found = s.query_by_filter(&f).unwrap();
    assert_eq!(ids(&found), vec!["x1", "x2"]);
}

#[test]
fn room_query_keeps_events_of_the_same_second() {
    let mut s = ImStorage::new("db").unwrap();
    s.save_event(&event("e1", "alice", 14, 5, vec![tag(&["room", "r"])])).unwrap();
    s.save_event(&event("e2", "alice", 14, 5, vec![tag(&["room", "r"])])).unwrap();
    s.save_event(&event("e1", "alice", 14, 5, vec![tag(&["room", "r"])])).unwrap();
    let mut f = filter(&[14]);
    f.tags = tag_filter("room", &["r"]);
    assert_eq!(ids(&s.query_by_filter(&f).unwrap()), vec!["e1", "e2"]);
}

#[test]
fn full_scan_excludes_untimed_events_below_since() {
    let mut s = ImStorage::new("db").unwrap();
    let mut e = event("a", "alice", 14, 1, vec![]);
    e.created_at = None;
    s.save_event(&e).unwrap();
    s.save_event(&event("b", "alice", 14, 10, vec![])).unwrap();
    let mut f = filter(&[14]);
    f.since = Some(5);
    assert_eq!(ids(&s.query_by_filter(&f).unwrap()), vec!["b"]);
    assert_eq!(ids(&s.query_by_filter(&filter(&[14])).unwrap()), vec!["a", "b"]);
}

#[test]
fn gc_expired_removes_only_expired_tagged_events() {
    let mut s = ImStorage::new("db").unwrap();
    let mut old = event("old", "alice", 14, 1, vec![]);
    old.tags = Some(vec![Tag { items: vec![TagItem::Text("expire".to_string()), TagItem::Number(50)] }]);
    let mut fresh = event("fresh", "alice", 14, 1, vec![]);
    fresh.tags = Some(vec![Tag { items: vec![TagItem::Text("expire".to_string()), TagItem::Number(500)] }]);
    let untagged = event("untagged", "alice", 14, 1, vec![]);
    let mut text_expire = event("text", "alice", 14, 1, vec![]);
    text_expire.tags = Some(vec![tag(&["expire", "10"])]);
    for e in [&old, &fresh, &untagged, &text_expire] {
        s.save_event(e).unwrap();
    }
    assert_eq!(s.gc_expired(100).unwrap(), 1);
    assert_eq!(ids(&s.query_by_filter(&filter(&[])).unwrap()), vec!["fresh", "text", "untagged"]);
}

#[test]
fn event_copy_keeps_fields() {
    let e = event("a", "alice", 14, 1, vec![tag(&["room", "r"])]);
    let c = e.copy();
    assert_eq!(c.id, e.id);
    assert_eq!(c.raw, e.raw);
    assert_eq!(c.tags.unwrap().len(), 1);
}

#[test]
fn event_time_key_orders_by_time_then_id() {
    let a = EventTimeKey { created_at: 100, id: "b".to_string() };
    let b = EventTimeKey { created_at: 200, id: "a".to_string() };
    let c = EventTimeKey { created_at: 100, id: "c".to_string() };
    assert_eq!(a.time(), 100);
    assert_eq!(a.cmp(&b), KeyOrder::Less);
    assert_eq!(b.cmp(&a), KeyOrder::Greater);
    assert_eq!(a.cmp(&c), KeyOrder::Less);
    assert_eq!(c.cmp(&a), KeyOrder::Greater);
    assert_eq!(a.cmp(&a.clone()), KeyOrder::Equal);
    assert!(a.eq(&EventTimeKey { created_at: 100, id: "b".to_string() }));
    assert!(!a.eq(&c));
    assert_eq!(a.change_time(b"ignored", 42), b"42:b".to_vec());
}

#[test]
fn ordered_tree_read_after_write_and_delete() {
    let mut t: OrderedTree<u32> = OrderedTree::new();
    t.put(b"b".to_vec(), 2);
    t.put(b"a".to_vec(), 1);
    t.put(b"ab".to_vec(), 3);
    assert_eq!(t.len(), 3);
    assert_eq!(t.key_at(0), b"a");
    assert_eq!(t.key_at(1), b"ab");
    assert_eq!(t.key_at(2), b"b");
    t.put(b"a".to_vec(), 10);
    assert_eq!(t.len(), 3);
    assert_eq!(t.get(b"a"), Some(&10));
    assert_eq!(t.get(b"b"), Some(&2));
    assert!(t.del(b"ab"));
    assert!(!t.del(b"ab"));
    assert_eq!(t.get(b"ab"), None);
    assert_eq!(t.get(b"a"), Some(&10));
    assert_eq!(t.len(), 2);
}

#[test]
fn text_map_insert_then_remove_restores() {
    let mut m: TextMap<u32> = TextMap::new();
    m.insert("x".to_string(), 1);
    m.insert("y".to_string(), 2);
    m.insert("x".to_string(), 3);
    assert_eq!(m.len(), 2);
    assert_eq!(m.get("x"), Some(&3));
    m.remove("y");
    assert!(!m.contains_key("y"));
    assert_eq!(m.get("x"), Some(&3));
    let c = m.clone();
    assert_eq!(c.len(), 1);
    assert_eq!(c.key_at(0), "x");
    assert_eq!(c.value_at(0), &3);
}
