// Tests of messages, SIWE, uploads, garbage collection and helpers.

use relay_core::auth::{IssuedAt, SiweAuthenticator};
use relay_core::config::{ConnectionConfig, GcConfig as GcSection, MetricsConfig, RelayConfig, SiweConfig, TlsConfig, setting_from_config};
use relay_core::error::AppError;
use relay_core::event::{Event, Tag, TagItem};
use relay_core::gc::{cleanup_expired_blobs, cleanup_expired_events, GcConfig};
use relay_core::message::{siwe_challenge_message, AuthPayload, IncomingMessage, OutgoingMessage, ReqPayload};
use relay_core::metrics::{record_event_processed, record_siwe_auth, RelayMetrics};
use relay_core::state::{AppState, AuthState, Setting};
use relay_core::storage::ImStorage;
use relay_core::text::{decimal_string, eq_ignore_ascii_case};
use relay_core::upload::{stored_file_name, upload_receipt, validate_upload, MAX_UPLOAD_BYTES};

const SIWE_MSG: &str = "localhost:4361 wants you to sign in with your Ethereum account:\n0x6Da01670d8fc844e736095918bbE11fE8D564163\n\nSIWE Notepad Example\n\nURI: http://localhost:4361\nVersion: 1\nChain ID: 1\nNonce: kEWepMt9knR6lWJ6A\nIssued At: 2021-12-07T18:28:18.807Z";

const SIWE_SIG: &str = "0x6228b3ecd7bf2df018183aeab6b6f1db1e9f4e3cbe24560404112e25363540eb679934908143224d746bbb5e1aa65ab435684081f4dbb74a0fec57f98f40f5051c";

fn auth() -> SiweAuthenticator {
    SiweAuthenticator::new("localhost:4361".to_string(), "http://localhost:4361".to_string(), 1)
}

#[test]
fn outgoing_constructors_and_text() {
    let ok = OutgoingMessage::ok("id1", true, "fine");
    assert_eq!(ok.to_text(), r#"["OK","id1",true,"fine"]"#);
    let no = OutgoingMessage::ok("id2", false, "say \"no\"");
    assert_eq!(no.to_text(), r#"["OK","id2",false,"say \"no\""]"#);
    assert_eq!(OutgoingMessage::notice("hi").to_text(), r#"["NOTICE","hi"]"#);
    assert_eq!(OutgoingMessage::eose("s1").to_text(), r#"["EOSE","s1"]"#);
    assert_eq!(OutgoingMessage::count("s1", 42).to_text(), r#"["COUNT","s1",42]"#);
    assert_eq!(OutgoingMessage::closed("s1", "bye").to_text(), r#"["CLOSED","s1","bye"]"#);
    let e = Event { raw: r#"{"id":"x"}"#.to_string(), id: None, pubkey: None, kind: None, created_at: None, tags: None };
    assert_eq!(OutgoingMessage::Event(e).to_text(), r#"["EVENT",{"id":"x"}]"#);
    assert_eq!(OutgoingMessage::ok("e1", true, "").to_text(), r#"["OK","e1",true,""]"#);
    assert_eq!(OutgoingMessage::count("s1", 3).to_text(), r#"["COUNT","s1",3]"#);
}

#[test]
fn outgoing_text_escapes_control_characters() {
    let notice = |m: &str| format!("[\"NOTICE\",{}]", m);
    assert_eq!(OutgoingMessage::notice("a\nb").to_text(), notice("\"a\\nb\""));
    assert_eq!(OutgoingMessage::notice("t\tr\r").to_text(), notice("\"t\\tr\\r\""));
    assert_eq!(OutgoingMessage::notice("\u{1}").to_text(), notice("\"\\u0001\""));
    assert_eq!(OutgoingMessage::notice("\u{1f}").to_text(), notice("\"\\u001f\""));
    assert_eq!(OutgoingMessage::notice("back\\slash").to_text(), notice("\"back\\\\slash\""));
    assert_eq!(OutgoingMessage::notice("é").to_text(), notice("\"é\""));
}

#[test]
fn incoming_names() {
    let sub = ReqPayload { sub_id: "s".to_string(), filters: vec![] };
    assert_eq!(IncomingMessage::Req(sub.clone()).name(), "REQ");
    assert_eq!(IncomingMessage::Count(sub).name(), "COUNT");
    assert_eq!(IncomingMessage::Close("s".to_string()).name(), "CLOSE");
    assert_eq!(IncomingMessage::Auth(AuthPayload { message: None, signature: None }).name(), "AUTH");
    assert_eq!(IncomingMessage::Unknown.name(), "UNKNOWN");
    let e = Event { raw: String::new(), id: None, pubkey: None, kind: None, created_at: None, tags: None };
    assert_eq!(IncomingMessage::Event(e).name(), "EVENT");
}

#[test]
fn siwe_challenge_text() {
    let m = siwe_challenge_message("example.com", "https://example.com", "abcdefgh", "2021-01-01T00:00:00Z");
    assert_eq!(
        m,
        "example.com wants you to sign in with your Ethereum account:\n\nURI: https://example.com\nVersion: 1\nChain ID: 1\nNonce: abcdefgh\nIssued At: 2021-01-01T00:00:00Z"
    );
}

#[test]
fn generate_challenge_for_chain_one_equals_message() {
    let a = SiweAuthenticator::new("example.com".to_string(), "https://example.com".to_string(), 1);
    let t = IssuedAt::from_timestamp(1431648000, 0).unwrap();
    assert_eq!(t.to_rfc3339(), "2015-05-15T00:00:00+00:00");
    assert_eq!(
        a.generate_challenge("nonce123", &t),
        siwe_challenge_message("example.com", "https://example.com", "nonce123", "2015-05-15T00:00:00+00:00")
    );
    let b = SiweAuthenticator::new("example.com".to_string(), "https://example.com".to_string(), 137);
    assert!(b.generate_challenge("n", &t).contains("\nChain ID: 137\n"));
}

#[test]
fn issued_at_out_of_range() {
    assert!(IssuedAt::from_timestamp(i64::MAX, 0).is_none());
    assert!(IssuedAt::from_timestamp(0, 2_000_000_000).is_none());
}

#[test]
fn challenge_envelope_quotes_the_challenge() {
    let t = IssuedAt::from_timestamp(0, 0).unwrap();
    let env = auth().challenge_envelope("n", &t);
    assert_eq!(
        env,
        "[\"AUTH\", \"challenge\", \"localhost:4361 wants you to sign in with your Ethereum account:\\n\\nURI: http://localhost:4361\\nVersion: 1\\nChain ID: 1\\nNonce: n\\nIssued At: 1970-01-01T00:00:00+00:00\"]"
    );
    let created = auth().create_challenge().unwrap();
    assert!(created.starts_with("[\"AUTH\", \"challenge\", \"localhost:4361 wants you"));
}

#[test]
fn verify_siwe_checks_signature_and_gives_checksummed_address() {
    let a = auth();
    assert_eq!(a.verify_siwe(SIWE_MSG, SIWE_SIG).unwrap(), "0x6Da01670d8fc844e736095918bbE11fE8D564163");
    assert_eq!(a.verify_siwe(SIWE_MSG, &SIWE_SIG[2..]).unwrap(), "0x6Da01670d8fc844e736095918bbE11fE8D564163");
    assert_eq!(a.verify_siwe(SIWE_MSG, &SIWE_SIG.to_uppercase().replace("0X", "0x")).unwrap(), "0x6Da01670d8fc844e736095918bbE11fE8D564163");
    let upper = SiweAuthenticator::new("LOCALHOST:4361".to_string(), "http://localhost:4361".to_string(), 1);
    assert!(upper.verify_siwe(SIWE_MSG, SIWE_SIG).is_ok());
}

#[test]
fn verify_siwe_errors() {
    assert_eq!(auth().verify_siwe("hello", SIWE_SIG).unwrap_err(), "invalid SIWE message format");
    let other_uri = SiweAuthenticator::new("localhost:4361".to_string(), "http://localhost:9999".to_string(), 1);
    assert_eq!(other_uri.verify_siwe(SIWE_MSG, SIWE_SIG).unwrap_err(), "domain or uri mismatch");
    let other_domain = SiweAuthenticator::new("example.com".to_string(), "http://localhost:4361".to_string(), 1);
    assert_eq!(other_domain.verify_siwe(SIWE_MSG, SIWE_SIG).unwrap_err(), "domain or uri mismatch");
    let other_chain = SiweAuthenticator::new("localhost:4361".to_string(), "http://localhost:4361".to_string(), 5);
    assert_eq!(other_chain.verify_siwe(SIWE_MSG, SIWE_SIG).unwrap_err(), "chain id mismatch");
    // A signature that is missing, not hex, of the wrong length, or of another signer.
    assert_eq!(auth().verify_siwe(SIWE_MSG, "0x").unwrap_err(), "invalid signature");
    assert_eq!(auth().verify_siwe(SIWE_MSG, "0xzz").unwrap_err(), "invalid signature");
    assert_eq!(auth().verify_siwe(SIWE_MSG, "0xabc").unwrap_err(), "invalid signature");
    assert_eq!(auth().verify_siwe(SIWE_MSG, &SIWE_SIG[..SIWE_SIG.len() - 2]).unwrap_err(), "invalid signature");
    let mut forged = SIWE_SIG.to_string();
    forged.replace_range(10..12, if &SIWE_SIG[10..12] == "00" { "01" } else { "00" });
    assert_eq!(auth().verify_siwe(SIWE_MSG, &forged).unwrap_err(), "invalid signature");
}

#[test]
fn handle_auth_message_outcomes() {
    let mut s = AppState::new(Setting::default());
    s.open_connection(9);
    let missing = AuthPayload { message: None, signature: Some("0x".to_string()) };
    assert_eq!(auth().handle_auth_message(&missing, &mut s, 9).unwrap_err(), "missing message field");
    let nosig = AuthPayload { message: Some(SIWE_MSG.to_string()), signature: None };
    assert_eq!(auth().handle_auth_message(&nosig, &mut s, 9).unwrap_err(), "missing signature field");
    let bad = AuthPayload { message: Some("x".to_string()), signature: Some(SIWE_SIG.to_string()) };
    match auth().handle_auth_message(&bad, &mut s, 9).unwrap() {
        OutgoingMessage::OkReply { id, status, message } => {
            assert_eq!(id.len(), 36);
            assert!(!status);
            assert_eq!(message, "SIWE failed: invalid SIWE message format");
        }
        _ => panic!("expected OK"),
    }
    let unsigned = AuthPayload { message: Some(SIWE_MSG.to_string()), signature: Some("0x".to_string()) };
    match auth().handle_auth_message(&unsigned, &mut s, 9).unwrap() {
        OutgoingMessage::OkReply { status, message, .. } => {
            assert!(!status);
            assert_eq!(message, "SIWE failed: invalid signature");
        }
        _ => panic!("expected OK"),
    }
    assert!(!s.connection(9).unwrap().auth_state.is_authenticated());
    let good = AuthPayload { message: Some(SIWE_MSG.to_string()), signature: Some(SIWE_SIG.to_string()) };
    match auth().handle_auth_message(&good, &mut s, 9).unwrap() {
        OutgoingMessage::OkReply { status, message, .. } => {
            assert!(status);
            assert_eq!(message, "SIWE authenticated as 0x6Da01670d8fc844e736095918bbE11fE8D564163");
        }
        _ => panic!("expected OK"),
    }
    match &s.connection(9).unwrap().auth_state {
        AuthState::SiweAddress(a) => assert_eq!(a, "0x6Da01670d8fc844e736095918bbE11fE8D564163"),
        _ => panic!("expected an address"),
    }
}

#[test]
fn auth_reply_ids_are_random_uuids() {
    let mut s = AppState::new(Setting::default());
    let bad = AuthPayload { message: Some("x".to_string()), signature: Some("0x".to_string()) };
    let first = auth().handle_auth_message(&bad, &mut s, 1).unwrap();
    let second = auth().handle_auth_message(&bad, &mut s, 1).unwrap();
    match (first, second) {
        (OutgoingMessage::OkReply { id: a, .. }, OutgoingMessage::OkReply { id: b, .. }) => {
            assert_eq!(a.len(), 36);
            assert_eq!(a.matches('-').count(), 4);
            for (i, c) in a.chars().enumerate() {
                if i == 8 || i == 13 || i == 18 || i == 23 {
                    assert_eq!(c, '-');
                } else {
                    assert!(c.is_ascii_digit() || ('a'..='f').contains(&c));
                }
            }
            assert_eq!(a.chars().nth(14), Some('4'));
            assert!(matches!(a.chars().nth(19), Some('8' | '9' | 'a' | 'b')));
            assert_ne!(a, b);
        }
        _ => panic!("expected OK replies"),
    }
}

#[test]
fn upload_validation() {
    assert_eq!(validate_upload(None, Some("image/png".to_string())).unwrap_err().message(), "Internal server error: missing file name");
    assert!(matches!(validate_upload(Some("a.bin".to_string()), None), Err(AppError::UnsupportedFileType)));
    assert!(matches!(validate_upload(Some("a.exe".to_string()), Some("text/plain".to_string())), Err(AppError::ExecutableNotAllowed)));
    assert!(matches!(validate_upload(Some("a.EXE".to_string()), Some("text/plain".to_string())), Err(AppError::ExecutableNotAllowed)));
    assert!(matches!(validate_upload(Some("a.png".to_string()), Some("image/jpeg".to_string())), Err(AppError::MimeMismatch)));
    let plan = validate_upload(Some("Photo.PNG".to_string()), Some("image/png".to_string())).unwrap();
    assert_eq!(plan.extension, "png");
    assert_eq!(plan.content_type, "image/png");
    let unknown = validate_upload(Some("notes".to_string()), Some("text/plain".to_string())).unwrap();
    assert_eq!(unknown.extension, "");
}

#[test]
fn upload_receipt_hash_and_limit() {
    let plan = validate_upload(Some("a.txt".to_string()), Some("text/plain".to_string())).unwrap();
    let r = upload_receipt(&plan, "u1", b"hello").unwrap();
    assert_eq!(r.url, "/blobs/u1.txt");
    assert_eq!(r.hash, "2cf24dba5fb0a30e26e83b2ac5b9e29e1b161e5c1fa7425e73043362938b9824");
    assert_eq!(r.mime, "text/plain");
    assert_eq!(r.size, 5);
    let big = vec![0u8; MAX_UPLOAD_BYTES + 1];
    assert!(matches!(upload_receipt(&plan, "u1", &big), Err(AppError::FileTooLarge)));
    let exact = vec![0u8; MAX_UPLOAD_BYTES];
    assert!(upload_receipt(&plan, "u1", &exact).is_ok());
    assert_eq!(stored_file_name("u1", "txt"), "u1.txt");
}

fn tagged(id: &str, tags: Vec<Vec<TagItem>>) -> Event {
    Event {
        raw: String::new(),
        id: Some(id.to_string()),
        pubkey: None,
        kind: Some(14),
        created_at: Some(1),
        tags: Some(tags.into_iter().map(|items| Tag { items }).collect()),
    }
}

fn text(s: &str) -> TagItem {
    TagItem::Text(s.to_string())
}

#[test]
fn gc_default_config() {
    let c = GcConfig::default();
    assert_eq!(c.default_event_ttl, 31_536_000);
    assert_eq!(c.min_event_ttl, 15_552_000);
    assert_eq!(c.blob_dir, "./blobs");
    assert_eq!(c.interval_seconds, 3600);
}

#[test]
fn cleanup_events_keeps_events_for_their_ttl() {
    // Events created at time 1; least TTL 100, default TTL 1000.
    let mut c = GcConfig::default();
    c.min_event_ttl = 100;
    c.default_event_ttl = 1000;
    let mut s = ImStorage::new("db").unwrap();
    s.save_event(&tagged("late", vec![vec![text("expire"), TagItem::Number(5000)]])).unwrap();
    s.save_event(&tagged("short", vec![vec![text("expire"), TagItem::Number(10)]])).unwrap();
    s.save_event(&tagged("plain", vec![])).unwrap();
    // A short user expiry is raised to creation + least TTL (101).
    assert_eq!(cleanup_expired_events(&mut s, 101, &c).unwrap(), 0);
    assert_eq!(cleanup_expired_events(&mut s, 102, &c).unwrap(), 1);
    assert_eq!(s.len(), 2);
    // An untagged event lives the default TTL after creation (1001).
    assert_eq!(cleanup_expired_events(&mut s, 1001, &c).unwrap(), 0);
    assert_eq!(cleanup_expired_events(&mut s, 1002, &c).unwrap(), 1);
    assert_eq!(s.len(), 1);
    assert_eq!(s.event_at(0).id, Some("late".to_string()));
    // With the defaults, nothing created at time 1 goes within six months.
    let mut t = ImStorage::new("db").unwrap();
    t.save_event(&tagged("plain", vec![])).unwrap();
    t.save_event(&tagged("short", vec![vec![text("expire"), TagItem::Number(10)]])).unwrap();
    let d = GcConfig::default();
    assert_eq!(cleanup_expired_events(&mut t, 15_552_001, &d).unwrap(), 0);
    assert_eq!(cleanup_expired_events(&mut t, 15_552_002, &d).unwrap(), 1);
    assert_eq!(cleanup_expired_events(&mut t, 31_536_002, &d).unwrap(), 1);
    assert_eq!(t.len(), 0);
}

#[test]
fn cleanup_blobs_lists_expired_files() {
    let mut s = ImStorage::new("db").unwrap();
    s.save_event(&tagged("a", vec![vec![text("file"), text("f1")], vec![text("file_expire"), TagItem::Number(5)]])).unwrap();
    s.save_event(&tagged("b", vec![vec![text("file"), text("f2")], vec![text("file_expire"), TagItem::Number(500)], vec![text("expire"), TagItem::Number(5)]])).unwrap();
    s.save_event(&tagged("c", vec![vec![text("file"), text("f3")], vec![text("expire"), TagItem::Number(5)]])).unwrap();
    s.save_event(&tagged("d", vec![vec![text("file"), text("f4")]])).unwrap();
    s.save_event(&tagged("e", vec![])).unwrap();
    let mut c = GcConfig::default();
    c.default_event_ttl = 10;
    // f4 has no expiry tag: it lives 10 seconds after its event (time 1).
    assert_eq!(cleanup_expired_blobs(&s, 100, &c), vec!["f1".to_string(), "f3".to_string(), "f4".to_string()]);
    assert_eq!(cleanup_expired_blobs(&s, 11, &c), vec!["f1".to_string(), "f3".to_string()]);
    assert_eq!(cleanup_expired_blobs(&s, 12, &c), vec!["f1".to_string(), "f3".to_string(), "f4".to_string()]);
    assert_eq!(cleanup_expired_blobs(&s, 5, &c), Vec::<String>::new());
}

#[test]
fn cleanup_blobs_skips_names_with_paths() {
    let mut s = ImStorage::new("db").unwrap();
    for (id, name) in [("a", "/etc/passwd"), ("b", "../data.mdb"), ("c", ".."), ("d", "x\\y"), ("e", "c:x"), ("f", ""), ("g", "ok.png")] {
        s.save_event(&tagged(id, vec![vec![text("file"), text(name)], vec![text("file_expire"), TagItem::Number(1)]])).unwrap();
    }
    assert_eq!(cleanup_expired_blobs(&s, 100, &GcConfig::default()), vec!["ok.png".to_string()]);
}

#[test]
fn error_texts() {
    assert_eq!(AppError::Io("disk".to_string()).message(), "IO error: disk");
    assert_eq!(AppError::TooManySubscriptions(20).message(), "Too many subscriptions (max: 20)");
    assert_eq!(AppError::FileTooLarge.message(), "File too large (max 50MB)");
    assert_eq!(AppError::MimeMismatch.message(), "MIME type mismatch");
    assert_eq!(AppError::Mdns("x".to_string()).message(), "mDNS error: x");
    assert_eq!(AppError::InsufficientPeers.message(), "Not enough peers for backup operation");
}

#[test]
fn metrics_counters() {
    let mut m = RelayMetrics::new();
    record_event_processed(&mut m);
    record_siwe_auth(&mut m, true);
    record_siwe_auth(&mut m, false);
    record_siwe_auth(&mut m, false);
    assert_eq!((m.events_processed, m.siwe_auth_success, m.siwe_auth_failed), (1, 1, 2));
    m.events_processed = u64::MAX;
    record_event_processed(&mut m);
    assert_eq!(m.events_processed, 0);
}

#[test]
fn text_helpers() {
    assert_eq!(decimal_string(0), "0");
    assert_eq!(decimal_string(1234567890), "1234567890");
    assert_eq!(decimal_string(u64::MAX), u64::MAX.to_string());
    assert!(eq_ignore_ascii_case("Local:1", "lOCAL:1"));
    assert!(!eq_ignore_ascii_case("a", "ab"));
    assert!(!eq_ignore_ascii_case("É", "é"));
}

#[test]
fn settings_from_config() {
    let cfg = RelayConfig {
        listen_addr: "0.0.0.0:8080".to_string(),
        lmdb_path: "db".to_string(),
        blob_dir: "blobs".to_string(),
        siwe: SiweConfig { domain: "d".to_string(), uri: "u".to_string(), chain_id: 10 },
        gc: GcSection { enabled: true, interval_seconds: 60 },
        connection: ConnectionConfig { max_connections: 10, max_subscriptions_per_conn: 5, event_ttl_seconds: 99 },
        metrics: MetricsConfig { enabled: false, endpoint: "/metrics".to_string() },
        tls: TlsConfig { enabled: false, cert_path: None, key_path: None },
    };
    let s = setting_from_config(&cfg);
    assert_eq!(s.listen_addr, "0.0.0.0:8080");
    assert_eq!(s.siwe_chain_id, 10);
    assert_eq!(s.max_subscriptions_per_conn, 5);
    assert_eq!(s.max_connections, 10);
    assert_eq!(s.event_ttl_seconds, 99);
    assert_eq!(s.blob_dir, "blobs");
}
