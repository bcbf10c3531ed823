//! Garbage collection: which stored events and which uploaded files have
//! expired.

use vstd::prelude::*;
use vstd::string::{StringExecFns, StringSliceAdditionalSpecFns};
use vstd::utf8::encode_utf8;
use crate::error::AppError;
use crate::event::{Event, EventView, event_tag_text, event_tag_u64};
use crate::storage::{ImStorage, sat_add, scan_time, unexpired};

verus! {

/// How garbage collection runs.
#[derive(Clone, Debug)]
pub struct GcConfig {
    /// Seconds an event is kept by default.
    pub default_event_ttl: u64,
    /// The least number of seconds an event is kept by default.
    pub min_event_ttl: u64,
    /// The directory uploaded files are stored in.
    pub blob_dir: String,
    /// Seconds between two collections.
    pub interval_seconds: u64,
}

impl Default for GcConfig {
    /// One year of default TTL, six months at least, files in `./blobs`,
    /// one collection an hour.
    fn default() -> (c: GcConfig)
        ensures
            c.default_event_ttl == 31_536_000,
            c.min_event_ttl == 15_552_000,
            c.blob_dir@ == "./blobs"@,
            c.interval_seconds == 3600,
    {
        GcConfig {
            default_event_ttl: 31_536_000,
            min_event_ttl: 15_552_000,
            blob_dir: String::from_str("./blobs"),
            interval_seconds: 3600,
        }
    }
}

/// The larger of the default and the least TTL.
pub open spec fn event_ttl(config: GcConfig) -> u64 {
    if config.default_event_ttl >= config.min_event_ttl {
        config.default_event_ttl
    } else {
        config.min_event_ttl
    }
}

/// Removes every stored event whose expiry lies below `now`: the integer
/// value of its `expire` tag, but never before the least TTL after the
/// event's creation, or else the larger of the default and the least TTL
/// after its creation (`created_at`, or 0). Returns how many events were
/// removed.
pub fn cleanup_expired_events(storage: &mut ImStorage, now: u64, config: &GcConfig) -> (r: Result<
    usize,
    AppError,
>)
    ensures
        final(storage).path() == old(storage).path(),
        final(storage).events() == unexpired(
            old(storage).events(),
            now,
            Some((config.min_event_ttl, event_ttl(*config))),
        ),
        final(storage).room_index() == old(storage).room_index(),
        r matches Ok(n) && n + final(storage).events().len() == old(storage).events().len(),
{
    let ttl = if config.default_event_ttl >= config.min_event_ttl {
        config.default_event_ttl
    } else {
        config.min_event_ttl
    };
    Ok(storage.sweep(now, Some((config.min_event_ttl, ttl))))
}

/// The expiry of an event's file: its `file_expire` tag, else its `expire`
/// tag, else the default TTL after the event's creation (`created_at`, or
/// 0).
pub open spec fn file_expiry(e: EventView, default_ttl: u64) -> u64 {
    match event_tag_u64(e, "file_expire"@) {
        Some(x) => x,
        None => match event_tag_u64(e, "expire"@) {
            Some(x) => x,
            None => sat_add(scan_time(e), default_ttl),
        },
    }
}

/// A plain file name, as bytes: not empty, not `.` or `..`, and without a
/// `/`, `\`, `:` or NUL byte, so that it names a file directly inside the
/// blob directory.
pub open spec fn plain_file_name(b: Seq<u8>) -> bool {
    &&& b.len() > 0
    &&& b != seq![46u8]
    &&& b != seq![46u8, 46u8]
    &&& forall|i: int| 0 <= i < b.len() ==> #[trigger] b[i] != 47 && b[i] != 92 && b[i] != 58 && b[i] != 0
}

/// Whether a name is a plain file name.
pub fn is_plain_file_name(name: &str) -> (r: bool)
    ensures
        r == plain_file_name(name.spec_bytes()),
{
    let b = name.as_bytes();
    let n = b.len();
    if n == 0 {
        return false;
    }
    if n == 1 && b[0] == 46 {
        assert(b@ =~= seq![46u8]);
        return false;
    }
    if n == 2 && b[0] == 46 && b[1] == 46 {
        assert(b@ =~= seq![46u8, 46u8]);
        return false;
    }
    assert(b@ != seq![46u8]) by {
        if b@ == seq![46u8] {
            assert(b@[0] == 46u8);
        }
    }
    assert(b@ != seq![46u8, 46u8]) by {
        if b@ == seq![46u8, 46u8] {
            assert(b@[0] == 46u8 && b@[1] == 46u8);
        }
    }
    for i in 0..n
        invariant
            n == b@.len(),
            b@ == name.spec_bytes(),
            forall|j: int| 0 <= j < i ==> #[trigger] b@[j] != 47 && b@[j] != 92 && b@[j] != 58 && b@[j] != 0,
    {
        let c = b[i];
        if c == 47 || c == 92 || c == 58 || c == 0 {
            assert(!(b@[i as int] != 47 && b@[i as int] != 92 && b@[i as int] != 58 && b@[i as int] != 0));
            return false;
        }
    }
    true
}

/// The names of the files whose events, in key order, carry a `file` tag
/// with a plain file name and whose file expiry lies below `now`.
pub open spec fn expired_files(s: Seq<(Seq<u8>, Event)>, now: u64, default_ttl: u64) -> Seq<Seq<char>>
    decreases s.len(),
{
    if s.len() == 0 {
        Seq::empty()
    } else {
        let rest = expired_files(s.drop_last(), now, default_ttl);
        let e = s.last().1@;
        match event_tag_text(e, "file"@) {
            Some(name) => if plain_file_name(encode_utf8(name)) && file_expiry(e, default_ttl) < now {
                rest.push(name)
            } else {
                rest
            },
            None => rest,
        }
    }
}

/// The names of the uploaded files that have expired, one per event that
/// names a plain file name, in key order; names with a path in them are
/// left out. The files themselves are removed by the caller, from
/// `config.blob_dir`, where they exist.
pub fn cleanup_expired_blobs(storage: &ImStorage, now: u64, config: &GcConfig) -> (r: Vec<String>)
    ensures
        r@.map_values(|s: String| s@) == expired_files(
            storage.events(),
            now,
            config.default_event_ttl,
        ),
        forall|i: int| 0 <= i < r@.len() ==> plain_file_name(encode_utf8(#[trigger] r@[i]@)),
{
    let ghost all = storage.events();
    let mut names: Vec<String> = Vec::new();
    let n = storage.len();
    for i in 0..n
        invariant
            all == storage.events(),
            n == all.len(),
            names@.map_values(|s: String| s@) == expired_files(
                all.take(i as int),
                now,
                config.default_event_ttl,
            ),
            forall|j: int| 0 <= j < names@.len() ==> plain_file_name(encode_utf8(#[trigger] names@[j]@)),
    {
        let ghost before = names@;
        assert(all.take(i + 1).drop_last() =~= all.take(i as int));
        assert(all.take(i + 1).last() == all[i as int]);
        let event = storage.event_at(i);
        match event.tag_text("file") {
            Some(name) => {
                let expire = match event.tag_u64("file_expire") {
                    Some(x) => x,
                    None => match event.tag_u64("expire") {
                        Some(x) => x,
                        None => {
                            let time = match event.created_at {
                                Some(t) => t,
                                None => 0,
                            };
                            time.saturating_add(config.default_event_ttl)
                        },
                    },
                };
                if is_plain_file_name(name.as_str()) && expire < now {
                    names.push(name.clone());
                    assert(names@.map_values(|s: String| s@) =~= before.map_values(
                        |s: String| s@,
                    ).push(name@));
                }
            },
            None => {},
        }
    }
    assert(all.take(n as int) =~= all);
    names
}

} // verus!
