//! The relay's counters: events processed and SIWE authentications that
//! succeeded or failed. Each counter wraps around at its maximum, as an
//! atomic counter does.

use vstd::prelude::*;

verus! {

/// The relay's counters.
#[derive(Clone, Copy, Debug)]
pub struct RelayMetrics {
    pub events_processed: u64,
    pub siwe_auth_success: u64,
    pub siwe_auth_failed: u64,
}

/// `n + 1`, wrapping around to 0 at the maximum.
pub open spec fn bump(n: u64) -> u64 {
    if n == u64::MAX {
        0
    } else {
        (n + 1) as u64
    }
}

impl RelayMetrics {
    /// All counters at zero.
    pub fn new() -> (m: Self)
        ensures
            m.events_processed == 0,
            m.siwe_auth_success == 0,
            m.siwe_auth_failed == 0,
    {
        RelayMetrics { events_processed: 0, siwe_auth_success: 0, siwe_auth_failed: 0 }
    }
}

/// Counts one processed IM event.
pub fn record_event_processed(metrics: &mut RelayMetrics)
    ensures
        final(metrics).events_processed == bump(old(metrics).events_processed),
        final(metrics).siwe_auth_success == old(metrics).siwe_auth_success,
        final(metrics).siwe_auth_failed == old(metrics).siwe_auth_failed,
{
    metrics.events_processed = metrics.events_processed.wrapping_add(1);
}

/// Counts one SIWE authentication, as a success or a failure.
pub fn record_siwe_auth(metrics: &mut RelayMetrics, success: bool)
    ensures
        final(metrics).events_processed == old(metrics).events_processed,
        final(metrics).siwe_auth_success == (if success {
            bump(old(metrics).siwe_auth_success)
        } else {
            old(metrics).siwe_auth_success
        }),
        final(metrics).siwe_auth_failed == (if success {
            old(metrics).siwe_auth_failed
        } else {
            bump(old(metrics).siwe_auth_failed)
        }),
{
    if success {
        metrics.siwe_auth_success = metrics.siwe_auth_success.wrapping_add(1);
    } else {
        metrics.siwe_auth_failed = metrics.siwe_auth_failed.wrapping_add(1);
    }
}

} // verus!
