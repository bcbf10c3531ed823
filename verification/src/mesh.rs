//! Peers that room messages are forwarded to.

use vstd::prelude::*;

verus! {

/// A mesh proxy that forwards nowhere, for a relay that runs alone.
pub struct DummyMeshProxy;

} // verus!
