//! Coordinator core for a distributed media-conversion dispatcher.
//!
//! A central coordinator discovers input files in an intake directory and
//! hands each file, exactly once, to one of many dynamically joining worker
//! nodes. The heart of the crate is the job lifecycle engine: a registry of
//! worker heartbeats, in-flight assignments, and a FIFO pool of pending
//! paths, together with the reaper that reclaims work from silent workers.

use vstd::prelude::*;

pub mod assoc;
pub mod registry;
pub mod laws;
pub mod paths;
pub mod text;
pub mod ids;
pub mod dispatch;
pub mod agent;

verus! {

/// Staleness bound in seconds: an assignment whose worker has not been heard
/// from for longer than this is eligible for reclamation.
pub const DEFAULT_STALENESS_SECS: u64 = 60;

pub fn staleness_default() -> (r: u64)
    ensures
        r == DEFAULT_STALENESS_SECS,
{
    DEFAULT_STALENESS_SECS
}

} // verus!
