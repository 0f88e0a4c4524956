//! A process supervisor: a registry of named tasks, each a set of replicated
//! process units driven through a spawn / run / stop / restart state machine,
//! reconciled against configuration sources and driven by a control protocol.

use vstd::prelude::*;

pub mod conf;
pub mod control;
pub mod laws;
pub mod options;
pub mod protocol;
pub mod registry;
pub mod render;
pub mod source;
pub mod task;
pub mod text;
pub mod unit;

verus! {

/// Seconds elapsed between an earlier instant `at` and `now`, both in
/// milliseconds; zero when the clock appears to have gone backwards.
pub open spec fn age_secs(at: u64, now: u64) -> u64 {
    if now >= at {
        ((now - at) / 1000) as u64
    } else {
        0
    }
}

/// Executable twin of [`age_secs`].
pub fn elapsed_secs(at: u64, now: u64) -> (r: u64)
    ensures
        r == age_secs(at, now),
{
    if now >= at {
        (now - at) / 1000
    } else {
        0
    }
}

} // verus!
