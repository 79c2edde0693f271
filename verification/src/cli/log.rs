//! `log`: the newest event-log lines of a monitor.
use vstd::prelude::*;

verus! {

/// The arguments of `log`.
pub struct LogArgs {
    /// The monitor's socket (resolved by convention when absent).
    pub sock: Option<String>,
    /// How many of the newest events (default 20).
    pub tail: usize,
    /// Only events with this `ev` name.
    pub event: Option<String>,
}

} // verus!
