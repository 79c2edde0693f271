//! `kill`: signalling a build.
use vstd::prelude::*;

verus! {

/// The arguments of `kill`.
pub struct KillArgs {
    /// The monitor's socket (resolved by convention when absent).
    pub sock: Option<String>,
    /// Signal this process group directly instead of asking the monitor.
    pub pid: Option<u32>,
    /// The signal, by name or number (default `TERM`).
    pub signal: String,
}

} // verus!
