//! `shutdown`: stopping a monitor.
use vstd::prelude::*;

verus! {

/// The arguments of `shutdown`.
pub struct ShutdownArgs {
    /// The monitor's socket (resolved by convention when absent).
    pub sock: Option<String>,
    /// Also kill the build after a short grace period.
    pub force: bool,
}

} // verus!
