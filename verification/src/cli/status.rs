//! `status`: one monitor's state.
use vstd::prelude::*;

verus! {

/// The arguments of `status`.
pub struct StatusArgs {
    /// The monitor's socket (resolved by convention when absent).
    pub sock: Option<String>,
    /// `json` (one line) or `pretty`.
    pub format: String,
}

} // verus!
