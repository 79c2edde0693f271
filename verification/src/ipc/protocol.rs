//! Wire vocabulary of the request protocol: operation names and the signal
//! names a `wait` may be woken by.
use vstd::prelude::*;

use crate::text::str_eq;

verus! {

/// Operations a daemon answers.
pub const IPC_OPS: [&'static str; 6] = ["status", "metrics", "log_tail", "wait", "kill", "shutdown"];

/// Canonical `wait --until` signal names.
pub const WAIT_SIGNALS: [&'static str; 6] = [
    "done",
    "failed",
    "dep_missing",
    "timeout",
    "stall_suspect",
    "oom_suspect",
];

/// Older names accepted for two signals: `(alias, canonical)`.
pub const WAIT_ALIASES: [(&'static str, &'static str); 2] = [("stalled", "stall_suspect"), ("oom_killed", "oom_suspect")];

/// A signal name a `wait` understands: a canonical one or an alias.
pub open spec fn is_known_signal(w: Seq<char>) -> bool {
    ||| w == "done"@
    ||| w == "failed"@
    ||| w == "dep_missing"@
    ||| w == "timeout"@
    ||| w == "stall_suspect"@
    ||| w == "oom_suspect"@
    ||| w == "stalled"@
    ||| w == "oom_killed"@
}

/// The first name of `until` that is not a known signal.
pub open spec fn first_unknown(until: Seq<Seq<char>>) -> Option<Seq<char>>
    decreases until.len(),
{
    if until.len() == 0 {
        None
    } else if !is_known_signal(until[0]) {
        Some(until[0])
    } else {
        first_unknown(until.drop_first())
    }
}

/// Whether `w` is a known signal name.
pub fn known_signal(w: &str) -> (r: bool)
    ensures
        r == is_known_signal(w@),
{
    str_eq(w, "done") || str_eq(w, "failed") || str_eq(w, "dep_missing") || str_eq(w, "timeout")
        || str_eq(w, "stall_suspect") || str_eq(w, "oom_suspect") || str_eq(w, "stalled") || str_eq(
        w,
        "oom_killed",
    )
}

/// The first unknown signal name of `until`, if any; an empty list is valid
/// (it waits for terminal states only).
pub fn validate_until(until: &[String]) -> (r: Option<String>)
    ensures
        match r {
            None => first_unknown(until@.map_values(|x: String| x@)) == None::<Seq<char>>,
            Some(s) => first_unknown(until@.map_values(|x: String| x@)) == Some(s@),
        },
{
    let ghost us = until@.map_values(|x: String| x@);
    let n = until.len();
    assert(us.skip(0) == us);
    for i in 0..n
        invariant
            n == until@.len(),
            us == until@.map_values(|x: String| x@),
            first_unknown(us) == first_unknown(us.skip(i as int)),
    {
        assert(us.skip(i as int).drop_first() == us.skip(i + 1));
        assert(us.skip(i as int)[0] == until@[i as int]@);
        if !known_signal(until[i].as_str()) {
            return Some(until[i].clone());
        }
    }
    assert(us.skip(n as int).len() == 0);
    None
}

} // verus!
