//! `wait`: blocking until a build is done. The client's exit code comes
//! from the monitor's answer.
use vstd::prelude::*;

verus! {

/// The exit code of `wait` for an answer with `timeout` and `code` fields:
/// 124 when the wait timed out, else the reported code (1 when there is
/// none), kept to its low 32 bits.
pub open spec fn wait_code(timed_out: bool, code: Option<i64>) -> i32 {
    if timed_out {
        124
    } else {
        match code {
            Some(c) => c as i32,
            None => 1,
        }
    }
}

/// The exit code of `wait` (see `wait_code`).
pub fn wait_exit_code(timed_out: bool, code: Option<i64>) -> (r: i32)
    ensures
        r == wait_code(timed_out, code),
{
    if timed_out {
        124
    } else {
        match code {
            Some(c) => c as i32,
            None => 1,
        }
    }
}

/// A timed-out wait exits with 124 whatever the answer holds; otherwise
/// with the code the monitor reported (any code that fits in 32 bits comes
/// through unchanged), or 1 when it reported none.
pub proof fn law_wait_exit_codes(timed_out: bool, code: Option<i64>, c: i64)
    ensures
        wait_code(true, code) == 124,
        i32::MIN <= c <= i32::MAX ==> wait_code(false, Some(c)) == c,
        wait_code(false, None) == 1,
{
}

} // verus!
