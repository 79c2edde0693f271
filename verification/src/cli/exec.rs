//! `exec`: running a build in the foreground. What is decided apart from
//! the process handling: how long output lines are cut before they are
//! scanned for missing dependencies, and how the run is summed up.
use vstd::prelude::*;

use crate::daemon::daemon::outcome;
use crate::health::State;
use crate::text::{chars_of, string_of};

verus! {

/// Output lines longer than this many bytes are cut before scanning.
pub const MAX_SCAN_LINE: usize = 65536;

/// The arguments of `exec`.
pub struct ExecArgs {
    /// Kill the build after this many seconds (0 or none: never).
    pub timeout_sec: Option<u64>,
    /// Summary format: `human` or `json`.
    pub format: String,
    /// The build command.
    pub cmd: Vec<String>,
}

impl ExecArgs {
    /// Refuses an `exec` with no command, with the usage line.
    pub fn check_command(&self) -> (r: Result<(), String>)
        ensures
            r is Ok <==> self.cmd@.len() > 0,
            r matches Err(m) ==> m@ == "usage: hbmon exec -- <cmd> [args...]"@,
    {
        if self.cmd.len() == 0 {
            Err(String::from_str("usage: hbmon exec -- <cmd> [args...]"))
        } else {
            Ok(())
        }
    }
}

/// Bytes of `c` in UTF-8.
pub open spec fn utf8_width(c: char) -> nat {
    if (c as u32) < 0x80 {
        1
    } else if (c as u32) < 0x800 {
        2
    } else if (c as u32) < 0x10000 {
        3
    } else {
        4
    }
}

/// Bytes of `s` in UTF-8.
pub open spec fn utf8_len(s: Seq<char>) -> nat
    decreases s.len(),
{
    if s.len() == 0 {
        0
    } else {
        utf8_len(s.drop_last()) + utf8_width(s.last())
    }
}

/// The number of leading characters of `s` that fit in `budget` bytes.
pub open spec fn fitting(s: Seq<char>, budget: nat) -> nat
    decreases s.len(),
{
    if s.len() == 0 || utf8_width(s[0]) > budget {
        0
    } else {
        1 + fitting(s.drop_first(), (budget - utf8_width(s[0])) as nat)
    }
}

/// A line as it is scanned: unchanged up to 64 KiB; longer, cut at the
/// last character boundary within 64 KiB and marked with `…`.
pub open spec fn scan_form(line: Seq<char>) -> Seq<char> {
    if utf8_len(line) <= MAX_SCAN_LINE {
        line
    } else {
        line.take(fitting(line, MAX_SCAN_LINE as nat) as int).push('…')
    }
}

fn width_of(c: char) -> (r: usize)
    ensures
        r == utf8_width(c),
{
    let u = c as u32;
    if u < 0x80 {
        1
    } else if u < 0x800 {
        2
    } else if u < 0x10000 {
        3
    } else {
        4
    }
}

proof fn lemma_fitting_step(s: Seq<char>, budget: nat, i: int)
    requires
        0 <= i < s.len(),
        utf8_width(s[i]) <= budget,
    ensures
        fitting(s.skip(i), budget) == 1 + fitting(s.skip(i + 1), (budget - utf8_width(s[i])) as nat),
{
    assert(s.skip(i)[0] == s[i]);
    assert(s.skip(i).drop_first() =~= s.skip(i + 1));
}

/// The form in which an output line is scanned (see `scan_form`).
pub fn clip_scan_line(line: &str) -> (r: String)
    ensures
        r@ == scan_form(line@),
{
    let cs = chars_of(line);
    let n = cs.len();
    let mut total: usize = 0;
    let mut i: usize = 0;
    while i < n && total <= MAX_SCAN_LINE
        invariant
            n == cs@.len(),
            i <= n,
            total == utf8_len(cs@.take(i as int)),
        decreases n - i,
    {
        assert(cs@.take(i + 1).drop_last() =~= cs@.take(i as int));
        total = total + width_of(cs[i]);
        i = i + 1;
    }
    if total <= MAX_SCAN_LINE {
        assert(cs@.take(n as int) =~= cs@);
        assert(cs@ == line@);
        return string_of(cs.as_slice());
    }
    proof {
        lemma_utf8_len_prefix_grows(cs@, i as int);
    }
    let mut out: Vec<char> = Vec::new();
    let mut budget: usize = MAX_SCAN_LINE;
    let mut k: usize = 0;
    assert(cs@.skip(0) =~= cs@);
    while k < n && width_of(cs[k]) <= budget
        invariant
            n == cs@.len(),
            k <= n,
            budget <= MAX_SCAN_LINE,
            out@ == cs@.take(k as int),
            fitting(cs@, MAX_SCAN_LINE as nat) == k + fitting(cs@.skip(k as int), budget as nat),
        decreases n - k,
    {
        proof {
            lemma_fitting_step(cs@, budget as nat, k as int);
        }
        budget = budget - width_of(cs[k]);
        out.push(cs[k]);
        k = k + 1;
        assert(out@ =~= cs@.take(k as int));
    }
    assert(fitting(cs@.skip(k as int), budget as nat) == 0) by {
        if k < n {
            assert(cs@.skip(k as int)[0] == cs@[k as int]);
        }
    }
    out.push('…');
    string_of(out.as_slice())
}

/// The UTF-8 length of a prefix never exceeds that of the whole.
proof fn lemma_utf8_len_prefix_grows(s: Seq<char>, i: int)
    requires
        0 <= i <= s.len(),
    ensures
        utf8_len(s.take(i)) <= utf8_len(s),
    decreases s.len() - i,
{
    if i < s.len() {
        lemma_utf8_len_prefix_grows(s, i + 1);
        assert(s.take(i + 1).drop_last() =~= s.take(i));
    } else {
        assert(s.take(i) =~= s);
    }
}

proof fn lemma_utf8_len_cons(c: char, t: Seq<char>)
    ensures
        utf8_len(seq![c] + t) == utf8_width(c) + utf8_len(t),
    decreases t.len(),
{
    if t.len() == 0 {
        assert(seq![c] + t =~= seq![c]);
        assert(seq![c].drop_last() =~= Seq::<char>::empty());
        assert(utf8_len(Seq::<char>::empty()) == 0);
        assert(seq![c].last() == c);
        assert(utf8_len(seq![c]) == utf8_width(c));
        assert(utf8_len(t) == 0);
    } else {
        lemma_utf8_len_cons(c, t.drop_last());
        assert((seq![c] + t).drop_last() =~= seq![c] + t.drop_last());
        assert((seq![c] + t).last() == t.last());
    }
}

/// `fitting` is the longest prefix within the budget.
proof fn lemma_fitting_longest(s: Seq<char>, b: nat)
    ensures
        fitting(s, b) <= s.len(),
        utf8_len(s.take(fitting(s, b) as int)) <= b,
        fitting(s, b) < s.len() ==> utf8_len(s.take(fitting(s, b) + 1 as int)) > b,
    decreases s.len(),
{
    if s.len() == 0 {
        assert(s.take(0) =~= Seq::<char>::empty());
    } else if utf8_width(s[0]) > b {
        assert(s.take(0) =~= Seq::<char>::empty());
        assert(s.take(1) =~= seq![s[0]] + Seq::<char>::empty());
        lemma_utf8_len_cons(s[0], Seq::<char>::empty());
    } else {
        let w = utf8_width(s[0]);
        let t = s.drop_first();
        let b2 = (b - w) as nat;
        lemma_fitting_longest(t, b2);
        let f2 = fitting(t, b2) as int;
        assert(s.take(f2 + 1) =~= seq![s[0]] + t.take(f2));
        lemma_utf8_len_cons(s[0], t.take(f2));
        if f2 < t.len() {
            assert(s.take(f2 + 2) =~= seq![s[0]] + t.take(f2 + 1));
            lemma_utf8_len_cons(s[0], t.take(f2 + 1));
        }
    }
}

/// How a line is cut before scanning: a line of at most 64 KiB in UTF-8 is
/// scanned whole; a longer one is cut to its longest prefix of at most
/// 64 KiB that ends on a character boundary, and marked with `…`.
pub proof fn law_scan_line_cut(line: Seq<char>)
    ensures
        utf8_len(line) <= MAX_SCAN_LINE ==> scan_form(line) == line,
        utf8_len(line) > MAX_SCAN_LINE ==> exists|k: int|
            0 <= k < line.len() && scan_form(line) == line.take(k).push('…') && utf8_len(
                #[trigger] line.take(k),
            ) <= MAX_SCAN_LINE && utf8_len(line.take(k + 1)) > MAX_SCAN_LINE,
{
    if utf8_len(line) > MAX_SCAN_LINE {
        lemma_fitting_longest(line, MAX_SCAN_LINE as nat);
        let k = fitting(line, MAX_SCAN_LINE as nat) as int;
        if k == line.len() {
            assert(line.take(k) =~= line);
        }
        assert(utf8_len(line.take(k)) <= MAX_SCAN_LINE);
    }
}

/// How an `exec` run is summed up: a passed deadline first, then a
/// missing-dependency message seen in the output, then the exit code.
pub open spec fn exec_outcome_of(timed_out: bool, dep_hit: bool, raw: i32) -> (State, i32) {
    if timed_out {
        (State::Timeout, 124)
    } else if dep_hit {
        (State::DepMissing, 2)
    } else if raw == 0 {
        (State::Done, 0)
    } else {
        (State::Failed, 1)
    }
}

/// The state and exit code an `exec` run reports.
pub fn exec_outcome(timed_out: bool, dep_hit: bool, raw: i32) -> (r: (State, i32))
    ensures
        r == exec_outcome_of(timed_out, dep_hit, raw),
{
    if timed_out {
        (State::Timeout, 124)
    } else if dep_hit {
        (State::DepMissing, 2)
    } else if raw == 0 {
        (State::Done, 0)
    } else {
        (State::Failed, 1)
    }
}

/// The watchdog deadline of `exec`, in seconds: a limit of 0 means none.
pub fn exec_deadline(timeout_sec: Option<u64>) -> (r: Option<u64>)
    ensures
        r == (match timeout_sec {
            Some(s) => if s > 0 {
                Some(s)
            } else {
                None
            },
            None => None,
        }),
{
    match timeout_sec {
        Some(s) => if s > 0 {
            Some(s)
        } else {
            None
        },
        None => None,
    }
}

/// `exec` sums a run up as the monitor would for a build with the same
/// exit, deadline and dependency evidence (`exec` does not watch for OOM
/// kills): the same state and the same exit code.
pub proof fn law_exec_agrees_with_monitor(timed_out: bool, dep_hit: bool, raw: i32, alive: bool)
    ensures
        Some(exec_outcome_of(timed_out, dep_hit, raw)) == outcome(dep_hit, false, timed_out, Some(raw), alive),
{
}

/// Before its deadline, a run in which a missing dependency was seen ends
/// as `dep_missing` with code 2 whatever its exit code; without one, exit
/// code 0 is `done` (0) and any other `failed` (1); past its deadline it is
/// `timeout` (124).
pub proof fn law_exec_codes(dep_hit: bool, raw: i32)
    ensures
        exec_outcome_of(true, dep_hit, raw) == (State::Timeout, 124i32),
        exec_outcome_of(false, true, raw) == (State::DepMissing, 2i32),
        raw == 0 ==> exec_outcome_of(false, false, raw) == (State::Done, 0i32),
        raw != 0 ==> exec_outcome_of(false, false, raw) == (State::Failed, 1i32),
{
}

} // verus!
