//! Spotting OOM-killer reports about watched processes in the kernel log.
//! The newest 200 lines are read, newest first; a line counts when it
//! speaks of an OOM kill (case-insensitively) and names a watched pid after
//! the word `process`.
use vstd::prelude::*;
use std::collections::HashSet;

use crate::text::{
    chars_contains, chars_eq, chars_of, contains, is_digit, is_digit_char, lines_of, parse_u32,
    spec_lines, spec_parse_u32, spec_words, string_of, views, words_of,
};

verus! {

broadcast use vstd::std_specs::hash::group_hash_axioms;

/// How many of the newest kernel log lines are read.
pub const OOM_SCAN_LINES: usize = 200;

/// A watched process the kernel reports as OOM-killed, with the log line.
pub struct OomEvent {
    pub pid: u32,
    pub text: String,
}

/// `s` in lower case, as `str::to_lowercase` maps it (full Unicode case
/// mapping; one character may become several).
pub uninterp spec fn lower(s: Seq<char>) -> Seq<char>;

/// `str::to_lowercase`. Claimed: the result is `lower(s)`, a function of
/// `s` alone; nothing is claimed of the case tables themselves.
#[verifier::external_body]
fn to_lower(s: &str) -> (r: String)
    ensures
        r@ == lower(s@),
{
    s.to_lowercase()
}

/// A log line about an OOM kill: its lower-case form mentions
/// `out of memory`, `oom-kill` or `killed process`.
pub open spec fn is_oom_line(line: Seq<char>) -> bool {
    let low = lower(line);
    contains(low, "out of memory"@) || contains(low, "oom-kill"@) || contains(
        low,
        "killed process"@,
    )
}

/// `w` without its leading characters other than ASCII digits.
pub open spec fn skip_nondigits(w: Seq<char>) -> Seq<char>
    decreases w.len(),
{
    if w.len() > 0 && !is_digit(w[0]) {
        skip_nondigits(w.drop_first())
    } else {
        w
    }
}

/// `w` without its trailing characters other than ASCII digits.
pub open spec fn drop_nondigits(w: Seq<char>) -> Seq<char>
    decreases w.len(),
{
    if w.len() > 0 && !is_digit(w.last()) {
        drop_nondigits(w.drop_last())
    } else {
        w
    }
}

/// `str::trim_matches` with "not an ASCII digit": both ends stripped.
pub open spec fn digit_core(w: Seq<char>) -> Seq<char> {
    drop_nondigits(skip_nondigits(w))
}

/// The pid after the first word `process` (from word `i` on) whose next
/// word, stripped to its digits at both ends, is a positive `u32`.
pub open spec fn pid_after_process(ws: Seq<Seq<char>>, i: int) -> Option<u32>
    decreases ws.len() - i,
{
    if i < 0 || i >= ws.len() {
        None
    } else if ws[i] == "process"@ && i + 1 < ws.len() && spec_parse_u32(digit_core(ws[i + 1])) is Some
        && spec_parse_u32(digit_core(ws[i + 1]))->0 > 0 {
        spec_parse_u32(digit_core(ws[i + 1]))
    } else {
        pid_after_process(ws, i + 1)
    }
}

/// The pid a log line names: as in `Killed process 1234 (cc)`.
pub open spec fn line_pid(line: Seq<char>) -> Option<u32> {
    pid_after_process(spec_words(line), 0)
}

/// `w` stripped of non-digits at both ends.
fn digit_core_of(w: &[char]) -> (r: Vec<char>)
    ensures
        r@ == digit_core(w@),
{
    let mut a: usize = 0;
    let n = w.len();
    assert(w@.skip(0) =~= w@);
    while a < n && !is_digit_char(w[a])
        invariant
            a <= n,
            n == w@.len(),
            skip_nondigits(w@) == skip_nondigits(w@.skip(a as int)),
        decreases n - a,
    {
        assert(w@.skip(a as int).drop_first() =~= w@.skip(a + 1));
        a = a + 1;
    }
    let ghost lead = w@.skip(a as int);
    assert(skip_nondigits(lead) == lead);
    let mut b: usize = n;
    assert(lead.take(lead.len() as int) =~= lead);
    while b > a && !is_digit_char(w[b - 1])
        invariant
            a <= b <= n,
            n == w@.len(),
            lead == w@.skip(a as int),
            drop_nondigits(lead) == drop_nondigits(lead.take(b - a)),
        decreases b,
    {
        assert(lead.take(b - a).drop_last() =~= lead.take(b - a - 1));
        b = b - 1;
    }
    let mut r: Vec<char> = Vec::new();
    let mut k: usize = a;
    while k < b
        invariant
            a <= k <= b <= n,
            n == w@.len(),
            r@ == w@.subrange(a as int, k as int),
        decreases b - k,
    {
        r.push(w[k]);
        k = k + 1;
        assert(r@ =~= w@.subrange(a as int, k as int));
    }
    assert(r@ =~= lead.take(b - a));
    r
}

/// The pid a log line names after the word `process`, if any.
pub fn extract_pid(line: &[char]) -> (r: Option<u32>)
    ensures
        r == line_pid(line@),
{
    let words = words_of(line);
    let ghost ws = views(words@);
    let process = chars_of("process");
    let n = words.len();
    let mut i: usize = 0;
    while i < n
        invariant
            n == words@.len(),
            ws == views(words@),
            ws == spec_words(line@),
            process@ == "process"@,
            i <= n,
            line_pid(line@) == pid_after_process(ws, i as int),
        decreases n - i,
    {
        assert(ws[i as int] == words@[i as int]@);
        if chars_eq(words[i].as_slice(), process.as_slice()) && i + 1 < n {
            assert(ws[i + 1] == words@[i + 1]@);
            let core = digit_core_of(words[i + 1].as_slice());
            match parse_u32(core.as_slice()) {
                Some(p) => {
                    if p > 0 {
                        return Some(p);
                    }
                },
                None => {},
            }
        }
        i = i + 1;
    }
    None
}

/// The reports about `watched` among the newest 200 lines of `ls`, from
/// the `k`-th newest on, newest first.
pub open spec fn oom_hits(ls: Seq<Seq<char>>, k: int, watched: Set<u32>) -> Seq<(u32, Seq<char>)>
    decreases 200 - k,
{
    if k < 0 || k >= OOM_SCAN_LINES || k >= ls.len() {
        seq![]
    } else {
        let l = ls[ls.len() - 1 - k];
        let rest = oom_hits(ls, k + 1, watched);
        if is_oom_line(l) && line_pid(l) is Some && watched.contains(line_pid(l)->0) {
            seq![(line_pid(l)->0, l)] + rest
        } else {
            rest
        }
    }
}

/// The view of a list of events: `(pid, line)` pairs.
pub open spec fn events_view(v: Seq<OomEvent>) -> Seq<(u32, Seq<char>)> {
    v.map_values(|e: OomEvent| (e.pid, e.text@))
}

/// The OOM-killer reports about `watched` processes in kernel log text,
/// newest first, among its newest 200 lines.
pub fn scan_kernel_log(text: &str, watched: &HashSet<u32>) -> (r: Vec<OomEvent>)
    ensures
        events_view(r@) == oom_hits(spec_lines(text@), 0, watched@),
{
    let cs = chars_of(text);
    let lines = lines_of(cs.as_slice());
    let ghost ls = views(lines@);
    let n1 = chars_of("out of memory");
    let n2 = chars_of("oom-kill");
    let n3 = chars_of("killed process");
    let mut hits: Vec<OomEvent> = Vec::new();
    let n = lines.len();
    let mut k: usize = 0;
    while k < OOM_SCAN_LINES && k < n
        invariant
            n == lines@.len(),
            ls == views(lines@),
            ls == spec_lines(text@),
            n1@ == "out of memory"@,
            n2@ == "oom-kill"@,
            n3@ == "killed process"@,
            k <= OOM_SCAN_LINES,
            events_view(hits@) + oom_hits(ls, k as int, watched@) == oom_hits(ls, 0, watched@),
        decreases OOM_SCAN_LINES - k,
    {
        let line = &lines[n - 1 - k];
        assert(ls[n - 1 - k] == line@);
        let text_line = string_of(line.as_slice());
        let low = chars_of(to_lower(text_line.as_str()).as_str());
        let ghost before = events_view(hits@);
        if chars_contains(low.as_slice(), n1.as_slice()) || chars_contains(
            low.as_slice(),
            n2.as_slice(),
        ) || chars_contains(low.as_slice(), n3.as_slice()) {
            match extract_pid(line.as_slice()) {
                Some(pid) => {
                    if watched.contains(&pid) {
                        hits.push(OomEvent { pid, text: text_line });
                        assert(events_view(hits@) =~= before + seq![(pid, line@)]);
                    }
                },
                None => {},
            }
        }
        k = k + 1;
    }
    assert(oom_hits(ls, k as int, watched@) =~= Seq::<(u32, Seq<char>)>::empty());
    assert(events_view(hits@) + seq![] =~= events_view(hits@));
    hits
}

/// The phrases that make a line an OOM report: a line counts exactly when
/// its lower-case form mentions `out of memory`, `oom-kill` or
/// `killed process`; each of them alone is enough.
pub proof fn law_oom_phrases(line: Seq<char>)
    ensures
        contains(lower(line), "out of memory"@) ==> is_oom_line(line),
        contains(lower(line), "oom-kill"@) ==> is_oom_line(line),
        contains(lower(line), "killed process"@) ==> is_oom_line(line),
        is_oom_line(line) ==> contains(lower(line), "out of memory"@) || contains(
            lower(line),
            "oom-kill"@,
        ) || contains(lower(line), "killed process"@),
{
}

/// Nothing among the newest 200 lines is missed: an OOM line whose pid is
/// watched, `j`-th newest (from the `k`-th newest on), is reported with
/// its pid.
pub proof fn law_oom_lines_are_reported(ls: Seq<Seq<char>>, k: int, j: int, watched: Set<u32>)
    requires
        0 <= k <= j,
        j < OOM_SCAN_LINES,
        j < ls.len(),
        is_oom_line(ls[ls.len() - 1 - j]),
        line_pid(ls[ls.len() - 1 - j]) is Some,
        watched.contains(line_pid(ls[ls.len() - 1 - j])->0),
    ensures
        oom_hits(ls, k, watched).contains(
            (line_pid(ls[ls.len() - 1 - j])->0, ls[ls.len() - 1 - j]),
        ),
    decreases j - k,
{
    let l = ls[ls.len() - 1 - k];
    let rest = oom_hits(ls, k + 1, watched);
    let h = oom_hits(ls, k, watched);
    let e = (line_pid(ls[ls.len() - 1 - j])->0, ls[ls.len() - 1 - j]);
    if k == j {
        assert(h[0] == e);
    } else {
        law_oom_lines_are_reported(ls, k + 1, j, watched);
        let m = choose|m: int| 0 <= m < rest.len() && rest[m] == e;
        if is_oom_line(l) && line_pid(l) is Some && watched.contains(line_pid(l)->0) {
            assert(h[m + 1] == e);
        } else {
            assert(h[m] == e);
        }
    }
}

/// Every report names a watched process, and its line speaks of an OOM
/// kill and names that pid after the word `process`.
pub proof fn law_oom_reports_are_watched(ls: Seq<Seq<char>>, k: int, watched: Set<u32>)
    ensures
        forall|j: int|
            0 <= j < oom_hits(ls, k, watched).len() ==> watched.contains(
                #[trigger] oom_hits(ls, k, watched)[j].0,
            ) && is_oom_line(oom_hits(ls, k, watched)[j].1) && line_pid(
                oom_hits(ls, k, watched)[j].1,
            ) == Some(oom_hits(ls, k, watched)[j].0),
    decreases 200 - k,
{
    if !(k < 0 || k >= OOM_SCAN_LINES || k >= ls.len()) {
        law_oom_reports_are_watched(ls, k + 1, watched);
        let l = ls[ls.len() - 1 - k];
        let rest = oom_hits(ls, k + 1, watched);
        let h = oom_hits(ls, k, watched);
        let hit = is_oom_line(l) && line_pid(l) is Some && watched.contains(line_pid(l)->0);
        assert forall|j: int| 0 <= j < oom_hits(ls, k, watched).len() implies watched.contains(
            #[trigger] oom_hits(ls, k, watched)[j].0,
        ) && is_oom_line(oom_hits(ls, k, watched)[j].1) && line_pid(oom_hits(ls, k, watched)[j].1)
            == Some(oom_hits(ls, k, watched)[j].0) by {
            if hit {
                if j > 0 {
                    assert(h[j] == rest[j - 1]);
                    assert(watched.contains(rest[j - 1].0));
                }
            } else {
                assert(h[j] == rest[j]);
                assert(watched.contains(rest[j].0));
            }
        }
    }
}

} // verus!
