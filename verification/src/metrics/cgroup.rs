//! cgroup v2 accounting: locating a process's unified-hierarchy directory
//! and reading its `cpu.stat`, `memory.*`, `pids.current` and `io.stat`.
use vstd::prelude::*;

use crate::metrics::io::or_zero;
use crate::text::{
    chars_eq, chars_of, chars_skip, chars_starts_with, lines_of, parse_u64, push_chars,
    spec_lines, spec_parse_u64, spec_trim, spec_words, starts_with, string_of, trim_chars, views,
    words_of,
};

verus! {

/// A cgroup v2 directory.
pub struct Cgroup {
    pub dir: String,
}

/// One reading of a cgroup's counters.
#[derive(Debug, Default, PartialEq, Eq, Structural)]
pub struct Stats {
    pub cpu_usec: u64,
    pub mem_bytes: u64,
    pub mem_peak: u64,
    pub pids: u32,
    pub oom_kills: u64,
    pub io_rbytes: u64,
    pub io_wbytes: u64,
}

/// The value of the first line of `ls` whose first word is `key` and whose
/// second word is a number; 0 when there is none.
pub open spec fn kv_from(ls: Seq<Seq<char>>, key: Seq<char>) -> u64
    decreases ls.len(),
{
    if ls.len() == 0 {
        0
    } else {
        let w = spec_words(ls[0]);
        if w.len() > 1 && w[0] == key && spec_parse_u64(w[1]) is Some {
            spec_parse_u64(w[1])->0
        } else {
            kv_from(ls.drop_first(), key)
        }
    }
}

/// The value of `key` in a flat-keyed file such as `memory.events`: the
/// first `"<key> <number>"` line wins; a missing key gives 0.
pub fn parse_kv_u64(s: &str, key: &str) -> (r: u64)
    ensures
        r == kv_from(spec_lines(s@), key@),
{
    let text = chars_of(s);
    let k = chars_of(key);
    let lines = lines_of(text.as_slice());
    let ghost ls = views(lines@);
    let n = lines.len();
    let mut i: usize = 0;
    assert(ls.skip(0) =~= ls);
    while i < n
        invariant
            n == lines@.len(),
            ls == views(lines@),
            ls == spec_lines(s@),
            k@ == key@,
            i <= n,
            kv_from(ls, key@) == kv_from(ls.skip(i as int), key@),
        decreases n - i,
    {
        assert(ls.skip(i as int).drop_first() =~= ls.skip(i + 1));
        assert(ls.skip(i as int)[0] == lines@[i as int]@);
        let words = words_of(lines[i].as_slice());
        assert(views(words@) == spec_words(lines@[i as int]@));
        if words.len() > 1 && chars_eq(words[0].as_slice(), k.as_slice()) {
            assert(views(words@)[0] == words@[0]@ && views(words@)[1] == words@[1]@);
            match parse_u64(words[1].as_slice()) {
                Some(v) => {
                    return v;
                },
                None => {},
            }
        }
        i = i + 1;
    }
    0
}

/// `cpu.stat`'s `usage_usec`: microseconds of CPU the cgroup consumed.
pub fn parse_cpu_stat(s: &str) -> (r: u64)
    ensures
        r == kv_from(spec_lines(s@), "usage_usec"@),
{
    parse_kv_u64(s, "usage_usec")
}

/// `a + b`, or the largest `u64` when that overflows.
pub open spec fn sat_add(a: u64, b: u64) -> u64 {
    if a + b > u64::MAX {
        u64::MAX
    } else {
        (a + b) as u64
    }
}

/// What a token adds to the counter named by `prefix` (such as
/// `"rbytes="`): its number, or 0 when it has another name or no number.
pub open spec fn tok_value(tok: Seq<char>, prefix: Seq<char>) -> u64 {
    if starts_with(tok, prefix) {
        or_zero(spec_parse_u64(tok.skip(prefix.len() as int)))
    } else {
        0
    }
}

/// `acc` plus, saturating, what each token of `ts` adds.
pub open spec fn sum_toks(acc: u64, ts: Seq<Seq<char>>, prefix: Seq<char>) -> u64
    decreases ts.len(),
{
    if ts.len() == 0 {
        acc
    } else {
        sum_toks(sat_add(acc, tok_value(ts[0], prefix)), ts.drop_first(), prefix)
    }
}

/// The words after the first.
pub open spec fn after_first(w: Seq<Seq<char>>) -> Seq<Seq<char>> {
    if w.len() == 0 {
        w
    } else {
        w.drop_first()
    }
}

/// `acc` plus, saturating, what the tokens after the first (the device) of
/// each line of `ls` add.
pub open spec fn sum_lines(acc: u64, ls: Seq<Seq<char>>, prefix: Seq<char>) -> u64
    decreases ls.len(),
{
    if ls.len() == 0 {
        acc
    } else {
        sum_lines(sum_toks(acc, after_first(spec_words(ls[0])), prefix), ls.drop_first(), prefix)
    }
}

/// `s` starts with `rbytes=`'s first letter, so it cannot start with `wbytes=`.
proof fn lemma_prefixes_exclusive(t: Seq<char>)
    ensures
        !(starts_with(t, "rbytes="@) && starts_with(t, "wbytes="@)),
{
    reveal_strlit("rbytes=");
    reveal_strlit("wbytes=");
    if starts_with(t, "rbytes="@) && starts_with(t, "wbytes="@) {
        assert(t.take(7)[0] == "rbytes="@[0]);
        assert(t.take(7)[0] == "wbytes="@[0]);
    }
}

/// One token's contribution to the read and write counters.
fn io_token(tok: &[char], rk: &[char], wk: &[char], r: u64, w: u64) -> (out: (u64, u64))
    requires
        rk@ == "rbytes="@,
        wk@ == "wbytes="@,
    ensures
        out.0 == sat_add(r, tok_value(tok@, rk@)),
        out.1 == sat_add(w, tok_value(tok@, wk@)),
{
    proof {
        reveal_strlit("rbytes=");
        reveal_strlit("wbytes=");
        lemma_prefixes_exclusive(tok@);
    }
    if chars_starts_with(tok, rk) {
        let v = match parse_u64(chars_skip(tok, 7).as_slice()) {
            Some(x) => x,
            None => 0,
        };
        (r.saturating_add(v), w)
    } else if chars_starts_with(tok, wk) {
        let v = match parse_u64(chars_skip(tok, 7).as_slice()) {
            Some(x) => x,
            None => 0,
        };
        (r, w.saturating_add(v))
    } else {
        (r, w)
    }
}

/// `io.stat` totals over all devices: lines look like
/// `8:0 rbytes=123 wbytes=456 ...`; the `rbytes=` and `wbytes=` values of
/// every line are added up (saturating), a value that is not a number
/// counting as 0.
pub fn parse_io_stat(s: &str) -> (r: (u64, u64))
    ensures
        r.0 == sum_lines(0, spec_lines(s@), "rbytes="@),
        r.1 == sum_lines(0, spec_lines(s@), "wbytes="@),
{
    let text = chars_of(s);
    let lines = lines_of(text.as_slice());
    let ghost ls = views(lines@);
    let rk = chars_of("rbytes=");
    let wk = chars_of("wbytes=");
    let mut r: u64 = 0;
    let mut w: u64 = 0;
    let n = lines.len();
    let mut i: usize = 0;
    assert(ls.skip(0) =~= ls);
    while i < n
        invariant
            n == lines@.len(),
            ls == views(lines@),
            ls == spec_lines(s@),
            rk@ == "rbytes="@,
            wk@ == "wbytes="@,
            i <= n,
            sum_lines(0, ls, rk@) == sum_lines(r, ls.skip(i as int), rk@),
            sum_lines(0, ls, wk@) == sum_lines(w, ls.skip(i as int), wk@),
        decreases n - i,
    {
        assert(ls.skip(i as int).drop_first() =~= ls.skip(i + 1));
        assert(ls.skip(i as int)[0] == lines@[i as int]@);
        let words = words_of(lines[i].as_slice());
        let ghost ts = after_first(views(words@));
        assert(views(words@) == spec_words(lines@[i as int]@));
        let m = words.len();
        if m > 0 {
            let ghost r0 = r;
            let ghost w0 = w;
            let mut j: usize = 1;
            assert(ts.skip(0) =~= ts);
            while j < m
                invariant
                    m == words@.len(),
                    0 < j <= m,
                    ts == views(words@).drop_first(),
                    rk@ == "rbytes="@,
                    wk@ == "wbytes="@,
                    sum_toks(r0, ts, rk@) == sum_toks(r, ts.skip(j - 1), rk@),
                    sum_toks(w0, ts, wk@) == sum_toks(w, ts.skip(j - 1), wk@),
                decreases m - j,
            {
                assert(ts.skip(j - 1).drop_first() =~= ts.skip(j as int));
                assert(ts.skip(j - 1)[0] == words@[j as int]@);
                let (r2, w2) = io_token(words[j].as_slice(), rk.as_slice(), wk.as_slice(), r, w);
                r = r2;
                w = w2;
                j = j + 1;
            }
            assert(ts.skip(j - 1) =~= Seq::<Seq<char>>::empty());
        }
        i = i + 1;
    }
    assert(ls.skip(n as int) =~= Seq::<Seq<char>>::empty());
    (r, w)
}

/// The number in a one-value file such as `memory.current`, surrounding
/// whitespace ignored; 0 when it is not a number.
pub fn trim_u64(s: &str) -> (r: u64)
    ensures
        r == or_zero(spec_parse_u64(spec_trim(s@))),
{
    let t = trim_chars(chars_of(s).as_slice());
    match parse_u64(t.as_slice()) {
        Some(v) => v,
        None => 0,
    }
}

/// A cgroup's counters from the text of its files: `cpu.stat`,
/// `memory.current`, `memory.peak`, `pids.current`, `memory.events` and
/// `io.stat` (an unreadable file passed as empty text). The process count
/// keeps the low 32 bits of the number read.
pub fn stats_from(cpu: &str, mem: &str, peak: &str, pids: &str, events: &str, io: &str) -> (r:
    Stats)
    ensures
        r.cpu_usec == kv_from(spec_lines(cpu@), "usage_usec"@),
        r.mem_bytes == or_zero(spec_parse_u64(spec_trim(mem@))),
        r.mem_peak == or_zero(spec_parse_u64(spec_trim(peak@))),
        r.pids == or_zero(spec_parse_u64(spec_trim(pids@))) as u32,
        r.oom_kills == kv_from(spec_lines(events@), "oom_kill"@),
        r.io_rbytes == sum_lines(0, spec_lines(io@), "rbytes="@),
        r.io_wbytes == sum_lines(0, spec_lines(io@), "wbytes="@),
{
    let (io_r, io_w) = parse_io_stat(io);
    let p = trim_u64(pids);
    Stats {
        cpu_usec: parse_cpu_stat(cpu),
        mem_bytes: trim_u64(mem),
        mem_peak: trim_u64(peak),
        pids: p as u32,
        oom_kills: parse_kv_u64(events, "oom_kill"),
        io_rbytes: io_r,
        io_wbytes: io_w,
    }
}

/// `s` without its leading `'/'` characters.
pub open spec fn trim_slashes(s: Seq<char>) -> Seq<char>
    decreases s.len(),
{
    if s.len() > 0 && s[0] == '/' {
        trim_slashes(s.drop_first())
    } else {
        s
    }
}

/// The unified-hierarchy directory named by the first `0::` line of `ls`.
pub open spec fn unified_dir(ls: Seq<Seq<char>>) -> Option<Seq<char>>
    decreases ls.len(),
{
    if ls.len() == 0 {
        None
    } else if starts_with(ls[0], "0::"@) {
        Some("/sys/fs/cgroup/"@ + trim_slashes(ls[0].skip(3)))
    } else {
        unified_dir(ls.drop_first())
    }
}

/// The cgroup v2 directory that `/proc/<pid>/cgroup` text names: the first
/// `0::<path>` line, under `/sys/fs/cgroup`. `None` without such a line
/// (cgroup v1 only).
pub fn cgroup_dir(content: &str) -> (r: Option<String>)
    ensures
        match r {
            Some(d) => unified_dir(spec_lines(content@)) == Some(d@),
            None => unified_dir(spec_lines(content@)) is None,
        },
{
    let text = chars_of(content);
    let lines = lines_of(text.as_slice());
    let ghost ls = views(lines@);
    let mark = chars_of("0::");
    proof {
        reveal_strlit("0::");
    }
    let n = lines.len();
    let mut i: usize = 0;
    assert(ls.skip(0) =~= ls);
    while i < n
        invariant
            n == lines@.len(),
            ls == views(lines@),
            ls == spec_lines(content@),
            mark@ == "0::"@,
            mark@.len() == 3,
            i <= n,
            unified_dir(ls) == unified_dir(ls.skip(i as int)),
        decreases n - i,
    {
        assert(ls.skip(i as int).drop_first() =~= ls.skip(i + 1));
        assert(ls.skip(i as int)[0] == lines@[i as int]@);
        let line = &lines[i];
        if chars_starts_with(line.as_slice(), mark.as_slice()) {
            let rest = chars_skip(line.as_slice(), 3);
            let mut k: usize = 0;
            assert(rest@.skip(0) =~= rest@);
            while k < rest.len() && rest[k] == '/'
                invariant
                    k <= rest@.len(),
                    trim_slashes(rest@) == trim_slashes(rest@.skip(k as int)),
                decreases rest@.len() - k,
            {
                assert(rest@.skip(k as int).drop_first() =~= rest@.skip(k + 1));
                k = k + 1;
            }
            let mut d = chars_of("/sys/fs/cgroup/");
            let tail = chars_skip(rest.as_slice(), k);
            push_chars(&mut d, tail.as_slice());
            return Some(string_of(d.as_slice()));
        }
        i = i + 1;
    }
    None
}

/// The first line whose first word is the key and whose second word is a
/// number gives the value; with no such line it is 0.
pub proof fn law_first_key_line_wins(ls: Seq<Seq<char>>, key: Seq<char>, j: int)
    ensures
        (0 <= j < ls.len() && spec_words(ls[j]).len() > 1 && spec_words(ls[j])[0] == key
            && spec_parse_u64(spec_words(ls[j])[1]) is Some && forall|m: int|
            0 <= m < j ==> !(spec_words(#[trigger] ls[m]).len() > 1 && spec_words(ls[m])[0] == key
                && spec_parse_u64(spec_words(ls[m])[1]) is Some)) ==> kv_from(ls, key)
            == spec_parse_u64(spec_words(ls[j])[1])->0,
        ls.len() == 0 ==> kv_from(ls, key) == 0,
    decreases ls.len(),
{
    if 0 <= j < ls.len() && spec_words(ls[j]).len() > 1 && spec_words(ls[j])[0] == key
        && spec_parse_u64(spec_words(ls[j])[1]) is Some && forall|m: int|
        0 <= m < j ==> !(spec_words(#[trigger] ls[m]).len() > 1 && spec_words(ls[m])[0] == key
            && spec_parse_u64(spec_words(ls[m])[1]) is Some) {
        if j > 0 {
            let t = ls.drop_first();
            assert(t[j - 1] == ls[j]);
            assert(!(spec_words(ls[0]).len() > 1 && spec_words(ls[0])[0] == key && spec_parse_u64(
                spec_words(ls[0])[1],
            ) is Some));
            assert forall|m: int| 0 <= m < j - 1 implies !(spec_words(#[trigger] t[m]).len() > 1
                && spec_words(t[m])[0] == key && spec_parse_u64(spec_words(t[m])[1]) is Some) by {
                assert(t[m] == ls[m + 1]);
            }
            law_first_key_line_wins(t, key, j - 1);
        }
    }
}

/// Counters add without wrapping: the exact sum when it fits in 64 bits,
/// the largest `u64` when it does not.
pub proof fn law_counters_saturate(a: u64, b: u64)
    ensures
        a + b <= u64::MAX ==> sat_add(a, b) == a + b,
        a + b > u64::MAX ==> sat_add(a, b) == u64::MAX,
        sat_add(a, b) >= a && sat_add(a, b) >= b,
{
}

} // verus!
