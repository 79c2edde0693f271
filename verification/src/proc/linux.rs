//! Linux `/proc/<pid>/stat` parsing. The command name sits in parentheses
//! and may itself hold spaces and parentheses, so fields are counted from
//! the last `')'`.
use vstd::prelude::*;

use crate::metrics::io::or_zero;
use crate::text::{
    chars_of, chars_range, chars_skip, last_pos, lemma_last_pos_absent_suffix, parse_i64,
    parse_u32, parse_u64, push_chars, spec_parse_i64, spec_parse_u32, spec_parse_u64, spec_words,
    string_of, views, words_of,
};

verus! {

/// The process inspector that reads `/proc`.
pub struct LinuxInspector;

impl LinuxInspector {
    pub fn new() -> Self {
        LinuxInspector
    }
}

/// Why a `stat` line could not be read.
#[derive(Debug, Clone, Copy, PartialEq, Eq, Structural)]
pub enum StatError {
    /// No `')'` closes the command name.
    NoCommEnd,
    /// Fewer than 22 fields follow the command name.
    Short,
}

/// The fields after the command name.
pub open spec fn stat_fields(s: Seq<char>) -> Seq<Seq<char>> {
    spec_words(s.skip(last_pos(s, ')') + 1))
}

/// A parsed `u32`, or 0.
pub open spec fn or_zero_u32(o: Option<u32>) -> u32 {
    match o {
        Some(v) => v,
        None => 0,
    }
}

/// A parsed `i64`, or 0.
pub open spec fn or_zero_i64(o: Option<i64>) -> i64 {
    match o {
        Some(v) => v,
        None => 0,
    }
}

/// What a `stat` line holds: `(ppid, utime, stime, rss pages)`, each field
/// that is not a number read as 0.
pub open spec fn stat_of(s: Seq<char>) -> Result<(u32, u64, u64, i64), StatError> {
    if last_pos(s, ')') < 0 {
        Err(StatError::NoCommEnd)
    } else if stat_fields(s).len() < 22 {
        Err(StatError::Short)
    } else {
        let f = stat_fields(s);
        Ok(
            (
                or_zero_u32(spec_parse_u32(f[1])),
                or_zero(spec_parse_u64(f[11])),
                or_zero(spec_parse_u64(f[12])),
                or_zero_i64(spec_parse_i64(f[21])),
            ),
        )
    }
}

/// Reads `(ppid, utime, stime, rss pages)` from the text of a
/// `/proc/<pid>/stat` file: after the last `')'`, field 1 is the parent
/// pid, fields 11 and 12 the user and system CPU time in clock ticks, and
/// field 21 the resident set in pages.
pub fn parse_stat(s: &str) -> (r: Result<(u32, u64, u64, i64), StatError>)
    ensures
        r == stat_of(s@),
{
    let cs = chars_of(s);
    let mut j: usize = cs.len();
    while j > 0 && cs[j - 1] != ')'
        invariant
            cs@ == s@,
            j <= cs@.len(),
            forall|k: int| j <= k < cs@.len() ==> cs@[k] != ')',
        decreases j,
    {
        j = j - 1;
    }
    proof {
        lemma_last_pos_absent_suffix(cs@, ')', j as int);
        if j > 0 {
            assert(cs@.take(j as int).last() == ')');
        } else {
            assert(cs@.take(0).len() == 0);
        }
    }
    if j == 0 {
        return Err(StatError::NoCommEnd);
    }
    let after = chars_skip(cs.as_slice(), j);
    let f = words_of(after.as_slice());
    assert(views(f@) == stat_fields(s@));
    if f.len() < 22 {
        return Err(StatError::Short);
    }
    assert(views(f@)[1] == f@[1]@ && views(f@)[11] == f@[11]@ && views(f@)[12] == f@[12]@
        && views(f@)[21] == f@[21]@);
    let ppid = match parse_u32(f[1].as_slice()) {
        Some(v) => v,
        None => 0,
    };
    let utime = match parse_u64(f[11].as_slice()) {
        Some(v) => v,
        None => 0,
    };
    let stime = match parse_u64(f[12].as_slice()) {
        Some(v) => v,
        None => 0,
    };
    let rss = match parse_i64(f[21].as_slice()) {
        Some(v) => v,
        None => 0,
    };
    Ok((ppid, utime, stime, rss))
}

/// CPU time of a process in clock ticks (user plus system, wrapping past
/// the largest `u64` as a release build's `+` does), from its `stat` text;
/// `None` when the text cannot be read as a `stat` line.
pub fn cpu_jiffies(stat: &str) -> (r: Option<u64>)
    ensures
        match stat_of(stat@) {
            Ok((_, u, s, _)) => r == Some(((u + s) % 0x1_0000_0000_0000_0000) as u64),
            Err(_) => r is None,
        },
{
    match parse_stat(stat) {
        Ok((_, u, s, _)) => Some(u.wrapping_add(s)),
        Err(_) => None,
    }
}

/// Resident memory in MiB from a page count and the page size: a negative
/// count reads as 0, and the MiB count keeps its low 32 bits.
pub fn rss_mb_from_pages(pages: i64, page_size: i64) -> (r: u32)
    requires
        page_size > 0,
        (if pages > 0 { pages as int } else { 0 }) * page_size <= i64::MAX,
    ensures
        r == (((if pages > 0 { pages as int } else { 0 }) * page_size / 1048576) as u32),
{
    let p: i64 = if pages > 0 { pages } else { 0 };
    let bytes: i64 = p * page_size;
    (bytes / 1048576) as u32
}

/// Index of the first `c` in `s`, or -1.
pub open spec fn first_pos(s: Seq<char>, c: char) -> int
    decreases s.len(),
{
    if s.len() == 0 {
        -1
    } else if s[0] == c {
        0
    } else if first_pos(s.drop_first(), c) < 0 {
        -1
    } else {
        first_pos(s.drop_first(), c) + 1
    }
}

/// The command name of a `stat` line: the text between its first `'('`
/// and its last `')'`; `None` without both, or when the last `')'` comes
/// before the first `'('`.
pub open spec fn comm_text(s: Seq<char>) -> Option<Seq<char>> {
    let a = first_pos(s, '(');
    let b = last_pos(s, ')');
    if a >= 0 && b >= 0 && a < b {
        Some(s.subrange(a + 1, b))
    } else {
        None
    }
}

proof fn lemma_first_pos_bounds(s: Seq<char>, c: char)
    ensures
        -1 <= first_pos(s, c) < s.len(),
        first_pos(s, c) >= 0 ==> s[first_pos(s, c)] == c,
        first_pos(s, c) < 0 ==> forall|k: int| 0 <= k < s.len() ==> s[k] != c,
        forall|k: int| 0 <= k < first_pos(s, c) ==> s[k] != c,
    decreases s.len(),
{
    if s.len() > 0 && s[0] != c {
        lemma_first_pos_bounds(s.drop_first(), c);
        assert forall|k: int| 0 <= k < s.len() && first_pos(s, c) < 0 implies s[k] != c by {
            if k > 0 {
                assert(s[k] == s.drop_first()[k - 1]);
            }
        }
        assert forall|k: int| 0 <= k < first_pos(s, c) implies s[k] != c by {
            if k > 0 {
                assert(s[k] == s.drop_first()[k - 1]);
            }
        }
    }
}

proof fn lemma_first_pos_is_first(s: Seq<char>, c: char, j: int)
    requires
        0 <= j < s.len(),
        s[j] == c,
        forall|k: int| 0 <= k < j ==> s[k] != c,
    ensures
        first_pos(s, c) == j,
    decreases j,
{
    if j > 0 {
        lemma_first_pos_is_first(s.drop_first(), c, j - 1);
    }
}

proof fn lemma_last_pos_is_last(s: Seq<char>, c: char, j: int)
    requires
        0 <= j < s.len(),
        s[j] == c,
        forall|k: int| j < k < s.len() ==> s[k] != c,
    ensures
        last_pos(s, c) == j,
    decreases s.len() - j,
{
    if j < s.len() - 1 {
        lemma_last_pos_is_last(s.drop_last(), c, j);
    }
}

/// A `stat` line is `<pid> (<command>) <fields>`, where the command may
/// itself hold parentheses: the command read back is everything between
/// the first `(` and the last `)`, and the numbered fields are the words
/// after that `)`.
pub proof fn law_stat_line_parts(pre: Seq<char>, comm: Seq<char>, rest: Seq<char>)
    requires
        forall|k: int| 0 <= k < pre.len() ==> pre[k] != '(',
        forall|k: int| 0 <= k < rest.len() ==> rest[k] != ')',
    ensures
        comm_text(pre + seq!['('] + comm + seq![')'] + rest) == Some(comm),
        stat_fields(pre + seq!['('] + comm + seq![')'] + rest) == spec_words(rest),
{
    let s = pre + seq!['('] + comm + seq![')'] + rest;
    let a = pre.len() as int;
    let b = a + 1 + comm.len();
    assert(s[a] == '(');
    assert forall|k: int| 0 <= k < a implies s[k] != '(' by {
        assert(s[k] == pre[k]);
    }
    lemma_first_pos_is_first(s, '(', a);
    assert(s[b] == ')');
    assert forall|k: int| b < k < s.len() implies s[k] != ')' by {
        assert(s[k] == rest[k - b - 1]);
    }
    lemma_last_pos_is_last(s, ')', b);
    assert(s.subrange(a + 1, b) =~= comm);
    assert(s.skip(b + 1) =~= rest);
}

/// The command name in a `stat` line (see `comm_text`).
pub fn comm_of(stat: &str) -> (r: Option<String>)
    ensures
        match r {
            Some(t) => comm_text(stat@) == Some(t@),
            None => comm_text(stat@) is None,
        },
{
    let cs = chars_of(stat);
    let n = cs.len();
    let mut a: usize = 0;
    while a < n && cs[a] != '('
        invariant
            n == cs@.len(),
            a <= n,
            forall|k: int| 0 <= k < a ==> cs@[k] != '(',
        decreases n - a,
    {
        a = a + 1;
    }
    let mut b: usize = n;
    while b > 0 && cs[b - 1] != ')'
        invariant
            n == cs@.len(),
            b <= n,
            forall|k: int| b <= k < n ==> cs@[k] != ')',
        decreases b,
    {
        b = b - 1;
    }
    proof {
        assert(cs@ == stat@);
        lemma_first_pos_bounds(cs@, '(');
        if a < n {
            lemma_first_pos_is_first(cs@, '(', a as int);
        } else {
            assert(first_pos(cs@, '(') < 0) by {
                if first_pos(cs@, '(') >= 0 {
                    assert(cs@[first_pos(cs@, '(')] == '(');
                }
            }
        }
        if b > 0 {
            lemma_last_pos_is_last(cs@, ')', b - 1);
        } else {
            lemma_last_pos_absent_suffix(cs@, ')', 0);
            assert(cs@.take(0).len() == 0);
        }
    }
    if a < n && b > 0 && a < b - 1 {
        Some(string_of(chars_range(cs.as_slice(), a + 1, b - 1).as_slice()))
    } else {
        None
    }
}

/// `String::from_utf8_lossy` of `b`: its UTF-8 text, each invalid sequence
/// replaced by U+FFFD.
pub uninterp spec fn lossy_text(b: Seq<u8>) -> Seq<char>;

/// `String::from_utf8_lossy`, made an owned `String`. Claimed: the text is
/// `lossy_text(b)`, a function of the bytes alone; nothing is claimed of
/// the decoding itself.
#[verifier::external_body]
fn utf8_lossy(b: &[u8]) -> (r: String)
    ensures
        r@ == lossy_text(b@),
{
    String::from_utf8_lossy(b).into_owned()
}

/// Left-to-right scan of a NUL-separated byte string: the non-empty
/// pieces finished so far and the piece being built.
pub open spec fn nul_fold(b: Seq<u8>) -> (Seq<Seq<u8>>, Seq<u8>)
    decreases b.len(),
{
    if b.len() == 0 {
        (seq![], seq![])
    } else {
        let (d, c) = nul_fold(b.drop_last());
        if b.last() == 0 {
            if c.len() > 0 {
                (d.push(c), seq![])
            } else {
                (d, seq![])
            }
        } else {
            (d, c.push(b.last()))
        }
    }
}

/// The non-empty NUL-separated pieces of `b`.
pub open spec fn nul_args(b: Seq<u8>) -> Seq<Seq<u8>> {
    let (d, c) = nul_fold(b);
    if c.len() > 0 {
        d.push(c)
    } else {
        d
    }
}

/// Pieces of text joined by single spaces.
pub open spec fn join_spaced(ps: Seq<Seq<char>>) -> Seq<char>
    decreases ps.len(),
{
    if ps.len() == 0 {
        seq![]
    } else if ps.len() == 1 {
        ps[0]
    } else {
        join_spaced(ps.drop_last()) + seq![' '] + ps.last()
    }
}

/// The command line a `/proc/<pid>/cmdline` file shows: its non-empty
/// NUL-separated arguments, each decoded lossily, joined by spaces; `None`
/// when there is no argument (a kernel thread or a zombie).
pub open spec fn cmdline_text(raw: Seq<u8>) -> Option<Seq<char>> {
    let args = nul_args(raw);
    if args.len() == 0 {
        None
    } else {
        Some(join_spaced(args.map_values(|a: Seq<u8>| lossy_text(a))))
    }
}

proof fn lemma_nul_fold_step(b: Seq<u8>, i: int)
    requires
        0 <= i < b.len(),
    ensures
        nul_fold(b.take(i + 1)) == (if b[i] == 0 {
            if nul_fold(b.take(i)).1.len() > 0 {
                (nul_fold(b.take(i)).0.push(nul_fold(b.take(i)).1), Seq::<u8>::empty())
            } else {
                (nul_fold(b.take(i)).0, Seq::<u8>::empty())
            }
        } else {
            (nul_fold(b.take(i)).0, nul_fold(b.take(i)).1.push(b[i]))
        }),
{
    assert(b.take(i + 1).drop_last() =~= b.take(i));
}

/// The non-empty NUL-separated pieces of `raw`.
fn split_nul(raw: &[u8]) -> (r: Vec<Vec<u8>>)
    ensures
        r@.map_values(|v: Vec<u8>| v@) == nul_args(raw@),
{
    let mut done: Vec<Vec<u8>> = Vec::new();
    let mut cur: Vec<u8> = Vec::new();
    let n = raw.len();
    for i in 0..n
        invariant
            n == raw@.len(),
            done@.map_values(|v: Vec<u8>| v@) == nul_fold(raw@.take(i as int)).0,
            cur@ == nul_fold(raw@.take(i as int)).1,
    {
        proof {
            lemma_nul_fold_step(raw@, i as int);
        }
        let x = raw[i];
        if x == 0 {
            if cur.len() > 0 {
                let piece = cur;
                cur = Vec::new();
                let ghost before = done@.map_values(|v: Vec<u8>| v@);
                done.push(piece);
                assert(done@.map_values(|v: Vec<u8>| v@) =~= before.push(piece@));
            }
        } else {
            cur.push(x);
        }
    }
    assert(raw@.take(n as int) =~= raw@);
    if cur.len() > 0 {
        let ghost before = done@.map_values(|v: Vec<u8>| v@);
        done.push(cur);
        assert(done@.map_values(|v: Vec<u8>| v@) =~= before.push(cur@));
    }
    done
}

/// The command line in a `/proc/<pid>/cmdline` file (see `cmdline_text`).
pub fn cmdline_from_raw(raw: &[u8]) -> (r: Option<String>)
    ensures
        match r {
            Some(t) => cmdline_text(raw@) == Some(t@),
            None => cmdline_text(raw@) is None,
        },
{
    let args = split_nul(raw);
    let ghost av = args@.map_values(|v: Vec<u8>| v@);
    let ghost texts = av.map_values(|a: Seq<u8>| lossy_text(a));
    let n = args.len();
    if n == 0 {
        return None;
    }
    let mut out: Vec<char> = Vec::new();
    let mut i: usize = 0;
    while i < n
        invariant
            n == args@.len(),
            n > 0,
            av == args@.map_values(|v: Vec<u8>| v@),
            texts == av.map_values(|a: Seq<u8>| lossy_text(a)),
            i <= n,
            out@ == join_spaced(texts.take(i as int)),
        decreases n - i,
    {
        let t = chars_of(utf8_lossy(args[i].as_slice()).as_str());
        assert(t@ == texts[i as int]);
        let ghost before = out@;
        if i > 0 {
            out.push(' ');
        }
        push_chars(&mut out, t.as_slice());
        i = i + 1;
        proof {
            assert(texts.take(i as int).drop_last() =~= texts.take(i - 1));
            if i == 1 {
                assert(out@ =~= t@);
                assert(join_spaced(texts.take(1)) == texts.take(1)[0]);
            } else {
                assert(out@ =~= before + seq![' '] + t@);
            }
        }
    }
    assert(texts.take(n as int) =~= texts);
    Some(string_of(out.as_slice()))
}

} // verus!
