//! Reading back the JSONL event log: the last `n` lines of a window of the
//! log, optionally only those of one event, and the path rule for logs.
use std::collections::VecDeque;
use vstd::prelude::*;

use crate::text::{
    chars_contains, chars_of, chars_range, contains, push_chars, sep_fold, split_on, string_of,
    strip_cr,
};

verus! {

/// The lines of a text window as `split('\n')` gives them, without the
/// empty piece after a final `'\n'`.
pub open spec fn window_pieces(text: Seq<char>) -> Seq<Seq<char>> {
    let (d, c) = sep_fold(text, '\n');
    if text.len() > 0 && text.last() == '\n' {
        d
    } else {
        d.push(c)
    }
}

/// The lines of a window: a partial first line dropped when asked, and a
/// `'\r'` before each line end removed.
pub open spec fn window_lines(text: Seq<char>, drop_first: bool) -> Seq<Seq<char>> {
    let p = window_pieces(text);
    let q = if drop_first && p.len() > 0 { p.drop_first() } else { p };
    q.map_values(|l: Seq<char>| strip_cr(l))
}

/// A line is kept by the filter when it contains the needle (always, with none).
pub open spec fn needle_passes(line: Seq<char>, needle: Option<Seq<char>>) -> bool {
    match needle {
        None => true,
        Some(nd) => contains(line, nd),
    }
}

/// The lines the filter keeps, in order.
pub open spec fn keep_matching(ls: Seq<Seq<char>>, needle: Option<Seq<char>>) -> Seq<Seq<char>>
    decreases ls.len(),
{
    if ls.len() == 0 {
        seq![]
    } else {
        let k = keep_matching(ls.drop_last(), needle);
        if needle_passes(ls.last(), needle) {
            k.push(ls.last())
        } else {
            k
        }
    }
}

/// The last `n` of `m` (all of them when `n` is 0: the bounded queue only
/// evicts once it holds exactly `n` lines, which never happens for 0).
pub open spec fn last_n(m: Seq<Seq<char>>, n: nat) -> Seq<Seq<char>> {
    if n == 0 || m.len() <= n {
        m
    } else {
        m.skip(m.len() - n)
    }
}

pub open spec fn deque_views(q: Seq<String>) -> Seq<Seq<char>> {
    q.map_values(|x: String| x@)
}

pub open spec fn needle_view(needle: Option<&str>) -> Option<Seq<char>> {
    match needle {
        Some(s) => Some(s@),
        None => None,
    }
}

/// One step of the bounded tail: when `line` passes the filter it is
/// appended, the oldest kept line evicted once `n` are kept.
pub fn keep_last_step(kept: &mut VecDeque<String>, line: String, n: usize, needle: Option<&str>)
    ensures
        ({
            let m = deque_views(old(kept)@);
            deque_views(final(kept)@) == if needle_passes(line@, needle_view(needle)) {
                if m.len() == n && n > 0 {
                    m.drop_first().push(line@)
                } else if m.len() == n {
                    m.push(line@)
                } else {
                    m.push(line@)
                }
            } else {
                m
            }
        }),
{
    let passes = match needle {
        None => true,
        Some(nd) => {
            let lc = chars_of(line.as_str());
            let nc = chars_of(nd);
            chars_contains(lc.as_slice(), nc.as_slice())
        },
    };
    if passes {
        let ghost m = deque_views(kept@);
        if kept.len() == n {
            kept.pop_front();
        }
        let ghost mid = deque_views(kept@);
        kept.push_back(line);
        assert(deque_views(kept@) =~= mid.push(line@));
        proof {
            if m.len() == n && n > 0 {
                assert(mid =~= m.drop_first());
            }
        }
    }
}

proof fn lemma_last_n_step(m: Seq<Seq<char>>, n: nat, x: Seq<char>)
    ensures
        ({
            let k = last_n(m, n);
            last_n(m.push(x), n) == if k.len() == n && n > 0 {
                k.drop_first().push(x)
            } else {
                k.push(x)
            }
        }),
{
    let k = last_n(m, n);
    if n > 0 && m.len() >= n {
        assert(last_n(m.push(x), n) =~= k.drop_first().push(x));
    } else if n > 0 {
        assert(last_n(m.push(x), n) =~= k.push(x));
    }
}

/// The last `n` lines of a text window that contain `needle` (all lines
/// without a needle), with `BufRead::lines` conventions: no empty line after
/// a final `'\n'`, a `'\r'` before a line end dropped, inner empty lines kept;
/// `drop_first` discards a partial first line. With `n == 0` every matching
/// line is returned.
pub fn last_n_lines(text: &str, drop_first: bool, n: usize, needle: Option<&str>) -> (r: Vec<
    String,
>)
    ensures
        deque_views(r@) == last_n(
            keep_matching(window_lines(text@, drop_first), needle_view(needle)),
            n as nat,
        ),
{
    let tc = chars_of(text);
    let (done, cur) = split_on(tc.as_slice(), '\n');
    let mut pieces = done;
    let ghost p0 = crate::text::views(pieces@);
    if !(tc.len() > 0 && tc[tc.len() - 1] == '\n') {
        pieces.push(cur);
        assert(crate::text::views(pieces@) =~= p0.push(cur@));
    }
    let ghost p = window_pieces(tc@);
    assert(crate::text::views(pieces@) == p);
    let start: usize = if drop_first && pieces.len() > 0 { 1 } else { 0 };
    let ghost q = if drop_first && p.len() > 0 { p.drop_first() } else { p };
    let ghost ls = window_lines(tc@, drop_first);
    assert(ls =~= q.map_values(|l: Seq<char>| strip_cr(l)));
    let mut kept: VecDeque<String> = VecDeque::new();
    let total = pieces.len();
    let ghost nv = needle_view(needle);
    assert(ls.len() == total - start);
    assert(ls.take(0) =~= Seq::<Seq<char>>::empty());
    for i in start..total
        invariant
            total == pieces@.len(),
            start <= total,
            nv == needle_view(needle),
            crate::text::views(pieces@) == p,
            ls.len() == total - start,
            forall|j: int| 0 <= j < ls.len() ==> #[trigger] ls[j] == strip_cr(p[j + start]),
            deque_views(kept@) == last_n(keep_matching(ls.take(i - start), nv), n as nat),
    {
        let raw = &pieces[i];
        assert(raw@ == p[i as int]);
        let line: Vec<char> = if raw.len() > 0 && raw[raw.len() - 1] == '\r' {
            chars_range(raw.as_slice(), 0, raw.len() - 1)
        } else {
            chars_range(raw.as_slice(), 0, raw.len())
        };
        assert(raw@.subrange(0, raw@.len() as int) == raw@);
        assert(line@ == ls[i - start]);
        let s = string_of(line.as_slice());
        let ghost before = keep_matching(ls.take(i - start), nv);
        assert(ls.take(i - start + 1).drop_last() == ls.take(i - start));
        assert(ls.take(i - start + 1).last() == s@);
        assert(keep_matching(ls.take(i - start + 1), nv) == if needle_passes(s@, nv) {
            before.push(s@)
        } else {
            before
        });
        proof {
            lemma_last_n_step(before, n as nat, s@);
        }
        let ghost kv = deque_views(kept@);
        assert(kv == last_n(before, n as nat));
        let ghost sv = s@;
        keep_last_step(&mut kept, s, n, needle);
    }
    assert(ls.take(total - start) == ls);
    let mut out: Vec<String> = Vec::new();
    let ghost all = deque_views(kept@);
    while kept.len() > 0
        invariant
            deque_views(out@) + deque_views(kept@) == all,
        decreases kept@.len(),
    {
        let ghost before = deque_views(kept@);
        match kept.pop_front() {
            Some(l) => {
                let ghost o = deque_views(out@);
                out.push(l);
                assert(deque_views(out@) =~= o.push(l@));
                assert(before =~= seq![l@] + deque_views(kept@));
            },
            None => {},
        }
    }
    assert(deque_views(out@) =~= all);
    out
}

/// The substring by which a log line of event `ev` is recognised without
/// parsing it: `"ev":"<ev>"` (lines are compact JSON).
pub open spec fn needle_of(ev: Seq<char>) -> Seq<char> {
    seq!['"', 'e', 'v', '"', ':', '"'] + ev + seq!['"']
}

/// The needle for event `ev` (see `needle_of`).
pub fn event_needle(ev: &str) -> (r: String)
    ensures
        r@ == needle_of(ev@),
{
    let mut v: Vec<char> = Vec::new();
    v.push('"');
    v.push('e');
    v.push('v');
    v.push('"');
    v.push(':');
    v.push('"');
    let e = chars_of(ev);
    push_chars(&mut v, e.as_slice());
    v.push('"');
    assert(v@ =~= needle_of(ev@));
    string_of(v.as_slice())
}

/// A log path is refused when it holds `..` anywhere.
pub fn validate_tmp_path(p: &str) -> (r: Result<(), String>)
    ensures
        match r {
            Ok(()) => !contains(p@, seq!['.', '.']),
            Err(msg) => contains(p@, seq!['.', '.']) && msg@ == "invalid path (parent dir): "@
                + p@,
        },
{
    let pc = chars_of(p);
    let mut dots: Vec<char> = Vec::new();
    dots.push('.');
    dots.push('.');
    assert(dots@ =~= seq!['.', '.']);
    if chars_contains(pc.as_slice(), dots.as_slice()) {
        let mut msg = String::from_str("invalid path (parent dir): ");
        msg.append(p);
        return Err(msg);
    }
    Ok(())
}

/// The first window read from the end of a log: 64 KiB.
pub const TAIL_WINDOW: u64 = 65536;

/// The largest window; past it the log is scanned from the start.
pub const TAIL_WINDOW_MAX: u64 = 4194304;

/// What a tail read does after reading a window.
#[derive(Debug, Clone, Copy, PartialEq, Eq, Structural)]
pub enum TailStep {
    /// The lines kept from this window are the answer.
    Done,
    /// Read again with a window of this many bytes.
    Grow(u64),
    /// Scan the whole log from its start.
    Scan,
}

/// The window a tail read of a `len`-byte log starts with.
pub fn first_window(len: u64) -> (r: u64)
    ensures
        r == (if len < TAIL_WINDOW {
            len
        } else {
            TAIL_WINDOW
        }),
{
    if len < TAIL_WINDOW {
        len
    } else {
        TAIL_WINDOW
    }
}

/// The decision after a window: enough matching lines, or a window that
/// reaches the log's start, is the answer; a window at the cap gives way
/// to a scan from the start; otherwise the window grows fourfold, up to
/// the cap and the log's length.
pub open spec fn tail_step_of(len: u64, window: u64, kept: usize, n: usize) -> TailStep {
    if kept >= n || window >= len {
        TailStep::Done
    } else if window >= TAIL_WINDOW_MAX {
        TailStep::Scan
    } else {
        let grown = if window * 4 > TAIL_WINDOW_MAX {
            TAIL_WINDOW_MAX
        } else {
            (window * 4) as u64
        };
        TailStep::Grow(if grown > len { len } else { grown })
    }
}

/// What to do after reading the last `window` bytes of a `len`-byte log
/// and keeping `kept` of the `n` lines wanted (see `tail_step_of`).
pub fn tail_step(len: u64, window: u64, kept: usize, n: usize) -> (r: TailStep)
    requires
        window <= len,
    ensures
        r == tail_step_of(len, window, kept, n),
{
    if kept >= n || window >= len {
        TailStep::Done
    } else if window >= TAIL_WINDOW_MAX {
        TailStep::Scan
    } else {
        let grown = if window > TAIL_WINDOW_MAX / 4 {
            TAIL_WINDOW_MAX
        } else {
            window * 4
        };
        TailStep::Grow(if grown > len { len } else { grown })
    }
}

/// A tail read ends: each new window is larger than the last (a window
/// starts non-empty for a non-empty log) and stays within the cap and the
/// log.
pub proof fn law_tail_windows_grow(len: u64, window: u64, kept: usize, n: usize)
    requires
        0 < window <= len,
    ensures
        match tail_step_of(len, window, kept, n) {
            TailStep::Grow(w) => window < w && w <= TAIL_WINDOW_MAX && w <= len,
            _ => true,
        },
{
}

/// When a tail read stops: as soon as `n` lines are kept or the window
/// reaches the log's start; otherwise a window at the cap gives way to a
/// scan from the start, and a smaller one grows.
pub proof fn law_tail_stops_when_answered(len: u64, window: u64, kept: usize, n: usize)
    ensures
        kept >= n ==> tail_step_of(len, window, kept, n) == TailStep::Done,
        window >= len ==> tail_step_of(len, window, kept, n) == TailStep::Done,
        kept < n && window < len && window >= TAIL_WINDOW_MAX ==> tail_step_of(len, window, kept, n)
            == TailStep::Scan,
        kept < n && window < len && window < TAIL_WINDOW_MAX ==> tail_step_of(len, window, kept, n) is Grow,
{
}

/// How many of the oldest lines a log over its size cap loses when it is
/// rewritten: a tenth of them, plus one.
pub fn rotation_drop(count: usize) -> (r: usize)
    ensures
        r == count / 10 + 1,
{
    count / 10 + 1
}

/// With an event filter, every line a tail returns holds the filter's
/// needle; without one, the tail is the last `n` lines themselves.
pub proof fn law_filtered_tail_lines_match(ls: Seq<Seq<char>>, nd: Seq<char>, n: nat)
    ensures
        forall|j: int|
            0 <= j < last_n(keep_matching(ls, Some(nd)), n).len() ==> contains(
                #[trigger] last_n(keep_matching(ls, Some(nd)), n)[j],
                nd,
            ),
        keep_matching(ls, None) == ls,
    decreases ls.len(),
{
    if ls.len() > 0 {
        law_filtered_tail_lines_match(ls.drop_last(), nd, n);
        assert(ls.drop_last().push(ls.last()) =~= ls);
    }
    lemma_kept_lines_match(ls, nd);
    let k = keep_matching(ls, Some(nd));
    let t = last_n(k, n);
    assert forall|j: int| 0 <= j < t.len() implies contains(#[trigger] t[j], nd) by {
        if !(n == 0 || k.len() <= n) {
            assert(t[j] == k[j + (k.len() - n)]);
        }
    }
}

proof fn lemma_kept_lines_match(ls: Seq<Seq<char>>, nd: Seq<char>)
    ensures
        forall|j: int|
            0 <= j < keep_matching(ls, Some(nd)).len() ==> contains(
                #[trigger] keep_matching(ls, Some(nd))[j],
                nd,
            ),
    decreases ls.len(),
{
    if ls.len() > 0 {
        lemma_kept_lines_match(ls.drop_last(), nd);
        let prev = keep_matching(ls.drop_last(), Some(nd));
        let k = keep_matching(ls, Some(nd));
        assert forall|j: int| 0 <= j < k.len() implies contains(#[trigger] k[j], nd) by {
            if j < prev.len() {
                assert(k[j] == prev[j]);
            }
        }
    }
}


/// A string without `sep` is one unfinished piece.
proof fn lemma_fold_no_sep(z: Seq<char>, sep: char)
    requires
        forall|k: int| 0 <= k < z.len() ==> z[k] != sep,
    ensures
        sep_fold(z, sep).0.len() == 0,
        sep_fold(z, sep).1 == z,
    decreases z.len(),
{
    if z.len() > 0 {
        let zl = z.drop_last();
        assert forall|k: int| 0 <= k < zl.len() implies zl[k] != sep by {
            assert(zl[k] == z[k]);
        }
        lemma_fold_no_sep(zl, sep);
        assert(zl.push(z.last()) =~= z);
    }
}

/// Splitting `x + y` when `x` ends on a separator: the pieces of `x`, then
/// those of `y`.
proof fn lemma_fold_concat(x: Seq<char>, y: Seq<char>, sep: char)
    requires
        sep_fold(x, sep).1.len() == 0,
    ensures
        sep_fold(x + y, sep).0 == sep_fold(x, sep).0 + sep_fold(y, sep).0,
        sep_fold(x + y, sep).1 == sep_fold(y, sep).1,
    decreases y.len(),
{
    if y.len() == 0 {
        assert(x + y =~= x);
        assert(sep_fold(x, sep).0 + sep_fold(y, sep).0 =~= sep_fold(x, sep).0);
        assert(sep_fold(x, sep).1 =~= sep_fold(y, sep).1);
    } else {
        let yl = y.drop_last();
        lemma_fold_concat(x, yl, sep);
        assert((x + y).drop_last() =~= x + yl);
        assert((x + y).last() == y.last());
        let dx = sep_fold(x, sep).0;
        let dy = sep_fold(yl, sep).0;
        let cy = sep_fold(yl, sep).1;
        if y.last() == sep {
            assert(dx + dy.push(cy) =~= (dx + dy).push(cy));
        }
    }
}

/// The lines of `x + y`, when `x` ends a line and `y` is not empty: the
/// lines of `x`, then those of `y`.
proof fn lemma_pieces_concat(x: Seq<char>, y: Seq<char>)
    requires
        x.len() > 0,
        x.last() == '\n',
        y.len() > 0,
    ensures
        window_pieces(x + y) == window_pieces(x) + window_pieces(y),
{
    assert(sep_fold(x, '\n').1.len() == 0);
    lemma_fold_concat(x, y, '\n');
    assert((x + y).last() == y.last());
    let dx = sep_fold(x, '\n').0;
    let dy = sep_fold(y, '\n').0;
    let cy = sep_fold(y, '\n').1;
    if y.last() != '\n' {
        assert((dx + dy).push(cy) =~= dx + dy.push(cy));
    }
}

/// The index of the first `'\n'` of `y` (its length without one).
spec fn first_newline(y: Seq<char>) -> nat
    decreases y.len(),
{
    if y.len() == 0 || y[0] == '\n' {
        0
    } else {
        1 + first_newline(y.drop_first())
    }
}

proof fn lemma_first_newline(y: Seq<char>)
    ensures
        first_newline(y) <= y.len(),
        forall|k: int| 0 <= k < first_newline(y) ==> y[k] != '\n',
        first_newline(y) < y.len() ==> y[first_newline(y) as int] == '\n',
    decreases y.len(),
{
    if y.len() > 0 && y[0] != '\n' {
        let yd = y.drop_first();
        lemma_first_newline(yd);
        assert forall|k: int| 0 <= k < first_newline(y) implies y[k] != '\n' by {
            if k > 0 {
                assert(y[k] == yd[k - 1]);
            }
        }
        if first_newline(y) < y.len() {
            assert(y[first_newline(y) as int] == yd[first_newline(yd) as int]);
        }
    }
}

/// The line pieces of the window starting at `s`, a partial first line
/// dropped.
spec fn window_tail_pieces(t: Seq<char>, s: int) -> Seq<Seq<char>> {
    let p = window_pieces(t.skip(s));
    if s > 0 && t[s - 1] != '\n' && p.len() > 0 {
        p.drop_first()
    } else {
        p
    }
}

/// The pieces of a non-empty window are the last pieces of the whole text.
proof fn lemma_window_pieces_suffix(t: Seq<char>, s: int) -> (k: int)
    requires
        0 <= s < t.len(),
    ensures
        0 <= k <= window_pieces(t).len(),
        window_tail_pieces(t, s) == window_pieces(t).skip(k),
{
    let y = t.skip(s);
    if s == 0 {
        assert(y =~= t);
        assert(window_pieces(t).skip(0) =~= window_pieces(t));
        return 0;
    }
    let x = t.take(s);
    assert(t =~= x + y);
    if t[s - 1] == '\n' {
        assert(x.last() == '\n');
        lemma_pieces_concat(x, y);
        let kx = window_pieces(x).len() as int;
        assert(window_pieces(t).skip(kx) =~= window_pieces(y));
        return kx;
    }
    let all = window_pieces(t).len() as int;
    assert(window_pieces(t).skip(all) =~= Seq::<Seq<char>>::empty());
    lemma_first_newline(y);
    let i = first_newline(y) as int;
    if i == y.len() {
        lemma_fold_no_sep(y, '\n');
        assert(y.last() != '\n');
        assert(window_pieces(y).len() == 1);
        assert(window_pieces(y).drop_first() =~= Seq::<Seq<char>>::empty());
        return all;
    }
    let y0 = y.take(i);
    let y1 = y.take(i + 1);
    let y2 = y.skip(i + 1);
    assert forall|k: int| 0 <= k < y0.len() implies y0[k] != '\n' by {
        assert(y0[k] == y[k]);
    }
    lemma_fold_no_sep(y0, '\n');
    assert(y1.drop_last() =~= y0);
    assert(y1.last() == '\n');
    assert(window_pieces(y1) =~= seq![y0]);
    if y2.len() == 0 {
        assert(y =~= y1);
        assert(window_pieces(y).drop_first() =~= Seq::<Seq<char>>::empty());
        return all;
    }
    assert(y =~= y1 + y2);
    lemma_pieces_concat(y1, y2);
    assert(window_pieces(y).drop_first() =~= window_pieces(y2));
    let x1 = t.take(s + i + 1);
    assert(x1 =~= x + y1);
    assert(x1.last() == '\n');
    assert(t =~= x1 + y2);
    lemma_pieces_concat(x1, y2);
    let k1 = window_pieces(x1).len() as int;
    assert(window_pieces(t).skip(k1) =~= window_pieces(y2));
    k1
}

/// Filtering a concatenation filters each part.
proof fn lemma_keep_concat(p: Seq<Seq<char>>, q: Seq<Seq<char>>, needle: Option<Seq<char>>)
    ensures
        keep_matching(p + q, needle) == keep_matching(p, needle) + keep_matching(q, needle),
    decreases q.len(),
{
    if q.len() == 0 {
        assert(p + q =~= p);
        assert(keep_matching(p, needle) + keep_matching(q, needle) =~= keep_matching(p, needle));
    } else {
        let ql = q.drop_last();
        lemma_keep_concat(p, ql, needle);
        assert((p + q).drop_last() =~= p + ql);
        assert((p + q).last() == q.last());
        let kp = keep_matching(p, needle);
        let kq = keep_matching(ql, needle);
        if needle_passes(q.last(), needle) {
            assert((kp + kq).push(q.last()) =~= kp + kq.push(q.last()));
        }
    }
}

/// The last `n > 0` of `x + y` are the last `n` of `y` when `y` has `n`.
proof fn lemma_last_n_suffix(x: Seq<Seq<char>>, y: Seq<Seq<char>>, n: nat)
    requires
        n > 0,
        y.len() >= n,
    ensures
        last_n(x + y, n) == last_n(y, n),
{
    let m = x + y;
    if m.len() <= n {
        assert(x.len() == 0);
        assert(m =~= y);
    } else {
        assert(m.skip(m.len() - n) =~= y.skip(y.len() - n));
        if y.len() == n {
            assert(y.skip(0) =~= y);
        }
    }
}

/// A tail read that stops on a window gives the whole log's answer. The
/// log's text is `t` and the window starts at `s` (a partial first line
/// dropped unless `t[s - 1]` ends a line); `window` of `len` is the same
/// window measured as the decision sees it, reaching the log's start
/// exactly when `s` is 0. When `tail_step_of` says `Done` on the `kept`
/// lines of that window (enough of them, or the whole log read), they are
/// the last `n` matching lines of the whole log.
pub proof fn law_tail_window_answer(
    t: Seq<char>,
    s: int,
    len: u64,
    window: u64,
    kept: usize,
    n: usize,
    needle: Option<Seq<char>>,
)
    requires
        0 <= s < t.len(),
        n > 0,
        window <= len,
        (s == 0) == (window >= len),
        kept == last_n(
            keep_matching(window_lines(t.skip(s), s > 0 && t[s - 1] != '\n'), needle),
            n as nat,
        ).len(),
        tail_step_of(len, window, kept, n) == TailStep::Done,
    ensures
        last_n(keep_matching(window_lines(t.skip(s), s > 0 && t[s - 1] != '\n'), needle), n as nat)
            == last_n(keep_matching(window_lines(t, false), needle), n as nat),
{
    let df = s > 0 && t[s - 1] != '\n';
    let k = lemma_window_pieces_suffix(t, s);
    let p = window_pieces(t);
    let a = window_lines(t, false);
    let w = window_lines(t.skip(s), df);
    assert(w =~= a.skip(k)) by {
        assert(w =~= window_tail_pieces(t, s).map_values(|l: Seq<char>| strip_cr(l)));
        assert(window_tail_pieces(t, s) =~= p.skip(k));
    }
    if s == 0 {
        assert(t.skip(0) =~= t);
    } else {
        assert(a =~= a.take(k) + a.skip(k));
        lemma_keep_concat(a.take(k), a.skip(k), needle);
        let kw = keep_matching(w, needle);
        assert(kw.len() >= n);
        lemma_last_n_suffix(keep_matching(a.take(k), needle), kw, n as nat);
    }
}

/// The filter misses nothing: every line that holds the needle is kept.
pub proof fn law_matching_lines_kept(ls: Seq<Seq<char>>, nd: Seq<char>, j: int)
    requires
        0 <= j < ls.len(),
        contains(ls[j], nd),
    ensures
        keep_matching(ls, Some(nd)).contains(ls[j]),
    decreases ls.len(),
{
    let k = keep_matching(ls, Some(nd));
    if j == ls.len() - 1 {
        assert(k.last() == ls[j]);
    } else {
        let p = ls.drop_last();
        assert(p[j] == ls[j]);
        law_matching_lines_kept(p, nd, j);
        let kp = keep_matching(p, Some(nd));
        let m = choose|m: int| 0 <= m < kp.len() && kp[m] == ls[j];
        assert(k[m] == ls[j]);
    }
}

/// A tail of `n > 0` lines is the last `min(n, m)` of the `m` lines it is
/// taken from, in their order.
pub proof fn law_last_n_is_suffix(m: Seq<Seq<char>>, n: nat)
    requires
        n > 0,
    ensures
        last_n(m, n).len() == (if m.len() < n { m.len() } else { n }),
        last_n(m, n) == m.skip(m.len() - last_n(m, n).len()),
{
    if m.len() <= n {
        assert(m.skip(0) =~= m);
    }
}

} // verus!
