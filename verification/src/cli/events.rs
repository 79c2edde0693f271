//! Decisions of the `events` stream: the `--event` filter, which fetched
//! log lines are new since the previous poll, and when an `exit` event ends
//! the stream.
use vstd::prelude::*;

use crate::health::{is_terminal, state_name, State};
use crate::text::{chars_eq, chars_of, spec_split, spec_trim, split_on, string_of, trim_chars, views};

verus! {

/// The event names a comma-separated `--event` value selects: its pieces,
/// trimmed, the empty ones left out.
pub open spec fn filter_names(s: Seq<char>) -> Set<Seq<char>> {
    Set::new(
        |x: Seq<char>|
            x.len() > 0 && exists|i: int|
                0 <= i < spec_split(s, ',').len() && spec_trim(#[trigger] spec_split(s, ',')[i])
                    == x,
    )
}

/// The comma-separated event filter as a set of names (each once); `None`
/// (no filtering) when the value is absent or names nothing.
pub fn parse_filter(event: Option<&str>) -> (r: Option<Vec<String>>)
    ensures
        ({
            let names = filter_names(
                match event {
                    Some(e) => e@,
                    None => Seq::<char>::empty(),
                },
            );
            match r {
                None => names.is_empty(),
                Some(v) => !names.is_empty() && string_views(v@).no_duplicates() && forall|
                    x: Seq<char>,
                | #[trigger] string_views(v@).contains(x) <==> names.contains(x),
            }
        }),
{
    let text: Vec<char> = match event {
        Some(e) => chars_of(e),
        None => Vec::new(),
    };
    let (done, cur) = split_on(text.as_slice(), ',');
    let mut pieces = done;
    pieces.push(cur);
    let ghost ps = spec_split(text@, ',');
    assert(views(pieces@) =~= ps);
    let mut out: Vec<String> = Vec::new();
    let mut outc: Vec<Vec<char>> = Vec::new();
    let n = pieces.len();
    for i in 0..n
        invariant
            n == ps.len(),
            views(pieces@) == ps,
            views(outc@) == string_views(out@),
            string_views(out@).no_duplicates(),
            forall|x: Seq<char>|
                #[trigger] string_views(out@).contains(x) <==> (x.len() > 0 && exists|j: int|
                    0 <= j < i && spec_trim(#[trigger] ps[j]) == x),
    {
        let ghost prev = string_views(out@);
        let t = trim_chars(pieces[i].as_slice());
        assert(pieces@[i as int]@ == ps[i as int]);
        assert(t@ == spec_trim(ps[i as int]));
        if t.len() > 0 {
            let mut dup = false;
            let m = outc.len();
            for k in 0..m
                invariant
                    m == outc@.len(),
                    views(outc@) == string_views(out@),
                    !dup ==> forall|q: int| 0 <= q < k ==> views(outc@)[q] != t@,
                    dup ==> string_views(out@).contains(t@),
            {
                if !dup && chars_eq(outc[k].as_slice(), t.as_slice()) {
                    dup = true;
                    assert(string_views(out@)[k as int] == t@);
                }
            }
            if !dup {
                let ghost old_views = string_views(out@);
                out.push(string_of(t.as_slice()));
                let ghost old_c = views(outc@);
                outc.push(t);
                assert(string_views(out@) =~= old_views.push(t@));
                assert(views(outc@) =~= old_c.push(t@));
                assert(string_views(out@)[old_views.len() as int] == t@);
                assert forall|x: Seq<char>| #[trigger] string_views(out@).contains(x) <==> (
                prev.contains(x) || x == t@) by {
                    if prev.contains(x) {
                        let q = choose|q: int| 0 <= q < prev.len() && prev[q] == x;
                        assert(string_views(out@)[q] == x);
                    }
                    if string_views(out@).contains(x) && x != t@ {
                        let q = choose|q: int| 0 <= q < string_views(out@).len() && string_views(out@)[q] == x;
                        assert(prev[q] == x);
                    }
                }
            }
        }
        assert(t@.len() > 0 ==> string_views(out@).contains(t@));
        assert(forall|x: Seq<char>| #[trigger] string_views(out@).contains(x) <==> (prev.contains(x) || (t@.len() > 0 && x == t@)));
        assert forall|x: Seq<char>|
            #[trigger] string_views(out@).contains(x) <==> (x.len() > 0 && exists|j: int|
                0 <= j < i + 1 && spec_trim(#[trigger] ps[j]) == x) by {
            if string_views(out@).contains(x) {
                if prev.contains(x) {
                    let j = choose|j: int| 0 <= j < i && spec_trim(#[trigger] ps[j]) == x;
                    assert(0 <= j < i + 1 && spec_trim(ps[j]) == x);
                } else {
                    assert(spec_trim(ps[i as int]) == x);
                }
            }
            if x.len() > 0 && exists|j: int| 0 <= j < i + 1 && spec_trim(#[trigger] ps[j]) == x {
                let j = choose|j: int| 0 <= j < i + 1 && spec_trim(#[trigger] ps[j]) == x;
                if j < i {
                    assert(prev.contains(x));
                } else {
                    assert(x == t@);
                }
            }
        }
    }
    let ghost names = filter_names(text@);
    if out.len() == 0 {
        assert(names =~= Set::<Seq<char>>::empty()) by {
            assert forall|x: Seq<char>| !names.contains(x) by {
                assert(!string_views(out@).contains(x));
            }
        }
        assert(text@ == (match event {
            Some(e) => e@,
            None => Seq::<char>::empty(),
        }));
        None
    } else {
        let ghost x = string_views(out@)[0];
        assert(string_views(out@).contains(x));
        let ghost j = choose|j: int| 0 <= j < n && spec_trim(#[trigger] ps[j]) == x;
        assert(0 <= j < spec_split(text@, ',').len() && spec_trim(spec_split(text@, ',')[j]) == x);
        assert(names.contains(x));
        assert(text@ == (match event {
            Some(e) => e@,
            None => Seq::<char>::empty(),
        }));
        Some(out)
    }
}

/// The character sequences of a sequence of strings.
pub open spec fn string_views(s: Seq<String>) -> Seq<Seq<char>> {
    s.map_values(|x: String| x@)
}

/// Index of the last occurrence of `x` in `ls`, or -1.
pub open spec fn rpos(ls: Seq<Seq<char>>, x: Seq<char>) -> int
    decreases ls.len(),
{
    if ls.len() == 0 {
        -1
    } else if ls.last() == x {
        ls.len() - 1
    } else {
        rpos(ls.drop_last(), x)
    }
}

/// Length of the block of equal adjacent lines that ends at index `i`.
pub open spec fn run_back(ls: Seq<Seq<char>>, i: int) -> nat
    decreases i,
{
    if 0 < i < ls.len() && ls[i - 1] == ls[i] {
        1 + run_back(ls, i - 1)
    } else {
        1
    }
}

/// First index of `ls` not yet seen, for a position that last saw `last`
/// ending a block of `run` equal lines: just past the last copy of `last`,
/// minus the copies in its block beyond the `run` already seen; 0 when
/// `last` is not in `ls` (repeat rather than lose lines).
pub open spec fn advance_start(last: Option<Seq<char>>, run: nat, ls: Seq<Seq<char>>) -> int {
    match last {
        None => 0,
        Some(lp) => {
            let i = rpos(ls, lp);
            if i < 0 {
                0
            } else {
                let b = run_back(ls, i);
                let seen = if run < b { run } else { b };
                i + 1 - (b - seen)
            }
        },
    }
}

/// Position after a poll: the last line of `ls` and the length of the block
/// that ends `ls`; unchanged when `ls` is empty.
pub open spec fn advance_state(last: Option<Seq<char>>, run: nat, ls: Seq<Seq<char>>) -> (
    Option<Seq<char>>,
    nat,
) {
    if ls.len() == 0 {
        (last, run)
    } else {
        (Some(ls.last()), run_back(ls, ls.len() - 1))
    }
}

/// Stream position: the last line seen and the length of the block of
/// equal adjacent lines it ended.
pub struct StreamPos {
    last: Option<String>,
    run: usize,
}

impl View for StreamPos {
    type V = (Option<Seq<char>>, nat);

    closed spec fn view(&self) -> (Option<Seq<char>>, nat) {
        (
            match self.last {
                Some(s) => Some(s@),
                None => None,
            },
            self.run as nat,
        )
    }
}

impl Default for StreamPos {
    fn default() -> (r: Self)
        ensures
            r@ == (None::<Seq<char>>, 0nat),
    {
        StreamPos { last: None, run: 0 }
    }
}

proof fn lemma_run_back_step(ls: Seq<Seq<char>>, i: int, k: int)
    requires
        0 <= k <= i < ls.len(),
        forall|j: int| i - k <= j <= i ==> ls[j] == ls[i],
    ensures
        run_back(ls, i) == k + run_back(ls, i - k),
    decreases k,
{
    if k > 0 {
        assert(ls[i - 1] == ls[i]);
        lemma_run_back_step(ls, i - 1, k - 1);
    }
}

proof fn lemma_run_back_bound(ls: Seq<Seq<char>>, i: int)
    ensures
        1 <= run_back(ls, i),
        0 <= i < ls.len() ==> run_back(ls, i) <= i + 1,
    decreases i,
{
    if 0 < i < ls.len() && ls[i - 1] == ls[i] {
        lemma_run_back_bound(ls, i - 1);
    }
}

/// `run_back(ls, i)` computed by scanning back from `i`.
fn block_ending_at(lines: &[String], i: usize) -> (r: usize)
    requires
        i < lines@.len(),
    ensures
        r == run_back(string_views(lines@), i as int),
{
    let ghost ls = string_views(lines@);
    let mut block: usize = 1;
    while block <= i && lines[i - block] == lines[i]
        invariant
            i < lines@.len(),
            ls == string_views(lines@),
            1 <= block <= i + 1,
            forall|j: int| i - (block - 1) <= j <= i ==> ls[j] == ls[i as int],
        decreases i + 1 - block,
    {
        block = block + 1;
    }
    proof {
        lemma_run_back_step(ls, i as int, block - 1);
        if block <= i {
            assert(ls[i - block] != ls[i - block + 1]);
        }
    }
    block
}

proof fn lemma_rpos_absent_suffix(ls: Seq<Seq<char>>, x: Seq<char>, j: int)
    requires
        0 <= j <= ls.len(),
        forall|k: int| j <= k < ls.len() ==> ls[k] != x,
    ensures
        rpos(ls, x) == rpos(ls.take(j), x),
    decreases ls.len() - j,
{
    if j < ls.len() {
        assert(ls.drop_last().take(j) == ls.take(j));
        lemma_rpos_absent_suffix(ls.drop_last(), x, j);
    } else {
        assert(ls.take(j) == ls);
    }
}

proof fn lemma_run_back_prefix(s: Seq<Seq<char>>, t: Seq<Seq<char>>, i: int)
    requires
        0 <= i < s.len(),
        i < t.len(),
        s.take(i + 1) == t.take(i + 1),
    ensures
        run_back(s, i) == run_back(t, i),
    decreases i,
{
    assert(s[i] == s.take(i + 1)[i] && t[i] == t.take(i + 1)[i]);
    if i > 0 {
        assert(s[i - 1] == s.take(i + 1)[i - 1] && t[i - 1] == t.take(i + 1)[i - 1]);
        assert(s.take(i) == s.take(i + 1).take(i) && t.take(i) == t.take(i + 1).take(i));
        lemma_run_back_prefix(s, t, i - 1);
    }
}

/// Resuming a stream: after a poll that returned `a`, a later poll whose
/// lines are `a` followed by new lines starts exactly at the first new line,
/// including new lines that repeat the last one seen, provided the
/// remaining new lines do not repeat it (the one case the position cannot
/// tell apart, documented as such). With no new lines this says that a
/// repeated poll reports nothing new.
pub proof fn law_advance_resumes_after_seen(
    last: Option<Seq<char>>,
    run: nat,
    a: Seq<Seq<char>>,
    k: nat,
    rest: Seq<Seq<char>>,
)
    requires
        a.len() > 0,
        !rest.contains(a.last()),
    ensures
        ({
            let st = advance_state(last, run, a);
            let b = a + Seq::new(k, |i: int| a.last()) + rest;
            advance_start(st.0, st.1, b) == a.len()
        }),
{
    let x = a.last();
    let b = a + Seq::new(k, |i: int| x) + rest;
    let j: int = (a.len() + k) as int;
    assert forall|i: int| j <= i < b.len() implies b[i] != x by {
        assert(b[i] == rest[i - j]);
    }
    lemma_rpos_absent_suffix(b, x, j);
    assert(b.take(j).last() == x);
    assert(rpos(b, x) == j - 1);
    assert forall|i: int| (a.len() - 1) <= i <= j - 1 implies #[trigger] b[i] == b[j - 1] by {}
    lemma_run_back_step(b, j - 1, k as int);
    assert(b.take(a.len() as int) == a.take(a.len() as int));
    lemma_run_back_prefix(b, a, a.len() - 1);
}

impl StreamPos {
    /// Index in `lines` (a freshly fetched tail of the log) of the first line
    /// not yet seen, moving the position to the end of `lines`.
    pub fn advance(&mut self, lines: &[String]) -> (start: usize)
        ensures
            start == advance_start(old(self)@.0, old(self)@.1, string_views(lines@)),
            final(self)@ == advance_state(old(self)@.0, old(self)@.1, string_views(lines@)),
    {
        let ghost ls = string_views(lines@);
        let start: usize = match &self.last {
            Some(lp) => {
                let mut j: usize = lines.len();
                let mut found = false;
                while j > 0
                    invariant_except_break
                        !found,
                    invariant
                        j <= lines@.len(),
                        ls == string_views(lines@),
                        forall|k: int| j <= k < ls.len() ==> ls[k] != lp@,
                    ensures
                        found ==> j > 0 && ls[j - 1] == lp@,
                        !found ==> j == 0,
                    decreases j,
                {
                    if lines[j - 1] == *lp {
                        found = true;
                        break;
                    }
                    j = j - 1;
                }
                proof {
                    lemma_rpos_absent_suffix(ls, lp@, j as int);
                    if found {
                        assert(ls.take(j as int).last() == lp@);
                    } else {
                        assert(ls.take(0) == Seq::<Seq<char>>::empty());
                    }
                }
                if found {
                    let i = j - 1;
                    let block = block_ending_at(lines, i);
                    proof {
                        lemma_run_back_bound(ls, i as int);
                    }
                    let seen = if self.run < block { self.run } else { block };
                    i + 1 - (block - seen)
                } else {
                    0
                }
            },
            None => 0,
        };
        let n = lines.len();
        if n > 0 {
            let run = block_ending_at(lines, n - 1);
            self.last = Some(lines[n - 1].clone());
            self.run = run;
        }
        start
    }
}

/// What `serde_json::from_str::<serde_json::Value>` makes of `text`, read
/// as a string under `key`: `None` when `text` is not JSON, `Some(None)` when
/// the parsed value holds no string under `key`, `Some(Some(s))` otherwise.
pub uninterp spec fn json_str_at(text: Seq<char>, key: Seq<char>) -> Option<Option<Seq<char>>>;

/// What `serde_json::from_str::<serde_json::Value>` makes of `text`, read
/// as an `i64` under `key` (`Value::as_i64`), in the same three cases.
pub uninterp spec fn json_i64_at(text: Seq<char>, key: Seq<char>) -> Option<Option<i64>>;

/// Parses `text` with `serde_json::from_str::<Value>` and reads the string
/// under `key` (`Value::get`, `Value::as_str`). Claimed: the result is
/// `json_str_at(text, key)`, a function of the two strings alone.
#[verifier::external_body]
fn json_str_field(text: &str, key: &str) -> (r: Option<Option<String>>)
    ensures
        match (r, json_str_at(text@, key@)) {
            (None, None) => true,
            (Some(None), Some(None)) => true,
            (Some(Some(s)), Some(Some(t))) => s@ == t,
            _ => false,
        },
{
    match serde_json::from_str::<serde_json::Value>(text) {
        Ok(v) => match v.get(key) {
            Some(x) => match x.as_str() {
                Some(t) => Some(Some(t.to_string())),
                None => Some(None),
            },
            None => Some(None),
        },
        Err(_) => None,
    }
}

/// Parses `text` with `serde_json::from_str::<Value>` and reads the integer
/// under `key` (`Value::get`, `Value::as_i64`). Claimed: the result is
/// `json_i64_at(text, key)`, a function of the two strings alone.
#[verifier::external_body]
fn json_i64_field(text: &str, key: &str) -> (r: Option<Option<i64>>)
    ensures
        r == json_i64_at(text@, key@),
{
    match serde_json::from_str::<serde_json::Value>(text) {
        Ok(v) => match v.get(key) {
            Some(x) => Some(x.as_i64()),
            None => Some(None),
        },
        Err(_) => None,
    }
}

pub open spec fn opt_str_view(o: Option<Option<String>>) -> Option<Option<Seq<char>>> {
    match o {
        None => None,
        Some(None) => Some(None),
        Some(Some(s)) => Some(Some(s@)),
    }
}

pub open spec fn filter_view(filter: Option<Vec<String>>) -> Option<Seq<Seq<char>>> {
    match filter {
        None => None,
        Some(v) => Some(string_views(v@)),
    }
}

/// Whether a line passes the filter, given what parsing it found under
/// `"ev"`: everything passes without a filter; a line that is not JSON passes
/// (nothing is lost); otherwise its event name must be in the filter.
pub open spec fn passes_filter(filter: Option<Seq<Seq<char>>>, ev: Option<Option<Seq<char>>>) -> bool {
    match filter {
        None => true,
        Some(names) => match ev {
            None => true,
            Some(None) => false,
            Some(Some(e)) => names.contains(e),
        },
    }
}

/// The filter decision for a line whose `"ev"` field parsed as `ev`.
pub fn filter_passes(filter: &Option<Vec<String>>, ev: &Option<Option<String>>) -> (r: bool)
    ensures
        r == passes_filter(filter_view(*filter), opt_str_view(*ev)),
{
    match filter {
        None => true,
        Some(names) => match ev {
            None => true,
            Some(None) => false,
            Some(Some(e)) => {
                let n = names.len();
                let mut found = false;
                for k in 0..n
                    invariant
                        n == names@.len(),
                        found == exists|q: int| 0 <= q < k && string_views(names@)[q] == e@,
                {
                    if names[k] == *e {
                        found = true;
                    }
                    assert(string_views(names@)[k as int] == names@[k as int]@);
                }
                found
            },
        },
    }
}

/// Whether a log line passes the `--event` filter (see `passes_filter`).
pub fn match_filter(line: &str, filter: &Option<Vec<String>>) -> (r: bool)
    ensures
        r == passes_filter(filter_view(*filter), json_str_at(line@, "ev"@)),
{
    if filter.is_none() {
        return true;
    }
    let ev = json_str_field(line, "ev");
    filter_passes(filter, &ev)
}

/// Exit code carried by a log line, given what parsing it found under
/// `"ev"` and `"code"`: an `exit` event yields its code (1 when absent,
/// truncated to `i32`), any other line `None`.
pub open spec fn exit_code_from(ev: Option<Option<Seq<char>>>, code: Option<Option<i64>>) -> Option<
    i32,
> {
    match ev {
        Some(Some(e)) => if e == "exit"@ {
            Some(
                match code {
                    Some(Some(c)) => c as i32,
                    _ => 1i32,
                },
            )
        } else {
            None
        },
        _ => None,
    }
}

/// `exit_code_from` on parsed fields.
pub fn exit_code_of_fields(ev: &Option<Option<String>>, code: Option<Option<i64>>) -> (r: Option<
    i32,
>)
    ensures
        r == exit_code_from(opt_str_view(*ev), code),
{
    match ev {
        Some(Some(e)) => {
            let exit = chars_of("exit");
            let ec = chars_of(e.as_str());
            if chars_eq(ec.as_slice(), exit.as_slice()) {
                Some(
                    match code {
                        Some(Some(c)) => c as i32,
                        _ => 1i32,
                    },
                )
            } else {
                None
            }
        },
        _ => None,
    }
}

/// The build exit code when `line` is an `exit` event, else `None`.
pub fn exit_code_of(line: &str) -> (r: Option<i32>)
    ensures
        r == exit_code_from(json_str_at(line@, "ev"@), json_i64_at(line@, "code"@)),
{
    let ev = json_str_field(line, "ev");
    let code = json_i64_field(line, "code");
    exit_code_of_fields(&ev, code)
}

/// Exit code for a compact status reply when the build has ended: `None`
/// unless the reply is ok and its state is terminal; the reported code, or 1.
pub open spec fn terminal_code_from(ok: bool, state: Seq<char>, code: Option<i64>) -> Option<i32> {
    let terminal = state == "done"@ || state == "failed"@ || state == "dep_missing"@ || state
        == "oom_killed"@ || state == "timeout"@;
    if ok && terminal {
        Some(
            match code {
                Some(c) => c as i32,
                None => 1i32,
            },
        )
    } else {
        None
    }
}

/// `terminal_code_from` on the fields of a status reply (`state` is `""`
/// when the reply has none).
pub fn terminal_code(ok: bool, state: &str, code: Option<i64>) -> (r: Option<i32>)
    ensures
        r == terminal_code_from(ok, state@, code),
{
    if !ok {
        return None;
    }
    let s = chars_of(state);
    let terminal = chars_eq(s.as_slice(), chars_of("done").as_slice()) || chars_eq(
        s.as_slice(),
        chars_of("failed").as_slice(),
    ) || chars_eq(s.as_slice(), chars_of("dep_missing").as_slice()) || chars_eq(
        s.as_slice(),
        chars_of("oom_killed").as_slice(),
    ) || chars_eq(s.as_slice(), chars_of("timeout").as_slice());
    if terminal {
        Some(
            match code {
                Some(c) => c as i32,
                None => 1i32,
            },
        )
    } else {
        None
    }
}

/// What an `events` filter lets through: everything without a filter;
/// with one, a line whose event is named in it, never a line without an
/// event, and an unparsed line always.
pub proof fn law_filter_lets_through(names: Seq<Seq<char>>, e: Seq<char>, ev: Option<Option<Seq<char>>>)
    ensures
        passes_filter(None, ev),
        passes_filter(Some(names), Some(Some(e))) <==> names.contains(e),
        !passes_filter(Some(names), Some(None)),
        passes_filter(Some(names), None),
{
}

/// The `exit` event ends the stream with the build's code (any code that
/// fits in 32 bits unchanged, 1 when it has none); no other event does.
pub proof fn law_exit_event_code(e: Seq<char>, c: i64, code: Option<Option<i64>>)
    ensures
        i32::MIN <= c <= i32::MAX ==> exit_code_from(Some(Some("exit"@)), Some(Some(c))) == Some(c as i32),
        exit_code_from(Some(Some("exit"@)), None) == Some(1i32),
        exit_code_from(Some(Some("exit"@)), Some(None)) == Some(1i32),
        e != "exit"@ ==> exit_code_from(Some(Some(e)), code) is None,
        exit_code_from(Some(None), code) is None,
        exit_code_from(None, code) is None,
{
}

/// A status reply ends the stream exactly when it is successful and its
/// state is terminal (by the state's wire name), with the reported code or
/// 1 without one.
pub proof fn law_terminal_reply_ends_stream(s: State, ok: bool, code: Option<i64>)
    ensures
        (terminal_code_from(ok, state_name(s), code) is Some) <==> (ok && is_terminal(s)),
        ok && is_terminal(s) && code is None ==> terminal_code_from(ok, state_name(s), code) == Some(1i32),
{
    reveal_strlit("running");
    reveal_strlit("stalled");
    reveal_strlit("done");
    reveal_strlit("failed");
    reveal_strlit("dep_missing");
    reveal_strlit("oom_killed");
    reveal_strlit("timeout");
    assert("running"@.len() == 7 && "running"@[0] == 'r');
    assert("stalled"@.len() == 7 && "stalled"@[0] == 's');
    assert("timeout"@.len() == 7 && "timeout"@[0] == 't');
    assert("done"@.len() == 4);
    assert("failed"@.len() == 6);
    assert("dep_missing"@.len() == 11);
    assert("oom_killed"@.len() == 10);
}

} // verus!
