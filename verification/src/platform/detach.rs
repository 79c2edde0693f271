//! Re-launching the monitor detached on Windows: the command line is
//! rebuilt from the monitor's own arguments, without its `--detach` flag,
//! each argument quoted the way the MSVC runtime splits a command line.
use vstd::prelude::*;

use crate::text::{chars_of, chars_starts_with, starts_with, str_eq, string_of};

verus! {

/// `n` backslashes.
pub open spec fn backslashes(n: nat) -> Seq<char> {
    Seq::new(n, |i: int| '\\')
}

/// Whether an argument must be quoted: it holds a space, tab, quote or
/// newline.
pub open spec fn needs_quotes(s: Seq<char>) -> bool {
    exists|i: int| 0 <= i < s.len() && (s[i] == ' ' || s[i] == '\t' || s[i] == '"' || s[i] == '\n')
}

/// The quoted form of `s` from here on, with `bs` backslashes read and not
/// yet written: backslashes are written as they are unless they end the
/// argument or precede a quote, where they are doubled (and the quote
/// escaped with one more).
pub open spec fn quote_body(s: Seq<char>, bs: nat) -> Seq<char>
    decreases s.len(),
{
    if s.len() == 0 {
        backslashes(2 * bs) + seq!['"']
    } else if s[0] == '\\' {
        quote_body(s.drop_first(), bs + 1)
    } else if s[0] == '"' {
        backslashes(2 * bs + 1) + seq!['"'] + quote_body(s.drop_first(), 0)
    } else {
        backslashes(bs) + seq![s[0]] + quote_body(s.drop_first(), 0)
    }
}

/// An argument as written on a command line: `""` when empty, unchanged
/// when nothing in it needs quoting, otherwise in quotes with backslashes
/// and quotes escaped.
pub open spec fn quoted(s: Seq<char>) -> Seq<char> {
    if s.len() == 0 {
        seq!['"', '"']
    } else if !needs_quotes(s) {
        s
    } else {
        seq!['"'] + quote_body(s, 0)
    }
}

/// Appends `n` backslashes.
fn push_backslashes(out: &mut Vec<char>, n: usize)
    ensures
        final(out)@ == old(out)@ + backslashes(n as nat),
{
    let mut k: usize = 0;
    while k < n
        invariant
            k <= n,
            out@ == old(out)@ + backslashes(k as nat),
        decreases n - k,
    {
        out.push('\\');
        k = k + 1;
        assert(out@ =~= old(out)@ + backslashes(k as nat));
    }
}

/// Whether a character forces quoting.
fn forces_quotes(c: char) -> (r: bool)
    ensures
        r == (c == ' ' || c == '\t' || c == '"' || c == '\n'),
{
    c == ' ' || c == '\t' || c == '"' || c == '\n'
}

/// Quotes one argument for a Windows command line (MSVC rules).
pub fn quote_arg(s: &str) -> (r: String)
    ensures
        r@ == quoted(s@),
{
    let cs = chars_of(s);
    let n = cs.len();
    if n == 0 {
        let mut e: Vec<char> = Vec::new();
        e.push('"');
        e.push('"');
        assert(e@ =~= seq!['"', '"']);
        return string_of(e.as_slice());
    }
    let mut needs = false;
    let mut i: usize = 0;
    while i < n
        invariant
            n == cs@.len(),
            i <= n,
            needs == exists|j: int|
                0 <= j < i && (cs@[j] == ' ' || cs@[j] == '\t' || cs@[j] == '"' || cs@[j] == '\n'),
        decreases n - i,
    {
        if forces_quotes(cs[i]) {
            needs = true;
        }
        i = i + 1;
    }
    assert(cs@ == s@);
    if !needs {
        return string_of(cs.as_slice());
    }
    let mut out: Vec<char> = Vec::new();
    out.push('"');
    let mut bs: usize = 0;
    let mut i: usize = 0;
    assert(cs@.skip(0) =~= cs@);
    while i < n
        invariant
            n == cs@.len(),
            i <= n,
            bs <= i,
            out@ + quote_body(cs@.skip(i as int), bs as nat) == seq!['"'] + quote_body(cs@, 0),
        decreases n - i,
    {
        let c = cs[i];
        let ghost rest = cs@.skip(i as int);
        assert(rest[0] == c);
        assert(rest.drop_first() =~= cs@.skip(i + 1));
        if c == '\\' {
            bs = bs + 1;
        } else if c == '"' {
            let ghost before = out@;
            push_backslashes(&mut out, bs);
            push_backslashes(&mut out, bs);
            push_backslashes(&mut out, 1);
            out.push('"');
            assert(backslashes(bs as nat) + backslashes(bs as nat) + backslashes(1) =~= backslashes(
                2 * bs as nat + 1,
            ));
            assert(out@ =~= before + backslashes(2 * bs as nat + 1) + seq!['"']);
            bs = 0;
        } else {
            let ghost before = out@;
            push_backslashes(&mut out, bs);
            out.push(c);
            assert(out@ =~= before + backslashes(bs as nat) + seq![c]);
            bs = 0;
        }
        i = i + 1;
    }
    let ghost before = out@;
    push_backslashes(&mut out, bs);
    push_backslashes(&mut out, bs);
    out.push('"');
    assert(cs@.skip(n as int) =~= Seq::<char>::empty());
    assert(backslashes(bs as nat) + backslashes(bs as nat) =~= backslashes(2 * bs as nat));
    assert(out@ =~= before + backslashes(2 * bs as nat) + seq!['"']);
    string_of(out.as_slice())
}

/// The monitor's arguments with its own `--detach` flag dropped: the first
/// `--detach` or `--detach=...` before a `--` goes; everything else, and
/// everything after `--`, stays.
pub open spec fn without_detach(args: Seq<Seq<char>>, seen_dd: bool, stripped: bool) -> Seq<
    Seq<char>,
>
    decreases args.len(),
{
    if args.len() == 0 {
        seq![]
    } else {
        let a = args[0];
        if a == "--"@ {
            seq![a] + without_detach(args.drop_first(), true, stripped)
        } else if !seen_dd && !stripped && (a == "--detach"@ || starts_with(a, "--detach="@)) {
            without_detach(args.drop_first(), seen_dd, true)
        } else {
            seq![a] + without_detach(args.drop_first(), seen_dd, stripped)
        }
    }
}

/// The arguments (program name excluded) for the detached re-launch.
pub fn filtered_argv(args: &[String]) -> (r: Vec<String>)
    ensures
        r@.map_values(|a: String| a@) == without_detach(
            args@.map_values(|a: String| a@),
            false,
            false,
        ),
{
    let ghost all = args@.map_values(|a: String| a@);
    let mut out: Vec<String> = Vec::new();
    let mut seen_dd = false;
    let mut stripped = false;
    let dash = chars_of("--detach=");
    let n = args.len();
    let mut i: usize = 0;
    assert(all.skip(0) =~= all);
    while i < n
        invariant
            n == args@.len(),
            all == args@.map_values(|a: String| a@),
            dash@ == "--detach="@,
            i <= n,
            out@.map_values(|a: String| a@) + without_detach(all.skip(i as int), seen_dd, stripped)
                == without_detach(all, false, false),
        decreases n - i,
    {
        let a = &args[i];
        let ghost rest = all.skip(i as int);
        assert(rest[0] == a@);
        assert(rest.drop_first() =~= all.skip(i + 1));
        let ghost before = out@.map_values(|x: String| x@);
        if str_eq(a.as_str(), "--") {
            out.push(a.clone());
            assert(out@.map_values(|x: String| x@) =~= before + seq![a@]);
            seen_dd = true;
        } else if !seen_dd && !stripped && (str_eq(a.as_str(), "--detach") || chars_starts_with(
            chars_of(a.as_str()).as_slice(),
            dash.as_slice(),
        )) {
            stripped = true;
        } else {
            out.push(a.clone());
            assert(out@.map_values(|x: String| x@) =~= before + seq![a@]);
        }
        i = i + 1;
    }
    assert(all.skip(n as int) =~= Seq::<Seq<char>>::empty());
    assert(out@.map_values(|a: String| a@) + seq![] =~= out@.map_values(|a: String| a@));
    out
}

/// At most one argument is dropped, and arguments are never invented.
pub proof fn law_filter_drops_at_most_one(args: Seq<Seq<char>>, seen_dd: bool, stripped: bool)
    ensures
        without_detach(args, seen_dd, stripped).len() <= args.len(),
        without_detach(args, seen_dd, stripped).len() + 1 >= args.len(),
        stripped ==> without_detach(args, seen_dd, stripped) == args,
    decreases args.len(),
{
    if args.len() > 0 {
        let a = args[0];
        let rest = args.drop_first();
        if a == "--"@ {
            law_filter_drops_at_most_one(rest, true, stripped);
        } else if !seen_dd && !stripped && (a == "--detach"@ || starts_with(a, "--detach="@)) {
            law_filter_drops_at_most_one(rest, seen_dd, true);
        } else {
            law_filter_drops_at_most_one(rest, seen_dd, stripped);
        }
        if stripped {
            assert(args =~= seq![a] + rest);
        }
    }
}

/// Everything after the `--` that ends the monitor's own options is passed
/// on unchanged: the build command never loses a `--detach` of its own.
pub proof fn law_build_command_untouched(args: Seq<Seq<char>>, stripped: bool)
    ensures
        without_detach(args, true, stripped) == args,
    decreases args.len(),
{
    if args.len() > 0 {
        law_build_command_untouched(args.drop_first(), stripped);
        assert(args =~= seq![args[0]] + args.drop_first());
    }
}

/// How the MSVC runtime reads one argument of a command line, from `s` on,
/// with `bs` backslashes read and not yet written and `inq` telling
/// whether a quoted stretch is open: backslashes are literal unless a
/// quote follows; an even run before a quote is halved and the quote opens
/// or closes a stretch; an odd run is halved and the quote is literal; a
/// space or tab outside quotes ends the argument.
pub open spec fn msvc_arg(s: Seq<char>, bs: nat, inq: bool) -> Seq<char>
    decreases s.len(),
{
    if s.len() == 0 {
        backslashes(bs)
    } else if s[0] == '\\' {
        msvc_arg(s.drop_first(), bs + 1, inq)
    } else if s[0] == '"' {
        if bs % 2 == 0 {
            backslashes(bs / 2) + msvc_arg(s.drop_first(), 0, !inq)
        } else {
            backslashes(bs / 2) + seq!['"'] + msvc_arg(s.drop_first(), 0, inq)
        }
    } else if (s[0] == ' ' || s[0] == '\t') && !inq {
        backslashes(bs)
    } else {
        backslashes(bs) + seq![s[0]] + msvc_arg(s.drop_first(), 0, inq)
    }
}

/// A run of backslashes is read as pending backslashes.
proof fn lemma_msvc_backslash_run(k: nat, t: Seq<char>, b: nat, q: bool)
    ensures
        msvc_arg(backslashes(k) + t, b, q) == msvc_arg(t, b + k, q),
    decreases k,
{
    if k == 0 {
        assert(backslashes(0) + t =~= t);
    } else {
        let u = backslashes(k) + t;
        assert(u[0] == '\\');
        assert(u.drop_first() =~= backslashes((k - 1) as nat) + t);
        lemma_msvc_backslash_run((k - 1) as nat, t, b + 1, q);
    }
}

/// The quoted body of `s`, read inside quotes with `bs` backslashes still
/// owed, gives those backslashes and then `s`.
proof fn lemma_quote_body_reads_back(s: Seq<char>, bs: nat)
    ensures
        msvc_arg(quote_body(s, bs), 0, true) == backslashes(bs) + s,
    decreases s.len(),
{
    if s.len() == 0 {
        let t = seq!['"'];
        lemma_msvc_backslash_run(2 * bs, t, 0, true);
        assert(t.drop_first() =~= Seq::<char>::empty());
        assert((2 * bs) / 2 == bs);
        assert(backslashes(bs) + msvc_arg(Seq::<char>::empty(), 0, false) =~= backslashes(bs) + s);
    } else if s[0] == '\\' {
        lemma_quote_body_reads_back(s.drop_first(), bs + 1);
        assert(backslashes(bs + 1) + s.drop_first() =~= backslashes(bs) + s);
    } else if s[0] == '"' {
        let rest = quote_body(s.drop_first(), 0);
        let t = seq!['"'] + rest;
        assert(quote_body(s, bs) =~= backslashes(2 * bs + 1) + t);
        lemma_msvc_backslash_run(2 * bs + 1, t, 0, true);
        assert(t[0] == '"');
        assert(t.drop_first() =~= rest);
        assert((2 * bs + 1) % 2 == 1);
        assert((2 * bs + 1) / 2 == bs);
        lemma_quote_body_reads_back(s.drop_first(), 0);
        assert(backslashes(0) + s.drop_first() =~= s.drop_first());
        assert(backslashes(bs) + seq!['"'] + s.drop_first() =~= backslashes(bs) + s);
    } else {
        let rest = quote_body(s.drop_first(), 0);
        let t = seq![s[0]] + rest;
        assert(quote_body(s, bs) =~= backslashes(bs) + t);
        lemma_msvc_backslash_run(bs, t, 0, true);
        assert(t[0] == s[0]);
        assert(t.drop_first() =~= rest);
        lemma_quote_body_reads_back(s.drop_first(), 0);
        assert(backslashes(0) + s.drop_first() =~= s.drop_first());
        assert(backslashes(bs) + seq![s[0]] + s.drop_first() =~= backslashes(bs) + s);
    }
}

/// Text with no quote, space, tab or newline reads back as itself.
proof fn lemma_plain_reads_back(s: Seq<char>, bs: nat)
    requires
        !needs_quotes(s),
    ensures
        msvc_arg(s, bs, false) == backslashes(bs) + s,
    decreases s.len(),
{
    if s.len() == 0 {
        assert(backslashes(bs) + s =~= backslashes(bs));
    } else {
        let rest = s.drop_first();
        assert(!needs_quotes(rest)) by {
            if needs_quotes(rest) {
                let i = choose|i: int|
                    0 <= i < rest.len() && (rest[i] == ' ' || rest[i] == '\t' || rest[i] == '"'
                        || rest[i] == '\n');
                assert(s[i + 1] == rest[i]);
            }
        }
        assert(!(s[0] == ' ' || s[0] == '\t' || s[0] == '"' || s[0] == '\n'));
        if s[0] == '\\' {
            lemma_plain_reads_back(rest, bs + 1);
            assert(backslashes(bs + 1) + rest =~= backslashes(bs) + s);
        } else {
            lemma_plain_reads_back(rest, 0);
            assert(backslashes(0) + rest =~= rest);
            assert(backslashes(bs) + seq![s[0]] + rest =~= backslashes(bs) + s);
        }
    }
}

/// Quoting is undone by the MSVC runtime: the child process reads back
/// exactly the argument that was quoted.
pub proof fn law_quoted_reads_back(s: Seq<char>)
    ensures
        msvc_arg(quoted(s), 0, false) == s,
{
    if s.len() == 0 {
        let q = seq!['"', '"'];
        assert(q[0] == '"');
        assert(q.drop_first() =~= seq!['"']);
        assert(seq!['"'].drop_first() =~= Seq::<char>::empty());
        assert(backslashes(0) =~= Seq::<char>::empty());
        assert(msvc_arg(Seq::<char>::empty(), 0, false) =~= Seq::<char>::empty());
        assert(seq!['"'][0] == '"');
        assert(msvc_arg(seq!['"'], 0, true) =~= backslashes(0) + msvc_arg(
            Seq::<char>::empty(),
            0,
            false,
        ));
        assert(msvc_arg(seq!['"'], 0, true) =~= Seq::<char>::empty());
        assert(msvc_arg(q, 0, false) =~= s);
    } else if !needs_quotes(s) {
        lemma_plain_reads_back(s, 0);
        assert(backslashes(0) + s =~= s);
    } else {
        let q = seq!['"'] + quote_body(s, 0);
        assert(q[0] == '"');
        assert(q.drop_first() =~= quote_body(s, 0));
        lemma_quote_body_reads_back(s, 0);
        assert(backslashes(0) + s =~= s);
        assert(backslashes(0) + msvc_arg(quote_body(s, 0), 0, true) =~= s);
    }
}

} // verus!
