//! Signals a client may send to a build. On the wire a signal travels as
//! its Unix number (TERM 15, KILL 9, INT 2, HUP 1), so older and newer
//! clients and daemons agree.
use vstd::prelude::*;

use crate::text::{chars_eq, chars_of, chars_skip, chars_starts_with, push_chars, string_of};

verus! {

/// A signal `kill` can deliver to a build's process group.
#[derive(Debug, Clone, Copy, PartialEq, Eq, Structural)]
pub enum Sig {
    Term,
    Kill,
    Int,
    Hup,
}

/// The Unix number of a signal.
pub open spec fn sig_num(s: Sig) -> i32 {
    match s {
        Sig::Term => 15,
        Sig::Kill => 9,
        Sig::Int => 2,
        Sig::Hup => 1,
    }
}

/// The signal a wire number stands for; an unknown number means TERM.
pub open spec fn sig_of_num(n: i64) -> Sig {
    if n == 9 {
        Sig::Kill
    } else if n == 2 {
        Sig::Int
    } else if n == 1 {
        Sig::Hup
    } else {
        Sig::Term
    }
}

impl Sig {
    /// The Unix number of this signal.
    pub fn to_num(self) -> (r: i32)
        ensures
            r == sig_num(self),
    {
        match self {
            Sig::Term => 15,
            Sig::Kill => 9,
            Sig::Int => 2,
            Sig::Hup => 1,
        }
    }

    /// The signal a wire number stands for; an unknown number means TERM.
    pub fn from_num(n: i64) -> (r: Self)
        ensures
            r == sig_of_num(n),
    {
        if n == 9 {
            Sig::Kill
        } else if n == 2 {
            Sig::Int
        } else if n == 1 {
            Sig::Hup
        } else {
            Sig::Term
        }
    }
}

/// Reading a signal's number back gives the signal.
pub proof fn law_num_round_trip(s: Sig)
    ensures
        sig_of_num(sig_num(s) as i64) == s,
{
}

/// Distinct signals have distinct numbers.
pub proof fn law_num_injective(a: Sig, b: Sig)
    ensures
        sig_num(a) == sig_num(b) ==> a == b,
{
}

/// `s` in upper case, as `str::to_uppercase` maps it (full Unicode case
/// mapping; one character may become several).
pub uninterp spec fn upper(s: Seq<char>) -> Seq<char>;

/// `str::to_uppercase`. Claimed: the result is `upper(s)`, a function of
/// `s` alone; nothing is claimed of the case tables themselves.
#[verifier::external_body]
fn to_upper(s: &str) -> (r: String)
    ensures
        r@ == upper(s@),
{
    s.to_uppercase()
}

/// An upper-cased name without a leading `SIG`.
pub open spec fn bare_name(u: Seq<char>) -> Seq<char> {
    if u.len() >= 3 && u.take(3) == "SIG"@ {
        u.skip(3)
    } else {
        u
    }
}

/// The signal an upper-cased name without `SIG` denotes: its name or its
/// number.
pub open spec fn sig_named(v: Seq<char>) -> Option<Sig> {
    if v == "TERM"@ || v == "15"@ {
        Some(Sig::Term)
    } else if v == "KILL"@ || v == "9"@ {
        Some(Sig::Kill)
    } else if v == "INT"@ || v == "2"@ {
        Some(Sig::Int)
    } else if v == "HUP"@ || v == "1"@ {
        Some(Sig::Hup)
    } else {
        None
    }
}

/// What parsing gives for the upper-cased text `u` of the user's `s`.
pub open spec fn parsed_signal(u: Seq<char>, s: Seq<char>) -> Result<Sig, Seq<char>> {
    match sig_named(bare_name(u)) {
        Some(g) => Ok(g),
        None => Err("unknown signal: "@ + s),
    }
}

/// The names a user may give a signal: `TERM`, `KILL`, `INT` and `HUP`,
/// each also with a `SIG` prefix or as its number; any other name is
/// refused, with a message naming what the user wrote.
pub proof fn law_signal_names(v: Seq<char>, u: Seq<char>, s: Seq<char>)
    ensures
        sig_named(bare_name("SIGTERM"@)) == Some(Sig::Term),
        sig_named(bare_name("SIGKILL"@)) == Some(Sig::Kill),
        sig_named(bare_name("SIGINT"@)) == Some(Sig::Int),
        sig_named(bare_name("SIGHUP"@)) == Some(Sig::Hup),
        sig_named("TERM"@) == Some(Sig::Term) && sig_named("15"@) == Some(Sig::Term),
        sig_named("KILL"@) == Some(Sig::Kill) && sig_named("9"@) == Some(Sig::Kill),
        sig_named("INT"@) == Some(Sig::Int) && sig_named("2"@) == Some(Sig::Int),
        sig_named("HUP"@) == Some(Sig::Hup) && sig_named("1"@) == Some(Sig::Hup),
        sig_named(bare_name(u)) is None ==> parsed_signal(u, s) == Err::<Sig, Seq<char>>("unknown signal: "@ + s),
        sig_named(v) is Some ==> (v == "TERM"@ || v == "15"@ || v == "KILL"@ || v == "9"@ || v == "INT"@
            || v == "2"@ || v == "HUP"@ || v == "1"@),
{
    reveal_strlit("SIG");
    reveal_strlit("SIGTERM");
    reveal_strlit("SIGKILL");
    reveal_strlit("SIGINT");
    reveal_strlit("SIGHUP");
    reveal_strlit("TERM");
    reveal_strlit("KILL");
    reveal_strlit("INT");
    reveal_strlit("HUP");
    reveal_strlit("15");
    reveal_strlit("9");
    reveal_strlit("2");
    reveal_strlit("1");
    assert("SIGTERM"@.take(3) =~= "SIG"@ && "SIGTERM"@.skip(3) =~= "TERM"@);
    assert("SIGKILL"@.take(3) =~= "SIG"@ && "SIGKILL"@.skip(3) =~= "KILL"@);
    assert("SIGINT"@.take(3) =~= "SIG"@ && "SIGINT"@.skip(3) =~= "INT"@);
    assert("SIGHUP"@.take(3) =~= "SIG"@ && "SIGHUP"@.skip(3) =~= "HUP"@);
    assert("TERM"@.len() == 4 && "TERM"@[0] == 'T');
    assert("KILL"@.len() == 4 && "KILL"@[0] == 'K');
    assert("INT"@.len() == 3 && "INT"@[0] == 'I');
    assert("HUP"@.len() == 3 && "HUP"@[0] == 'H');
    assert("15"@.len() == 2);
    assert("9"@.len() == 1 && "9"@[0] == '9');
    assert("2"@.len() == 1 && "2"@[0] == '2');
    assert("1"@.len() == 1 && "1"@[0] == '1');
}

fn lit(s: &str) -> (r: Vec<char>)
    ensures
        r@ == s@,
{
    chars_of(s)
}

/// The signal for `upper_text`, the upper-cased form of the user's `s`: an
/// optional `SIG` prefix, then `TERM`/`15`, `KILL`/`9`, `INT`/`2` or
/// `HUP`/`1`; anything else is refused, naming `s`.
pub fn signal_from_upper(upper_text: &str, s: &str) -> (r: Result<Sig, String>)
    ensures
        match r {
            Ok(g) => parsed_signal(upper_text@, s@) == Ok::<Sig, Seq<char>>(g),
            Err(e) => parsed_signal(upper_text@, s@) == Err::<Sig, Seq<char>>(e@),
        },
{
    let u = chars_of(upper_text);
    let sig = lit("SIG");
    proof {
        reveal_strlit("SIG");
    }
    let v = if chars_starts_with(u.as_slice(), sig.as_slice()) {
        chars_skip(u.as_slice(), 3)
    } else {
        u
    };
    assert(v@ == bare_name(upper_text@));
    let vs = v.as_slice();
    if chars_eq(vs, lit("TERM").as_slice()) || chars_eq(vs, lit("15").as_slice()) {
        Ok(Sig::Term)
    } else if chars_eq(vs, lit("KILL").as_slice()) || chars_eq(vs, lit("9").as_slice()) {
        Ok(Sig::Kill)
    } else if chars_eq(vs, lit("INT").as_slice()) || chars_eq(vs, lit("2").as_slice()) {
        Ok(Sig::Int)
    } else if chars_eq(vs, lit("HUP").as_slice()) || chars_eq(vs, lit("1").as_slice()) {
        Ok(Sig::Hup)
    } else {
        let mut msg = lit("unknown signal: ");
        let sc = chars_of(s);
        push_chars(&mut msg, sc.as_slice());
        Err(string_of(msg.as_slice()))
    }
}

/// Parses a user-given signal: case is ignored (as `str::to_uppercase`
/// maps it), a `SIG` prefix is optional, and a name or its number is
/// accepted.
pub fn parse_signal(s: &str) -> (r: Result<Sig, String>)
    ensures
        match r {
            Ok(g) => parsed_signal(upper(s@), s@) == Ok::<Sig, Seq<char>>(g),
            Err(e) => parsed_signal(upper(s@), s@) == Err::<Sig, Seq<char>>(e@),
        },
{
    let u = to_upper(s);
    signal_from_upper(u.as_str(), s)
}

} // verus!
