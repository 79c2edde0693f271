//! When a `wait` request wakes: the decision over the build state, the
//! requested `until` signals and the dependency/OOM evidence seen so far.
use vstd::prelude::*;

use crate::health::{is_terminal, state_name, State};
use crate::ipc::protocol::is_known_signal;
use crate::text::str_eq;

verus! {

/// Whether the requested signal `want` is present: build outcomes by state,
/// `dep_missing`/`oom_suspect` also by evidence seen before the build ended,
/// the older names as aliases; unknown names never.
pub open spec fn signal_hit(want: Seq<char>, state: State, dep_hit: bool, oom_hit: bool) -> bool {
    if want == "done"@ {
        state == State::Done
    } else if want == "failed"@ {
        state == State::Failed
    } else if want == "timeout"@ {
        state == State::Timeout
    } else if want == "dep_missing"@ {
        dep_hit || state == State::DepMissing
    } else if want == "stall_suspect"@ || want == "stalled"@ {
        state == State::Stalled
    } else if want == "oom_suspect"@ || want == "oom_killed"@ {
        oom_hit || state == State::OomKilled
    } else {
        false
    }
}

/// The first requested signal that is present, in request order.
pub open spec fn first_hit(until: Seq<Seq<char>>, state: State, dep_hit: bool, oom_hit: bool) -> Option<
    Seq<char>,
>
    decreases until.len(),
{
    if until.len() == 0 {
        None
    } else if signal_hit(until[0], state, dep_hit, oom_hit) {
        Some(until[0])
    } else {
        first_hit(until.drop_first(), state, dep_hit, oom_hit)
    }
}

/// Canonical signal name of a terminal state; `None` while the build runs.
pub open spec fn terminal_signal_name(state: State) -> Option<Seq<char>> {
    match state {
        State::Done => Some("done"@),
        State::Failed => Some("failed"@),
        State::DepMissing => Some("dep_missing"@),
        State::Timeout => Some("timeout"@),
        State::OomKilled => Some("oom_suspect"@),
        State::Running | State::Stalled => None,
    }
}

/// With no `until`, only a terminal state wakes (reported by its state
/// name); otherwise the first requested signal present wins (reported as
/// written), and a terminal state wakes even when not requested.
pub open spec fn wait_decision(until: Seq<Seq<char>>, state: State, dep_hit: bool, oom_hit: bool) -> Option<
    Seq<char>,
> {
    if until.len() == 0 {
        if is_terminal(state) {
            Some(state_name(state))
        } else {
            None
        }
    } else {
        match first_hit(until, state, dep_hit, oom_hit) {
            Some(w) => Some(w),
            None => terminal_signal_name(state),
        }
    }
}

pub open spec fn opt_view(o: Option<String>) -> Option<Seq<char>> {
    match o {
        Some(s) => Some(s@),
        None => None,
    }
}

/// `signal_hit` for one requested name.
pub fn signal_present(want: &str, state: State, dep_hit: bool, oom_hit: bool) -> (r: bool)
    ensures
        r == signal_hit(want@, state, dep_hit, oom_hit),
{
    if str_eq(want, "done") {
        state == State::Done
    } else if str_eq(want, "failed") {
        state == State::Failed
    } else if str_eq(want, "timeout") {
        state == State::Timeout
    } else if str_eq(want, "dep_missing") {
        dep_hit || state == State::DepMissing
    } else if str_eq(want, "stall_suspect") || str_eq(want, "stalled") {
        state == State::Stalled
    } else if str_eq(want, "oom_suspect") || str_eq(want, "oom_killed") {
        oom_hit || state == State::OomKilled
    } else {
        false
    }
}

/// The first requested signal present, in request order.
pub fn first_signal(until: &[String], state: State, dep_hit: bool, oom_hit: bool) -> (r: Option<
    String,
>)
    ensures
        opt_view(r) == first_hit(until@.map_values(|x: String| x@), state, dep_hit, oom_hit),
{
    let ghost us = until@.map_values(|x: String| x@);
    let n = until.len();
    assert(us.skip(0) == us);
    for i in 0..n
        invariant
            n == until@.len(),
            us == until@.map_values(|x: String| x@),
            first_hit(us, state, dep_hit, oom_hit) == first_hit(
                us.skip(i as int),
                state,
                dep_hit,
                oom_hit,
            ),
    {
        assert(us.skip(i as int).drop_first() == us.skip(i + 1));
        assert(us.skip(i as int)[0] == until@[i as int]@);
        if signal_present(until[i].as_str(), state, dep_hit, oom_hit) {
            return Some(until[i].clone());
        }
    }
    assert(us.skip(n as int).len() == 0);
    None
}

/// Canonical signal name of a terminal state (`None` for running/stalled).
pub fn terminal_signal(state: State) -> (r: Option<String>)
    ensures
        opt_view(r) == terminal_signal_name(state),
{
    match state {
        State::Done => Some(String::from_str("done")),
        State::Failed => Some(String::from_str("failed")),
        State::DepMissing => Some(String::from_str("dep_missing")),
        State::Timeout => Some(String::from_str("timeout")),
        State::OomKilled => Some(String::from_str("oom_suspect")),
        State::Running | State::Stalled => None,
    }
}

/// Which signal, if any, wakes a `wait` now (see `wait_decision`).
pub fn wait_match(state: State, until: &[String], dep_hit: bool, oom_hit: bool) -> (r: Option<
    String,
>)
    ensures
        opt_view(r) == wait_decision(until@.map_values(|x: String| x@), state, dep_hit, oom_hit),
{
    if until.len() == 0 {
        if state.is_terminal() {
            return Some(String::from_str(state.as_str()));
        }
        return None;
    }
    match first_signal(until, state, dep_hit, oom_hit) {
        Some(w) => Some(w),
        None => terminal_signal(state),
    }
}

/// A finished build always wakes a waiter, whatever it asked for.
pub proof fn law_terminal_state_always_wakes(
    until: Seq<Seq<char>>,
    state: State,
    dep_hit: bool,
    oom_hit: bool,
)
    requires
        is_terminal(state),
    ensures
        wait_decision(until, state, dep_hit, oom_hit) is Some,
{
}

/// Without an `until` list, a running or stalled build never wakes a
/// waiter, whatever evidence was seen.
pub proof fn law_default_waits_for_terminal(state: State, dep_hit: bool, oom_hit: bool)
    requires
        !is_terminal(state),
    ensures
        wait_decision(Seq::empty(), state, dep_hit, oom_hit) is None,
{
}

/// Only the signal names a request may carry can ever be present: an
/// unknown name never wakes a waiter, and each known name is present in
/// some situation.
pub proof fn law_only_known_signals_hit(want: Seq<char>)
    ensures
        !is_known_signal(want) ==> forall|s: State, d: bool, o: bool| !signal_hit(want, s, d, o),
        is_known_signal(want) ==> exists|s: State| signal_hit(want, s, true, true),
{
    if is_known_signal(want) {
        if want == "done"@ {
            assert(signal_hit(want, State::Done, true, true));
        } else if want == "failed"@ {
            assert(signal_hit(want, State::Failed, true, true));
        } else if want == "timeout"@ {
            assert(signal_hit(want, State::Timeout, true, true));
        } else {
            assert(signal_hit(want, State::Stalled, true, true) || signal_hit(
                want,
                State::Running,
                true,
                true,
            ));
        }
    }
}

/// What each signal name waits for. `done`, `failed` and `timeout` are
/// present exactly in their own state and `stall_suspect` exactly while the
/// build is stalled, whatever evidence was seen; `dep_missing` is present
/// on dependency evidence or in the `dep_missing` state, and `oom_suspect`
/// on OOM evidence or in the `oom_killed` state. The older names `stalled`
/// and `oom_killed` mean the same as `stall_suspect` and `oom_suspect`.
pub proof fn law_signal_meanings(state: State, dep_hit: bool, oom_hit: bool)
    ensures
        signal_hit("done"@, state, dep_hit, oom_hit) <==> state == State::Done,
        signal_hit("failed"@, state, dep_hit, oom_hit) <==> state == State::Failed,
        signal_hit("timeout"@, state, dep_hit, oom_hit) <==> state == State::Timeout,
        signal_hit("stall_suspect"@, state, dep_hit, oom_hit) <==> state == State::Stalled,
        signal_hit("dep_missing"@, state, dep_hit, oom_hit) <==> (dep_hit || state == State::DepMissing),
        signal_hit("oom_suspect"@, state, dep_hit, oom_hit) <==> (oom_hit || state == State::OomKilled),
        signal_hit("stalled"@, state, dep_hit, oom_hit) == signal_hit("stall_suspect"@, state, dep_hit, oom_hit),
        signal_hit("oom_killed"@, state, dep_hit, oom_hit) == signal_hit("oom_suspect"@, state, dep_hit, oom_hit),
{
    reveal_strlit("done");
    reveal_strlit("failed");
    reveal_strlit("timeout");
    reveal_strlit("dep_missing");
    reveal_strlit("stall_suspect");
    reveal_strlit("stalled");
    reveal_strlit("oom_suspect");
    reveal_strlit("oom_killed");
    assert("done"@.len() == 4);
    assert("failed"@.len() == 6);
    assert("timeout"@.len() == 7 && "timeout"@[0] == 't');
    assert("stalled"@.len() == 7 && "stalled"@[0] == 's');
    assert("dep_missing"@.len() == 11 && "dep_missing"@[0] == 'd');
    assert("oom_suspect"@.len() == 11 && "oom_suspect"@[0] == 'o');
    assert("stall_suspect"@.len() == 13);
    assert("oom_killed"@.len() == 10);
}

/// Without dependency or OOM evidence, a state's own name wakes a wait in
/// that state and in no other (a running build has no signal).
pub proof fn law_state_name_wakes_only_its_state(s: State, t: State)
    requires
        s != State::Running,
    ensures
        signal_hit(state_name(s), t, false, false) <==> t == s,
{
    law_signal_meanings(t, false, false);
}

/// Request order decides: the name reported is the first requested name
/// that is present, when one is.
pub proof fn law_first_present_name_wins(until: Seq<Seq<char>>, i: int, state: State, dep_hit: bool, oom_hit: bool)
    requires
        0 <= i < until.len(),
        signal_hit(until[i], state, dep_hit, oom_hit),
        forall|j: int| 0 <= j < i ==> !signal_hit(#[trigger] until[j], state, dep_hit, oom_hit),
    ensures
        first_hit(until, state, dep_hit, oom_hit) == Some(until[i]),
        wait_decision(until, state, dep_hit, oom_hit) == Some(until[i]),
    decreases i,
{
    if i > 0 {
        assert(!signal_hit(until[0], state, dep_hit, oom_hit));
        let rest = until.drop_first();
        assert forall|j: int| 0 <= j < i - 1 implies !signal_hit(#[trigger] rest[j], state, dep_hit, oom_hit) by {
            assert(rest[j] == until[j + 1]);
        }
        assert(rest[i - 1] == until[i]);
        law_first_present_name_wins(rest, i - 1, state, dep_hit, oom_hit);
    }
}

/// A finished build that wakes a wait by no requested name reports a name
/// that is present in its state: every terminal state has one.
pub proof fn law_terminal_wake_name_is_present(s: State)
    ensures
        is_terminal(s) <==> terminal_signal_name(s) is Some,
        terminal_signal_name(s) matches Some(w) ==> signal_hit(w, s, false, false),
{
    law_signal_meanings(s, false, false);
}

/// With no `until` list, a finished build wakes a waiter with its own state
/// name.
pub proof fn law_default_wake_is_state_name(s: State, dep_hit: bool, oom_hit: bool)
    requires
        is_terminal(s),
    ensures
        wait_decision(Seq::empty(), s, dep_hit, oom_hit) == Some(state_name(s)),
{
}

/// A woken wait reports a name that was requested, or else the canonical
/// name of the terminal state.
pub proof fn law_woken_name_is_requested_or_terminal(
    until: Seq<Seq<char>>,
    state: State,
    dep_hit: bool,
    oom_hit: bool,
)
    requires
        until.len() > 0,
    ensures
        match wait_decision(until, state, dep_hit, oom_hit) {
            Some(w) => until.contains(w) || Some(w) == terminal_signal_name(state),
            None => true,
        },
{
    lemma_first_hit_member(until, state, dep_hit, oom_hit);
}

proof fn lemma_first_hit_member(until: Seq<Seq<char>>, state: State, dep_hit: bool, oom_hit: bool)
    ensures
        match first_hit(until, state, dep_hit, oom_hit) {
            Some(w) => until.contains(w),
            None => true,
        },
    decreases until.len(),
{
    if until.len() > 0 && !signal_hit(until[0], state, dep_hit, oom_hit) {
        lemma_first_hit_member(until.drop_first(), state, dep_hit, oom_hit);
        match first_hit(until.drop_first(), state, dep_hit, oom_hit) {
            Some(w) => {
                let k = choose|k: int| 0 <= k < until.drop_first().len() && until.drop_first()[k] == w;
                assert(until[k + 1] == w);
            },
            None => {},
        }
    } else if until.len() > 0 {
        assert(until[0] == until[0]);
    }
}

} // verus!
