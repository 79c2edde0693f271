use vstd::prelude::*;
pub mod dep_missing;
pub mod oom;
pub mod timeout;

verus! {

/// Lifecycle state of a monitored build.
#[derive(Debug, Clone, Copy, PartialEq, Eq, Structural)]
pub enum State {
    Running,
    Stalled,
    OomKilled,
    Done,
    Failed,
    DepMissing,
    Timeout,
}

/// Wire name of a state.
pub open spec fn state_name(s: State) -> Seq<char> {
    match s {
        State::Running => "running"@,
        State::Stalled => "stalled"@,
        State::OomKilled => "oom_killed"@,
        State::Done => "done"@,
        State::Failed => "failed"@,
        State::DepMissing => "dep_missing"@,
        State::Timeout => "timeout"@,
    }
}

/// A state from which the build can no longer produce another signal.
pub open spec fn is_terminal(s: State) -> bool {
    match s {
        State::Running | State::Stalled => false,
        _ => true,
    }
}

/// Process exit code reported for a state (`build_code` is used while running).
pub open spec fn state_exit_code(s: State, build_code: i32) -> i32 {
    match s {
        State::Done => 0,
        State::Failed => 1,
        State::DepMissing => 2,
        State::Running | State::Stalled => build_code,
        State::OomKilled => 137,
        State::Timeout => 124,
    }
}

impl State {
    pub fn as_str(&self) -> (r: &'static str)
        ensures
            r@ == state_name(*self),
    {
        match self {
            State::Running => "running",
            State::Stalled => "stalled",
            State::OomKilled => "oom_killed",
            State::Done => "done",
            State::Failed => "failed",
            State::DepMissing => "dep_missing",
            State::Timeout => "timeout",
        }
    }

    pub fn exit_code(&self, build_code: i32) -> (r: i32)
        ensures
            r == state_exit_code(*self, build_code),
    {
        match self {
            State::Done => 0,
            State::Failed => 1,
            State::DepMissing => 2,
            State::Running | State::Stalled => build_code,
            State::OomKilled => 137,
            State::Timeout => 124,
        }
    }

    /// Whether this state is terminal.
    pub fn is_terminal(&self) -> (r: bool)
        ensures
            r == is_terminal(*self),
    {
        !matches!(self, State::Running | State::Stalled)
    }
}

/// The state and code a raw build exit code maps to: zero is `Done`/0,
/// anything else `Failed`/1.
pub open spec fn build_exit(code: i32) -> (State, i32) {
    if code == 0 {
        (State::Done, 0i32)
    } else {
        (State::Failed, 1i32)
    }
}

/// Exit-code mapping for raw build waits (see `build_exit`).
pub fn map_build_exit(code: i32) -> (r: (State, i32))
    ensures
        r == build_exit(code),
{
    if code == 0 {
        (State::Done, 0)
    } else {
        (State::Failed, 1)
    }
}

/// The code `map_build_exit` reports is the exit code of the state it
/// reports, and that state is terminal.
pub proof fn law_map_build_exit_consistent(code: i32)
    ensures
        build_exit(code).1 == state_exit_code(build_exit(code).0, code),
        is_terminal(build_exit(code).0),
{
}

/// The exit code of a terminal state names the state: no two terminal
/// states share a code (0 done, 1 failed, 2 dependency missing, 124
/// timeout, 137 OOM-killed).
pub proof fn law_terminal_codes_distinct(a: State, b: State, ca: i32, cb: i32)
    requires
        is_terminal(a),
        is_terminal(b),
        state_exit_code(a, ca) == state_exit_code(b, cb),
    ensures
        a == b,
{
}

/// The exit-code table: done 0, failed 1, dependency missing 2, timeout
/// 124, OOM-killed 137; a build still running or stalled reports its own
/// code.
pub proof fn law_exit_code_table(build_code: i32)
    ensures
        state_exit_code(State::Done, build_code) == 0,
        state_exit_code(State::Failed, build_code) == 1,
        state_exit_code(State::DepMissing, build_code) == 2,
        state_exit_code(State::Timeout, build_code) == 124,
        state_exit_code(State::OomKilled, build_code) == 137,
        state_exit_code(State::Running, build_code) == build_code,
        state_exit_code(State::Stalled, build_code) == build_code,
{
}

/// A raw exit code of 0 is a finished build, with code 0; any other code
/// is a failed one, with code 1.
pub proof fn law_build_exit_by_code(code: i32)
    ensures
        code == 0 ==> build_exit(code) == (State::Done, 0i32),
        code != 0 ==> build_exit(code) == (State::Failed, 1i32),
{
}

/// Distinct states have distinct wire names.
pub proof fn law_state_names_distinct(a: State, b: State)
    requires
        a != b,
    ensures
        state_name(a) != state_name(b),
{
    reveal_strlit("running");
    reveal_strlit("stalled");
    reveal_strlit("oom_killed");
    reveal_strlit("done");
    reveal_strlit("failed");
    reveal_strlit("dep_missing");
    reveal_strlit("timeout");
    if state_name(a) == state_name(b) {
        assert(state_name(a).len() == state_name(b).len());
        assert(state_name(a)[0] == state_name(b)[0]);
        assert(state_name(a)[1] == state_name(b)[1]);
    }
}

} // verus!
