//! The monitor's configuration and the decisions of its polling loop: how
//! activity is read from successive samples, how stall, OOM and exit
//! observations move the build's state, and the loop's own `wait` rule,
//! which predates the terminal-state fallback of the request handler.
use vstd::prelude::*;

use crate::daemon::handler::{first_hit, first_signal, opt_view, wait_decision};
use crate::health::{is_terminal, state_exit_code, state_name, State};
use crate::platform::paths::{
    artifact_path, default_log, default_out, default_pidfile, default_sock, ext_jsonl, ext_out,
    ext_pid, ext_sock, sock_display,
};

verus! {

/// With no `until`, only a terminal state wakes; otherwise the first
/// requested signal present wins, and nothing else wakes.
pub open spec fn loop_wait_decision(until: Seq<Seq<char>>, state: State, dep_hit: bool, oom_hit: bool) -> Option<
    Seq<char>,
> {
    if until.len() == 0 {
        if is_terminal(state) {
            Some(state_name(state))
        } else {
            None
        }
    } else {
        first_hit(until, state, dep_hit, oom_hit)
    }
}

/// Which signal, if any, wakes a `wait` now (see `loop_wait_decision`).
pub fn wait_match(state: State, until: &[String], dep_hit: bool, oom_hit: bool) -> (r: Option<
    String,
>)
    ensures
        opt_view(r) == loop_wait_decision(until@.map_values(|x: String| x@), state, dep_hit, oom_hit),
{
    if until.len() == 0 {
        if state.is_terminal() {
            return Some(String::from_str(state.as_str()));
        }
        return None;
    }
    first_signal(until, state, dep_hit, oom_hit)
}


/// Where a monitor keeps its files and what it runs.
#[derive(Debug, Clone)]
pub struct MonitorConfig {
    pub uuid: String,
    pub sock: String,
    pub log: String,
    pub pidfile: String,
    pub out: String,
    pub cmd: Vec<String>,
    pub timeout_sec: Option<u64>,
    pub label: Option<String>,
    pub workdir: String,
}

/// `Some`'s text, or `dflt`.
pub open spec fn or_default(o: Option<String>, dflt: Seq<char>) -> Seq<char> {
    match o {
        Some(s) => s@,
        None => dflt,
    }
}

impl MonitorConfig {
    /// Refuses a configuration with no command to run.
    pub fn check_command(&self) -> (r: Result<(), String>)
        ensures
            r is Ok <==> self.cmd@.len() > 0,
            r matches Err(m) ==> m@ == "no command to watch"@,
    {
        if self.cmd.len() == 0 {
            Err(String::from_str("no command to watch"))
        } else {
            Ok(())
        }
    }

    /// A configuration for monitor `uuid`: an explicit socket or log path
    /// wins, the pid and output files always follow the naming convention,
    /// and the build runs in `workdir` (the directory `watch` was given in).
    pub fn new(
        uuid: String,
        sock: Option<String>,
        log: Option<String>,
        cmd: Vec<String>,
        timeout_sec: Option<u64>,
        label: Option<String>,
        workdir: String,
    ) -> (r: Self)
        ensures
            r.uuid@ == uuid@,
            r.sock@ == or_default(sock, artifact_path(uuid@, ext_sock())),
            r.log@ == or_default(log, artifact_path(uuid@, ext_jsonl())),
            r.pidfile@ == artifact_path(uuid@, ext_pid()),
            r.out@ == artifact_path(uuid@, ext_out()),
            r.cmd@ == cmd@,
            r.timeout_sec == timeout_sec,
            r.label == label,
            r.workdir@ == workdir@,
    {
        let sock = match sock {
            Some(s) => s,
            None => sock_display(&default_sock(uuid.as_str())),
        };
        let log = match log {
            Some(l) => l,
            None => default_log(uuid.as_str()),
        };
        let pidfile = default_pidfile(uuid.as_str());
        let out = default_out(uuid.as_str());
        MonitorConfig { uuid, sock, log, pidfile, out, cmd, timeout_sec, label, workdir }
    }
}

/// What one sample of the process tree says about progress.
#[derive(Debug, Clone, Copy, PartialEq, Eq, Structural)]
pub struct Activity {
    /// The build did something: CPU, I/O or a new process.
    pub active: bool,
    /// Bytes of I/O since the previous sample.
    pub io_delta: u64,
    /// The tree has more processes than at the previous sample.
    pub new_child: bool,
}

/// The build's outcome once the loop stops: final state and reported code.
pub open spec fn outcome(
    dep_found: bool,
    oom_hit: bool,
    timed_out: bool,
    exit: Option<i32>,
    alive: bool,
) -> Option<(State, i32)> {
    if timed_out {
        Some((State::Timeout, 124))
    } else if exit is Some {
        if dep_found {
            Some((State::DepMissing, 2))
        } else if oom_hit {
            Some((State::OomKilled, 137))
        } else if exit->0 == 0 {
            Some((State::Done, 0))
        } else {
            Some((State::Failed, 1))
        }
    } else if !alive {
        Some((State::Failed, 3))
    } else {
        None
    }
}

/// What the monitor loop has learned about a build so far.
#[derive(Debug, Clone, Copy, PartialEq, Eq, Structural)]
pub struct Monitor {
    /// The state reported to clients.
    pub state: State,
    /// A missing-dependency message was seen in the build's output.
    pub dep_found: bool,
    /// An OOM kill of a watched process was observed.
    pub oom_hit: bool,
    /// The cgroup's `oom_kill` count already accounted for.
    pub oom_base: u64,
    /// Total I/O bytes at the previous sample.
    pub prev_io: u64,
    /// Process count at the previous sample.
    pub prev_count: usize,
}

impl Monitor {
    /// A freshly started build; `oom_base` is the cgroup's `oom_kill` count
    /// at spawn time (0 without a cgroup).
    pub fn new(oom_base: u64) -> (r: Self)
        ensures
            r.state == State::Running,
            !r.dep_found,
            !r.oom_hit,
            r.oom_base == oom_base,
            r.prev_io == 0,
            r.prev_count == 0,
    {
        Monitor {
            state: State::Running,
            dep_found: false,
            oom_hit: false,
            oom_base,
            prev_io: 0,
            prev_count: 0,
        }
    }

    /// Reads one sample: total I/O bytes, process count, and whether CPU use
    /// was above the busy threshold. I/O is active when the total grew; a
    /// new process is one more than last time.
    pub fn observe(&mut self, io_total: u64, pid_count: usize, cpu_busy: bool) -> (r: Activity)
        ensures
            r.io_delta == (if io_total >= old(self).prev_io {
                io_total - old(self).prev_io
            } else {
                0
            }),
            r.new_child == (pid_count > old(self).prev_count),
            r.active == (cpu_busy || r.io_delta > 0 || r.new_child),
            final(self).prev_io == io_total,
            final(self).prev_count == pid_count,
            final(self).state == old(self).state,
            final(self).dep_found == old(self).dep_found,
            final(self).oom_hit == old(self).oom_hit,
            final(self).oom_base == old(self).oom_base,
    {
        let io_delta = io_total.saturating_sub(self.prev_io);
        self.prev_io = io_total;
        let new_child = pid_count > self.prev_count;
        self.prev_count = pid_count;
        Activity { active: cpu_busy || io_delta > 0 || new_child, io_delta, new_child }
    }

    /// The stall detector's edges: entering a stall marks the build
    /// stalled, its end marks it running again.
    pub fn stall_edges(&mut self, entered: bool, resolved: bool)
        ensures
            final(self).state == (if resolved {
                State::Running
            } else if entered {
                State::Stalled
            } else {
                old(self).state
            }),
            final(self).dep_found == old(self).dep_found,
            final(self).oom_hit == old(self).oom_hit,
            final(self).oom_base == old(self).oom_base,
            final(self).prev_io == old(self).prev_io,
            final(self).prev_count == old(self).prev_count,
    {
        if entered {
            self.state = State::Stalled;
        }
        if resolved {
            self.state = State::Running;
        }
    }

    /// Whether the build output still needs scanning for a
    /// missing-dependency message (only until the first is found).
    pub fn wants_dep_scan(&self) -> (r: bool)
        ensures
            r == !self.dep_found,
    {
        !self.dep_found
    }

    /// A missing-dependency message was found in the output.
    pub fn dep_seen(&mut self)
        ensures
            *final(self) == (Monitor { dep_found: true, ..*old(self) }),
    {
        self.dep_found = true;
    }

    /// The cgroup reports `kills` OOM kills so far. More than already
    /// accounted for is a new OOM event: it is recorded, and a build whose
    /// root process is gone is marked OOM-killed. Returns whether it was new.
    pub fn cgroup_oom(&mut self, kills: u64, alive: bool) -> (fresh: bool)
        ensures
            fresh == (kills > old(self).oom_base),
            fresh ==> final(self).oom_base == kills && final(self).oom_hit,
            fresh ==> final(self).state == (if alive {
                old(self).state
            } else {
                State::OomKilled
            }),
            !fresh ==> *final(self) == *old(self),
            final(self).dep_found == old(self).dep_found,
            final(self).prev_io == old(self).prev_io,
            final(self).prev_count == old(self).prev_count,
    {
        if kills > self.oom_base {
            self.oom_base = kills;
            self.oom_hit = true;
            if !alive {
                self.state = State::OomKilled;
            }
            true
        } else {
            false
        }
    }

    /// The kernel log named a watched process as OOM-killed.
    pub fn kernel_oom(&mut self)
        ensures
            *final(self) == (Monitor { state: State::OomKilled, oom_hit: true, ..*old(self) }),
    {
        self.oom_hit = true;
        self.state = State::OomKilled;
    }

    /// Decides whether the loop stops: a passed deadline first, then the
    /// build's exit (a missing dependency outranks an OOM kill, which
    /// outranks the raw code), then a root process that vanished without
    /// an exit status. The state becomes the outcome's.
    pub fn finish(&mut self, timed_out: bool, exit: Option<i32>, alive: bool) -> (r: Option<
        (State, i32),
    >)
        ensures
            r == outcome(old(self).dep_found, old(self).oom_hit, timed_out, exit, alive),
            match r {
                Some((s, _)) => *final(self) == (Monitor { state: s, ..*old(self) }),
                None => *final(self) == *old(self),
            },
    {
        let r = if timed_out {
            Some((State::Timeout, 124i32))
        } else {
            match exit {
                Some(code) => {
                    if self.dep_found {
                        Some((State::DepMissing, 2i32))
                    } else if self.oom_hit {
                        Some((State::OomKilled, 137i32))
                    } else if code == 0 {
                        Some((State::Done, 0i32))
                    } else {
                        Some((State::Failed, 1i32))
                    }
                },
                None => if !alive {
                    Some((State::Failed, 3i32))
                } else {
                    None
                },
            }
        };
        match r {
            Some((s, _)) => {
                self.state = s;
            },
            None => {},
        }
        r
    }
}

/// Every outcome is a terminal state, and its code is the one that state
/// reports, except a root process lost without an exit status, which
/// reports 3.
pub proof fn law_outcome_terminal_and_coded(
    dep_found: bool,
    oom_hit: bool,
    timed_out: bool,
    exit: Option<i32>,
    alive: bool,
)
    ensures
        match outcome(dep_found, oom_hit, timed_out, exit, alive) {
            Some((s, c)) => is_terminal(s) && (c == state_exit_code(s, c) || (s == State::Failed
                && c == 3 && !timed_out && exit is None && !alive)),
            None => !timed_out && exit is None && alive,
        },
{
}

/// Once a missing dependency has been seen, a build that exits (before its
/// deadline) ends as `dep_missing` with code 2, whatever its exit code.
pub proof fn law_dep_missing_outranks_exit(oom_hit: bool, code: i32, alive: bool)
    ensures
        outcome(true, oom_hit, false, Some(code), alive) == Some((State::DepMissing, 2i32)),
{
}

/// Before the deadline and with no missing dependency seen, an observed
/// OOM kill decides a build that exits: `oom_killed` with code 137,
/// whatever its exit code.
pub proof fn law_oom_outranks_exit(code: i32, alive: bool)
    ensures
        outcome(false, true, false, Some(code), alive) == Some((State::OomKilled, 137i32)),
{
}

/// A passed deadline decides the outcome: `timeout` with code 124,
/// whatever else is known about the build.
pub proof fn law_timeout_outranks_all(dep_found: bool, oom_hit: bool, exit: Option<i32>, alive: bool)
    ensures
        outcome(dep_found, oom_hit, true, exit, alive) == Some((State::Timeout, 124i32)),
{
}

/// With no dependency or OOM evidence, a build that exits before its
/// deadline is `done` (code 0) exactly when it exits with 0, and `failed`
/// (code 1) otherwise.
pub proof fn law_plain_exit_decides(code: i32, alive: bool)
    ensures
        code == 0 ==> outcome(false, false, false, Some(code), alive) == Some((State::Done, 0i32)),
        code != 0 ==> outcome(false, false, false, Some(code), alive) == Some((State::Failed, 1i32)),
{
}

/// Without an exit status and before the deadline, a live root process
/// leaves the build running (no outcome yet), and a vanished one ends it as
/// `failed` with code 3.
pub proof fn law_no_exit_status(dep_found: bool, oom_hit: bool, alive: bool)
    ensures
        alive ==> outcome(dep_found, oom_hit, false, None, alive) is None,
        !alive ==> outcome(dep_found, oom_hit, false, None, alive) == Some((State::Failed, 3i32)),
{
}

/// Once the loop settles an outcome, every waiter wakes, whatever it asked
/// to wait for: the state it reads is terminal.
pub proof fn law_finished_build_wakes_waiters(
    dep_found: bool,
    oom_hit: bool,
    timed_out: bool,
    exit: Option<i32>,
    alive: bool,
    until: Seq<Seq<char>>,
)
    ensures
        match outcome(dep_found, oom_hit, timed_out, exit, alive) {
            Some((s, _)) => wait_decision(until, s, dep_found, oom_hit) is Some,
            None => true,
        },
{
}

} // verus!
