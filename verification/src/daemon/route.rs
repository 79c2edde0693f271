//! How the daemon answers a request, before it touches any shared state:
//! which operation runs with which parameters (defaults filled in), or
//! which error refuses the request. The fields arrive as the request
//! carried them; a field that is absent or of another type is `None`.
use vstd::prelude::*;

use crate::daemon::handler::opt_view;
use crate::ipc::protocol::{first_unknown, validate_until};
use crate::platform::signal::{sig_num, sig_of_num, Sig};
use crate::text::str_eq;

verus! {

/// What the daemon does for one request.
#[derive(Debug, Clone, PartialEq, Eq)]
pub enum RequestPlan {
    /// The build's state: the compact record or the full snapshot.
    Status { compact: bool },
    /// The current metric totals.
    Metrics,
    /// The last `n` event-log lines, only those of kind `event` when given.
    LogTail { n: u64, event: Option<String> },
    /// Waiting for one of `until` (terminal states only when empty),
    /// checking every `poll_ms` milliseconds.
    Wait { poll_ms: u64, until: Vec<String> },
    /// Signalling the build's process group.
    Kill { signal: Sig },
    /// Stopping the daemon (and the build: TERM, then KILL when forced).
    Shutdown { force: bool },
    /// An error reply with this code and message.
    Refuse { code: String, message: String },
}

/// A plan with its strings as character sequences.
pub enum PlanView {
    Status { compact: bool },
    Metrics,
    LogTail { n: u64, event: Option<Seq<char>> },
    Wait { poll_ms: u64, until: Seq<Seq<char>> },
    Kill { signal: Sig },
    Shutdown { force: bool },
    Refuse { code: Seq<char>, message: Seq<char> },
}

pub open spec fn strings_view(v: Seq<String>) -> Seq<Seq<char>> {
    v.map_values(|x: String| x@)
}

impl View for RequestPlan {
    type V = PlanView;

    open spec fn view(&self) -> PlanView {
        match self {
            RequestPlan::Status { compact } => PlanView::Status { compact: *compact },
            RequestPlan::Metrics => PlanView::Metrics,
            RequestPlan::LogTail { n, event } => PlanView::LogTail { n: *n, event: opt_view(*event) },
            RequestPlan::Wait { poll_ms, until } => PlanView::Wait { poll_ms: *poll_ms, until: strings_view(until@) },
            RequestPlan::Kill { signal } => PlanView::Kill { signal: *signal },
            RequestPlan::Shutdown { force } => PlanView::Shutdown { force: *force },
            RequestPlan::Refuse { code, message } => PlanView::Refuse { code: code@, message: message@ },
        }
    }
}

/// The message refusing a `wait` whose `until` names `bad`, listing the
/// canonical signal names.
pub open spec fn invalid_until_message(bad: Seq<char>) -> Seq<char> {
    "unknown until signal: "@ + bad + " (valid: done,failed,dep_missing,timeout,stall_suspect,oom_suspect)"@
}

/// The shortest wait between two looks at the build, in milliseconds.
pub open spec fn poll_floor() -> u64 {
    50
}

/// The routing table. A missing or empty `op` is an invalid request and an
/// unknown one is refused by name; otherwise the operation runs with its
/// defaults: `compact` false, `n` 20, `poll_ms` 500 (never below 50),
/// `signal` 15 (TERM), `force` false. A `wait` naming an unknown signal
/// is refused with the list of valid ones.
pub open spec fn plan_of(
    op: Option<Seq<char>>,
    compact: Option<bool>,
    n: Option<u64>,
    event: Option<Seq<char>>,
    poll_ms: Option<u64>,
    until: Seq<Seq<char>>,
    signal: Option<i64>,
    force: Option<bool>,
) -> PlanView {
    let o = match op {
        Some(o) => o,
        None => ""@,
    };
    if o == ""@ {
        PlanView::Refuse { code: "INVALID_REQUEST"@, message: "missing op"@ }
    } else if o == "status"@ {
        PlanView::Status { compact: compact.unwrap_or(false) }
    } else if o == "metrics"@ {
        PlanView::Metrics
    } else if o == "log_tail"@ {
        PlanView::LogTail { n: n.unwrap_or(20), event }
    } else if o == "wait"@ {
        match first_unknown(until) {
            Some(bad) => PlanView::Refuse { code: "INVALID_UNTIL"@, message: invalid_until_message(bad) },
            None => {
                let p = poll_ms.unwrap_or(500);
                PlanView::Wait { poll_ms: if p < poll_floor() { poll_floor() } else { p }, until }
            },
        }
    } else if o == "kill"@ {
        PlanView::Kill { signal: sig_of_num(signal.unwrap_or(15)) }
    } else if o == "shutdown"@ {
        PlanView::Shutdown { force: force.unwrap_or(false) }
    } else {
        PlanView::Refuse { code: "UNKNOWN_OP"@, message: "unknown op: "@ + o }
    }
}

/// Routes one request by the fields it carried.
pub fn plan_request(
    op: Option<String>,
    compact: Option<bool>,
    n: Option<u64>,
    event: Option<String>,
    poll_ms: Option<u64>,
    until: Vec<String>,
    signal: Option<i64>,
    force: Option<bool>,
) -> (r: RequestPlan)
    ensures
        r@ == plan_of(opt_view(op), compact, n, opt_view(event), poll_ms, strings_view(until@), signal, force),
{
    let o: String = match op {
        Some(o) => o,
        None => String::from_str(""),
    };
    if str_eq(o.as_str(), "") {
        RequestPlan::Refuse { code: String::from_str("INVALID_REQUEST"), message: String::from_str("missing op") }
    } else if str_eq(o.as_str(), "status") {
        RequestPlan::Status { compact: compact.unwrap_or(false) }
    } else if str_eq(o.as_str(), "metrics") {
        RequestPlan::Metrics
    } else if str_eq(o.as_str(), "log_tail") {
        RequestPlan::LogTail { n: n.unwrap_or(20), event }
    } else if str_eq(o.as_str(), "wait") {
        match validate_until(until.as_slice()) {
            Some(bad) => {
                let mut m = String::from_str("unknown until signal: ");
                m.append(bad.as_str());
                m.append(" (valid: done,failed,dep_missing,timeout,stall_suspect,oom_suspect)");
                RequestPlan::Refuse { code: String::from_str("INVALID_UNTIL"), message: m }
            },
            None => {
                let p = poll_ms.unwrap_or(500);
                let floor: u64 = 50;
                RequestPlan::Wait { poll_ms: if p < floor { floor } else { p }, until }
            },
        }
    } else if str_eq(o.as_str(), "kill") {
        RequestPlan::Kill { signal: Sig::from_num(signal.unwrap_or(15)) }
    } else if str_eq(o.as_str(), "shutdown") {
        RequestPlan::Shutdown { force: force.unwrap_or(false) }
    } else {
        let mut m = String::from_str("unknown op: ");
        m.append(o.as_str());
        RequestPlan::Refuse { code: String::from_str("UNKNOWN_OP"), message: m }
    }
}

/// The routing rules. A request without an operation is invalid, and one
/// naming no known operation is refused by that name. Absent fields take
/// their defaults: the full status, 20 log lines, TERM, no forced
/// shutdown. A `wait` is refused exactly when it names an unknown signal;
/// otherwise it keeps the requested signals and polls no faster than every
/// 50 ms, at the requested pace when that is slow enough. A `kill` sends
/// the signal whose number was asked for.
pub proof fn law_request_routing(
    o: Seq<char>,
    compact: Option<bool>,
    n: Option<u64>,
    event: Option<Seq<char>>,
    poll_ms: Option<u64>,
    until: Seq<Seq<char>>,
    signal: Option<i64>,
    force: Option<bool>,
)
    ensures
        plan_of(None, compact, n, event, poll_ms, until, signal, force) == (PlanView::Refuse {
            code: "INVALID_REQUEST"@,
            message: "missing op"@,
        }),
        plan_of(Some(""@), compact, n, event, poll_ms, until, signal, force) == (PlanView::Refuse {
            code: "INVALID_REQUEST"@,
            message: "missing op"@,
        }),
        (o.len() > 0 && o != "status"@ && o != "metrics"@ && o != "log_tail"@ && o != "wait"@ && o
            != "kill"@ && o != "shutdown"@) ==> plan_of(Some(o), compact, n, event, poll_ms, until, signal, force)
            == (PlanView::Refuse { code: "UNKNOWN_OP"@, message: "unknown op: "@ + o }),
        plan_of(Some("status"@), None, n, event, poll_ms, until, signal, force) == (PlanView::Status {
            compact: false,
        }),
        plan_of(Some("metrics"@), compact, n, event, poll_ms, until, signal, force) == PlanView::Metrics,
        plan_of(Some("log_tail"@), compact, None, event, poll_ms, until, signal, force) == (PlanView::LogTail {
            n: 20,
            event,
        }),
        plan_of(Some("kill"@), compact, n, event, poll_ms, until, None, force) == (PlanView::Kill {
            signal: Sig::Term,
        }),
        plan_of(Some("shutdown"@), compact, n, event, poll_ms, until, signal, None) == (PlanView::Shutdown {
            force: false,
        }),
        (plan_of(Some("wait"@), compact, n, event, poll_ms, until, signal, force) is Refuse) <==> (first_unknown(until) is Some),
        plan_of(Some("wait"@), compact, n, event, poll_ms, until, signal, force) matches PlanView::Wait {
            poll_ms: p,
            until: u,
        } ==> p >= 50 && u == until && (poll_ms is Some && poll_ms->0 >= 50 ==> p == poll_ms->0),
        signal is Some && (signal->0 == 1 || signal->0 == 2 || signal->0 == 9 || signal->0 == 15) ==> (
        plan_of(Some("kill"@), compact, n, event, poll_ms, until, signal, force) matches PlanView::Kill {
            signal: sg,
        } && sig_num(sg) == signal->0),
{
    reveal_strlit("");
    reveal_strlit("status");
    reveal_strlit("metrics");
    reveal_strlit("log_tail");
    reveal_strlit("wait");
    reveal_strlit("kill");
    reveal_strlit("shutdown");
    assert(""@.len() == 0);
    assert("status"@.len() == 6);
    assert("metrics"@.len() == 7);
    assert("log_tail"@.len() == 8 && "log_tail"@[0] == 'l');
    assert("shutdown"@.len() == 8 && "shutdown"@[0] == 's');
    assert("wait"@.len() == 4 && "wait"@[0] == 'w');
    assert("kill"@.len() == 4 && "kill"@[0] == 'k');
}

/// What a `kill` does once the build's root pid is known.
#[derive(Debug, Clone, Copy, PartialEq, Eq, Structural)]
pub enum KillPlan {
    /// No build to signal: refused with `BUILD_NOT_FOUND`, "no root pid".
    NotFound,
    /// The build is alive: its process group `pid` is signalled.
    Signal(u32),
    /// The build has already ended: nothing is signalled.
    AlreadyDead,
}

/// The kill decision: no root pid (or pid 0) finds no build; a live build
/// is signalled; a dead one is left alone. `alive` is whether the root
/// process was alive before any signal.
pub fn kill_plan(root_pid: Option<u32>, alive: bool) -> (r: KillPlan)
    ensures
        r == (match root_pid {
            Some(p) if p != 0 => if alive { KillPlan::Signal(p) } else { KillPlan::AlreadyDead },
            _ => KillPlan::NotFound,
        }),
{
    match root_pid {
        Some(p) if p != 0 => if alive {
            KillPlan::Signal(p)
        } else {
            KillPlan::AlreadyDead
        },
        _ => KillPlan::NotFound,
    }
}

/// Whether a kill reply reports the build as killed: only when it was
/// signalled.
pub fn kill_reported(p: KillPlan) -> (r: bool)
    ensures
        r == (p is Signal),
{
    match p {
        KillPlan::Signal(_) => true,
        _ => false,
    }
}

/// The signals a shutdown sends to the build's process group, in order:
/// none without a build, TERM, then KILL when forced.
pub fn shutdown_signals(root_pid: Option<u32>, force: bool) -> (r: Vec<Sig>)
    ensures
        r@ == (match root_pid {
            Some(p) if p != 0 => if force { seq![Sig::Term, Sig::Kill] } else { seq![Sig::Term] },
            _ => Seq::<Sig>::empty(),
        }),
{
    let mut v: Vec<Sig> = Vec::new();
    match root_pid {
        Some(p) if p != 0 => {
            v.push(Sig::Term);
            if force {
                v.push(Sig::Kill);
            }
        },
        _ => {},
    }
    v
}

} // verus!
