//! The build's wall-clock limit.
use vstd::prelude::*;
use std::time::Instant;
use crate::util::time::duration_secs;

verus! {

#[verifier::external_type_specification]
#[verifier::external_body]
pub struct ExInstant(std::time::Instant);

/// `Instant::now`. Nothing is claimed of the value.
#[verifier::external_body]
pub(crate) fn instant_now() -> Instant {
    Instant::now()
}

/// `Instant::elapsed`: the time since `start`. Nothing is claimed of the
/// value: it depends on the clock.
#[verifier::external_body]
fn elapsed_since(start: &Instant) -> std::time::Duration {
    start.elapsed()
}

/// Whether a limit of `limit` seconds has passed after `elapsed_secs`
/// whole seconds. (Elapsed time at or past `limit` whole seconds is at or
/// past the deadline, since the deadline falls on a whole second.)
pub fn deadline_passed(limit: u64, elapsed_secs: u64) -> (r: bool)
    ensures
        r == (elapsed_secs >= limit),
{
    elapsed_secs >= limit
}

/// Whether a limit (`None`: no limit) has passed after `elapsed` whole
/// seconds.
pub open spec fn limit_passed(limit: Option<u64>, elapsed: u64) -> bool {
    match limit {
        Some(l) => elapsed >= l,
        None => false,
    }
}

/// A watchdog with a limit of `l` seconds fires once `l` whole seconds have
/// elapsed and not before; once fired it stays fired as time goes on; and a
/// watchdog without a limit never fires.
pub proof fn law_watchdog_fires_at_limit(l: u64, e: u64, later: u64)
    ensures
        e >= l ==> limit_passed(Some(l), e),
        e < l ==> !limit_passed(Some(l), e),
        limit_passed(Some(l), e) && e <= later ==> limit_passed(Some(l), later),
        !limit_passed(None, e),
{
}

/// A wall-clock limit on the build, started when the watchdog is made.
pub struct TimeoutWatchdog {
    started: Option<Instant>,
    limit: u64,
}

impl View for TimeoutWatchdog {
    /// The limit in seconds, when one is set.
    type V = Option<u64>;

    closed spec fn view(&self) -> Option<u64> {
        match self.started {
            Some(_) => Some(self.limit),
            None => None,
        }
    }
}

impl TimeoutWatchdog {
    /// A watchdog for `limit_sec` seconds from now, or one that never
    /// fires.
    pub fn new(limit_sec: Option<u64>) -> (r: Self)
        ensures
            r@ == limit_sec,
    {
        match limit_sec {
            Some(s) => TimeoutWatchdog { started: Some(instant_now()), limit: s },
            None => TimeoutWatchdog { started: None, limit: 0 },
        }
    }

    /// Whether the limit has passed. Never without a limit; always with a
    /// limit of 0; otherwise as the clock says: the decision of
    /// `expired_after` on the whole seconds elapsed since the watchdog was
    /// made.
    pub fn expired(&self) -> (r: bool)
        ensures
            self@ is None ==> !r,
            self@ == Some(0u64) ==> r,
    {
        match &self.started {
            Some(s) => self.expired_after(duration_secs(&elapsed_since(s))),
            None => false,
        }
    }

    /// Whether the limit has passed once `elapsed_secs` whole seconds have
    /// elapsed since the watchdog was made.
    pub fn expired_after(&self, elapsed_secs: u64) -> (r: bool)
        ensures
            r == limit_passed(self@, elapsed_secs),
    {
        match &self.started {
            Some(_) => deadline_passed(self.limit, elapsed_secs),
            None => false,
        }
    }

    /// The limit in seconds, 0 when there is none.
    pub fn limit(&self) -> (r: u64)
        ensures
            r == match self@ {
                Some(l) => l,
                None => 0,
            },
    {
        match &self.started {
            Some(_) => self.limit,
            None => 0,
        }
    }
}

} // verus!
