//! `watch`: starting a monitored build.
use vstd::prelude::*;

verus! {

/// The arguments of `watch`.
pub struct WatchArgs {
    /// The monitor id (generated when absent).
    pub uuid: Option<String>,
    /// The socket path (by convention when absent).
    pub sock: Option<String>,
    /// The event log path (by convention when absent).
    pub log: Option<String>,
    /// The parent's pid, reported in the `ready` event.
    pub pid: Option<u32>,
    /// Run the monitor as a background daemon.
    pub detach: bool,
    /// Kill the build after this many seconds.
    pub timeout_sec: Option<u64>,
    /// A human label.
    pub label: Option<String>,
    /// Cap the build output file at this many megabytes.
    pub max_log_mb: Option<u64>,
    /// The build command.
    pub cmd: Vec<String>,
}

impl WatchArgs {
    /// Refuses a `watch` with no command, with the usage line.
    pub fn check_command(&self) -> (r: Result<(), String>)
        ensures
            r is Ok <==> self.cmd@.len() > 0,
            r matches Err(m) ==> m@ == "usage: hbmon watch [--detach] -- <cmd> [args...]"@,
    {
        if self.cmd.len() == 0 {
            Err(String::from_str("usage: hbmon watch [--detach] -- <cmd> [args...]"))
        } else {
            Ok(())
        }
    }
}

/// The output file cap in bytes for `--max-log-mb` (saturating).
pub fn log_cap_bytes(max_log_mb: Option<u64>) -> (r: Option<u64>)
    ensures
        r == match max_log_mb {
            Some(m) => Some(if m * 1048576 > u64::MAX { u64::MAX } else { (m * 1048576) as u64 }),
            None => None,
        },
{
    match max_log_mb {
        Some(m) => Some(
            if m > u64::MAX / 1048576 {
                u64::MAX
            } else {
                m * 1048576
            },
        ),
        None => None,
    }
}

/// Where an output file of `len` bytes is cut when it exceeds `cap`: its
/// newer half, from byte `len / 2`, is kept; `None` when it fits.
pub fn output_keep_from(len: u64, cap: u64) -> (r: Option<u64>)
    ensures
        r == (if len > cap {
            Some(len / 2)
        } else {
            None::<u64>
        }),
{
    if len > cap {
        Some(len / 2)
    } else {
        None
    }
}

} // verus!
