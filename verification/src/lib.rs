//! Verified core of a harness-independent build monitor: health states,
//! wait/until decisions, event-log tailing, artifact path conventions,
//! `/proc` and cgroup text parsing, calendar formatting and uuid rules.
pub mod cli;
pub mod daemon;
pub mod eventlog;
pub mod health;
pub mod platform;
pub mod proc;
pub mod ipc;
pub mod metrics;
pub mod text;
pub mod util;
