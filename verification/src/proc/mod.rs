//! Process inspection: what the kernel's per-process text says.
pub mod linux;
pub mod walk;

use vstd::prelude::*;

verus! {

/// The process inspector that reads macOS's `libproc`.
pub struct MacosInspector;

impl MacosInspector {
    pub fn new() -> Self {
        MacosInspector
    }
}

/// The process inspector that reads Windows' Toolhelp snapshots and psapi.
pub struct WindowsInspector;

impl WindowsInspector {
    pub fn new() -> Self {
        WindowsInspector
    }
}

} // verus!
