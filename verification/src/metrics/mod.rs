//! Reading resource counters from the text the kernel exposes.
pub mod cgroup;
pub mod cpu;
pub mod io;
