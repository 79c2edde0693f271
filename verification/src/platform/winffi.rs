//! Plain-data forms of the Win32 records the Windows inspector and job
//! control read and fill.
use vstd::prelude::*;

verus! {

/// `JOB_OBJECT_LIMIT_KILL_ON_JOB_CLOSE`: closing the job ends its processes.
pub const JOB_OBJECT_LIMIT_KILL_ON_JOB_CLOSE: u32 = 0x2000;

/// A Win32 `FILETIME`: a 64-bit count of 100 ns intervals split in halves.
pub struct FileTime {
    pub low: u32,
    pub high: u32,
}

impl FileTime {
    /// The whole 64-bit count.
    pub fn as_u64(&self) -> (r: u64)
        ensures
            r == self.high as int * 0x1_0000_0000 + self.low as int,
    {
        let h = self.high as u64;
        let l = self.low as u64;
        assert((h << 32u64) | l == h * 0x1_0000_0000 + l) by (bit_vector)
            requires
                h < 0x1_0000_0000,
                l < 0x1_0000_0000,
        ;
        (h << 32u64) | l
    }
}

/// A Win32 `JOBOBJECT_BASIC_LIMIT_INFORMATION`.
pub struct JobBasicLimits {
    pub per_process_time: i64,
    pub per_job_time: i64,
    pub limit_flags: u32,
    pub min_working_set: usize,
    pub max_working_set: usize,
    pub active_process_limit: u32,
    pub affinity_mask: usize,
    pub priority_class: u32,
    pub scheduling_class: u32,
}

impl JobBasicLimits {
    /// Limits whose only effect is that closing the job kills its processes.
    pub fn kill_on_close() -> (r: Self)
        ensures
            r.limit_flags == JOB_OBJECT_LIMIT_KILL_ON_JOB_CLOSE,
            r.per_process_time == 0,
            r.per_job_time == 0,
            r.min_working_set == 0,
            r.max_working_set == 0,
            r.active_process_limit == 0,
            r.affinity_mask == 0,
            r.priority_class == 0,
            r.scheduling_class == 0,
    {
        JobBasicLimits {
            per_process_time: 0,
            per_job_time: 0,
            limit_flags: JOB_OBJECT_LIMIT_KILL_ON_JOB_CLOSE,
            min_working_set: 0,
            max_working_set: 0,
            active_process_limit: 0,
            affinity_mask: 0,
            priority_class: 0,
            scheduling_class: 0,
        }
    }
}

} // verus!
