//! Per-process CPU samples, kept between polls so that CPU use can be
//! computed from the growth of a process's CPU time.
use vstd::prelude::*;
use std::collections::HashMap;
use std::time::Instant;

use crate::health::timeout::instant_now;

verus! {

broadcast use vstd::std_specs::hash::group_hash_axioms;

/// The last `(time, CPU ticks)` sample of each tracked process.
pub struct CpuTracker {
    prev: HashMap<u32, (Instant, u64)>,
}

impl View for CpuTracker {
    type V = Map<u32, (Instant, u64)>;

    closed spec fn view(&self) -> Map<u32, (Instant, u64)> {
        self.prev@
    }
}

/// The pids listed in `alive`.
pub open spec fn pid_set(alive: Seq<u32>) -> Set<u32> {
    Set::new(|p: u32| alive.contains(p))
}

impl CpuTracker {
    /// A tracker with no samples.
    pub fn new() -> (r: Self)
        ensures
            r@ == Map::<u32, (Instant, u64)>::empty(),
    {
        CpuTracker { prev: HashMap::new() }
    }

    /// Stores a new sample of `pid` (`jiffies` ticks, taken now) and gives
    /// back the time of the new sample with the previous sample, if any.
    pub fn record(&mut self, pid: u32, jiffies: u64) -> (r: (Instant, Option<(Instant, u64)>))
        ensures
            final(self)@ == old(self)@.insert(pid, (r.0, jiffies)),
            r.1 == (if old(self)@.contains_key(pid) {
                Some(old(self)@[pid])
            } else {
                None
            }),
    {
        let now = instant_now();
        let prev = self.prev.insert(pid, (now, jiffies));
        (now, prev)
    }

    /// Forgets the processes not listed in `alive`.
    pub fn evict_gone(&mut self, alive: &[u32])
        ensures
            final(self)@ == old(self)@.restrict(pid_set(alive@)),
    {
        let mut kept: HashMap<u32, (Instant, u64)> = HashMap::new();
        let n = alive.len();
        let mut i: usize = 0;
        while i < n
            invariant
                n == alive@.len(),
                i <= n,
                self.prev@ == old(self)@,
                kept@ == old(self)@.restrict(pid_set(alive@.take(i as int))),
            decreases n - i,
        {
            let p = alive[i];
            match self.prev.get(&p) {
                Some(v) => {
                    kept.insert(p, *v);
                },
                None => {},
            }
            i = i + 1;
            assert(kept@ =~= old(self)@.restrict(pid_set(alive@.take(i as int)))) by {
                let ghost t0 = alive@.take(i - 1);
                let ghost t1 = alive@.take(i as int);
                assert forall|q: u32| pid_set(t1).contains(q) <==> (pid_set(t0).contains(q) || q
                    == p) by {
                    if t1.contains(q) {
                        let j = choose|j: int| 0 <= j < t1.len() && t1[j] == q;
                        if j < i - 1 {
                            assert(t0[j] == q);
                        }
                    }
                    if q == p {
                        assert(t1[i - 1] == p);
                    }
                    if t0.contains(q) {
                        let j = choose|j: int| 0 <= j < t0.len() && t0[j] == q;
                        assert(t1[j] == q);
                    }
                }
            }
        }
        assert(alive@.take(n as int) =~= alive@);
        self.prev = kept;
    }
}

} // verus!
