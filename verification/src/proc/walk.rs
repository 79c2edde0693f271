//! Collecting a build's process tree: a breadth-first walk from the root
//! pid that asks for each process's children in the order they were found,
//! never visits a pid twice (the kernel may report cycles while pids are
//! reused) and stops at a cap.
//! The caller asks the operating system for children; the walk decides
//! what to ask next and what to keep.
use vstd::prelude::*;
use std::collections::HashSet;
use std::collections::VecDeque;

verus! {

broadcast use vstd::std_specs::hash::group_hash_axioms;

/// The pids kept after offering `kids` to a walk that has kept `out`:
/// each pid not kept yet is appended, until `max` are kept (nothing is
/// appended to a walk already at its cap).
pub open spec fn take_new(out: Seq<u32>, kids: Seq<u32>, max: nat) -> Seq<u32>
    decreases kids.len(),
{
    if kids.len() == 0 || out.len() >= max {
        out
    } else if out.contains(kids[0]) {
        take_new(out, kids.drop_first(), max)
    } else if out.len() + 1 >= max {
        out.push(kids[0])
    } else {
        take_new(out.push(kids[0]), kids.drop_first(), max)
    }
}

/// The state of a descendant walk.
pub struct DescendantWalk {
    out: Vec<u32>,
    queue: VecDeque<u32>,
    seen: HashSet<u32>,
    max: usize,
    done: bool,
}

/// The visible state of a walk: `(kept pids, pids still to ask about,
/// cap, finished)`.
pub struct WalkView {
    pub out: Seq<u32>,
    pub queue: Seq<u32>,
    pub max: nat,
    pub done: bool,
}

impl View for DescendantWalk {
    type V = WalkView;

    closed spec fn view(&self) -> WalkView {
        WalkView { out: self.out@, queue: self.queue@, max: self.max as nat, done: self.done }
    }
}

impl DescendantWalk {
    /// What every walk keeps: no pid twice, the root first, never more than
    /// the cap (but always the root), and only kept pids waiting.
    pub closed spec fn wf(&self) -> bool {
        &&& self.out@.no_duplicates()
        &&& self.out@.len() >= 1
        &&& (self.out@.len() <= self.max || self.out@.len() == 1)
        &&& self.seen@ == self.out@.to_set()
        &&& forall|i: int| 0 <= i < self.queue@.len() ==> self.out@.contains(#[trigger] self.queue@[i])
        &&& self.queue@.len() <= self.out@.len()
        &&& self.queue@ == self.out@.skip(self.out@.len() - self.queue@.len())
    }

    /// A walk from `root` keeping at most `max` pids (the root always).
    pub fn new(root: u32, max: usize) -> (r: Self)
        ensures
            r.wf(),
            r@.out == seq![root],
            r@.queue == seq![root],
            r@.max == max,
            !r@.done,
    {
        let mut out: Vec<u32> = Vec::new();
        out.push(root);
        let mut queue: VecDeque<u32> = VecDeque::new();
        queue.push_back(root);
        let mut seen: HashSet<u32> = HashSet::new();
        seen.insert(root);
        let r = DescendantWalk { out, queue, seen, max, done: false };
        assert(r.out@.to_set() =~= set![root]) by {
            assert(r.out@ =~= seq![root]);
            assert(seq![root].to_set() =~= set![root]) by {
                assert(seq![root][0] == root);
            }
        }
        assert(r.queue@ =~= r.out@.skip(0));
        r
    }

    /// The next pid whose children are wanted: the earliest queued one
    /// (first in, first out), unless the queue is empty or the cap is
    /// reached, which ends the walk for good.
    pub fn next(&mut self) -> (r: Option<u32>)
        requires
            old(self).wf(),
        ensures
            final(self).wf(),
            final(self)@.out == old(self)@.out,
            final(self)@.max == old(self)@.max,
            old(self)@.done ==> r is None && final(self)@ == old(self)@,
            !old(self)@.done ==> {
                if old(self)@.queue.len() == 0 {
                    r is None && final(self)@.done
                } else {
                    &&& final(self)@.queue == old(self)@.queue.drop_first()
                    &&& if old(self)@.out.len() >= old(self)@.max {
                        r is None && final(self)@.done
                    } else {
                        r == Some(old(self)@.queue.first()) && !final(self)@.done
                    }
                }
            },
    {
        if self.done {
            return None;
        }
        let ghost q = self.queue@;
        let ghost o = self.out@;
        match self.queue.pop_front() {
            None => {
                self.done = true;
                None
            },
            Some(pid) => {
                assert(self.queue@ =~= o.skip(o.len() - self.queue@.len())) by {
                    assert(q == o.skip(o.len() - q.len()));
                    assert forall|j: int| 0 <= j < self.queue@.len() implies self.queue@[j] == o[o.len()
                        - self.queue@.len() + j] by {
                        assert(self.queue@[j] == q[j + 1]);
                    }
                }
                if self.out.len() >= self.max {
                    self.done = true;
                    None
                } else {
                    Some(pid)
                }
            },
        }
    }

    /// Offers the children of the pid last handed out: each not kept yet
    /// is kept and queued, until the cap is reached.
    pub fn absorb(&mut self, kids: &[u32])
        requires
            old(self).wf(),
        ensures
            final(self).wf(),
            final(self)@.out == take_new(old(self)@.out, kids@, old(self)@.max),
            final(self)@.queue == old(self)@.queue + final(self)@.out.skip(
                old(self)@.out.len() as int,
            ),
            final(self)@.max == old(self)@.max,
            final(self)@.done == old(self)@.done,
    {
        let ghost out0 = self.out@;
        let ghost q0 = self.queue@;
        if self.out.len() >= self.max {
            assert(self.out@.skip(out0.len() as int) =~= Seq::<u32>::empty());
            assert(q0 + Seq::<u32>::empty() =~= q0);
            return;
        }
        let n = kids.len();
        let mut i: usize = 0;
        assert(kids@.skip(0) =~= kids@);
        assert(self.out@.skip(out0.len() as int) =~= Seq::<u32>::empty());
        assert(q0 + Seq::<u32>::empty() =~= q0);
        while i < n
            invariant
                n == kids@.len(),
                i <= n,
                self.wf(),
                self.out@.len() < self.max,
                self.max == old(self).max,
                self.done == old(self).done,
                out0 == old(self)@.out,
                q0 == old(self)@.queue,
                take_new(out0, kids@, self.max as nat) == take_new(self.out@, kids@.skip(i as int), self.max as nat),
                out0.len() <= self.out@.len(),
                self.out@.take(out0.len() as int) == out0,
                self.queue@ == q0 + self.out@.skip(out0.len() as int),
                q0.len() <= out0.len(),
                q0 == out0.skip(out0.len() - q0.len()),
            decreases n - i,
        {
            let k = kids[i];
            let ghost rest = kids@.skip(i as int);
            assert(rest[0] == k);
            assert(rest.drop_first() =~= kids@.skip(i + 1));
            let ghost before = self.out@;
            let fresh = self.seen.insert(k);
            if fresh {
                assert(!before.contains(k));
                self.out.push(k);
                self.queue.push_back(k);
                assert(self.out@.take(out0.len() as int) =~= out0);
                assert(self.out@.no_duplicates()) by {
                    assert forall|a: int, b: int|
                        0 <= a < self.out@.len() && 0 <= b < self.out@.len() && a != b implies self.out@[a]
                        != self.out@[b] by {
                        if a < before.len() && b < before.len() {
                            assert(before[a] != before[b]);
                        } else if a < before.len() {
                            assert(before.contains(before[a]));
                        } else if b < before.len() {
                            assert(before.contains(before[b]));
                        }
                    }
                }
                assert(self.out@.skip(out0.len() as int) =~= before.skip(out0.len() as int).push(k));
                assert(self.seen@ =~= self.out@.to_set()) by {
                    assert forall|x: u32| self.out@.to_set().contains(x) <==> before.to_set().insert(k).contains(x) by {
                        if self.out@.contains(x) {
                            let j = choose|j: int| 0 <= j < self.out@.len() && self.out@[j] == x;
                            if j < before.len() {
                                assert(before[j] == x);
                            }
                        }
                        if before.contains(x) {
                            let j = choose|j: int| 0 <= j < before.len() && before[j] == x;
                            assert(self.out@[j] == x);
                        }
                        if x == k {
                            assert(self.out@[before.len() as int] == k);
                        }
                    }
                }
                assert forall|a: int| 0 <= a < self.queue@.len() implies self.out@.contains(
                    #[trigger] self.queue@[a],
                ) by {
                    if a < self.queue@.len() - 1 {
                        let x = self.queue@[a];
                        assert(before.contains(x));
                        let j = choose|j: int| 0 <= j < before.len() && before[j] == x;
                        assert(self.out@[j] == x);
                    } else {
                        assert(self.out@[before.len() as int] == k);
                    }
                }
                proof {
                    lemma_queue_stays_suffix(out0, q0, self.out@);
                }
                if self.out.len() >= self.max {
                    assert(self.out@ =~= take_new(out0, kids@, self.max as nat));
                    return;
                }
            } else {
                assert(before.contains(k));
            }
            assert(self.seen@ == self.out@.to_set());
            assert(forall|a: int| 0 <= a < self.queue@.len() ==> self.out@.contains(#[trigger] self.queue@[a]));
            i = i + 1;
        }
        assert(kids@.skip(n as int) =~= Seq::<u32>::empty());
    }

    /// The pids kept: the root first, then descendants in the order found.
    pub fn finish(self) -> (r: Vec<u32>)
        ensures
            r@ == self@.out,
    {
        self.out
    }
}

/// A walk never keeps a pid twice, keeps at least the root, and keeps no
/// more than its cap unless the cap is below one.
pub proof fn law_walk_distinct_and_capped(w: &DescendantWalk)
    requires
        w.wf(),
    ensures
        w@.out.no_duplicates(),
        w@.out.len() >= 1,
        w@.out.len() <= w@.max || w@.out.len() == 1,
{
}

/// Keeping more pids keeps the waiting ones a suffix of those kept.
proof fn lemma_queue_stays_suffix(out0: Seq<u32>, q0: Seq<u32>, out: Seq<u32>)
    requires
        q0.len() <= out0.len(),
        q0 == out0.skip(out0.len() - q0.len()),
        out0.len() <= out.len(),
        out.take(out0.len() as int) == out0,
    ensures
        ({
            let q = q0 + out.skip(out0.len() as int);
            &&& q.len() <= out.len()
            &&& q == out.skip(out.len() - q.len())
        }),
{
    let q = q0 + out.skip(out0.len() as int);
    let d = out0.len() - q0.len();
    assert forall|j: int| 0 <= j < q.len() implies q[j] == out[d + j] by {
        if j < q0.len() {
            assert(q0[j] == out0[d + j]);
            assert(out.take(out0.len() as int)[d + j] == out[d + j]);
        }
    }
    assert(q =~= out.skip(out.len() - q.len()));
}

/// A walk asks about pids in the order it kept them, which makes it
/// breadth-first: the pids still waiting are always the most recently kept
/// ones, in the order they were kept.
pub proof fn law_walk_expands_in_kept_order(w: &DescendantWalk)
    requires
        w.wf(),
    ensures
        w@.queue.len() <= w@.out.len(),
        w@.queue == w@.out.skip(w@.out.len() - w@.queue.len()),
{
}

/// Offering children only appends: what was kept stays in place (the root
/// stays first), and every pid appended is one of the children offered
/// and was not kept before.
pub proof fn law_take_new_appends(out: Seq<u32>, kids: Seq<u32>, max: nat)
    ensures
        take_new(out, kids, max).len() >= out.len(),
        take_new(out, kids, max).take(out.len() as int) == out,
        forall|j: int|
            out.len() <= j < take_new(out, kids, max).len() ==> kids.contains(
                #[trigger] take_new(out, kids, max)[j],
            ) && !out.contains(take_new(out, kids, max)[j]),
    decreases kids.len(),
{
    if kids.len() == 0 || out.len() >= max {
        assert(out.take(out.len() as int) =~= out);
    } else if out.contains(kids[0]) {
        law_take_new_appends(out, kids.drop_first(), max);
        let t = take_new(out, kids, max);
        assert forall|j: int| out.len() <= j < t.len() implies kids.contains(#[trigger] t[j])
            && !out.contains(t[j]) by {
            let k = choose|k: int| 0 <= k < kids.drop_first().len() && kids.drop_first()[k] == t[j];
            assert(kids[k + 1] == t[j]);
        }
    } else if out.len() + 1 >= max {
        assert(out.push(kids[0]).take(out.len() as int) =~= out);
        assert(kids[0] == kids[0]);
    } else {
        let o2 = out.push(kids[0]);
        law_take_new_appends(o2, kids.drop_first(), max);
        let t = take_new(out, kids, max);
        assert(t.take(o2.len() as int).take(out.len() as int) =~= t.take(out.len() as int));
        assert(o2.take(out.len() as int) =~= out);
        assert forall|j: int| out.len() <= j < t.len() implies kids.contains(#[trigger] t[j])
            && !out.contains(t[j]) by {
            if j == out.len() {
                assert(t.take(o2.len() as int)[j] == t[j]);
                assert(o2[j] == kids[0]);
                assert(kids[0] == t[j]);
            } else {
                let k = choose|k: int| 0 <= k < kids.drop_first().len() && kids.drop_first()[k] == t[j];
                assert(kids[k + 1] == t[j]);
                if out.contains(t[j]) {
                    let m = choose|m: int| 0 <= m < out.len() && out[m] == t[j];
                    assert(o2[m] == t[j]);
                }
            }
        }
    }
}

/// Offering children misses none: after the offer, every child offered
/// and every pid kept before is kept, unless the cap has been reached.
pub proof fn law_take_new_keeps_all_offered(out: Seq<u32>, kids: Seq<u32>, max: nat, x: u32)
    requires
        kids.contains(x) || out.contains(x),
    ensures
        take_new(out, kids, max).contains(x) || take_new(out, kids, max).len() >= max,
    decreases kids.len(),
{
    let t = take_new(out, kids, max);
    if kids.len() == 0 || out.len() >= max {
        if kids.len() == 0 {
            assert(out.contains(x));
        }
    } else if out.contains(kids[0]) {
        if !out.contains(x) {
            let k = choose|k: int| 0 <= k < kids.len() && kids[k] == x;
            assert(kids.drop_first()[k - 1] == x);
        }
        law_take_new_keeps_all_offered(out, kids.drop_first(), max, x);
    } else if out.len() + 1 >= max {
        assert(t.len() == out.len() + 1);
    } else {
        let o2 = out.push(kids[0]);
        if out.contains(x) {
            let k = choose|k: int| 0 <= k < out.len() && out[k] == x;
            assert(o2[k] == x);
        } else if x == kids[0] {
            assert(o2[out.len() as int] == x);
        } else {
            let k = choose|k: int| 0 <= k < kids.len() && kids[k] == x;
            assert(kids.drop_first()[k - 1] == x);
        }
        law_take_new_keeps_all_offered(o2, kids.drop_first(), max, x);
    }
}

} // verus!
