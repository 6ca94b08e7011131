//! The scheduling state of a work-stealing pool.
//!
//! Each worker owns a queue. New work goes to the least-loaded queue; a
//! worker takes from the front of its own queue and, when that is empty,
//! steals from the back of the first other queue that has work. Threads,
//! locks and wake-ups belong to the driver that holds this state.
use crate::graph::error::GraphError;
use std::collections::VecDeque;
use vstd::prelude::*;

verus! {

/// Per-worker job queues.
pub struct WorkQueues<T> {
    queues: Vec<VecDeque<T>>,
}

/// `target` is the first index among the shortest queues.
pub open spec fn least_loaded<T>(queues: Seq<Seq<T>>, target: int) -> bool {
    &&& 0 <= target < queues.len()
    &&& forall|i: int| 0 <= i < queues.len() ==> queues[target].len() <= #[trigger] queues[i].len()
    &&& forall|i: int| 0 <= i < target ==> queues[target].len() < #[trigger] queues[i].len()
}

/// `victim` is the first queue other than `worker` that holds work.
pub open spec fn first_victim<T>(queues: Seq<Seq<T>>, worker: int, victim: int) -> bool {
    &&& 0 <= victim < queues.len()
    &&& victim != worker
    &&& queues[victim].len() > 0
    &&& forall|i: int| 0 <= i < victim && i != worker ==> #[trigger] queues[i].len() == 0
}

/// Every queue other than `worker`'s is empty.
pub open spec fn nothing_to_steal<T>(queues: Seq<Seq<T>>, worker: int) -> bool {
    forall|i: int| 0 <= i < queues.len() && i != worker ==> #[trigger] queues[i].len() == 0
}

/// The total number of queued jobs.
pub open spec fn total_jobs<T>(queues: Seq<Seq<T>>) -> int
    decreases queues.len(),
{
    if queues.len() == 0 {
        0
    } else {
        total_jobs(queues.drop_last()) + queues.last().len()
    }
}

impl<T> WorkQueues<T> {
    /// The queues, worker by worker.
    pub closed spec fn queues(&self) -> Seq<Seq<T>> {
        Seq::new(self.queues@.len(), |i: int| self.queues@[i]@)
    }

    /// One empty queue per worker. Errors when `workers` is zero.
    pub fn new(workers: usize) -> (r: Result<Self, GraphError>)
        ensures
            workers == 0 ==> r matches Err(GraphError::Config(_)),
            workers > 0 ==> (r matches Ok(q) && q.queues().len() == workers && forall|i: int|
                0 <= i < workers ==> (#[trigger] q.queues()[i]).len() == 0),
    {
        if workers == 0 {
            return Err(GraphError::Config("thread pool requires at least one worker".to_string()));
        }
        let mut queues: Vec<VecDeque<T>> = Vec::new();
        let mut i: usize = 0;
        while i < workers
            invariant
                i <= workers,
                queues@.len() == i,
                forall|k: int| 0 <= k < i ==> (#[trigger] queues@[k])@.len() == 0,
            decreases workers - i,
        {
            queues.push(VecDeque::new());
            i += 1;
        }
        let r = WorkQueues { queues };
        assert forall|k: int| 0 <= k < workers implies (#[trigger] r.queues()[k]).len() == 0 by {
            assert(r.queues()[k] == r.queues@[k]@);
        }
        Ok(r)
    }

    pub fn workers(&self) -> (r: usize)
        ensures
            r == self.queues().len(),
    {
        self.queues.len()
    }

    /// Whether any job is queued.
    pub fn has_pending(&self) -> (r: bool)
        ensures
            r == exists|i: int| 0 <= i < self.queues().len() && (#[trigger] self.queues()[i]).len() > 0,
    {
        let mut i: usize = 0;
        while i < self.queues.len()
            invariant
                i <= self.queues@.len(),
                forall|k: int| 0 <= k < i ==> (#[trigger] self.queues()[k]).len() == 0,
            decreases self.queues@.len() - i,
        {
            if self.queues[i].len() > 0 {
                assert(self.queues()[i as int] == self.queues@[i as int]@);
                return true;
            }
            assert(self.queues()[i as int] == self.queues@[i as int]@);
            i += 1;
        }
        false
    }

    /// Queues `job` at the back of the least-loaded queue (the first of the
    /// shortest).
    pub fn try_push(&mut self, job: T)
        requires
            old(self).queues().len() > 0,
        ensures
            exists|target: int| #[trigger]
                least_loaded(old(self).queues(), target) && final(self).queues() == old(
                self,
            ).queues().update(target, old(self).queues()[target].push(job)),
            total_jobs(final(self).queues()) == total_jobs(old(self).queues()) + 1,
    {
        let ghost q = self.queues();
        let mut target: usize = 0;
        let mut shortest: usize = usize::MAX;
        let mut index: usize = 0;
        while index < self.queues.len()
            invariant
                q == self.queues(),
                index <= self.queues@.len(),
                self.queues@.len() > 0,
                index > 0 ==> target < index && shortest == q[target as int].len(),
                index == 0 ==> shortest == usize::MAX && target == 0,
                forall|i: int| 0 <= i < index ==> shortest <= #[trigger] q[i].len(),
                forall|i: int| 0 <= i < target ==> shortest < #[trigger] q[i].len(),
            decreases self.queues@.len() - index,
        {
            let len = self.queues[index].len();
            assert(q[index as int] == self.queues@[index as int]@);
            if len < shortest {
                shortest = len;
                target = index;
            }
            index += 1;
        }
        proof {
            if shortest == usize::MAX {
                assert(shortest <= q[0].len());
            }
        }
        let mut queue = VecDeque::new();
        std::mem::swap(&mut queue, &mut self.queues[target]);
        queue.push_back(job);
        self.queues.set(target, queue);
        proof {
            assert(self.queues() =~= q.update(target as int, q[target as int].push(job)));
            assert(least_loaded(q, target as int));
            lemma_total_after_update(q, target as int, q[target as int].push(job));
        }
    }

    /// Takes the job at the front of `worker`'s own queue.
    pub fn try_pop(&mut self, worker: usize) -> (r: Option<T>)
        requires
            worker < old(self).queues().len(),
        ensures
            old(self).queues()[worker as int].len() == 0 ==> r is None && final(self).queues()
                == old(self).queues(),
            old(self).queues()[worker as int].len() > 0 ==> r == Some(
                old(self).queues()[worker as int][0],
            ) && final(self).queues() == old(self).queues().update(
                worker as int,
                old(self).queues()[worker as int].drop_first(),
            ) && total_jobs(final(self).queues()) == total_jobs(old(self).queues()) - 1,
    {
        let ghost q = self.queues();
        let mut queue = VecDeque::new();
        std::mem::swap(&mut queue, &mut self.queues[worker]);
        assert(queue@ == q[worker as int]);
        let job = queue.pop_front();
        self.queues.set(worker, queue);
        proof {
            if q[worker as int].len() == 0 {
                assert(self.queues() =~= q);
            } else {
                assert(self.queues() =~= q.update(worker as int, q[worker as int].drop_first()));
                lemma_total_after_update(q, worker as int, q[worker as int].drop_first());
            }
        }
        job
    }

    /// Takes the job at the back of the first other queue that holds work.
    pub fn try_steal(&mut self, worker: usize) -> (r: Option<T>)
        ensures
            nothing_to_steal(old(self).queues(), worker as int) ==> r is None && final(self).queues()
                == old(self).queues(),
            !nothing_to_steal(old(self).queues(), worker as int) ==> exists|victim: int| #[trigger]
                first_victim(old(self).queues(), worker as int, victim) && r == Some(
                old(self).queues()[victim].last(),
            ) && final(self).queues() == old(self).queues().update(
                victim,
                old(self).queues()[victim].drop_last(),
            ),
            !nothing_to_steal(old(self).queues(), worker as int) ==> total_jobs(final(self).queues())
                == total_jobs(old(self).queues()) - 1,
    {
        let ghost q = self.queues();
        let mut index: usize = 0;
        while index < self.queues.len()
            invariant
                q == self.queues(),
                q == old(self).queues(),
                index <= self.queues@.len(),
                forall|i: int| 0 <= i < index && i != worker ==> #[trigger] q[i].len() == 0,
            decreases self.queues@.len() - index,
        {
            assert(q[index as int] == self.queues@[index as int]@);
            if index != worker && self.queues[index].len() > 0 {
                let mut queue = VecDeque::new();
                std::mem::swap(&mut queue, &mut self.queues[index]);
                assert(queue@ == q[index as int]);
                let job = queue.pop_back();
                self.queues.set(index, queue);
                proof {
                    assert(self.queues() =~= q.update(index as int, q[index as int].drop_last()));
                    assert(first_victim(q, worker as int, index as int));
                    assert(!nothing_to_steal(q, worker as int));
                    lemma_total_after_update(q, index as int, q[index as int].drop_last());
                }
                match job {
                    Some(job) => return Some(job),
                    None => {
                        assert(false);
                        return None;
                    },
                }
            }
            index += 1;
        }
        None
    }
}

/// Replacing one queue changes the total by the difference in its length.
pub proof fn lemma_total_after_update<T>(queues: Seq<Seq<T>>, i: int, s: Seq<T>)
    requires
        0 <= i < queues.len(),
    ensures
        total_jobs(queues.update(i, s)) == total_jobs(queues) - queues[i].len() + s.len(),
    decreases queues.len(),
{
    let u = queues.update(i, s);
    if i == queues.len() - 1 {
        assert(u.drop_last() =~= queues.drop_last());
    } else {
        assert(u.drop_last() =~= queues.drop_last().update(i, s));
        lemma_total_after_update(queues.drop_last(), i, s);
    }
}

} // verus!
