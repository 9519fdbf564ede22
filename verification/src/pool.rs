//! The fixed-size worker pool's scheduling model: a pool state and its
//! transitions, with the concurrency bound as an invariant every transition
//! keeps. The OS threads that realize the schedule live in the embedding
//! program; each worker there steps this model when it picks a task up and
//! when it finishes one, so the bound proved here is the bound they obey.
use vstd::prelude::*;

verus! {

/// The scheduling state of a pool: `size` long-lived workers, `queued`
/// tasks waiting in the unbounded queue, `running` tasks being executed,
/// and `completed` tasks finished (successfully or not).
pub struct ThreadPool {
    pub size: usize,
    pub queued: usize,
    pub running: usize,
    pub completed: usize,
}

impl ThreadPool {
    /// A pool never runs more tasks at once than it has workers.
    pub open spec fn wf(&self) -> bool {
        0 < self.size && self.running <= self.size
    }

    /// A fresh pool of `size` idle workers; the worker count is positive by
    /// contract.
    pub fn new(size: usize) -> (r: ThreadPool)
        requires
            0 < size,
        ensures
            r.wf(),
            r.size == size,
            r.queued == 0,
            r.running == 0,
            r.completed == 0,
    {
        ThreadPool { size, queued: 0, running: 0, completed: 0 }
    }

    /// Fire-and-forget submission: the task joins the unbounded queue at
    /// once, and the caller never waits on worker availability.
    pub fn execute(&mut self)
        requires
            old(self).wf(),
            old(self).queued < usize::MAX,
        ensures
            final(self).wf(),
            final(self).queued == old(self).queued + 1,
            final(self).running == old(self).running,
            final(self).completed == old(self).completed,
            final(self).size == old(self).size,
    {
        self.queued = self.queued + 1;
    }

    /// An idle worker picks the next queued task up; only a pool with a
    /// free worker can step here, which is what bounds concurrency.
    pub fn start_task(&mut self)
        requires
            old(self).wf(),
            0 < old(self).queued,
            old(self).running < old(self).size,
        ensures
            final(self).wf(),
            final(self).queued == old(self).queued - 1,
            final(self).running == old(self).running + 1,
            final(self).completed == old(self).completed,
            final(self).size == old(self).size,
    {
        self.queued = self.queued - 1;
        self.running = self.running + 1;
    }

    /// A worker finishes its task and goes idle again. A task counts as
    /// completed whether it succeeded or failed: a failing task costs the
    /// pool no worker.
    pub fn finish_task(&mut self)
        requires
            old(self).wf(),
            0 < old(self).running,
            old(self).completed < usize::MAX,
        ensures
            final(self).wf(),
            final(self).queued == old(self).queued,
            final(self).running == old(self).running - 1,
            final(self).completed == old(self).completed + 1,
            final(self).size == old(self).size,
    {
        self.running = self.running - 1;
        self.completed = self.completed + 1;
    }

    /// Drains the pool: every queued and in-flight task runs to completion,
    /// with never more than `size` running at once. This is the shutdown
    /// behaviour: no task submitted before the teardown is lost.
    pub fn run_to_completion(&mut self)
        requires
            old(self).wf(),
            old(self).queued + old(self).running + old(self).completed <= usize::MAX,
        ensures
            final(self).wf(),
            final(self).completed == old(self).completed + old(self).queued + old(self).running,
            final(self).queued == 0,
            final(self).running == 0,
            final(self).size == old(self).size,
    {
        while self.queued > 0 || self.running > 0
            invariant
                self.wf(),
                self.size == old(self).size,
                self.queued + self.running + self.completed == old(self).queued + old(
                    self,
                ).running + old(self).completed,
                self.queued + self.running + self.completed <= usize::MAX,
            decreases 2 * self.queued + self.running,
        {
            if self.running < self.size && self.queued > 0 {
                self.start_task();
            } else {
                self.finish_task();
            }
        }
    }
}

} // verus!
