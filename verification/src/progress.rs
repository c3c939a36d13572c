//! Run-scoped progress counters and quiescence detection.

use vstd::prelude::*;

verus! {

/// The run-scoped progress counters: active work units, chunks produced,
/// embedding jobs queued and completed. Quiescence of these counters is the
/// only liveness signal the driver uses to know a pass is finished.
pub struct ProgressCounters {
    pub active: u64,
    pub total_chunks: u64,
    pub pending_embeddings: u64,
    pub completed_embeddings: u64,
}

impl ProgressCounters {
    /// Completion never runs ahead of queueing.
    pub open spec fn wf(&self) -> bool {
        self.completed_embeddings <= self.pending_embeddings
    }

    pub fn new() -> (c: ProgressCounters)
        ensures
            c.wf(),
            c.active == 0,
            c.total_chunks == 0,
            c.pending_embeddings == 0,
            c.completed_embeddings == 0,
    {
        ProgressCounters {
            active: 0,
            total_chunks: 0,
            pending_embeddings: 0,
            completed_embeddings: 0,
        }
    }

    /// A unit of work is dispatched: it must be counted before it starts.
    pub fn begin_work(&mut self)
        requires
            old(self).wf(),
            old(self).active < u64::MAX,
        ensures
            final(self).wf(),
            *final(self) == (ProgressCounters { active: (old(self).active + 1) as u64, ..*old(self) }),
    {
        self.active = self.active + 1;
    }

    /// A unit of work finished or failed: released exactly once per begin,
    /// as by a scope guard.
    pub fn end_work(&mut self)
        requires
            old(self).wf(),
            old(self).active > 0,
        ensures
            final(self).wf(),
            *final(self) == (ProgressCounters { active: (old(self).active - 1) as u64, ..*old(self) }),
    {
        self.active = self.active - 1;
    }

    /// Chunks were produced for embedding.
    pub fn add_chunks(&mut self, n: u64)
        requires
            old(self).wf(),
            old(self).total_chunks + n <= u64::MAX,
        ensures
            final(self).wf(),
            *final(self) == (ProgressCounters {
                total_chunks: (old(self).total_chunks + n) as u64,
                ..*old(self)
            }),
    {
        self.total_chunks = self.total_chunks + n;
    }

    /// An embedding job was queued (or handed off for a deferred send).
    pub fn job_queued(&mut self)
        requires
            old(self).wf(),
            old(self).pending_embeddings < u64::MAX,
        ensures
            final(self).wf(),
            *final(self) == (ProgressCounters {
                pending_embeddings: (old(self).pending_embeddings + 1) as u64,
                ..*old(self)
            }),
    {
        self.pending_embeddings = self.pending_embeddings + 1;
    }

    /// An embedding job finished — with a vector written back, or dropped
    /// after a failure; either way it counts as completed, so a failed job
    /// can never stall quiescence.
    pub fn job_completed(&mut self)
        requires
            old(self).wf(),
            old(self).completed_embeddings < old(self).pending_embeddings,
        ensures
            final(self).wf(),
            *final(self) == (ProgressCounters {
                completed_embeddings: (old(self).completed_embeddings + 1) as u64,
                ..*old(self)
            }),
    {
        self.completed_embeddings = self.completed_embeddings + 1;
    }

    /// How many queued embedding jobs are still outstanding.
    pub fn outstanding_embeddings(&self) -> (n: u64)
        requires
            self.wf(),
        ensures
            n == self.pending_embeddings - self.completed_embeddings,
    {
        self.pending_embeddings - self.completed_embeddings
    }

    /// A pass is finished exactly when no work unit is active and every
    /// queued embedding job has completed.
    pub fn is_quiescent(&self) -> (r: bool)
        requires
            self.wf(),
        ensures
            r == (self.active == 0 && self.pending_embeddings == self.completed_embeddings),
    {
        self.active == 0 && self.pending_embeddings == self.completed_embeddings
    }

    /// Reset between passes.
    pub fn reset(&mut self)
        ensures
            final(self).wf(),
            final(self).active == 0,
            final(self).total_chunks == 0,
            final(self).pending_embeddings == 0,
            final(self).completed_embeddings == 0,
    {
        self.active = 0;
        self.total_chunks = 0;
        self.pending_embeddings = 0;
        self.completed_embeddings = 0;
    }
}

} // verus!
