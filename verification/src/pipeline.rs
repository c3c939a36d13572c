//! The embedding pipeline: jobs, the bounded queue with its backpressure
//! rule, the blank-text check, and idempotent vector attachment.

use vstd::prelude::*;
use vstd::string::StringSliceAdditionalSpecFns;

verus! {

/// One embedding job: a chunk of entity text awaiting vectorization, the
/// entity it belongs to, and the port of the remote index to write back to.
#[derive(Debug, PartialEq)]
pub struct EmbeddingJob {
    pub chunk: String,
    pub entity_id: String,
    pub port: u16,
}

/// One embedding job per chunk of an entity's text, all against the same
/// entity id.
pub fn jobs_for_entity(chunks: &Vec<String>, entity_id: &String, port: u16) -> (jobs: Vec<
    EmbeddingJob,
>)
    ensures
        jobs@.len() == chunks@.len(),
        forall|i: int|
            0 <= i < jobs@.len() ==> {
                &&& (#[trigger] jobs@[i]).chunk@ == chunks@[i]@
                &&& jobs@[i].entity_id@ == entity_id@
                &&& jobs@[i].port == port
            },
{
    let mut jobs: Vec<EmbeddingJob> = Vec::new();
    let mut i: usize = 0;
    while i < chunks.len()
        invariant
            0 <= i <= chunks.len(),
            jobs@.len() == i,
            forall|j: int|
                0 <= j < i ==> {
                    &&& (#[trigger] jobs@[j]).chunk@ == chunks@[j]@
                    &&& jobs@[j].entity_id@ == entity_id@
                    &&& jobs@[j].port == port
                },
        decreases chunks.len() - i,
    {
        jobs.push(
            EmbeddingJob {
                chunk: chunks[i].clone(),
                entity_id: entity_id.clone(),
                port,
            },
        );
        i = i + 1;
    }
    jobs
}

/// The bounded queue the embedding worker drains: never holds more than its
/// capacity.
pub struct JobQueue {
    pub jobs: Vec<EmbeddingJob>,
    pub capacity: usize,
}

impl JobQueue {
    pub open spec fn wf(&self) -> bool {
        self.jobs@.len() <= self.capacity
    }

    /// An empty queue bounded by `capacity` jobs.
    pub fn new(capacity: usize) -> (q: JobQueue)
        ensures
            q.wf(),
            q.jobs@.len() == 0,
            q.capacity == capacity,
    {
        JobQueue { jobs: Vec::new(), capacity }
    }

    /// Non-blocking enqueue: accepts the job only while the queue is below
    /// capacity.
    pub fn try_enqueue(&mut self, job: EmbeddingJob) -> (accepted: bool)
        requires
            old(self).wf(),
        ensures
            final(self).wf(),
            final(self).capacity == old(self).capacity,
            accepted == (old(self).jobs@.len() < old(self).capacity),
            accepted ==> final(self).jobs@ == old(self).jobs@.push(job),
            !accepted ==> final(self).jobs@ == old(self).jobs@,
    {
        if self.jobs.len() < self.capacity {
            self.jobs.push(job);
            true
        } else {
            false
        }
    }

    /// The worker side: take the oldest job, if any.
    pub fn dequeue(&mut self) -> (r: Option<EmbeddingJob>)
        requires
            old(self).wf(),
        ensures
            final(self).wf(),
            final(self).capacity == old(self).capacity,
            old(self).jobs@.len() == 0 ==> r is None && final(self).jobs@ == old(self).jobs@,
            old(self).jobs@.len() > 0 ==> {
                &&& r matches Some(job) && job == old(self).jobs@[0]
                &&& final(self).jobs@ == old(self).jobs@.drop_first()
            },
    {
        if self.jobs.len() == 0 {
            None
        } else {
            let job = self.jobs.remove(0);
            proof {
                assert(self.jobs@ =~= old(self).jobs@.drop_first());
            }
            Some(job)
        }
    }
}

/// Where a submitted job went: into the bounded queue, or handed back for a
/// blocking send off the worker pool.
#[derive(Debug, PartialEq)]
pub enum SubmitOutcome {
    Enqueued,
    Deferred { job: EmbeddingJob },
}

/// Backpressure without stalling extraction: submission tries the bounded
/// queue first and never blocks; when the queue is full the job is handed
/// back unchanged, to be sent asynchronously off the CPU-bound worker pool,
/// so embedding latency degrades but ingestion throughput does not.
pub fn submit_job(q: &mut JobQueue, job: EmbeddingJob) -> (outcome: SubmitOutcome)
    requires
        old(q).wf(),
    ensures
        final(q).wf(),
        final(q).capacity == old(q).capacity,
        old(q).jobs@.len() < old(q).capacity ==> outcome is Enqueued && final(q).jobs@ == old(
            q,
        ).jobs@.push(job),
        old(q).jobs@.len() >= old(q).capacity ==> {
            &&& outcome matches SubmitOutcome::Deferred { job: back } && back == job
            &&& final(q).jobs@ == old(q).jobs@
        },
{
    if q.jobs.len() < q.capacity {
        q.jobs.push(job);
        SubmitOutcome::Enqueued
    } else {
        SubmitOutcome::Deferred { job }
    }
}

/// Text of only spaces, tabs and line breaks — or no text at all. The
/// embedding service rejects empty input, so such text is never sent.
pub open spec fn spec_is_blank(bytes: Seq<u8>) -> bool {
    forall|i: int|
        0 <= i < bytes.len() ==> (bytes[i] == 32 || bytes[i] == 9 || bytes[i] == 10 || bytes[i]
            == 13)
}

/// Decide whether a chunk may be embedded: blank text is dropped before the
/// embedding service is called, signalled distinctly from service failures.
pub fn embeddable_text(text: &str) -> (r: bool)
    ensures
        r == !spec_is_blank(text.spec_bytes()),
{
    let bytes = text.as_bytes();
    let ghost bs = text.spec_bytes();
    let mut i: usize = 0;
    while i < bytes.len()
        invariant
            0 <= i <= bytes@.len(),
            bytes@ == bs,
            bs == text.spec_bytes(),
            forall|j: int| 0 <= j < i ==> (bs[j] == 32 || bs[j] == 9 || bs[j] == 10 || bs[j] == 13),
        decreases bytes@.len() - i,
    {
        let b = bytes[i];
        if b != 32 && b != 9 && b != 10 && b != 13 {
            proof {
                assert(!(bs[i as int] == 32 || bs[i as int] == 9 || bs[i as int] == 10
                    || bs[i as int] == 13));
                assert(!spec_is_blank(bs));
            }
            return true;
        }
        i = i + 1;
    }
    false
}

/// The vector attached to an entity id: the first entry that bears the id.
pub open spec fn spec_get_vector<V>(s: Seq<(String, V)>, id: Seq<char>) -> Option<V>
    decreases s.len(),
{
    if s.len() == 0 {
        None
    } else if s[0].0@ == id {
        Some(s[0].1)
    } else {
        spec_get_vector(s.drop_first(), id)
    }
}

proof fn lemma_get_at<V>(s: Seq<(String, V)>, id: Seq<char>, ix: int)
    requires
        0 <= ix < s.len(),
        s[ix].0@ == id,
        forall|j: int| 0 <= j < ix ==> s[j].0@ != id,
    ensures
        spec_get_vector(s, id) == Some(s[ix].1),
    decreases ix,
{
    if ix > 0 {
        assert(forall|j: int| 0 <= j < ix - 1 ==> s.drop_first()[j] == s[j + 1]);
        lemma_get_at(s.drop_first(), id, ix - 1);
    }
}

proof fn lemma_get_update_other<V>(s: Seq<(String, V)>, ix: int, p: (String, V), other: Seq<char>)
    requires
        0 <= ix < s.len(),
        s[ix].0@ == p.0@,
        other != p.0@,
    ensures
        spec_get_vector(s.update(ix, p), other) == spec_get_vector(s, other),
    decreases s.len(),
{
    let t = s.update(ix, p);
    if ix == 0 {
        assert(t[0] == p);
        assert(t.drop_first() =~= s.drop_first());
    } else {
        assert(t[0] == s[0]);
        if s[0].0@ != other {
            assert(t.drop_first() =~= s.drop_first().update(ix - 1, p));
            lemma_get_update_other(s.drop_first(), ix - 1, p, other);
        }
    }
}

proof fn lemma_get_push<V>(s: Seq<(String, V)>, p: (String, V), other: Seq<char>)
    ensures
        (forall|j: int| 0 <= j < s.len() ==> s[j].0@ != p.0@) ==> spec_get_vector(
            s.push(p),
            p.0@,
        ) == Some(p.1),
        other != p.0@ ==> spec_get_vector(s.push(p), other) == spec_get_vector(s, other),
    decreases s.len(),
{
    if s.len() == 0 {
        assert(s.push(p)[0] == p);
        assert(s.push(p).drop_first() =~= Seq::<(String, V)>::empty());
        assert(spec_get_vector(s.push(p).drop_first(), other) == None::<V>);
    } else {
        assert(s.push(p)[0] == s[0]);
        assert(s.push(p).drop_first() =~= s.drop_first().push(p));
        assert(forall|j: int| 0 <= j < s.len() - 1 ==> s.drop_first()[j] == s[j + 1]);
        lemma_get_push(s.drop_first(), p, other);
    }
}

/// The library's model of vector attachment in the remote index: at most one
/// vector per entity id, and attaching again overwrites. The vector type is
/// whatever the embedding service returns; the model never looks inside it.
pub struct VectorStore<V> {
    pub entries: Vec<(String, V)>,
}

impl<V> VectorStore<V> {
    /// No entity id bears two vectors.
    pub open spec fn wf(&self) -> bool {
        forall|i: int, j: int|
            0 <= i < j < self.entries@.len() ==> self.entries@[i].0@ != self.entries@[j].0@
    }

    pub fn new() -> (s: Self)
        ensures
            s.wf(),
            s.entries@.len() == 0,
    {
        VectorStore { entries: Vec::new() }
    }

    /// Attach a vector to an entity id. Re-embedding the same id is safe:
    /// the id ends with exactly this one vector — the later write wins —
    /// and every other id keeps the vector it had.
    pub fn attach_vector(&mut self, entity_id: &String, v: V)
        requires
            old(self).wf(),
        ensures
            final(self).wf(),
            spec_get_vector(final(self).entries@, entity_id@) == Some(v),
            forall|other: Seq<char>|
                other != entity_id@ ==> spec_get_vector(final(self).entries@, other)
                    == spec_get_vector(old(self).entries@, other),
    {
        let mut i: usize = 0;
        while i < self.entries.len()
            invariant
                0 <= i <= self.entries.len(),
                forall|j: int| 0 <= j < i ==> self.entries@[j].0@ != entity_id@,
                *self == *old(self),
                old(self).wf(),
            decreases self.entries.len() - i,
        {
            if self.entries[i].0 == *entity_id {
                let p = (entity_id.clone(), v);
                proof {
                    assert(old(self).entries@[i as int].0@ == p.0@);
                }
                self.entries[i] = p;
                proof {
                    assert(self.entries@ == old(self).entries@.update(i as int, p));
                    assert forall|a: int, b: int|
                        0 <= a < b < self.entries@.len() implies self.entries@[a].0@
                        != self.entries@[b].0@ by {
                        assert(self.entries@[a].0@ == old(self).entries@[a].0@);
                        assert(self.entries@[b].0@ == old(self).entries@[b].0@);
                    }
                    assert(forall|j: int| 0 <= j < i ==> self.entries@[j].0@ != entity_id@);
                    lemma_get_at(self.entries@, entity_id@, i as int);
                    assert forall|other: Seq<char>|
                        other != entity_id@ implies spec_get_vector(self.entries@, other)
                        == spec_get_vector(old(self).entries@, other) by {
                        lemma_get_update_other(old(self).entries@, i as int, p, other);
                    }
                }
                return ;
            }
            i = i + 1;
        }
        let p = (entity_id.clone(), v);
        proof {
            assert(forall|j: int|
                0 <= j < old(self).entries@.len() ==> old(self).entries@[j].0@ != p.0@);
        }
        self.entries.push(p);
        proof {
            assert(self.entries@ == old(self).entries@.push(p));
            assert forall|a: int, b: int|
                0 <= a < b < self.entries@.len() implies self.entries@[a].0@
                != self.entries@[b].0@ by {
                if b < old(self).entries@.len() {
                } else {
                    assert(self.entries@[b] == p);
                    assert(self.entries@[a] == old(self).entries@[a]);
                }
            }
            lemma_get_push(old(self).entries@, p, entity_id@);
            assert forall|other: Seq<char>|
                other != entity_id@ implies spec_get_vector(self.entries@, other)
                == spec_get_vector(old(self).entries@, other) by {
                lemma_get_push(old(self).entries@, p, other);
            }
        }
    }
}

} // verus!
