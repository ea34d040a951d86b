//! The job queue of a worker pool, and the size of the pool.
//!
//! The queue is what the workers of a pool share. Taking a job off it is one
//! step, made while the caller holds the queue alone; running the job is the
//! caller's business and happens after the queue has been let go. The queue
//! has no bound: `submit` never refuses a job for want of room.

use std::collections::VecDeque;
use vstd::prelude::*;

verus! {

/// The number of workers for a pool asked to have `requested`: at least one.
pub open spec fn pool_size(requested: nat) -> nat {
    if requested == 0 {
        1
    } else {
        requested
    }
}

/// The number of workers for a pool asked to have `requested`.
pub fn worker_count(requested: usize) -> (n: usize)
    ensures
        n == pool_size(requested as nat),
        n >= 1,
{
    match requested {
        0 => 1,
        _ => requested,
    }
}

/// The ids of the workers of a pool asked to have `requested`: from one up to
/// the number of workers.
pub fn worker_ids(requested: usize) -> (ids: Vec<usize>)
    ensures
        ids.len() == pool_size(requested as nat),
        forall|i: int| 0 <= i < ids.len() ==> ids[i] == i + 1,
{
    let count = worker_count(requested);
    let mut ids: Vec<usize> = Vec::new();
    let mut id: usize = 0;
    while id < count
        invariant
            id <= count,
            ids.len() == id,
            forall|i: int| 0 <= i < ids.len() ==> ids[i] == i + 1,
        decreases count - id,
    {
        id += 1;
        ids.push(id);
    }
    ids
}

/// A queue as mathematical values: the jobs waiting, oldest first, and
/// whether jobs are still accepted.
pub struct QueueState<T> {
    pub pending: Seq<T>,
    pub open: bool,
}

/// What can be done to a queue.
pub enum QueueOp<T> {
    Submit(T),
    Take,
    Close,
}

/// What a worker gets when it asks for a job.
pub enum Dequeued<T> {
    /// The oldest job waiting. It is the worker's now, and no longer the
    /// queue's.
    Job(T),
    /// No job is waiting, but one may come: ask again later.
    Wait,
    /// No job is waiting and none will come: the worker is done.
    Closed,
}

/// The queue before anything was done to it: open and empty.
pub open spec fn fresh<T>() -> QueueState<T> {
    QueueState { pending: Seq::empty(), open: true }
}

/// The queue after `op`. A job submitted to an open queue waits behind the
/// others; a closed queue takes none. A take removes the oldest job. Closing
/// leaves the jobs that wait where they are.
pub open spec fn step<T>(q: QueueState<T>, op: QueueOp<T>) -> QueueState<T> {
    match op {
        QueueOp::Submit(job) => if q.open {
            QueueState { pending: q.pending.push(job), open: true }
        } else {
            q
        },
        QueueOp::Take => if q.pending.len() > 0 {
            QueueState { pending: q.pending.drop_first(), open: q.open }
        } else {
            q
        },
        QueueOp::Close => QueueState { pending: q.pending, open: false },
    }
}

/// What a take on `q` gives.
pub open spec fn dequeued<T>(q: QueueState<T>) -> Dequeued<T> {
    if q.pending.len() > 0 {
        Dequeued::Job(q.pending[0])
    } else if q.open {
        Dequeued::Wait
    } else {
        Dequeued::Closed
    }
}

/// The queue after all of `ops`, done to a fresh queue in turn.
pub open spec fn after<T>(ops: Seq<QueueOp<T>>) -> QueueState<T>
    decreases ops.len(),
{
    if ops.len() == 0 {
        fresh()
    } else {
        step(after(ops.drop_last()), ops.last())
    }
}

/// The jobs that the queue accepted in the course of `ops`, in the order in
/// which they were submitted.
pub open spec fn accepted<T>(ops: Seq<QueueOp<T>>) -> Seq<T>
    decreases ops.len(),
{
    if ops.len() == 0 {
        Seq::empty()
    } else {
        let before = accepted(ops.drop_last());
        match ops.last() {
            QueueOp::Submit(job) => if after(ops.drop_last()).open {
                before.push(job)
            } else {
                before
            },
            _ => before,
        }
    }
}

/// The jobs that the queue handed out in the course of `ops`, in the order
/// in which they were taken.
pub open spec fn handed_out<T>(ops: Seq<QueueOp<T>>) -> Seq<T>
    decreases ops.len(),
{
    if ops.len() == 0 {
        Seq::empty()
    } else {
        let before = handed_out(ops.drop_last());
        match (ops.last(), dequeued(after(ops.drop_last()))) {
            (QueueOp::Take, Dequeued::Job(job)) => before.push(job),
            _ => before,
        }
    }
}

/// Whatever is done to a queue, and in whatever order: the jobs it accepted
/// are those it handed out, followed by those that still wait. So every job
/// accepted is handed out once at most, none is handed out that was not
/// accepted, and none is lost.
pub proof fn lemma_jobs_are_conserved<T>(ops: Seq<QueueOp<T>>)
    ensures
        accepted(ops) == handed_out(ops) + after(ops).pending,
    decreases ops.len(),
{
    if ops.len() == 0 {
        assert(accepted(ops) =~= handed_out(ops) + after(ops).pending);
    } else {
        lemma_jobs_are_conserved(ops.drop_last());
        let q = after(ops.drop_last());
        if q.pending.len() > 0 {
            assert(seq![q.pending[0]] + q.pending.drop_first() =~= q.pending);
        }
        assert(accepted(ops) =~= handed_out(ops) + after(ops).pending);
    }
}

/// A worker is told that the queue is closed only once every job accepted
/// has been handed out.
pub proof fn lemma_closed_means_drained<T>(ops: Seq<QueueOp<T>>)
    requires
        dequeued(after(ops)) is Closed,
    ensures
        handed_out(ops) == accepted(ops),
{
    lemma_jobs_are_conserved(ops);
    assert(handed_out(ops) + after(ops).pending =~= handed_out(ops));
}

/// A closed queue stays closed, and accepts nothing more.
pub proof fn lemma_closed_stays_closed<T>(q: QueueState<T>, op: QueueOp<T>)
    requires
        !q.open,
    ensures
        !step(q, op).open,
        op is Submit ==> step(q, op) == q,
{
}

/// The queue that the workers of a pool share.
pub struct JobQueue<T> {
    pending: VecDeque<T>,
    open: bool,
}

impl<T> View for JobQueue<T> {
    type V = QueueState<T>;

    closed spec fn view(&self) -> QueueState<T> {
        QueueState { pending: self.pending@, open: self.open }
    }
}

impl<T> JobQueue<T> {
    /// An open queue without jobs.
    pub fn new() -> (q: JobQueue<T>)
        ensures
            q@ == fresh::<T>(),
    {
        JobQueue { pending: VecDeque::new(), open: true }
    }

    /// Puts `job` behind the jobs that wait. A closed queue takes no job and
    /// hands it back.
    pub fn submit(&mut self, job: T) -> (r: Result<(), T>)
        ensures
            final(self)@ == step(old(self)@, QueueOp::Submit(job)),
            match r {
                Ok(_) => old(self)@.open,
                Err(back) => !old(self)@.open && back == job,
            },
    {
        if self.open {
            self.pending.push_back(job);
            Ok(())
        } else {
            Err(job)
        }
    }

    /// Takes the oldest job off the queue, where one waits.
    pub fn take(&mut self) -> (r: Dequeued<T>)
        ensures
            r == dequeued(old(self)@),
            final(self)@ == step(old(self)@, QueueOp::Take),
    {
        match self.pending.pop_front() {
            Some(job) => {
                assert(self.pending@ =~= old(self).pending@.drop_first());
                Dequeued::Job(job)
            },
            None => if self.open {
                Dequeued::Wait
            } else {
                Dequeued::Closed
            },
        }
    }

    /// Closes the queue: no job is accepted from now on. The jobs that wait
    /// stay, to be taken.
    pub fn close(&mut self)
        ensures
            final(self)@ == step(old(self)@, QueueOp::Close),
    {
        self.open = false;
    }

    /// Whether jobs are still accepted.
    pub fn is_open(&self) -> (b: bool)
        ensures
            b == self@.open,
    {
        self.open
    }

    /// How many jobs wait.
    pub fn len(&self) -> (n: usize)
        ensures
            n == self@.pending.len(),
    {
        self.pending.len()
    }
}

} // verus!
