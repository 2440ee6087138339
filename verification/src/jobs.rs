//! Bookkeeping of the tile-job scheduler: the FIFO job queue, the counting
//! fence that batch dispatch waits on, and the worker loop's spin/sleep
//! decision.
//!
//! Threads, locks and condition variables cannot be verified; the caller
//! wraps these structures in its own synchronisation and blocks on its own
//! condition variables. What is verified is the accounting those primitives
//! protect: jobs leave the queue in arrival order, and a batch of `k` jobs
//! drives a fence initialised to `k` down to exactly zero, one decrement per
//! job.

use vstd::prelude::*;

verus! {

/// A unit of work the scheduler can run.
pub trait JobTask {
    fn run(&mut self);
}

/// How many times a worker may poll an empty queue before it goes to sleep.
pub const SPINS_BEFORE_SLEEP: i32 = 20;

/// The counting fence: initialised to the number of jobs in a batch and
/// decremented exactly once as each job completes. An observer waits until
/// it reaches a target value.
pub struct JobCounter {
    count: usize,
}

impl JobCounter {
    /// How many completions the fence still waits for.
    pub closed spec fn remaining(self) -> int {
        self.count as int
    }

    pub fn new(count: usize) -> (r: JobCounter)
        ensures
            r.remaining() == count,
    {
        JobCounter { count }
    }

    /// One job has completed. The batch contract is that this is called
    /// exactly once per job, on every exit path of the job, so the counter
    /// never underruns.
    pub fn decrement(&mut self)
        requires
            old(self).remaining() >= 1,
        ensures
            final(self).remaining() == old(self).remaining() - 1,
    {
        self.count = self.count - 1;
    }

    /// Whether the fence has come down to `value`; the caller's wait loop
    /// blocks until this holds.
    pub fn reached(&self, value: usize) -> (r: bool)
        ensures
            r <==> self.remaining() == value,
    {
        self.count == value
    }
}

/// A first-in-first-out queue of pending jobs. The caller guards it with a
/// lock; under that lock these operations say exactly what enters and
/// leaves.
pub struct JobQueue<T> {
    queue: Vec<T>,
}

impl<T> JobQueue<T> {
    /// The pending jobs, front of the queue first.
    pub closed spec fn jobs(self) -> Seq<T> {
        self.queue@
    }

    pub fn new() -> (r: JobQueue<T>)
        ensures
            r.jobs() == Seq::<T>::empty(),
    {
        JobQueue { queue: Vec::new() }
    }

    /// Appends a job at the back.
    pub fn push(&mut self, descriptor: T)
        ensures
            final(self).jobs() == old(self).jobs().push(descriptor),
    {
        self.queue.push(descriptor);
    }

    /// Removes and returns the job at the front, if any.
    pub fn pop(&mut self) -> (r: Option<T>)
        ensures
            old(self).jobs().len() == 0 ==> r is None && final(self).jobs() == old(self).jobs(),
            old(self).jobs().len() > 0 ==> r == Some(old(self).jobs()[0]) && final(self).jobs()
                == old(self).jobs().remove(0),
    {
        if self.queue.len() == 0 {
            None
        } else {
            Some(self.queue.remove(0))
        }
    }

    /// Advisory only: used for assertions, never for synchronisation.
    pub fn is_empty(&self) -> (r: bool)
        ensures
            r <==> self.jobs().len() == 0,
    {
        self.queue.len() == 0
    }

    pub fn len(&self) -> (r: usize)
        ensures
            r == self.jobs().len(),
    {
        self.queue.len()
    }
}

/// One turn of a worker thread, after it polled the queue: a worker that ran
/// a job starts spinning afresh; one that found the queue empty counts the
/// miss, and asks to sleep once the misses pass the threshold.
pub fn worker_step(spins: i32, ran_job: bool) -> (r: (i32, bool))
    requires
        spins < i32::MAX,
    ensures
        ran_job ==> r.0 == 0,
        !ran_job ==> r.0 == spins + 1,
        r.1 <==> r.0 > SPINS_BEFORE_SLEEP,
{
    let next_spins: i32 = if ran_job {
        0
    } else {
        spins + 1
    };
    (next_spins, next_spins > SPINS_BEFORE_SLEEP)
}

/// Queues a batch of jobs and hands back the fence to wait on: the jobs
/// enter the back of the queue in the order given, and the fence counts
/// exactly the batch — one completion owed per job, none for anything
/// already queued.
pub fn dispatch_batch<T>(queue: &mut JobQueue<T>, batch: Vec<T>) -> (r: JobCounter)
    ensures
        final(queue).jobs() == old(queue).jobs() + batch@,
        r.remaining() == batch@.len(),
{
    let ghost all = batch@;
    let count = batch.len();
    let mut pending = batch;
    while pending.len() > 0
        invariant
            pending@.len() <= all.len(),
            pending@ =~= all.skip(all.len() - pending@.len()),
            queue.jobs() =~= old(queue).jobs() + all.take(all.len() - pending@.len()),
        decreases pending@.len(),
    {
        let ghost done = all.len() - pending@.len();
        let job = pending.remove(0);
        queue.push(job);
        proof {
            assert(pending@ =~= all.skip(done + 1));
            assert(all.take(done + 1) =~= all.take(done).push(all[done]));
        }
    }
    proof {
        assert(all.take(all.len() as int) =~= all);
    }
    JobCounter::new(count)
}

/// The sequential heart of batch dispatch: every job in the queue is popped,
/// run, and answered by exactly one decrement of the fence. A fence
/// initialised to the batch size therefore reaches zero exactly when the
/// queue is drained — not before, not after.
pub fn drain_and_run<T: JobTask>(queue: &mut JobQueue<T>, counter: &mut JobCounter)
    requires
        old(counter).remaining() >= old(queue).jobs().len(),
    ensures
        final(queue).jobs().len() == 0,
        final(counter).remaining() == old(counter).remaining() - old(queue).jobs().len(),
{
    loop
        invariant
            counter.remaining() >= queue.jobs().len(),
            counter.remaining() - queue.jobs().len() == old(counter).remaining() - old(
                queue,
            ).jobs().len(),
        ensures
            queue.jobs().len() == 0,
            counter.remaining() == old(counter).remaining() - old(queue).jobs().len(),
        decreases queue.jobs().len(),
    {
        match queue.pop() {
            Some(mut descriptor) => {
                descriptor.run();
                counter.decrement();
            },
            None => {
                break ;
            },
        }
    }
}

} // verus!
