use pathtracer::jobs::{
    dispatch_batch, drain_and_run, worker_step, JobCounter, JobQueue, JobTask, SPINS_BEFORE_SLEEP,
};
use std::sync::atomic::{AtomicUsize, Ordering};
use std::sync::Arc;

struct CountingJob {
    executions: Arc<AtomicUsize>,
}

impl JobTask for CountingJob {
    fn run(&mut self) {
        self.executions.fetch_add(1, Ordering::SeqCst);
    }
}

fn run_batch(k: usize) {
    let executions = Arc::new(AtomicUsize::new(0));
    let batch: Vec<CountingJob> =
        (0..k).map(|_| CountingJob { executions: executions.clone() }).collect();
    let mut queue: JobQueue<CountingJob> = JobQueue::new();
    let mut counter = dispatch_batch(&mut queue, batch);
    assert_eq!(queue.len(), k);
    assert!(counter.reached(k));
    drain_and_run(&mut queue, &mut counter);
    assert!(counter.reached(0));
    assert!(queue.is_empty());
    assert_eq!(executions.load(Ordering::SeqCst), k);
}

#[test]
fn fence_batch_of_zero() {
    run_batch(0);
}

#[test]
fn fence_batch_of_one() {
    run_batch(1);
}

#[test]
fn fence_batch_of_thousand() {
    run_batch(1000);
}

#[test]
fn fence_counts_down_once_per_job() {
    let mut counter = JobCounter::new(3);
    assert!(!counter.reached(0));
    counter.decrement();
    assert!(!counter.reached(0));
    assert!(counter.reached(2));
    counter.decrement();
    counter.decrement();
    assert!(counter.reached(0));
}

#[test]
fn queue_is_first_in_first_out() {
    let mut queue: JobQueue<u32> = JobQueue::new();
    assert!(queue.is_empty());
    assert_eq!(queue.pop(), None);
    queue.push(10);
    queue.push(20);
    queue.push(30);
    assert_eq!(queue.len(), 3);
    assert_eq!(queue.pop(), Some(10));
    queue.push(40);
    assert_eq!(queue.pop(), Some(20));
    assert_eq!(queue.pop(), Some(30));
    assert_eq!(queue.pop(), Some(40));
    assert_eq!(queue.pop(), None);
}

#[test]
fn worker_spins_then_sleeps() {
    let mut spins: i32 = 0;
    let mut slept = false;
    for polls in 0..40 {
        let (next, sleep) = worker_step(spins, false);
        assert_eq!(next, polls + 1);
        if sleep {
            slept = true;
            assert!(next > SPINS_BEFORE_SLEEP);
        }
        spins = next;
    }
    assert!(slept);
    let (after_job, sleep) = worker_step(spins, true);
    assert_eq!(after_job, 0);
    assert!(!sleep);
}
