use std::cell::RefCell;
use std::collections::BTreeSet;
use std::rc::Rc;

use ws::{Phase, PoolCreationError, Step, ThreadPool, WorkerState, DEFAULT_THREAD_COUNT};

type Job = Box<dyn FnOnce()>;

/// Runs every queued job, handing them to the workers in turn, the way the
/// threads would if each finished before the next claim.
fn run_queued(pool: &mut ThreadPool<Job>) -> usize {
    let mut ran: usize = 0;
    let n = pool.thread_count();
    let mut w: usize = 0;
    while pool.queued_count() > 0 {
        if pool.worker_state(w) == WorkerState::Idle {
            if let Step::Run { job, .. } = pool.claim(w) {
                job();
                pool.finish(w);
                ran += 1;
            }
        }
        w = (w + 1) % n;
    }
    ran
}

/// Closes the pool, lets every worker see end-of-stream and joins them in
/// order, returning the ids in the order they were joined.
fn shut_down(pool: &mut ThreadPool<Job>) -> Vec<usize> {
    pool.close();
    run_queued(pool);
    let mut ids = Vec::new();
    for w in 0..pool.thread_count() {
        assert!(matches!(pool.claim(w), Step::Exit));
        ids.push(pool.record_join());
    }
    ids
}

#[test]
fn new_none_has_default_size() {
    let pool: ThreadPool<Job> = ThreadPool::new(None);
    assert_eq!(pool.thread_count(), DEFAULT_THREAD_COUNT);
    assert_eq!(pool.thread_count(), 4);
    assert_eq!(pool.current_phase(), Phase::Running);
}

#[test]
fn default_has_four_idle_workers() {
    let pool: ThreadPool<Job> = ThreadPool::default();
    assert_eq!(pool.thread_count(), 4);
    for w in 0..4 {
        assert_eq!(pool.worker_state(w), WorkerState::Idle);
    }
}

#[test]
fn build_accepts_none_and_positive_counts() {
    let none: Result<ThreadPool<Job>, PoolCreationError> = ThreadPool::build(None);
    assert_eq!(none.ok().map(|p| p.thread_count()), Some(DEFAULT_THREAD_COUNT));
    let three: Result<ThreadPool<Job>, PoolCreationError> = ThreadPool::build(Some(3));
    assert_eq!(three.ok().map(|p| p.thread_count()), Some(3));
    let one: Result<ThreadPool<Job>, PoolCreationError> = ThreadPool::build(Some(1));
    assert_eq!(one.ok().map(|p| p.thread_count()), Some(1));
}

#[test]
fn build_rejects_zero() {
    let zero: Result<ThreadPool<Job>, PoolCreationError> = ThreadPool::build(Some(0));
    assert_eq!(zero.err(), Some(PoolCreationError));
}

#[test]
fn hundred_jobs_increment_counter() {
    let counter = Rc::new(RefCell::new(0u32));
    let mut pool: ThreadPool<Job> = ThreadPool::new(Some(4));
    for _ in 0..100 {
        let c = Rc::clone(&counter);
        pool.execute(Box::new(move || *c.borrow_mut() += 1));
    }
    assert_eq!(pool.submitted_count(), 100);
    assert_eq!(pool.queued_count(), 100);
    shut_down(&mut pool);
    assert_eq!(*counter.borrow(), 100);
    assert_eq!(pool.current_phase(), Phase::Gone);
}

#[test]
fn two_workers_run_two_jobs_at_once() {
    let mut pool: ThreadPool<Job> = ThreadPool::new(Some(2));
    pool.execute(Box::new(|| {}));
    pool.execute(Box::new(|| {}));
    assert!(matches!(pool.claim(0), Step::Run { ticket: 0, .. }));
    assert!(matches!(pool.claim(1), Step::Run { ticket: 1, .. }));
    assert_eq!(pool.worker_state(0), WorkerState::Busy { ticket: 0 });
    assert_eq!(pool.worker_state(1), WorkerState::Busy { ticket: 1 });
}

#[test]
fn failed_job_does_not_stop_the_others() {
    let list = Rc::new(RefCell::new(Vec::new()));
    let mut pool: ThreadPool<Job> = ThreadPool::new(Some(3));
    pool.execute(Box::new(|| {}));
    for i in 0..5u32 {
        let l = Rc::clone(&list);
        pool.execute(Box::new(move || l.borrow_mut().push(i)));
    }
    // Worker 0 takes the failing job and stays on it.
    assert!(matches!(pool.claim(0), Step::Run { ticket: 0, .. }));
    let mut ran = 0;
    while pool.queued_count() > 0 {
        for w in 1..3 {
            if let Step::Run { job, .. } = pool.claim(w) {
                job();
                pool.finish(w);
                ran += 1;
            }
        }
    }
    assert_eq!(ran, 5);
    let got: BTreeSet<u32> = list.borrow().iter().copied().collect();
    assert_eq!(got, (0..5).collect::<BTreeSet<u32>>());
    // The failure is contained: the worker is released and shutdown completes.
    assert_eq!(pool.finish(0), 0);
    assert_eq!(shut_down(&mut pool), vec![0, 1, 2]);
}

#[test]
fn completion_order_may_differ_from_submission_order() {
    let mut pool: ThreadPool<Job> = ThreadPool::new(Some(4));
    for _ in 0..10 {
        pool.execute(Box::new(|| {}));
    }
    assert!(matches!(pool.claim(0), Step::Run { ticket: 0, .. }));
    assert!(matches!(pool.claim(1), Step::Run { ticket: 1, .. }));
    let mut completed = Vec::new();
    completed.push(pool.finish(1));
    completed.push(pool.finish(0));
    assert_eq!(completed, vec![1, 0]);
    assert_eq!(run_queued(&mut pool), 8);
}

#[test]
fn empty_pool_shuts_down_every_worker() {
    let mut pool: ThreadPool<Job> = ThreadPool::new(Some(4));
    let ids = shut_down(&mut pool);
    assert_eq!(ids, vec![0, 1, 2, 3]);
    assert_eq!(ids.len(), 4);
    assert_eq!(pool.current_phase(), Phase::Gone);
    for w in 0..4 {
        assert_eq!(pool.worker_state(w), WorkerState::Joined);
    }
}

#[test]
fn jobs_leave_in_submission_order() {
    let mut pool: ThreadPool<u32> = ThreadPool::new(Some(1));
    pool.execute(10);
    pool.execute(20);
    match pool.claim(0) {
        Step::Run { ticket, job } => assert_eq!((ticket, job), (0, 10)),
        _ => panic!("expected a job"),
    }
    pool.finish(0);
    match pool.claim(0) {
        Step::Run { ticket, job } => assert_eq!((ticket, job), (1, 20)),
        _ => panic!("expected a job"),
    }
}

#[test]
fn idle_worker_waits_while_open_and_exits_once_closed() {
    let mut pool: ThreadPool<u32> = ThreadPool::new(Some(2));
    assert!(matches!(pool.claim(0), Step::Wait));
    assert_eq!(pool.worker_state(0), WorkerState::Idle);
    pool.close();
    assert_eq!(pool.current_phase(), Phase::Draining);
    assert!(matches!(pool.claim(0), Step::Exit));
    assert_eq!(pool.worker_state(0), WorkerState::Exited);
}

#[test]
fn queued_jobs_are_still_delivered_after_close() {
    let mut pool: ThreadPool<u32> = ThreadPool::new(Some(2));
    pool.execute(7);
    pool.close();
    assert!(matches!(pool.claim(1), Step::Run { ticket: 0, job: 7 }));
    assert!(matches!(pool.claim(0), Step::Exit));
}

#[test]
fn token_reaches_the_sink_after_shutdown() {
    let sink = Rc::new(RefCell::new(Vec::new()));
    let mut pool: ThreadPool<Job> = ThreadPool::new(Some(2));
    let s = Rc::clone(&sink);
    pool.execute(Box::new(move || s.borrow_mut().push("token")));
    shut_down(&mut pool);
    assert_eq!(*sink.borrow(), vec!["token"]);
}

#[test]
fn join_waits_for_the_job_in_flight() {
    let mut pool: ThreadPool<u32> = ThreadPool::new(Some(2));
    pool.execute(1);
    assert!(matches!(pool.claim(0), Step::Run { ticket: 0, .. }));
    pool.close();
    // Worker 0 is mid-job: it cannot exit, so it is not joinable yet.
    assert_eq!(pool.worker_state(0), WorkerState::Busy { ticket: 0 });
    assert!(matches!(pool.claim(1), Step::Exit));
    assert_eq!(pool.finish(0), 0);
    assert!(matches!(pool.claim(0), Step::Exit));
    assert_eq!(pool.record_join(), 0);
    assert_eq!(pool.current_phase(), Phase::Draining);
    assert_eq!(pool.record_join(), 1);
    assert_eq!(pool.current_phase(), Phase::Gone);
}

#[test]
fn single_worker_pool_runs_everything() {
    let counter = Rc::new(RefCell::new(0u32));
    let mut pool: ThreadPool<Job> = ThreadPool::new(Some(1));
    for _ in 0..3 {
        let c = Rc::clone(&counter);
        pool.execute(Box::new(move || *c.borrow_mut() += 2));
    }
    assert_eq!(shut_down(&mut pool), vec![0]);
    assert_eq!(*counter.borrow(), 6);
}
