use std::collections::VecDeque;
use vstd::prelude::*;

use crate::worker::{Worker, WorkerState};

verus! {

/// Number of workers of a pool built without an explicit count.
pub const DEFAULT_THREAD_COUNT: usize = 4;

/// The fallible constructor's error: the requested worker count is zero.
#[derive(Debug, Clone, Copy, PartialEq, Eq, Structural)]
pub struct PoolCreationError;

/// The pool's lifecycle. Jobs are accepted only while `Running`.
#[derive(Debug, Clone, Copy, PartialEq, Eq, Structural)]
pub enum Phase {
    /// The producer endpoint is open.
    Running,
    /// The producer endpoint is closed; queued jobs are still handed out.
    Draining,
    /// Every worker has been joined.
    Gone,
}

/// What a worker does after asking the queue for work.
pub enum Step<J> {
    /// Run `job`, the `ticket`-th job submitted to the pool.
    Run { ticket: u64, job: J },
    /// The queue is empty but still open: block until something changes.
    Wait,
    /// End-of-stream: leave the run loop.
    Exit,
}

/// The worker count that `thread_count` asks for.
pub open spec fn effective_count(thread_count: Option<usize>) -> nat {
    match thread_count {
        Some(n) => n as nat,
        None => DEFAULT_THREAD_COUNT as nat,
    }
}

/// The tickets of every job submitted to a pool that has seen `n` submissions.
pub open spec fn tickets_below(n: nat) -> Set<u64> {
    Set::new(|t: u64| (t as nat) < n)
}

/// Whether, among `workers`, the one at `w` is running the job with ticket `t`.
pub open spec fn busy_with(workers: Seq<Worker>, w: int, t: u64) -> bool {
    0 <= w < workers.len() && workers[w].state == (WorkerState::Busy { ticket: t })
}

/// The scheduling state of a pool of workers sharing one FIFO queue of jobs.
///
/// Every submitted job gets a ticket, its position in submission order. The
/// queue holds the jobs not yet handed to a worker, oldest first. A handed-out
/// job is held by exactly one busy worker until it completes.
pub struct ThreadPool<J> {
    workers: Vec<Worker>,
    queue: VecDeque<J>,
    phase: Phase,
    submitted_count: u64,
    dequeued_count: u64,
    joined_count: usize,
    history: Ghost<Seq<J>>,
    done: Ghost<Set<u64>>,
}

impl<J> ThreadPool<J> {
    /// Number of workers, fixed for the pool's life.
    pub closed spec fn size(&self) -> nat {
        self.workers@.len()
    }

    /// Where the pool stands in its lifecycle.
    pub closed spec fn phase(&self) -> Phase {
        self.phase
    }

    /// Every job ever submitted, in submission order.
    pub closed spec fn submitted(&self) -> Seq<J> {
        self.history@
    }

    /// Jobs waiting in the queue, oldest first.
    pub closed spec fn queued(&self) -> Seq<J> {
        self.queue@
    }

    /// How many jobs have been handed to workers.
    pub closed spec fn delivered(&self) -> nat {
        self.dequeued_count as nat
    }

    /// Tickets of the jobs that have run to completion.
    pub closed spec fn completed(&self) -> Set<u64> {
        self.done@
    }

    /// How many workers have been joined.
    pub closed spec fn joined(&self) -> nat {
        self.joined_count as nat
    }

    /// The record of worker `w`.
    pub closed spec fn worker(&self, w: int) -> Worker {
        self.workers@[w]
    }

    /// Whether worker `w` is running the job with ticket `t`.
    pub open spec fn runs(&self, w: int, t: u64) -> bool {
        0 <= w < self.size() && self.worker(w).state == (WorkerState::Busy { ticket: t })
    }

    /// The workers that are running a job.
    pub closed spec fn running_workers(&self) -> Seq<Worker> {
        self.workers@.filter(|wk: Worker| wk.state is Busy)
    }

    /// The pool's invariant.
    pub closed spec fn wf(&self) -> bool {
        &&& self.workers@.len() > 0
        &&& forall|w: int| 0 <= w < self.workers@.len() ==> #[trigger] self.workers@[w].id == w
        &&& self.history@.len() == self.submitted_count
        &&& self.dequeued_count <= self.submitted_count
        &&& self.queue@ == self.history@.subrange(
            self.dequeued_count as int,
            self.submitted_count as int,
        )
        &&& forall|t: u64| #[trigger] self.done@.contains(t) ==> t < self.dequeued_count
        &&& forall|w: int, t: u64|
            #![trigger busy_with(self.workers@, w, t)]
            busy_with(self.workers@, w, t) ==> t < self.dequeued_count && !self.done@.contains(t)
        &&& forall|w1: int, w2: int, t: u64|
            #![trigger busy_with(self.workers@, w1, t), busy_with(self.workers@, w2, t)]
            busy_with(self.workers@, w1, t) && busy_with(self.workers@, w2, t) ==> w1 == w2
        &&& forall|t: u64|
            t < self.dequeued_count ==> #[trigger] self.done@.contains(t) || exists|w: int|
                busy_with(self.workers@, w, t)
        &&& self.joined_count <= self.workers@.len()
        &&& forall|w: int|
            0 <= w < self.workers@.len() ==> ((#[trigger] self.workers@[w].state
                == WorkerState::Joined) <==> w < self.joined_count)
        &&& forall|w: int|
            0 <= w < self.workers@.len() && #[trigger] self.workers@[w].state
                == WorkerState::Exited ==> self.phase != Phase::Running && self.queue@.len()
                == 0
        &&& self.joined_count > 0 ==> self.phase != Phase::Running && self.queue@.len() == 0
        &&& (self.phase == Phase::Gone <==> self.joined_count == self.workers@.len())
    }

    /// A pool of `thread_count` workers (`DEFAULT_THREAD_COUNT` when absent),
    /// numbered from zero, all idle, with an empty open queue.
    /// A count of zero is a programmer error and is excluded.
    pub fn new(thread_count: Option<usize>) -> (pool: ThreadPool<J>)
        requires
            effective_count(thread_count) > 0,
        ensures
            pool.wf(),
            pool.size() == effective_count(thread_count),
            pool.phase() == Phase::Running,
            pool.submitted() == Seq::<J>::empty(),
            pool.queued() == Seq::<J>::empty(),
            pool.delivered() == 0,
            pool.completed() == Set::<u64>::empty(),
            pool.joined() == 0,
            forall|w: int|
                0 <= w < pool.size() ==> #[trigger] pool.worker(w) == Worker::new_spec(
                    w as usize,
                ),
    {
        let thread_count: usize = match thread_count {
            Some(n) => n,
            None => DEFAULT_THREAD_COUNT,
        };
        let mut workers: Vec<Worker> = Vec::with_capacity(thread_count);
        let mut id: usize = 0;
        while id < thread_count
            invariant
                id <= thread_count,
                workers@.len() == id,
                forall|w: int| 0 <= w < id ==> #[trigger] workers@[w] == Worker::new_spec(w as usize),
            decreases thread_count - id,
        {
            workers.push(Worker::new(id));
            id = id + 1;
        }
        let pool = ThreadPool {
            workers,
            queue: VecDeque::new(),
            phase: Phase::Running,
            submitted_count: 0,
            dequeued_count: 0,
            joined_count: 0,
            history: Ghost(Seq::empty()),
            done: Ghost(Set::empty()),
        };
        proof {
            assert(pool.history@.subrange(0, 0) =~= Seq::<J>::empty());
        }
        pool
    }

    /// The checked constructor: a pool of `thread_count` workers
    /// (`DEFAULT_THREAD_COUNT` when absent), or an error when the count is zero.
    pub fn build(thread_count: Option<usize>) -> (r: Result<ThreadPool<J>, PoolCreationError>)
        ensures
            r is Err <==> thread_count == Some(0usize),
            r matches Ok(pool) ==> {
                &&& pool.wf()
                &&& pool.size() == effective_count(thread_count)
                &&& pool.phase() == Phase::Running
                &&& pool.submitted() == Seq::<J>::empty()
                &&& pool.delivered() == 0
                &&& pool.joined() == 0
            },
    {
        match thread_count {
            None => Ok(ThreadPool::default()),
            Some(0) => Err(PoolCreationError),
            Some(_) => Ok(ThreadPool::new(thread_count)),
        }
    }

    /// A pool of `DEFAULT_THREAD_COUNT` workers.
    pub fn default() -> (pool: ThreadPool<J>)
        ensures
            pool.wf(),
            pool.size() == DEFAULT_THREAD_COUNT,
            pool.phase() == Phase::Running,
            pool.submitted() == Seq::<J>::empty(),
            pool.queued() == Seq::<J>::empty(),
            pool.delivered() == 0,
            pool.completed() == Set::<u64>::empty(),
            pool.joined() == 0,
            forall|w: int|
                0 <= w < pool.size() ==> #[trigger] pool.worker(w) == Worker::new_spec(
                    w as usize,
                ),
    {
        ThreadPool::new(None)
    }
    /// Current lifecycle phase.
    pub fn current_phase(&self) -> (r: Phase)
        ensures
            r == self.phase(),
    {
        self.phase
    }

    /// Number of workers.
    pub fn thread_count(&self) -> (r: usize)
        ensures
            r == self.size(),
    {
        self.workers.len()
    }

    /// Number of jobs submitted so far.
    pub fn submitted_count(&self) -> (r: u64)
        requires
            self.wf(),
        ensures
            r == self.submitted().len(),
    {
        self.submitted_count
    }

    /// Number of jobs waiting in the queue.
    pub fn queued_count(&self) -> (r: usize)
        ensures
            r == self.queued().len(),
    {
        self.queue.len()
    }

    /// The state of worker `w`.
    pub fn worker_state(&self, w: usize) -> (r: WorkerState)
        requires
            w < self.size(),
        ensures
            r == self.worker(w as int).state,
    {
        self.workers[w].state
    }

    /// Queues `job` at the tail. Submitting after shutdown has begun is a
    /// programmer error and is excluded.
    pub fn execute(&mut self, job: J)
        requires
            old(self).wf(),
            old(self).phase() == Phase::Running,
            old(self).submitted().len() < u64::MAX,
        ensures
            final(self).wf(),
            final(self).submitted() == old(self).submitted().push(job),
            final(self).queued() == old(self).queued().push(job),
            final(self).phase() == old(self).phase(),
            final(self).size() == old(self).size(),
            final(self).delivered() == old(self).delivered(),
            final(self).completed() == old(self).completed(),
            final(self).joined() == old(self).joined(),
            forall|w: int| #[trigger] final(self).worker(w) == old(self).worker(w),
    {
        proof {
            let ghost h = self.history@.push(job);
            assert(h.subrange(self.dequeued_count as int, self.submitted_count + 1)
                =~= self.queue@.push(job));
        }
        self.history = Ghost(self.history@.push(job));
        self.queue.push_back(job);
        self.submitted_count = self.submitted_count + 1;
    }
    /// Worker `w`, idle, asks the queue for work. It gets the oldest queued
    /// job when there is one; otherwise it exits once the queue is closed,
    /// and waits while it is open.
    pub fn claim(&mut self, w: usize) -> (r: Step<J>)
        requires
            old(self).wf(),
            w < old(self).size(),
            old(self).worker(w as int).state == WorkerState::Idle,
        ensures
            final(self).wf(),
            final(self).size() == old(self).size(),
            final(self).phase() == old(self).phase(),
            final(self).submitted() == old(self).submitted(),
            final(self).completed() == old(self).completed(),
            final(self).joined() == old(self).joined(),
            forall|v: int|
                0 <= v < old(self).size() && v != w ==> #[trigger] final(self).worker(v)
                    == old(self).worker(v),
            final(self).worker(w as int).id == w,
            r is Run <==> old(self).queued().len() > 0,
            r is Exit <==> old(self).queued().len() == 0 && old(self).phase() != Phase::Running,
            match r {
                Step::Run { ticket, job } => {
                    &&& ticket == old(self).delivered()
                    &&& job == old(self).queued()[0]
                    &&& job == old(self).submitted()[ticket as int]
                    &&& final(self).queued() == old(self).queued().drop_first()
                    &&& final(self).delivered() == old(self).delivered() + 1
                    &&& final(self).worker(w as int).state == (WorkerState::Busy { ticket })
                },
                Step::Wait => {
                    &&& final(self).queued() == old(self).queued()
                    &&& final(self).delivered() == old(self).delivered()
                    &&& final(self).worker(w as int).state == WorkerState::Idle
                },
                Step::Exit => {
                    &&& final(self).queued() == old(self).queued()
                    &&& final(self).delivered() == old(self).delivered()
                    &&& final(self).worker(w as int).state == WorkerState::Exited
                },
            },
    {
        let ghost pre = *self;
        match self.queue.pop_front() {
            Some(job) => {
                let ticket = self.dequeued_count;
                proof {
                    assert(pre.queue@[0] == pre.history@[ticket as int]);
                    assert(self.queue@ =~= self.history@.subrange(
                        ticket + 1,
                        self.submitted_count as int,
                    ));
                }
                self.dequeued_count = ticket + 1;
                self.workers.set(w, Worker { id: w, state: WorkerState::Busy { ticket } });
                proof {
                    assert forall|t: u64| t < self.dequeued_count implies #[trigger] self.done@.contains(
                        t,
                    ) || exists|v: int| busy_with(self.workers@, v, t) by {
                        if t == ticket {
                            assert(busy_with(self.workers@, w as int, t));
                        } else if !self.done@.contains(t) {
                            let v = choose|v: int| busy_with(pre.workers@, v, t);
                            assert(busy_with(self.workers@, v, t));
                        }
                    }
                    assert forall|v1: int, v2: int, t: u64|
                        busy_with(self.workers@, v1, t) && busy_with(
                            self.workers@,
                            v2,
                            t,
                        ) implies v1 == v2 by {
                        if v1 != w as int && v2 != w as int {
                            assert(busy_with(pre.workers@, v1, t));
                            assert(busy_with(pre.workers@, v2, t));
                        } else if v1 != w as int {
                            assert(busy_with(pre.workers@, v1, t));
                        } else if v2 != w as int {
                            assert(busy_with(pre.workers@, v2, t));
                        }
                    }
                    assert forall|v: int, t: u64| busy_with(self.workers@, v, t) implies t
                        < self.dequeued_count && !self.done@.contains(t) by {
                        if v != w as int {
                            assert(busy_with(pre.workers@, v, t));
                        }
                    }
                }
                Step::Run { ticket, job }
            },
            None => {
                if self.phase == Phase::Running {
                    Step::Wait
                } else {
                    self.workers.set(w, Worker { id: w, state: WorkerState::Exited });
                    proof {
                        assert forall|t: u64| t < self.dequeued_count implies #[trigger] self.done@.contains(
                            t,
                        ) || exists|v: int| busy_with(self.workers@, v, t) by {
                            if !self.done@.contains(t) {
                                let v = choose|v: int| busy_with(pre.workers@, v, t);
                                assert(busy_with(self.workers@, v, t));
                            }
                        }
                        assert forall|v1: int, v2: int, t: u64|
                            busy_with(self.workers@, v1, t) && busy_with(
                                self.workers@,
                                v2,
                                t,
                            ) implies v1 == v2 by {
                            assert(busy_with(pre.workers@, v1, t));
                            assert(busy_with(pre.workers@, v2, t));
                        }
                        assert forall|v: int, t: u64| busy_with(self.workers@, v, t) implies t
                            < self.dequeued_count && !self.done@.contains(t) by {
                            assert(busy_with(pre.workers@, v, t));
                        }
                    }
                    Step::Exit
                }
            },
        }
    }
    /// Worker `w` has run its job to completion (or contained its failure)
    /// and goes back to the queue.
    pub fn finish(&mut self, w: usize) -> (ticket: u64)
        requires
            old(self).wf(),
            w < old(self).size(),
            old(self).worker(w as int).state is Busy,
        ensures
            final(self).wf(),
            old(self).worker(w as int).state == (WorkerState::Busy { ticket }),
            final(self).completed() == old(self).completed().insert(ticket),
            !old(self).completed().contains(ticket),
            final(self).worker(w as int) == Worker::new_spec(w),
            forall|v: int|
                0 <= v < old(self).size() && v != w ==> #[trigger] final(self).worker(v)
                    == old(self).worker(v),
            final(self).size() == old(self).size(),
            final(self).phase() == old(self).phase(),
            final(self).submitted() == old(self).submitted(),
            final(self).queued() == old(self).queued(),
            final(self).delivered() == old(self).delivered(),
            final(self).joined() == old(self).joined(),
    {
        let ghost pre = *self;
        let ticket = match self.workers[w].state {
            WorkerState::Busy { ticket } => ticket,
            _ => 0,
        };
        proof {
            assert(busy_with(pre.workers@, w as int, ticket));
        }
        self.workers.set(w, Worker::new(w));
        self.done = Ghost(self.done@.insert(ticket));
        proof {
            assert forall|t: u64| t < self.dequeued_count implies #[trigger] self.done@.contains(t)
                || exists|v: int| busy_with(self.workers@, v, t) by {
                if !self.done@.contains(t) {
                    let v = choose|v: int| busy_with(pre.workers@, v, t);
                    assert(busy_with(self.workers@, v, t));
                }
            }
            assert forall|v1: int, v2: int, t: u64|
                busy_with(self.workers@, v1, t) && busy_with(self.workers@, v2, t) implies v1
                == v2 by {
                assert(busy_with(pre.workers@, v1, t));
                assert(busy_with(pre.workers@, v2, t));
            }
            assert forall|v: int, t: u64| busy_with(self.workers@, v, t) implies t
                < self.dequeued_count && !self.done@.contains(t) by {
                assert(busy_with(pre.workers@, v, t));
            }
        }
        ticket
    }

    /// First shutdown phase: closes the producer endpoint. Queued jobs stay
    /// deliverable; once they are gone, idle workers exit.
    pub fn close(&mut self)
        requires
            old(self).wf(),
            old(self).phase() == Phase::Running,
        ensures
            final(self).wf(),
            final(self).phase() == Phase::Draining,
            final(self).size() == old(self).size(),
            final(self).submitted() == old(self).submitted(),
            final(self).queued() == old(self).queued(),
            final(self).delivered() == old(self).delivered(),
            final(self).completed() == old(self).completed(),
            final(self).joined() == old(self).joined(),
            forall|v: int| #[trigger] final(self).worker(v) == old(self).worker(v),
    {
        self.phase = Phase::Draining;
    }

    /// Second shutdown phase, one step: records that the next worker in
    /// insertion order, which has exited, has been joined, and returns its
    /// id. The pool is gone once the last one is joined.
    pub fn record_join(&mut self) -> (id: usize)
        requires
            old(self).wf(),
            old(self).phase() == Phase::Draining,
            old(self).worker(old(self).joined() as int).state == WorkerState::Exited,
        ensures
            final(self).wf(),
            id == old(self).joined(),
            id < old(self).size(),
            old(self).worker(id as int).id == id,
            final(self).worker(id as int).state == WorkerState::Joined,
            final(self).joined() == old(self).joined() + 1,
            final(self).phase() == if final(self).joined() == final(self).size() {
                Phase::Gone
            } else {
                Phase::Draining
            },
            forall|v: int|
                0 <= v < old(self).size() && v != id ==> #[trigger] final(self).worker(v)
                    == old(self).worker(v),
            final(self).size() == old(self).size(),
            final(self).submitted() == old(self).submitted(),
            final(self).queued() == old(self).queued(),
            final(self).delivered() == old(self).delivered(),
            final(self).completed() == old(self).completed(),
    {
        let ghost pre = *self;
        let id = self.joined_count;
        let n = self.workers.len();
        proof {
            if id >= self.workers@.len() {
                assert(self.phase == Phase::Gone);
            }
        }
        self.workers.set(id, Worker { id, state: WorkerState::Joined });
        self.joined_count = id + 1;
        if self.joined_count == n {
            self.phase = Phase::Gone;
        }
        proof {
            assert forall|t: u64| t < self.dequeued_count implies #[trigger] self.done@.contains(t)
                || exists|v: int| busy_with(self.workers@, v, t) by {
                if !self.done@.contains(t) {
                    let v = choose|v: int| busy_with(pre.workers@, v, t);
                    assert(busy_with(self.workers@, v, t));
                }
            }
            assert forall|v1: int, v2: int, t: u64|
                busy_with(self.workers@, v1, t) && busy_with(self.workers@, v2, t) implies v1
                == v2 by {
                assert(busy_with(pre.workers@, v1, t));
                assert(busy_with(pre.workers@, v2, t));
            }
            assert forall|v: int, t: u64| busy_with(self.workers@, v, t) implies t
                < self.dequeued_count && !self.done@.contains(t) by {
                assert(busy_with(pre.workers@, v, t));
            }
        }
        id
    }
    /// Jobs leave the queue in submission order, and each handed-out job is
    /// either complete or running on exactly one worker: the delivered jobs
    /// followed by the queued ones are exactly the submitted ones.
    pub proof fn lemma_fifo_exactly_once(&self)
        requires
            self.wf(),
        ensures
            self.submitted() == self.submitted().take(self.delivered() as int) + self.queued(),
            self.delivered() <= self.submitted().len(),
            self.completed().subset_of(tickets_below(self.delivered())),
            forall|t: u64|
                (t as nat) < self.delivered() ==> (#[trigger] self.completed().contains(t)
                    || exists|w: int| self.runs(w, t)),
            forall|w: int, t: u64| #[trigger]
                self.runs(w, t) ==> (t as nat) < self.delivered() && !self.completed().contains(
                    t,
                ),
            forall|w1: int, w2: int, t: u64|
                #![trigger self.runs(w1, t), self.runs(w2, t)]
                self.runs(w1, t) && self.runs(w2, t) ==> w1 == w2,
    {
        assert(self.history@ =~= self.history@.take(self.dequeued_count as int) + self.queue@);
        assert forall|t: u64| (t as nat) < self.delivered() implies (
        #[trigger] self.completed().contains(t) || exists|w: int| self.runs(w, t)) by {
            if !self.done@.contains(t) {
                let w = choose|w: int| busy_with(self.workers@, w, t);
                assert(self.runs(w, t));
            }
        }
        assert forall|w: int, t: u64| #[trigger]
            self.runs(w, t) implies (t as nat) < self.delivered() && !self.completed().contains(
            t,
        ) by {
            assert(busy_with(self.workers@, w, t));
        }
        assert forall|w1: int, w2: int, t: u64|
            self.runs(w1, t) && self.runs(w2, t) implies w1 == w2 by {
            assert(busy_with(self.workers@, w1, t));
            assert(busy_with(self.workers@, w2, t));
        }
    }

    /// Once the pool is gone, the queue is empty, every submitted job has
    /// run to completion and every worker has been joined.
    pub proof fn lemma_gone_means_complete(&self)
        requires
            self.wf(),
            self.phase() == Phase::Gone,
        ensures
            self.queued().len() == 0,
            self.delivered() == self.submitted().len(),
            self.completed() == tickets_below(self.submitted().len()),
            self.joined() == self.size(),
            forall|w: int| 0 <= w < self.size() ==> #[trigger] self.worker(w).state == WorkerState::Joined,
    {
        assert(self.workers@[0].state == WorkerState::Joined);
        assert forall|t: u64| #[trigger]
            tickets_below(self.submitted().len()).contains(t) implies self.completed().contains(
            t,
        ) by {
            if !self.done@.contains(t) {
                let w = choose|w: int| busy_with(self.workers@, w, t);
                assert(self.workers@[w].state == WorkerState::Joined);
            }
        }
        assert(self.completed() =~= tickets_below(self.submitted().len()));
    }

    /// At most as many jobs run at once as the pool has workers.
    pub proof fn lemma_bounded_concurrency(&self)
        requires
            self.wf(),
        ensures
            self.running_workers().len() <= self.size(),
    {
        self.workers@.lemma_filter_len(|wk: Worker| wk.state is Busy);
    }

    /// Shutdown of a pool with no job queued or running always completes:
    /// after closing, every worker not yet joined is idle (its next claim
    /// exits) or has exited (it can be joined).
    pub proof fn lemma_shutdown_total(&self)
        requires
            self.wf(),
            self.phase() == Phase::Draining,
            self.queued().len() == 0,
            self.running_workers().len() == 0,
        ensures
            self.joined() < self.size(),
            forall|w: int|
                self.joined() <= w < self.size() ==> (#[trigger] self.worker(w).state
                    == WorkerState::Idle || self.worker(w).state == WorkerState::Exited),
    {
        assert forall|w: int| self.joined() <= w < self.size() implies (
        #[trigger] self.worker(w).state == WorkerState::Idle || self.worker(w).state
            == WorkerState::Exited) by {
            if self.workers@[w].state is Busy {
                self.workers@.lemma_filter_contains(|wk: Worker| wk.state is Busy, w);
                assert(self.running_workers().contains(self.workers@[w]));
            }
        }
    }
}

} // verus!
