use vstd::prelude::*;

verus! {

/// Where a worker stands in its run loop.
#[derive(Debug, Clone, Copy, PartialEq, Eq, Structural)]
pub enum WorkerState {
    /// Parked on the queue, waiting for the next job.
    Idle,
    /// Running the job with the given ticket (its position in submission order).
    Busy { ticket: u64 },
    /// Saw end-of-stream and left its loop; its thread may be joined.
    Exited,
    /// Joined by the pool during shutdown.
    Joined,
}

/// A worker record: its index in the pool and its place in the run loop.
#[derive(Debug, Clone, Copy, PartialEq, Eq, Structural)]
pub struct Worker {
    pub id: usize,
    pub state: WorkerState,
}

impl Worker {
    /// The record of a fresh worker numbered `id`.
    pub open spec fn new_spec(id: usize) -> Worker {
        Worker { id, state: WorkerState::Idle }
    }

    /// A fresh worker numbered `id`, parked on the queue.
    pub fn new(id: usize) -> (w: Worker)
        ensures
            w == Worker::new_spec(id),
    {
        Worker { id, state: WorkerState::Idle }
    }
}

} // verus!
