//! A bounded worker pool, modelled as a verified scheduling core.
//!
//! The core owns the job queue, the worker records and the pool's
//! lifecycle (`Running`, then `Draining`, then `Gone`). It decides which job
//! a worker runs next, when a worker exits, and in which order workers are
//! joined. The threads that carry out those decisions live with the caller.
pub mod thread_pool;
pub mod worker;

pub use thread_pool::{Phase, PoolCreationError, Step, ThreadPool, DEFAULT_THREAD_COUNT};
pub use worker::{Worker, WorkerState};
