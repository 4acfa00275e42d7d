//! A fixed-size worker pool, modelled as a verified state machine: jobs and
//! termination signals travel as tagged messages through one FIFO queue, each
//! message is consumed by exactly one worker, and teardown sends one
//! termination signal per worker before waiting for any of them.

pub mod message;
pub mod pool;
pub mod worker;

pub use message::Message;
pub use pool::ThreadPool;
pub use worker::Worker;
pub use worker::WorkerState;
