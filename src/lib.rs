//! The decisions of a fixed-size worker pool, as a verified state machine:
//! the job queue, each worker's life cycle, and the dispatcher that accepts
//! jobs, hands them out in order, and tears the pool down.

pub mod dispatcher;
pub mod job_queue;
pub mod worker;
