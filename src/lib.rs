//! A line-framed echo protocol: message framing over byte streams, the echo
//! session's decisions, and the scheduler of a bounded worker pool.

pub mod framing;
pub mod pool;
pub mod session;
