//! Request-lifecycle engine of a validity-proof proposer: plans block ranges,
//! tracks proof requests, bounds concurrency, aggregates and orders submissions.

pub mod range;
pub mod tracker;
pub mod gate;
pub mod aggregator;
pub mod proposer;
pub mod mock;
