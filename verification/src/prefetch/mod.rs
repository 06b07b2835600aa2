//! Decoding upcoming frames in the background, so that sequential frame
//! requests overlap with the rest of the filter graph.
//!
//! The pool is deliberately conservative: it only looks ahead after sequential
//! requests, limits the lookahead window, caps the amount of payload data held
//! in memory, and never blocks progress on the worker threads (a consumer
//! decodes its own frame when nothing else has claimed it).

pub mod budget;
pub mod plan;
pub mod pool;
pub mod state;

pub use budget::{automatic_budget, automatic_workers, AUTO_MAX_WORKERS, MAX_WORKERS};
pub use state::{Payload, Prepare, State};
