//! Guarded fast paths of the evaluator.

pub mod fast_laws;
pub mod fastpaths;
pub mod promise_fast;
pub mod promise_jobs;
pub mod promise_laws;
pub mod props_fast;
