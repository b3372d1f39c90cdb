//! A bounded-concurrency fuzzing engine: marker substitution, request
//! materialisation, result records, the run registry that gates concurrent
//! request executions and propagates cancellation, and what a request
//! carries on the wire.
pub mod marker;
pub mod outcome;
pub mod request;
pub mod run;
pub mod wire;
