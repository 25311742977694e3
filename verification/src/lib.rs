//! Daily trending-repository collection pipeline.
//!
//! The heart of this crate is the collection orchestrator: a state machine
//! that drives one end-to-end collection run over a set of candidate
//! repositories, skipping already-summarized entries, folding per-repository
//! language shares into a run-wide accumulator, and emitting progress events.
//! All percentages are held in basis points (hundredths of a percent), so the
//! aggregation arithmetic is exact.

pub mod aggregate;
pub mod api;
pub mod breakdown;
pub mod clock;
pub mod guard;
pub mod llm;
pub mod models;
pub mod run;
pub mod text;
