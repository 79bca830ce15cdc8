//! Long-form knowledge-base notes.
pub mod generator;
pub mod writer;
