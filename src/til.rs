//! Short "Today I Learned" entries and their catalog document.
pub mod catalog_proofs;
pub mod generator;
pub mod writer;
