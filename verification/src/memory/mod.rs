//! The memory extension: search tokens, document chunks, session distillation
//! and the dream report.
pub mod bm25;
pub mod chunk;
pub mod distill;
pub mod dream;
pub mod store;
pub mod hook;
