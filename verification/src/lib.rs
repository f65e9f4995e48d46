//! Orchestration library for a parallel AV1 re-encoder: pixel-format codec,
//! chunk and resume bookkeeping, encoder command construction, progress
//! arithmetic, and the target-quality search, all with verified contracts.

pub mod args;
pub mod chunk;
pub mod codec;
pub mod enc;
pub mod error;
pub mod progress;
pub mod tq;
pub mod video;
