//! Core logic of a local filesystem organization engine: extension-based
//! category classification, directory listing with ordering rules, a bounded
//! tree-walk selector, storage statistics with a capped largest-files set,
//! and the decision logic of a batch move executor.

pub mod catalog;
pub mod clock;
pub mod drives;
pub mod listing;
pub mod mover;
pub mod ordering;
pub mod seqtools;
pub mod stats;
pub mod text;
pub mod types;
pub mod walker;
