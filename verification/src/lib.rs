//! The acceptance engine behind an editor's completion popup.
//!
//! Candidates offered by providers are ranked against what the user typed,
//! the highlighted one is previewed without touching undo history, and the
//! accepted one is turned into a transaction over the buffer.

pub mod completion;
pub mod detail;
pub mod docs;
pub mod equality;
pub mod fuzzy;
pub mod item;
pub mod layout;
pub mod ranking;
pub mod resolve;
pub mod session;
pub mod snippet;
pub mod text;
pub mod transaction;
