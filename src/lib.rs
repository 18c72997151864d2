//! Replays an exchange's order-entry and trade-execution streams into
//! per-instrument Level-2 books and emits snapshots of them.
pub mod md;
pub mod book;
pub mod snapshot_builder;
pub mod book_laws;
pub mod replay_laws;
