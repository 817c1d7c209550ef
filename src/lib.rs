//! Shared shopping-list tracking for chat conversations: a case-insensitive
//! needed-list per conversation, with snapshots for durable storage.

pub mod bot;
pub mod codec;
pub mod keyed;
pub mod laws;
pub mod listing;
pub mod log;
pub mod needed;
pub mod store;
pub mod text;
