//! Command resolution, suggestion and ticket parsing for a small,
//! file-based ticket tracker.
pub mod distance;
pub mod text;
pub mod ticket;
pub mod search;
pub mod penv;
pub mod commands;
