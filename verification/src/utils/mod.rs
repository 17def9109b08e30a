//! Helpers that the book itself does not need: text, time, metrics.

pub mod metrics;
pub mod text;
pub mod time;
