//! The book itself: price ladders, the matching rules and the engine.
//!
//! - [`ladder`]: one side of a book and its best price.
//! - [`rules`]: the invariant of a book and what a sweep trades.
//! - [`submission`]: what a book does with an order, by type.
//! - [`upkeep`]: why fills, resting and cancelling keep the invariant.
//! - [`laws`]: conservation, priority, resting prices, trade ids.
//! - [`matcher`] and [`order_book`]: the engine and the book, verified against
//!   the above.

pub mod ladder;
pub mod laws;
pub mod matcher;
pub mod order_book;
pub mod rules;
pub mod submission;
pub mod upkeep;

pub use matcher::Matcher;
pub use order_book::OrderBook;
