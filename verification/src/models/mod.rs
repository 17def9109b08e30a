//! The entities of the book: orders, trades and derived statistics.

pub mod order;
pub mod stats;
pub mod trade;

pub use order::{Order, OrderSide, OrderStatus, OrderType};
pub use stats::OrderBookStats;
pub use trade::Trade;
