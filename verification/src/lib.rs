//! A single-symbol limit order book with an embedded matching engine.
//!
//! Orders come in as limit, market, immediate-or-cancel, fill-or-kill, stop
//! and stop-limit orders; the book trades them against each other by
//! price-time priority and keeps what rests. Prices and quantities are
//! unsigned integers in minor currency units.
//!
//! - [`models`]: orders, trades and the statistics of a book.
//! - [`engine`]: the book with its price ladders, the rules it follows, and
//!   the proofs of what holds of every submission.
//! - [`persistence`]: in-memory stores of trades and orders.
//! - [`utils`]: timestamps, a histogram, decimal text.
//!
//! Every executable function carries a contract over the mathematical model
//! of what it works on, and is verified against it.

pub mod engine;
pub mod models;
pub mod persistence;
pub mod utils;

pub use engine::matcher::Matcher;
pub use engine::order_book::OrderBook;
pub use models::order::{Order, OrderSide, OrderStatus, OrderType};
pub use models::stats::OrderBookStats;
pub use models::trade::Trade;
pub use persistence::order_store::OrderStore;
pub use persistence::trade_store::TradeStore;
