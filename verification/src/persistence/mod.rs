//! In-memory stores of trades and orders. Reading and writing their
//! backing files is left to the program around the library; a store only
//! says when a write is due.

pub mod order_store;
pub mod trade_store;

pub use order_store::OrderStore;
pub use trade_store::TradeStore;
