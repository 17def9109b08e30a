use vstd::prelude::*;

verus! {

/// Counters derived from the state of a book and from the trades it made.
#[derive(Debug)]
pub struct OrderBookStats {
    pub symbol: String,
    pub best_bid: Option<u64>,
    pub best_ask: Option<u64>,
    pub last_trade_price: Option<u64>,
    /// Sum of the quantities of all trades.
    pub volume: u64,
    pub trade_count: u64,
    pub bid_order_count: usize,
    pub ask_order_count: usize,
    pub last_update_time: u64,
}

impl Clone for OrderBookStats {
    fn clone(&self) -> (res: Self)
        ensures
            res == *self,
    {
        OrderBookStats {
            symbol: self.symbol.clone(),
            best_bid: self.best_bid,
            best_ask: self.best_ask,
            last_trade_price: self.last_trade_price,
            volume: self.volume,
            trade_count: self.trade_count,
            bid_order_count: self.bid_order_count,
            ask_order_count: self.ask_order_count,
            last_update_time: self.last_update_time,
        }
    }
}

impl Default for OrderBookStats {
    fn default() -> (stats: Self)
        ensures
            stats.is_blank(),
            stats.symbol@ == Seq::<char>::empty(),
    {
        OrderBookStats {
            symbol: String::new(),
            best_bid: None,
            best_ask: None,
            last_trade_price: None,
            volume: 0,
            trade_count: 0,
            bid_order_count: 0,
            ask_order_count: 0,
            last_update_time: 0,
        }
    }
}

impl OrderBookStats {
    /// Nothing recorded: no prices, no trades, no orders.
    pub open spec fn is_blank(&self) -> bool {
        &&& self.best_bid is None
        &&& self.best_ask is None
        &&& self.last_trade_price is None
        &&& self.volume == 0
        &&& self.trade_count == 0
        &&& self.bid_order_count == 0
        &&& self.ask_order_count == 0
        &&& self.last_update_time == 0
    }

    /// The distance from `bid` up to `ask`, zero where the book is crossed.
    pub open spec fn gap(ask: u64, bid: u64) -> u64 {
        if ask >= bid {
            (ask - bid) as u64
        } else {
            0
        }
    }

    /// The spread of a top of book: defined where both sides are.
    pub open spec fn spread_of(best_ask: Option<u64>, best_bid: Option<u64>) -> Option<u64> {
        match (best_ask, best_bid) {
            (Some(ask), Some(bid)) => Some(Self::gap(ask, bid)),
            _ => None,
        }
    }

    /// Blank statistics for `symbol`.
    pub fn new(symbol: &str) -> (stats: Self)
        ensures
            stats.symbol@ == symbol@,
            stats.is_blank(),
    {
        OrderBookStats {
            symbol: symbol.to_owned(),
            best_bid: None,
            best_ask: None,
            last_trade_price: None,
            volume: 0,
            trade_count: 0,
            bid_order_count: 0,
            ask_order_count: 0,
            last_update_time: 0,
        }
    }

    /// Best ask minus best bid where both exist, saturating at zero.
    pub fn spread(&self) -> (s: Option<u64>)
        ensures
            s == Self::spread_of(self.best_ask, self.best_bid),
    {
        match (self.best_ask, self.best_bid) {
            (Some(ask), Some(bid)) => Some(ask.saturating_sub(bid)),
            _ => None,
        }
    }

    /// Records one trade.
    pub fn update_with_trade(&mut self, price: u64, quantity: u64)
        requires
            old(self).volume + quantity <= u64::MAX,
            old(self).trade_count < u64::MAX,
        ensures
            *final(self) == (OrderBookStats {
                last_trade_price: Some(price),
                volume: (old(self).volume + quantity) as u64,
                trade_count: (old(self).trade_count + 1) as u64,
                ..*old(self)
            }),
    {
        self.last_trade_price = Some(price);
        self.volume = self.volume + quantity;
        self.trade_count = self.trade_count + 1;
    }

    /// Replaces the two order counts.
    pub fn update_order_counts(&mut self, bid_count: usize, ask_count: usize)
        ensures
            *final(self) == (OrderBookStats {
                bid_order_count: bid_count,
                ask_order_count: ask_count,
                ..*old(self)
            }),
    {
        self.bid_order_count = bid_count;
        self.ask_order_count = ask_count;
    }
}

} // verus!
