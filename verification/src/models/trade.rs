use vstd::prelude::*;

verus! {

/// An executed match between a buy order and a sell order.
#[derive(Debug)]
pub struct Trade {
    /// Increases with every trade of a book.
    pub id: u64,
    /// The price of the resting order.
    pub price: u64,
    /// The matched size.
    pub quantity: u64,
    /// The later of the two orders' timestamps.
    pub timestamp: u64,
    pub buy_order_id: u64,
    pub sell_order_id: u64,
    pub buy_user_id: u64,
    pub sell_user_id: u64,
    pub symbol: String,
}

impl Clone for Trade {
    fn clone(&self) -> (res: Self)
        ensures
            res == *self,
    {
        Trade {
            id: self.id,
            price: self.price,
            quantity: self.quantity,
            timestamp: self.timestamp,
            buy_order_id: self.buy_order_id,
            sell_order_id: self.sell_order_id,
            buy_user_id: self.buy_user_id,
            sell_user_id: self.sell_user_id,
            symbol: self.symbol.clone(),
        }
    }
}

impl Trade {
    pub fn new(
        id: u64,
        price: u64,
        quantity: u64,
        timestamp: u64,
        buy_order_id: u64,
        sell_order_id: u64,
        buy_user_id: u64,
        sell_user_id: u64,
        symbol: String,
    ) -> (trade: Self)
        ensures
            trade == (Trade {
                id,
                price,
                quantity,
                timestamp,
                buy_order_id,
                sell_order_id,
                buy_user_id,
                sell_user_id,
                symbol,
            }),
    {
        Trade {
            id,
            price,
            quantity,
            timestamp,
            buy_order_id,
            sell_order_id,
            buy_user_id,
            sell_user_id,
            symbol,
        }
    }

    /// The notional value of the trade as a mathematical integer.
    pub open spec fn notional(&self) -> nat {
        (self.price * self.quantity) as nat
    }

    /// The notional value, price times quantity, where it fits in 64 bits.
    pub fn value(&self) -> (v: u64)
        requires
            self.notional() <= u64::MAX,
        ensures
            v == self.notional(),
    {
        self.price * self.quantity
    }

    /// The notional value, or `None` where it does not fit in 64 bits.
    pub fn checked_value(&self) -> (v: Option<u64>)
        ensures
            v == if self.notional() <= u64::MAX {
                Some(self.notional() as u64)
            } else {
                None
            },
    {
        self.price.checked_mul(self.quantity)
    }
}

} // verus!
