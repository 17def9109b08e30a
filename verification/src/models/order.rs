use crate::utils::text::{decimal, u64_to_string};
use std::cmp::Ordering;
use vstd::prelude::*;
use vstd::std_specs::cmp::{PartialEqSpecImpl, PartialOrdSpecImpl};
use vstd::string::StringExecFns;

verus! {

/// The side of an order.
#[derive(Debug, Clone, Copy, PartialEq, Eq, Hash, Structural)]
pub enum OrderSide {
    Buy,
    Sell,
}

/// The kind of an order, with its trigger and limit prices where it has any.
#[derive(Debug, Clone, Copy, PartialEq, Eq, Hash, Structural)]
pub enum OrderType {
    /// Execute at the order's price or better; the residual rests.
    Limit,
    /// Execute at whatever the book offers; the residual is discarded.
    Market,
    /// Becomes a market order when the trigger price is reached.
    Stop(u64),
    /// Becomes a limit order at the second price when the first is reached.
    StopLimit(u64, u64),
    /// Immediate-or-cancel: execute what crosses, discard the residual.
    IOC,
    /// Fill-or-kill: execute in full at once or not at all.
    FOK,
}

/// Where an order stands in its life.
#[derive(Debug, Clone, Copy, PartialEq, Eq, Hash, Structural)]
pub enum OrderStatus {
    New,
    PartiallyFilled,
    Filled,
    Canceled,
    Rejected,
}

impl OrderSide {
    /// The name of the side.
    pub open spec fn text(self) -> Seq<char> {
        match self {
            OrderSide::Buy => "Buy"@,
            OrderSide::Sell => "Sell"@,
        }
    }

    /// The name of the side: `Buy` or `Sell`.
    pub fn to_string(&self) -> (text: String)
        ensures
            text@ == self.text(),
    {
        match self {
            OrderSide::Buy => String::from_str("Buy"),
            OrderSide::Sell => String::from_str("Sell"),
        }
    }
}

impl OrderType {
    /// The name of the type, with its prices in decimal where it has any.
    pub open spec fn text(self) -> Seq<char> {
        match self {
            OrderType::Limit => "Limit"@,
            OrderType::Market => "Market"@,
            OrderType::Stop(trigger) => "Stop("@ + decimal(trigger as nat) + ")"@,
            OrderType::StopLimit(trigger, limit) => "StopLimit("@ + decimal(trigger as nat) + ", "@
                + decimal(limit as nat) + ")"@,
            OrderType::IOC => "IOC"@,
            OrderType::FOK => "FOK"@,
        }
    }

    /// The name of the type, as in `Limit`, `Stop(100)`, `StopLimit(100, 95)`.
    pub fn to_string(&self) -> (text: String)
        ensures
            text@ == self.text(),
    {
        match self {
            OrderType::Limit => String::from_str("Limit"),
            OrderType::Market => String::from_str("Market"),
            OrderType::Stop(trigger) => {
                let mut text = String::from_str("Stop(");
                let digits = u64_to_string(*trigger);
                text.append(digits.as_str());
                text.append(")");
                text
            },
            OrderType::StopLimit(trigger, limit) => {
                let mut text = String::from_str("StopLimit(");
                let first = u64_to_string(*trigger);
                text.append(first.as_str());
                text.append(", ");
                let second = u64_to_string(*limit);
                text.append(second.as_str());
                text.append(")");
                text
            },
            OrderType::IOC => String::from_str("IOC"),
            OrderType::FOK => String::from_str("FOK"),
        }
    }
}

/// A trading order: an identity that never changes and a fill state that does.
#[derive(Debug)]
pub struct Order {
    /// Unique within the lifetime of a book; chosen by the submitter.
    pub id: u64,
    /// Limit price in minor units. A market buy carries `u64::MAX`, a market sell 0.
    pub price: u64,
    /// The size that the order came with.
    pub quantity: u64,
    /// Open size.
    pub remaining_quantity: u64,
    pub side: OrderSide,
    pub order_type: OrderType,
    /// Nanoseconds, chosen by the submitter; decides time priority.
    pub timestamp: u64,
    pub status: OrderStatus,
    pub user_id: u64,
    pub client_order_id: Option<String>,
    pub symbol: String,
}

impl Clone for Order {
    fn clone(&self) -> (res: Self)
        ensures
            res == *self,
    {
        Order {
            id: self.id,
            price: self.price,
            quantity: self.quantity,
            remaining_quantity: self.remaining_quantity,
            side: self.side,
            order_type: self.order_type,
            timestamp: self.timestamp,
            status: self.status,
            user_id: self.user_id,
            client_order_id: match &self.client_order_id {
                Some(s) => Some(s.clone()),
                None => None,
            },
            symbol: self.symbol.clone(),
        }
    }
}

/// Two orders are the same order where they have the same id.
impl PartialEq for Order {
    fn eq(&self, other: &Self) -> (same: bool) {
        self.id == other.id
    }
}

impl PartialEqSpecImpl for Order {
    open spec fn obeys_eq_spec() -> bool {
        true
    }

    open spec fn eq_spec(&self, other: &Self) -> bool {
        self.id == other.id
    }
}

impl Eq for Order {

}

/// Orders of one side are ordered by price and, at one price, by timestamp.
/// Orders of different sides are not ordered against each other: they
/// compare as equal.
impl PartialOrd for Order {
    fn partial_cmp(&self, other: &Self) -> (ordering: Option<Ordering>) {
        if self.side != other.side {
            Some(Ordering::Equal)
        } else if self.price < other.price {
            Some(Ordering::Less)
        } else if self.price > other.price {
            Some(Ordering::Greater)
        } else if self.timestamp < other.timestamp {
            Some(Ordering::Less)
        } else if self.timestamp > other.timestamp {
            Some(Ordering::Greater)
        } else {
            Some(Ordering::Equal)
        }
    }
}

impl PartialOrdSpecImpl for Order {
    open spec fn obeys_partial_cmp_spec() -> bool {
        true
    }

    open spec fn partial_cmp_spec(&self, other: &Self) -> Option<Ordering> {
        if self.side != other.side {
            Some(Ordering::Equal)
        } else if self.price < other.price {
            Some(Ordering::Less)
        } else if self.price > other.price {
            Some(Ordering::Greater)
        } else if self.timestamp < other.timestamp {
            Some(Ordering::Less)
        } else if self.timestamp > other.timestamp {
            Some(Ordering::Greater)
        } else {
            Some(Ordering::Equal)
        }
    }
}

impl Order {
    /// The invariant of an order record: the open size never exceeds the
    /// size it came with, and it is zero exactly when the order is filled.
    pub open spec fn well_formed(&self) -> bool {
        &&& self.remaining_quantity <= self.quantity
        &&& (self.remaining_quantity == 0 <==> self.status == OrderStatus::Filled)
    }

    /// A record as the constructors make it: nothing filled yet.
    pub open spec fn is_fresh(&self) -> bool {
        &&& self.remaining_quantity == self.quantity
        &&& self.status == OrderStatus::New
    }

    /// A record that may rest in a book: open, and neither canceled nor rejected.
    pub open spec fn is_live(&self) -> bool {
        &&& 0 < self.remaining_quantity <= self.quantity
        &&& (self.status == OrderStatus::New || self.status == OrderStatus::PartiallyFilled)
    }

    /// The record after `filled_quantity` more units have traded.
    pub open spec fn after_fill(self, filled_quantity: u64) -> Order {
        Order {
            remaining_quantity: (self.remaining_quantity - filled_quantity) as u64,
            status: if self.remaining_quantity - filled_quantity > 0 {
                OrderStatus::PartiallyFilled
            } else {
                OrderStatus::Filled
            },
            ..self
        }
    }

    /// The record after a cancellation: a filled order stays filled.
    pub open spec fn after_cancel(self) -> Order {
        Order {
            status: if self.status == OrderStatus::Filled {
                OrderStatus::Filled
            } else {
                OrderStatus::Canceled
            },
            ..self
        }
    }

    /// Whether an order on this side at `own` accepts a resting price `other`.
    pub open spec fn price_accepts(side: OrderSide, own: u64, other: u64) -> bool {
        match side {
            OrderSide::Buy => other <= own,
            OrderSide::Sell => other >= own,
        }
    }

    /// Creates a limit order with nothing filled.
    pub fn new_limit(
        id: u64,
        price: u64,
        quantity: u64,
        side: OrderSide,
        user_id: u64,
        timestamp: u64,
        client_order_id: Option<String>,
        symbol: String,
    ) -> (order: Self)
        ensures
            order == (Order {
                id,
                price,
                quantity,
                remaining_quantity: quantity,
                side,
                order_type: OrderType::Limit,
                timestamp,
                status: OrderStatus::New,
                user_id,
                client_order_id,
                symbol,
            }),
            order.is_fresh(),
            quantity > 0 ==> order.well_formed(),
    {
        Order {
            id,
            price,
            quantity,
            remaining_quantity: quantity,
            side,
            order_type: OrderType::Limit,
            timestamp,
            status: OrderStatus::New,
            user_id,
            client_order_id,
            symbol,
        }
    }

    /// Creates a market order with nothing filled. Its price is the extreme
    /// that accepts every resting price: `u64::MAX` for a buy, 0 for a sell.
    pub fn new_market(
        id: u64,
        quantity: u64,
        side: OrderSide,
        user_id: u64,
        timestamp: u64,
        client_order_id: Option<String>,
        symbol: String,
    ) -> (order: Self)
        ensures
            order == (Order {
                id,
                price: if side == OrderSide::Buy { u64::MAX } else { 0 },
                quantity,
                remaining_quantity: quantity,
                side,
                order_type: OrderType::Market,
                timestamp,
                status: OrderStatus::New,
                user_id,
                client_order_id,
                symbol,
            }),
            order.is_fresh(),
            quantity > 0 ==> order.well_formed(),
            forall|p: u64| Order::price_accepts(side, order.price, p),
    {
        let price: u64 = match side {
            OrderSide::Buy => u64::MAX,
            OrderSide::Sell => 0,
        };
        Order {
            id,
            price,
            quantity,
            remaining_quantity: quantity,
            side,
            order_type: OrderType::Market,
            timestamp,
            status: OrderStatus::New,
            user_id,
            client_order_id,
            symbol,
        }
    }

    /// Whether nothing is left open.
    pub fn is_filled(&self) -> (filled: bool)
        ensures
            filled == (self.remaining_quantity == 0),
    {
        self.remaining_quantity == 0
    }

    pub fn is_buy(&self) -> (buy: bool)
        ensures
            buy == (self.side == OrderSide::Buy),
    {
        self.side == OrderSide::Buy
    }

    pub fn is_sell(&self) -> (sell: bool)
        ensures
            sell == (self.side == OrderSide::Sell),
    {
        self.side == OrderSide::Sell
    }

    /// Records that `filled_quantity` more units have traded.
    pub fn fill_partial(&mut self, filled_quantity: u64)
        requires
            filled_quantity <= old(self).remaining_quantity,
        ensures
            *final(self) == old(self).after_fill(filled_quantity),
            final(self).remaining_quantity + filled_quantity == old(self).remaining_quantity,
            old(self).remaining_quantity <= old(self).quantity ==> final(self).well_formed(),
    {
        self.remaining_quantity = self.remaining_quantity - filled_quantity;
        if self.remaining_quantity > 0 {
            self.status = OrderStatus::PartiallyFilled;
        } else {
            self.status = OrderStatus::Filled;
        }
    }

    /// Records that everything has traded.
    pub fn fill_complete(&mut self)
        ensures
            *final(self) == old(self).after_fill(old(self).remaining_quantity),
            final(self).remaining_quantity == 0,
            final(self).status == OrderStatus::Filled,
            final(self).well_formed(),
    {
        self.remaining_quantity = 0;
        self.status = OrderStatus::Filled;
    }

    /// Marks the order canceled, unless it is filled already.
    pub fn cancel(&mut self)
        ensures
            *final(self) == old(self).after_cancel(),
            old(self).well_formed() ==> final(self).well_formed(),
    {
        if self.status != OrderStatus::Filled {
            self.status = OrderStatus::Canceled;
        }
    }

    /// Whether `self` and `other` could trade: opposite sides, one symbol,
    /// and the buyer's price at or above the seller's.
    pub open spec fn matches_with(&self, other: &Order) -> bool {
        &&& self.side != other.side
        &&& self.symbol@ == other.symbol@
        &&& Order::price_accepts(self.side, self.price, other.price)
    }

    pub fn can_match_with(&self, other: &Self) -> (ok: bool)
        ensures
            ok == self.matches_with(other),
    {
        if self.side == other.side || !(self.symbol == other.symbol) {
            return false;
        }
        match self.side {
            OrderSide::Buy => self.price >= other.price,
            OrderSide::Sell => self.price <= other.price,
        }
    }
}

} // verus!
