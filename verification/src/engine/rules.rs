//! The rules of the book, stated over its mathematical model.
//!
//! A book is two ladders and an index from order id to the live record of
//! that order. [`book_ok`] is the invariant that every operation keeps;
//! [`sweep`] says what an incoming order trades against a ladder.

use crate::engine::ladder::{best_price, opposite, Ladder};
use crate::models::order::{Order, OrderSide};
use crate::models::trade::Trade;
use vstd::prelude::*;

verus! {

/// The ladder on which orders of `side` rest.
pub open spec fn ladder_of(side: OrderSide, bids: Ladder, asks: Ladder) -> Ladder {
    match side {
        OrderSide::Buy => bids,
        OrderSide::Sell => asks,
    }
}

/// The record `order` may rest at price `p` of the ladder of `side`, and the
/// index holds that very record under its id.
pub open spec fn resting_ok(order: Order, p: u64, side: OrderSide, index: Map<u64, Order>) -> bool {
    &&& order.price == p
    &&& order.side == side
    &&& order.is_live()
    &&& index.contains_key(order.id)
    &&& index[order.id] == order
}

/// A price level is never empty, holds each id once, and is in time order.
pub open spec fn level_ok(
    level: Seq<Order>,
    p: u64,
    side: OrderSide,
    index: Map<u64, Order>,
) -> bool {
    &&& level.len() > 0
    &&& forall|i: int| 0 <= i < level.len() ==> resting_ok(#[trigger] level[i], p, side, index)
    &&& forall|i: int, j: int|
        0 <= i < j < level.len() ==> (#[trigger] level[i]).timestamp <= (
        #[trigger] level[j]).timestamp
    &&& forall|i: int, j: int|
        0 <= i < j < level.len() ==> (#[trigger] level[i]).id != (#[trigger] level[j]).id
}

/// Every level of the ladder of `side` is in order.
pub open spec fn ladder_ok(ladder: Ladder, side: OrderSide, index: Map<u64, Order>) -> bool {
    &&& ladder.dom().finite()
    &&& forall|p: u64| #[trigger] ladder.contains_key(p) ==> level_ok(ladder[p], p, side, index)
}

/// No level of the ladder is empty and every order on it has units open.
pub open spec fn ladder_live(ladder: Ladder) -> bool {
    forall|p: u64| #[trigger]
        ladder.contains_key(p) ==> ladder[p].len() > 0 && forall|i: int|
            0 <= i < ladder[p].len() ==> (#[trigger] ladder[p][i]).remaining_quantity > 0
}

/// Whether `order` stands at some position of the level at its price.
pub open spec fn listed_on(order: Order, ladder: Ladder) -> bool {
    &&& ladder.contains_key(order.price)
    &&& exists|i: int|
        0 <= i < ladder[order.price].len() && #[trigger] ladder[order.price][i] == order
}

/// Whether `order` rests on the ladder of its side.
pub open spec fn listed(order: Order, bids: Ladder, asks: Ladder) -> bool {
    listed_on(order, ladder_of(order.side, bids, asks))
}

/// Every record of the index is filed under its own id and rests on a ladder.
pub open spec fn index_ok(bids: Ladder, asks: Ladder, index: Map<u64, Order>) -> bool {
    &&& index.dom().finite()
    &&& forall|id: u64| #[trigger]
        index.contains_key(id) ==> index[id].id == id && listed(index[id], bids, asks)
}

/// Every bid is below every ask.
pub open spec fn uncrossed(bids: Ladder, asks: Ladder) -> bool {
    forall|b: u64, a: u64|
        #[trigger] bids.contains_key(b) && #[trigger] asks.contains_key(a) ==> b < a
}

/// The invariant of a book: both ladders in order, index and ladders hold
/// the same records, and the book is not crossed.
pub open spec fn book_ok(bids: Ladder, asks: Ladder, index: Map<u64, Order>) -> bool {
    &&& ladder_ok(bids, OrderSide::Buy, index)
    &&& ladder_ok(asks, OrderSide::Sell, index)
    &&& index_ok(bids, asks, index)
    &&& uncrossed(bids, asks)
}

/// The invariant of a book as a sweep sees it: `resting` is the ladder the
/// incoming order of side `taker_side` trades against, `own` the other one.
pub open spec fn sides_ok(
    taker_side: OrderSide,
    resting: Ladder,
    own: Ladder,
    index: Map<u64, Order>,
) -> bool {
    match taker_side {
        OrderSide::Buy => book_ok(own, resting, index),
        OrderSide::Sell => book_ok(resting, own, index),
    }
}

/// Whether an incoming order of `side` with limit `price` trades at the
/// resting price `p`. A market order trades at any price.
pub open spec fn crosses(side: OrderSide, price: u64, market: bool, p: u64) -> bool {
    market || Order::price_accepts(side, price, p)
}

/// Whether an incoming order with `remaining` open units has something to
/// trade against on the `resting` ladder: the best resting price crosses.
pub open spec fn can_fill(
    side: OrderSide,
    price: u64,
    market: bool,
    remaining: u64,
    resting: Ladder,
) -> bool {
    &&& remaining > 0
    &&& best_price(resting, opposite(side)) matches Some(p)
    &&& crosses(side, price, market, p)
    &&& resting[p].len() > 0
    &&& resting[p][0].remaining_quantity > 0
}

/// The size of the next fill: what both the incoming order and the first
/// order at the best price can give.
pub open spec fn next_fill(side: OrderSide, remaining: u64, resting: Ladder) -> u64 {
    let maker = resting[best_price(resting, opposite(side))->0][0];
    if remaining <= maker.remaining_quantity {
        remaining
    } else {
        maker.remaining_quantity
    }
}

/// The ladder after the first order at price `p` has given `q` units: the
/// order leaves if nothing of it is left, and its level with it if empty.
pub open spec fn ladder_after_fill(resting: Ladder, p: u64, q: u64) -> Ladder {
    let level = resting[p];
    if q >= level[0].remaining_quantity {
        if level.len() == 1 {
            resting.remove(p)
        } else {
            resting.insert(p, level.drop_first())
        }
    } else {
        resting.insert(p, level.update(0, level[0].after_fill(q)))
    }
}

/// The index after the resting order `maker` has given `q` units.
pub open spec fn index_after_fill(index: Map<u64, Order>, maker: Order, q: u64) -> Map<u64, Order> {
    if q >= maker.remaining_quantity {
        index.remove(maker.id)
    } else {
        index.insert(maker.id, maker.after_fill(q))
    }
}

/// The trade between an incoming order and a resting one, at the resting
/// price, stamped with the later of the two timestamps.
pub open spec fn trade_between(
    id: u64,
    price: u64,
    quantity: u64,
    taker: Order,
    maker: Order,
) -> Trade {
    Trade {
        id,
        price,
        quantity,
        timestamp: if taker.timestamp >= maker.timestamp {
            taker.timestamp
        } else {
            maker.timestamp
        },
        buy_order_id: if taker.side == OrderSide::Buy {
            taker.id
        } else {
            maker.id
        },
        sell_order_id: if taker.side == OrderSide::Sell {
            taker.id
        } else {
            maker.id
        },
        buy_user_id: if taker.side == OrderSide::Buy {
            taker.user_id
        } else {
            maker.user_id
        },
        sell_user_id: if taker.side == OrderSide::Sell {
            taker.user_id
        } else {
            maker.user_id
        },
        symbol: taker.symbol,
    }
}

/// What a sweep leaves behind.
pub struct Sweep {
    /// The trades, in the order in which they were made.
    pub trades: Seq<Trade>,
    /// The incoming order after its fills.
    pub taker: Order,
    /// The ladder it traded against.
    pub resting: Ladder,
    pub index: Map<u64, Order>,
    /// The id of the last trade made so far.
    pub last_trade_id: u64,
}

/// An incoming order trades against the `resting` ladder: while it has
/// units open and the best resting price crosses, it fills against the
/// first order at that price.
pub open spec fn sweep(
    taker: Order,
    market: bool,
    resting: Ladder,
    index: Map<u64, Order>,
    last_trade_id: u64,
) -> Sweep
    decreases taker.remaining_quantity,
{
    if can_fill(taker.side, taker.price, market, taker.remaining_quantity, resting) {
        let p = best_price(resting, opposite(taker.side))->0;
        let maker = resting[p][0];
        let q = next_fill(taker.side, taker.remaining_quantity, resting);
        let id = (last_trade_id + 1) as u64;
        let rest = sweep(
            taker.after_fill(q),
            market,
            ladder_after_fill(resting, p, q),
            index_after_fill(index, maker, q),
            id,
        );
        Sweep { trades: seq![trade_between(id, p, q, taker, maker)] + rest.trades, ..rest }
    } else {
        Sweep { trades: Seq::empty(), taker, resting, index, last_trade_id }
    }
}

/// How many units an incoming order would trade against the `resting`
/// ladder, without touching it.
pub open spec fn matchable(
    side: OrderSide,
    price: u64,
    market: bool,
    remaining: u64,
    resting: Ladder,
) -> nat
    decreases remaining,
{
    if can_fill(side, price, market, remaining, resting) {
        let p = best_price(resting, opposite(side))->0;
        let q = next_fill(side, remaining, resting);
        q as nat + matchable(
            side,
            price,
            market,
            (remaining - q) as u64,
            ladder_after_fill(resting, p, q),
        )
    } else {
        0
    }
}

/// What the units that an incoming order would trade cost in all: the sum
/// of resting price times fill over its fills.
pub open spec fn sweep_cost(
    side: OrderSide,
    price: u64,
    market: bool,
    remaining: u64,
    resting: Ladder,
) -> nat
    decreases remaining,
{
    if can_fill(side, price, market, remaining, resting) {
        let p = best_price(resting, opposite(side))->0;
        let q = next_fill(side, remaining, resting);
        (p * q) as nat + sweep_cost(
            side,
            price,
            market,
            (remaining - q) as u64,
            ladder_after_fill(resting, p, q),
        )
    } else {
        0
    }
}

/// The sum of the quantities of `trades`.
pub open spec fn traded_quantity(trades: Seq<Trade>) -> nat
    decreases trades.len(),
{
    if trades.len() == 0 {
        0
    } else {
        trades[0].quantity as nat + traded_quantity(trades.drop_first())
    }
}

/// Whether the order `id` is one of the two parties of `trade`.
pub open spec fn involves(trade: Trade, id: u64) -> bool {
    trade.buy_order_id == id || trade.sell_order_id == id
}

/// The sum of the quantities of the trades that the order `id` is party of.
pub open spec fn traded_by(trades: Seq<Trade>, id: u64) -> nat
    decreases trades.len(),
{
    if trades.len() == 0 {
        0
    } else {
        (if involves(trades[0], id) {
            trades[0].quantity as nat
        } else {
            0
        }) + traded_by(trades.drop_first(), id)
    }
}

/// The id of the resting party of a trade made by an incoming order of
/// `taker_side`.
pub open spec fn maker_id(trade: Trade, taker_side: OrderSide) -> u64 {
    match taker_side {
        OrderSide::Buy => trade.sell_order_id,
        OrderSide::Sell => trade.buy_order_id,
    }
}

/// The open units of the order `id` in a book: zero where it does not rest.
pub open spec fn open_units(index: Map<u64, Order>, id: u64) -> nat {
    if index.contains_key(id) {
        index[id].remaining_quantity as nat
    } else {
        0
    }
}

/// The ids of the orders of `side` in the index.
pub open spec fn ids_on(index: Map<u64, Order>, side: OrderSide) -> Set<u64> {
    Set::new(|id: u64| index.contains_key(id) && index[id].side == side)
}

/// Where an order stamped `timestamp` joins a level: behind every order that
/// is not later than it.
pub open spec fn arrival_index(level: Seq<Order>, timestamp: u64) -> int
    decreases level.len(),
{
    if level.len() == 0 {
        0
    } else if level.last().timestamp <= timestamp {
        level.len() as int
    } else {
        arrival_index(level.drop_last(), timestamp)
    }
}

/// The ladder after `order` has come to rest on it.
pub open spec fn ladder_with(ladder: Ladder, order: Order) -> Ladder {
    if ladder.contains_key(order.price) {
        let level = ladder[order.price];
        ladder.insert(order.price, level.insert(arrival_index(level, order.timestamp), order))
    } else {
        ladder.insert(order.price, seq![order])
    }
}

/// The position of the order with `id` in a level that holds it.
pub open spec fn position_of(level: Seq<Order>, id: u64) -> int {
    choose|i: int| 0 <= i < level.len() && (#[trigger] level[i]).id == id
}

/// The ladder after the resting order `order` has left it.
pub open spec fn ladder_without(ladder: Ladder, order: Order) -> Ladder {
    let level = ladder[order.price];
    if level.len() == 1 {
        ladder.remove(order.price)
    } else {
        ladder.insert(order.price, level.remove(position_of(level, order.id)))
    }
}

} // verus!
