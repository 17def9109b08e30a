//! What a book does with an order, stated over the model of the book.

use crate::engine::ladder::{at_least_as_good, best_price, level_quantity, opposite, Ladder};
use crate::engine::rules::{
    book_ok, ids_on, ladder_of, ladder_with, ladder_without, matchable, sweep, sweep_cost,
    traded_quantity, Sweep,
};
use crate::models::order::{Order, OrderSide, OrderStatus, OrderType};
use crate::models::stats::OrderBookStats;
use crate::models::trade::Trade;
use vstd::prelude::*;

verus! {

/// The mathematical model of an order book.
pub struct BookView {
    pub symbol: Seq<char>,
    /// Buy orders by price; the best bid is the highest price.
    pub bids: Ladder,
    /// Sell orders by price; the best ask is the lowest price.
    pub asks: Ladder,
    /// The live record of every resting order, by id.
    pub index: Map<u64, Order>,
    pub stats: OrderBookStats,
    /// The id of the last trade made; 0 before the first.
    pub last_trade_id: u64,
}

/// What a submission comes to.
pub struct Outcome {
    pub book: BookView,
    /// The trades made, in the order in which they were made.
    pub trades: Seq<Trade>,
    /// The submitted order as the submission left it.
    pub order: Order,
    /// Whether an order that executed as a market order was left with open
    /// units, which were discarded.
    pub unfilled: bool,
}

/// Whether `depth` lists the best `levels` prices of the ladder of `side`,
/// the best first, each with the open units of its level.
pub open spec fn is_depth_of(
    depth: Seq<(u64, u64)>,
    ladder: Ladder,
    side: OrderSide,
    levels: nat,
) -> bool {
    &&& depth.len() == if levels <= ladder.dom().len() {
        levels
    } else {
        ladder.dom().len()
    }
    &&& forall|i: int|
        0 <= i < depth.len() ==> ladder.contains_key((#[trigger] depth[i]).0) && depth[i].1
            == level_quantity(ladder[depth[i].0])
    &&& forall|i: int, j: int|
        0 <= i < j < depth.len() ==> (#[trigger] depth[i]).0 != (#[trigger] depth[j]).0
            && at_least_as_good(side, depth[i].0, depth[j].0)
    &&& forall|p: u64, i: int|
        #[trigger] ladder.contains_key(p) && 0 <= i < depth.len() ==> at_least_as_good(
            side,
            (#[trigger] depth[i]).0,
            p,
        ) || exists|j: int| 0 <= j < depth.len() && (#[trigger] depth[j]).0 == p
}

/// Whether the open units of every level of the ladder fit in 64 bits.
pub open spec fn depth_fits(ladder: Ladder) -> bool {
    forall|p: u64| #[trigger] ladder.contains_key(p) ==> level_quantity(ladder[p]) <= u64::MAX
}

/// What it would cost to trade a quantity at once against one side of the
/// book.
#[derive(Debug, Clone, Copy)]
pub struct SlippageQuote {
    /// The total cost divided by the volume, rounded down.
    pub average_price: u64,
    /// The best price of the side traded against.
    pub best_price: u64,
    /// The sum of price times fill.
    pub total_cost: u128,
    /// The quantity asked for.
    pub volume: u64,
}

impl BookView {
    /// What a market order of `side` for `quantity` units would trade at: a
    /// quote where the other side holds that much, none where it does not.
    pub open spec fn slippage(self, side: OrderSide, quantity: u64) -> Option<SlippageQuote> {
        let resting = ladder_of(opposite(side), self.bids, self.asks);
        if matchable(side, 0, true, quantity, resting) < quantity {
            None
        } else {
            let cost = sweep_cost(side, 0, true, quantity, resting);
            Some(
                SlippageQuote {
                    average_price: (cost / quantity as nat) as u64,
                    best_price: best_price(resting, opposite(side))->0,
                    total_cost: cost as u128,
                    volume: quantity,
                },
            )
        }
    }

    /// The highest bid, if there is a bid.
    pub open spec fn best_bid(self) -> Option<u64> {
        best_price(self.bids, OrderSide::Buy)
    }

    /// The lowest ask, if there is an ask.
    pub open spec fn best_ask(self) -> Option<u64> {
        best_price(self.asks, OrderSide::Sell)
    }

    /// The statistics that the state of the book determines are up to date.
    pub open spec fn stats_current(self) -> bool {
        &&& self.stats.symbol@ == self.symbol
        &&& self.stats.best_bid == self.best_bid()
        &&& self.stats.best_ask == self.best_ask()
        &&& self.stats.bid_order_count == ids_on(self.index, OrderSide::Buy).len()
        &&& self.stats.ask_order_count == ids_on(self.index, OrderSide::Sell).len()
        &&& self.stats.trade_count == self.last_trade_id
    }

    /// The invariant of a book: ladders and index in order with each other,
    /// the book not crossed, the statistics up to date.
    pub open spec fn well_formed(self) -> bool {
        &&& book_ok(self.bids, self.asks, self.index)
        &&& self.stats_current()
    }

    /// Whether the book can take `order` within the limits of the machine:
    /// the trades can be numbered and the traded volume counted in 64 bits.
    pub open spec fn has_room_for(self, order: Order) -> bool {
        &&& self.last_trade_id + self.index.len() < u64::MAX
        &&& self.stats.volume + order.quantity <= u64::MAX
    }

    /// Whether the book turns `order` away before it looks at its type: it
    /// is for another symbol, it is for nothing, or its id is taken.
    pub open spec fn rejects(self, order: Order) -> bool {
        ||| order.symbol@ != self.symbol
        ||| order.quantity == 0
        ||| self.index.contains_key(order.id)
    }

    /// Whether a stop at `trigger` on `side` is triggered by the top of the
    /// book: a buy stop by an ask at or below it, a sell stop by a bid at or
    /// above it.
    pub open spec fn triggers(self, side: OrderSide, trigger: u64) -> bool {
        match side {
            OrderSide::Buy => self.best_ask() matches Some(ask) && ask <= trigger,
            OrderSide::Sell => self.best_bid() matches Some(bid) && bid >= trigger,
        }
    }

    /// The sweep of `order` against the other side of the book.
    pub open spec fn swept(self, order: Order, market: bool) -> Sweep {
        sweep(
            order,
            market,
            ladder_of(opposite(order.side), self.bids, self.asks),
            self.index,
            self.last_trade_id,
        )
    }

    /// How many units `order` would trade as a limit order.
    pub open spec fn fillable(self, order: Order) -> nat {
        matchable(
            order.side,
            order.price,
            false,
            order.remaining_quantity,
            ladder_of(opposite(order.side), self.bids, self.asks),
        )
    }

    /// The book with new ladders and index after a submission stamped
    /// `timestamp` that made `trades`: the statistics follow.
    pub open spec fn settled(
        self,
        bids: Ladder,
        asks: Ladder,
        index: Map<u64, Order>,
        last_trade_id: u64,
        trades: Seq<Trade>,
        timestamp: u64,
    ) -> BookView {
        BookView {
            symbol: self.symbol,
            bids,
            asks,
            index,
            last_trade_id,
            stats: OrderBookStats {
                best_bid: best_price(bids, OrderSide::Buy),
                best_ask: best_price(asks, OrderSide::Sell),
                last_trade_price: if trades.len() > 0 {
                    Some(trades.last().price)
                } else {
                    self.stats.last_trade_price
                },
                volume: (self.stats.volume + traded_quantity(trades)) as u64,
                trade_count: (self.stats.trade_count + trades.len()) as u64,
                bid_order_count: ids_on(index, OrderSide::Buy).len() as usize,
                ask_order_count: ids_on(index, OrderSide::Sell).len() as usize,
                last_update_time: timestamp,
                ..self.stats
            },
        }
    }

    /// The bids after the sweep `s` of an order of `side`: what the sweep
    /// left of them if it went against them.
    pub open spec fn bids_after(self, side: OrderSide, s: Sweep) -> Ladder {
        match side {
            OrderSide::Buy => self.bids,
            OrderSide::Sell => s.resting,
        }
    }

    /// The asks after the sweep `s` of an order of `side`.
    pub open spec fn asks_after(self, side: OrderSide, s: Sweep) -> Ladder {
        match side {
            OrderSide::Buy => s.resting,
            OrderSide::Sell => self.asks,
        }
    }

    /// The order goes nowhere: no trade, and of the book only the time of
    /// the last update changes.
    pub open spec fn passed_over(self, order: Order, status: OrderStatus) -> Outcome {
        Outcome {
            book: self.settled(
                self.bids,
                self.asks,
                self.index,
                self.last_trade_id,
                Seq::empty(),
                order.timestamp,
            ),
            trades: Seq::empty(),
            order: Order { status, ..order },
            unfilled: false,
        }
    }

    /// The order trades what crosses, and what is left of it rests on its
    /// own side at its price, behind the orders that are not later than it.
    pub open spec fn rested(self, order: Order) -> Outcome {
        let s = self.swept(order, false);
        let rests = s.taker.remaining_quantity > 0;
        let bids = self.bids_after(order.side, s);
        let asks = self.asks_after(order.side, s);
        Outcome {
            book: self.settled(
                if rests && order.side == OrderSide::Buy {
                    ladder_with(bids, s.taker)
                } else {
                    bids
                },
                if rests && order.side == OrderSide::Sell {
                    ladder_with(asks, s.taker)
                } else {
                    asks
                },
                if rests {
                    s.index.insert(order.id, s.taker)
                } else {
                    s.index
                },
                s.last_trade_id,
                s.trades,
                order.timestamp,
            ),
            trades: s.trades,
            order: s.taker,
            unfilled: false,
        }
    }

    /// The order trades what crosses, at any price where `market`, and what
    /// is left of it is canceled.
    pub open spec fn immediate(self, order: Order, market: bool) -> Outcome {
        let s = self.swept(order, market);
        Outcome {
            book: self.settled(
                self.bids_after(order.side, s),
                self.asks_after(order.side, s),
                s.index,
                s.last_trade_id,
                s.trades,
                order.timestamp,
            ),
            trades: s.trades,
            order: if s.taker.remaining_quantity > 0 {
                s.taker.after_cancel()
            } else {
                s.taker
            },
            unfilled: market && s.taker.remaining_quantity > 0,
        }
    }

    /// The ladder on which orders of `side` rest.
    pub open spec fn side(self, side: OrderSide) -> Ladder {
        ladder_of(side, self.bids, self.asks)
    }

    /// How the book executes `order`: the order as it trades and whether it
    /// trades as a market order. `None` where the order does not trade at
    /// all.
    ///
    /// A limit, a market and an immediate-or-cancel order trade as they
    /// are. A fill-or-kill order trades where the other side holds its
    /// quantity within its limit. A stop order whose trigger the top of the
    /// book meets trades as a market order, a stop-limit order as a limit
    /// order at its second price; a stop whose trigger is not met does not
    /// trade. An order that the book rejects does not trade.
    pub open spec fn execution(self, order: Order) -> Option<(Order, bool)> {
        if self.rejects(order) {
            None
        } else {
            match order.order_type {
                OrderType::Limit => Some((order, false)),
                OrderType::Market => Some((order, true)),
                OrderType::IOC => Some((order, false)),
                OrderType::FOK => if self.fillable(order) < order.quantity {
                    None
                } else {
                    Some((order, false))
                },
                OrderType::Stop(trigger) => if self.triggers(order.side, trigger) {
                    Some((Order { order_type: OrderType::Market, ..order }, true))
                } else {
                    None
                },
                OrderType::StopLimit(trigger, limit) => if self.triggers(order.side, trigger) {
                    Some((Order { order_type: OrderType::Limit, price: limit, ..order }, false))
                } else {
                    None
                },
            }
        }
    }

    /// Whether what is left of `order` after it has traded comes to rest:
    /// so it is with limit orders, and with stop-limit orders, which trade
    /// as limit orders.
    pub open spec fn may_rest(order: Order) -> bool {
        order.order_type is Limit || order.order_type is StopLimit
    }

    /// What the book does with `order`.
    ///
    /// An order for another symbol, for nothing or with an id that rests in
    /// the book is rejected and nothing changes. An order that trades is
    /// swept against the other side; what is left of it rests if it is a
    /// limit order and is canceled if it is not. A fill-or-kill order that
    /// cannot trade in full is canceled untouched, and a stop whose trigger
    /// is not met is rejected: neither changes the ladders or the index.
    pub open spec fn submit(self, order: Order) -> Outcome {
        if self.rejects(order) {
            Outcome {
                book: self,
                trades: Seq::empty(),
                order: Order { status: OrderStatus::Rejected, ..order },
                unfilled: false,
            }
        } else {
            match self.execution(order) {
                Some((taker, market)) => if Self::may_rest(taker) {
                    self.rested(taker)
                } else {
                    self.immediate(taker, market)
                },
                None => self.passed_over(
                    order,
                    if order.order_type is FOK {
                        OrderStatus::Canceled
                    } else {
                        OrderStatus::Rejected
                    },
                ),
            }
        }
    }

    /// The book after the resting order `id` has been canceled.
    pub open spec fn cancel(self, id: u64) -> BookView {
        if self.index.contains_key(id) {
            let order = self.index[id];
            self.settled(
                if order.side == OrderSide::Buy {
                    ladder_without(self.bids, order)
                } else {
                    self.bids
                },
                if order.side == OrderSide::Sell {
                    ladder_without(self.asks, order)
                } else {
                    self.asks
                },
                self.index.remove(id),
                self.last_trade_id,
                Seq::empty(),
                self.stats.last_update_time,
            )
        } else {
            self
        }
    }
}

} // verus!
