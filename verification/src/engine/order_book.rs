//! The order book: two price ladders, an index by order id, statistics and
//! the matching engine that trades incoming orders against them.

use crate::engine::ladder::{
    ascending_prices, at_least_as_good, best_level_price, best_price, ladder_view, level_quantity,
    level_total, opposite,
};
use crate::engine::laws::{
    lemma_ids_partition, lemma_submission_keeps_book_ok, lemma_sweep_keeps_book_ok,
    lemma_sweep_taker, lemma_taker_conservation,
};
use crate::engine::matcher::{walk_ladder, Matcher};
use crate::engine::rules::{
    arrival_index, book_ok, ids_on, ladder_of, ladder_with, ladder_without, level_ok,
    position_of, traded_quantity,
};
use crate::engine::submission::{depth_fits, is_depth_of, BookView, SlippageQuote};
use crate::engine::upkeep::{
    lemma_cancel_keeps_book_ok, lemma_ladder_ok_is_live, lemma_rest_keeps_book_ok,
};
use crate::models::order::{Order, OrderSide, OrderStatus, OrderType};
use crate::models::stats::OrderBookStats;
use crate::models::trade::Trade;
use std::collections::BTreeMap;
use std::collections::HashMap;
use vstd::prelude::*;
use vstd::std_specs::iter::IteratorSpec;

verus! {

/// A limit order book for one symbol.
pub struct OrderBook {
    symbol: String,
    bids: BTreeMap<u64, Vec<Order>>,
    asks: BTreeMap<u64, Vec<Order>>,
    orders_by_id: HashMap<u64, Order>,
    stats: OrderBookStats,
    matcher: Matcher,
}

/// What became of a submitted order.
#[derive(Debug)]
pub struct Submission {
    /// The trades made, in the order in which they were made.
    pub trades: Vec<Trade>,
    /// The order as the submission left it.
    pub order: Order,
    /// Whether an order that executed as a market order was left with open
    /// units, which were discarded.
    pub unfilled: bool,
}

impl View for OrderBook {
    type V = BookView;

    closed spec fn view(&self) -> BookView {
        BookView {
            symbol: self.symbol@,
            bids: ladder_view(self.bids@),
            asks: ladder_view(self.asks@),
            index: self.orders_by_id@,
            stats: self.stats,
            last_trade_id: self.matcher.issued(),
        }
    }
}

/// The best `levels` prices of one side, the best first, each with the
/// open units of its level.
fn side_depth(ladder: &BTreeMap<u64, Vec<Order>>, side: OrderSide, levels: usize) -> (depth: Vec<
    (u64, u64),
>)
    requires
        depth_fits(ladder_view(ladder@)),
    ensures
        is_depth_of(depth@, ladder_view(ladder@), side, levels as nat),
{
    broadcast use vstd::std_specs::btree::group_btree_axioms;

    let prices = ascending_prices(ladder);
    let n = prices.len();
    let count = if levels <= n {
        levels
    } else {
        n
    };
    let ghost model = ladder_view(ladder@);
    let mut depth: Vec<(u64, u64)> = Vec::new();
    let mut k: usize = 0;
    assert forall|i: int| 0 <= i < n implies model.contains_key(#[trigger] prices[i]) by {
        assert(prices@.to_set().contains(prices@[i]));
    }
    while k < count
        invariant
            0 <= k <= count <= n,
            n == prices.len(),
            model == ladder_view(ladder@),
            depth_fits(model),
            depth.len() == k,
            forall|i: int| 0 <= i < n ==> model.contains_key(#[trigger] prices[i]),
            forall|i: int|
                0 <= i < k ==> (#[trigger] depth[i]).0 == (if side == OrderSide::Sell {
                    prices[i]
                } else {
                    prices[n - 1 - i]
                }) && depth[i].1 == level_quantity(model[depth[i].0]),
        decreases count - k,
    {
        let at: usize = match side {
            OrderSide::Sell => k,
            OrderSide::Buy => n - 1 - k,
        };
        let price = prices[at];
        let level = ladder.get(&price).unwrap();
        let total = level_total(level);
        depth.push((price, total));
        k = k + 1;
    }
    proof {
        assert forall|i: int, j: int| 0 <= i < j < depth.len() implies (#[trigger] depth[i]).0 != (
        #[trigger] depth[j]).0 && at_least_as_good(side, depth[i].0, depth[j].0) by {
            if side == OrderSide::Sell {
                assert(prices[i] < prices[j]);
            } else {
                assert(prices[n - 1 - j] < prices[n - 1 - i]);
            }
        }
        assert forall|p: u64, i: int| #[trigger]
            model.contains_key(p) && 0 <= i < depth.len() implies at_least_as_good(
            side,
            (#[trigger] depth[i]).0,
            p,
        ) || exists|j: int| 0 <= j < depth.len() && (#[trigger] depth[j]).0 == p by {
            assert(prices@.to_set().contains(p));
            let w = choose|w: int| 0 <= w < prices.len() && prices[w] == p;
            if side == OrderSide::Sell {
                if w < depth.len() {
                    assert(depth[w].0 == p);
                } else {
                    if i != w {
                        assert(prices[i] < prices[w]);
                    }
                }
            } else {
                let j = n - 1 - w;
                if j < depth.len() {
                    assert(depth[j].0 == p);
                } else {
                    if i != j {
                        assert(prices[w] < prices[n - 1 - i]);
                    }
                }
            }
        }
    }
    depth
}

impl OrderBook {
    /// The invariant that every operation of the book keeps.
    pub open spec fn well_formed(&self) -> bool {
        self@.well_formed()
    }

    /// An empty book for `symbol`.
    pub fn new(symbol: &str) -> (book: Self)
        ensures
            book.well_formed(),
            book@.symbol == symbol@,
            book@.bids == Map::<u64, Seq<Order>>::empty(),
            book@.asks == Map::<u64, Seq<Order>>::empty(),
            book@.index == Map::<u64, Order>::empty(),
            book@.last_trade_id == 0,
            book@.stats.is_blank(),
    {
        broadcast use vstd::std_specs::hash::group_hash_axioms;
        broadcast use vstd::std_specs::btree::group_btree_axioms;

        let book = OrderBook {
            symbol: symbol.to_owned(),
            bids: BTreeMap::new(),
            asks: BTreeMap::new(),
            orders_by_id: HashMap::new(),
            stats: OrderBookStats::new(symbol),
            matcher: Matcher::new(),
        };
        proof {
            assert(book@.bids =~= Map::<u64, Seq<Order>>::empty());
            assert(book@.asks =~= Map::<u64, Seq<Order>>::empty());
            assert(ids_on(book@.index, OrderSide::Buy) =~= Set::empty());
            assert(ids_on(book@.index, OrderSide::Sell) =~= Set::empty());
        }
        book
    }

    /// The symbol of the book.
    pub fn symbol(&self) -> (symbol: &str)
        ensures
            symbol@ == self@.symbol,
    {
        self.symbol.as_str()
    }

    /// The statistics of the book.
    pub fn stats(&self) -> (stats: &OrderBookStats)
        ensures
            *stats == self@.stats,
    {
        &self.stats
    }

    /// The highest bid, if there is a bid.
    pub fn best_bid(&self) -> (best: Option<u64>)
        ensures
            best == self@.best_bid(),
    {
        best_level_price(&self.bids, OrderSide::Buy)
    }

    /// The lowest ask, if there is an ask.
    pub fn best_ask(&self) -> (best: Option<u64>)
        ensures
            best == self@.best_ask(),
    {
        best_level_price(&self.asks, OrderSide::Sell)
    }

    /// Best ask minus best bid where both exist, saturating at zero.
    pub fn spread(&self) -> (spread: Option<u64>)
        ensures
            spread == OrderBookStats::spread_of(self@.best_ask(), self@.best_bid()),
    {
        match (self.best_ask(), self.best_bid()) {
            (Some(ask), Some(bid)) => Some(ask.saturating_sub(bid)),
            _ => None,
        }
    }

    /// Puts `order` to rest on the ladder of its side, at its price and
    /// behind the orders that are not later than it, and files it in the
    /// index.
    fn add_to_book(&mut self, order: Order)
        ensures
            final(self).symbol == old(self).symbol,
            final(self).stats == old(self).stats,
            final(self).matcher == old(self).matcher,
            final(self).orders_by_id@ == old(self).orders_by_id@.insert(order.id, order),
            match order.side {
                OrderSide::Buy => ladder_view(final(self).bids@) == ladder_with(
                    ladder_view(old(self).bids@),
                    order,
                ) && final(self).asks == old(self).asks,
                OrderSide::Sell => ladder_view(final(self).asks@) == ladder_with(
                    ladder_view(old(self).asks@),
                    order,
                ) && final(self).bids == old(self).bids,
            },
    {
        broadcast use vstd::std_specs::hash::group_hash_axioms;
        broadcast use vstd::std_specs::btree::group_btree_axioms;

        let price = order.price;
        let timestamp = order.timestamp;
        let ghost before = match order.side {
            OrderSide::Buy => ladder_view(self.bids@),
            OrderSide::Sell => ladder_view(self.asks@),
        };
        let taken = match order.side {
            OrderSide::Buy => self.bids.remove(&price),
            OrderSide::Sell => self.asks.remove(&price),
        };
        let mut level = match taken {
            Some(level) => level,
            None => Vec::new(),
        };
        let ghost queue = level@;
        let mut k: usize = level.len();
        assert(queue.take(k as int) =~= queue);
        while k > 0 && level[k - 1].timestamp > timestamp
            invariant
                0 <= k <= level.len(),
                level@ == queue,
                arrival_index(queue, timestamp) == arrival_index(queue.take(k as int), timestamp),
            decreases k,
        {
            assert(queue.take(k as int).drop_last() =~= queue.take(k - 1));
            k = k - 1;
        }
        assert(k == arrival_index(queue, timestamp));
        let resting = order.clone();
        level.insert(k, resting);
        match order.side {
            OrderSide::Buy => {
                self.bids.insert(price, level);
                assert(ladder_view(self.bids@) =~= ladder_with(before, order));
            },
            OrderSide::Sell => {
                self.asks.insert(price, level);
                assert(ladder_view(self.asks@) =~= ladder_with(before, order));
            },
        }
        self.orders_by_id.insert(order.id, order);
    }

    /// Takes the resting order `order_id` off its ladder and out of the
    /// index. Returns whether there was such an order.
    fn remove_order(&mut self, order_id: u64) -> (removed: bool)
        requires
            book_ok(
                ladder_view(old(self).bids@),
                ladder_view(old(self).asks@),
                old(self).orders_by_id@,
            ),
        ensures
            removed == old(self).orders_by_id@.contains_key(order_id),
            final(self).symbol == old(self).symbol,
            final(self).stats == old(self).stats,
            final(self).matcher == old(self).matcher,
            !removed ==> final(self).orders_by_id@ == old(self).orders_by_id@ && final(self).bids
                == old(self).bids && final(self).asks == old(self).asks,
            removed ==> {
                let order = old(self).orders_by_id@[order_id];
                &&& final(self).orders_by_id@ == old(self).orders_by_id@.remove(order_id)
                &&& match order.side {
                    OrderSide::Buy => ladder_view(final(self).bids@) == ladder_without(
                        ladder_view(old(self).bids@),
                        order,
                    ) && final(self).asks == old(self).asks,
                    OrderSide::Sell => ladder_view(final(self).asks@) == ladder_without(
                        ladder_view(old(self).asks@),
                        order,
                    ) && final(self).bids == old(self).bids,
                }
            },
    {
        broadcast use vstd::std_specs::hash::group_hash_axioms;
        broadcast use vstd::std_specs::btree::group_btree_axioms;

        proof {
            if self.orders_by_id@.contains_key(order_id) {
                lemma_cancel_keeps_book_ok(
                    ladder_view(self.bids@),
                    ladder_view(self.asks@),
                    self.orders_by_id@,
                    order_id,
                );
            }
        }
        let found = self.orders_by_id.remove(&order_id);
        let order = match found {
            Some(order) => order,
            None => {
                return false;
            },
        };
        let price = order.price;
        let ghost before = ladder_of(
            order.side,
            ladder_view(old(self).bids@),
            ladder_view(old(self).asks@),
        );
        let taken = match order.side {
            OrderSide::Buy => self.bids.remove(&price),
            OrderSide::Sell => self.asks.remove(&price),
        };
        let mut level = taken.unwrap();
        let ghost queue = level@;
        assert(level_ok(queue, price, order.side, old(self).orders_by_id@));
        let ghost target = position_of(queue, order_id);
        let mut i: usize = 0;
        while level[i].id != order_id
            invariant
                0 <= i <= target < level.len(),
                level@ == queue,
                queue[target].id == order_id,
            decreases level.len() - i,
        {
            i = i + 1;
        }
        proof {
            if i < target {
                assert(queue[i as int].id != queue[target].id);
            }
        }
        level.remove(i);
        if level.len() > 0 {
            match order.side {
                OrderSide::Buy => {
                    self.bids.insert(price, level);
                },
                OrderSide::Sell => {
                    self.asks.insert(price, level);
                },
            }
        }
        proof {
            match order.side {
                OrderSide::Buy => {
                    assert(ladder_view(self.bids@) =~= ladder_without(before, order));
                },
                OrderSide::Sell => {
                    assert(ladder_view(self.asks@) =~= ladder_without(before, order));
                },
            }
        }
        true
    }

    /// The two order counts, given the count of one side.
    fn side_counts(&self, side: OrderSide, count: usize) -> (counts: (usize, usize))
        requires
            count == ids_on(self.orders_by_id@, side).len(),
        ensures
            counts.0 == ids_on(self.orders_by_id@, OrderSide::Buy).len(),
            counts.1 == ids_on(self.orders_by_id@, OrderSide::Sell).len(),
    {
        broadcast use vstd::std_specs::hash::group_hash_axioms;

        proof {
            lemma_ids_partition(self.orders_by_id@);
        }
        let total = self.orders_by_id.len();
        match side {
            OrderSide::Buy => (count, total - count),
            OrderSide::Sell => (total - count, count),
        }
    }

    /// Brings the statistics up to date after a submission stamped
    /// `timestamp` that made `trades` and left the given order counts.
    fn update_stats(
        &mut self,
        timestamp: u64,
        trades: &Vec<Trade>,
        bid_count: usize,
        ask_count: usize,
    )
        requires
            old(self).stats.volume + traded_quantity(trades@) <= u64::MAX,
            old(self).stats.trade_count + trades@.len() <= u64::MAX,
        ensures
            final(self).symbol == old(self).symbol,
            final(self).bids == old(self).bids,
            final(self).asks == old(self).asks,
            final(self).orders_by_id == old(self).orders_by_id,
            final(self).matcher == old(self).matcher,
            final(self).stats == (OrderBookStats {
                best_bid: best_price(ladder_view(old(self).bids@), OrderSide::Buy),
                best_ask: best_price(ladder_view(old(self).asks@), OrderSide::Sell),
                last_trade_price: if trades@.len() > 0 {
                    Some(trades@.last().price)
                } else {
                    old(self).stats.last_trade_price
                },
                volume: (old(self).stats.volume + traded_quantity(trades@)) as u64,
                trade_count: (old(self).stats.trade_count + trades@.len()) as u64,
                bid_order_count: bid_count,
                ask_order_count: ask_count,
                last_update_time: timestamp,
                ..old(self).stats
            }),
    {
        self.stats.last_update_time = timestamp;
        self.stats.best_bid = best_level_price(&self.bids, OrderSide::Buy);
        self.stats.best_ask = best_level_price(&self.asks, OrderSide::Sell);
        self.stats.update_order_counts(bid_count, ask_count);
        let mut i: usize = 0;
        assert(trades@.skip(0) =~= trades@);
        while i < trades.len()
            invariant
                0 <= i <= trades.len(),
                self.symbol == old(self).symbol,
                self.bids == old(self).bids,
                self.asks == old(self).asks,
                self.orders_by_id == old(self).orders_by_id,
                self.matcher == old(self).matcher,
                old(self).stats.volume + traded_quantity(trades@) <= u64::MAX,
                old(self).stats.trade_count + trades@.len() <= u64::MAX,
                self.stats.volume + traded_quantity(trades@.skip(i as int)) == old(self).stats.volume
                    + traded_quantity(trades@),
                self.stats.trade_count == old(self).stats.trade_count + i,
                self.stats == (OrderBookStats {
                    volume: self.stats.volume,
                    trade_count: self.stats.trade_count,
                    last_trade_price: if i > 0 {
                        Some(trades@[i - 1].price)
                    } else {
                        old(self).stats.last_trade_price
                    },
                    best_bid: best_price(ladder_view(old(self).bids@), OrderSide::Buy),
                    best_ask: best_price(ladder_view(old(self).asks@), OrderSide::Sell),
                    bid_order_count: bid_count,
                    ask_order_count: ask_count,
                    last_update_time: timestamp,
                    ..old(self).stats
                }),
            decreases trades.len() - i,
        {
            assert(trades@.skip(i as int).drop_first() =~= trades@.skip(i + 1));
            assert(trades@.skip(i as int)[0] == trades@[i as int]);
            self.stats.update_with_trade(trades[i].price, trades[i].quantity);
            i = i + 1;
        }
    }

    /// Whether the top of the book triggers a stop at `trigger` on `side`.
    fn is_triggered(&self, side: OrderSide, trigger: u64) -> (yes: bool)
        ensures
            yes == self@.triggers(side, trigger),
    {
        match side {
            OrderSide::Buy => match self.best_ask() {
                Some(ask) => ask <= trigger,
                None => false,
            },
            OrderSide::Sell => match self.best_bid() {
                Some(bid) => bid >= trigger,
                None => false,
            },
        }
    }

    /// Lets `order` go by: no trade, only the time of the last update moves.
    fn pass_over(&mut self, order: Order, status: OrderStatus) -> (done: Submission)
        requires
            old(self).well_formed(),
        ensures
            final(self).well_formed(),
            final(self)@ == old(self)@.passed_over(order, status).book,
            done.trades@ == old(self)@.passed_over(order, status).trades,
            done.order == old(self)@.passed_over(order, status).order,
            done.unfilled == old(self)@.passed_over(order, status).unfilled,
    {
        let trades: Vec<Trade> = Vec::new();
        let bid_count = self.stats.bid_order_count;
        let ask_count = self.stats.ask_order_count;
        self.update_stats(order.timestamp, &trades, bid_count, ask_count);
        let mut order = order;
        order.status = status;
        Submission { trades, order, unfilled: false }
    }

    /// Trades `order` against the other side and discards what is left of
    /// it.
    fn match_immediate_order(&mut self, order: Order, market: bool) -> (done: Submission)
        requires
            old(self).well_formed(),
            old(self)@.has_room_for(order),
            order.remaining_quantity <= order.quantity,
        ensures
            final(self).well_formed(),
            final(self)@ == old(self)@.immediate(order, market).book,
            done.trades@ == old(self)@.immediate(order, market).trades,
            done.order == old(self)@.immediate(order, market).order,
            done.unfilled == old(self)@.immediate(order, market).unfilled,
    {
        let side = order.side;
        let timestamp = order.timestamp;
        let own_count = match side {
            OrderSide::Buy => self.stats.bid_order_count,
            OrderSide::Sell => self.stats.ask_order_count,
        };
        let mut order = order;
        let ghost taker = order;
        let ghost before = self@;
        proof {
            let resting = ladder_of(opposite(side), before.bids, before.asks);
            let own = ladder_of(side, before.bids, before.asks);
            lemma_sweep_keeps_book_ok(
                taker,
                market,
                resting,
                own,
                before.index,
                before.last_trade_id,
            );
            lemma_taker_conservation(taker, market, resting, before.index, before.last_trade_id);
        }
        let trades = if market {
            self.matcher.match_market_order(
                &mut order,
                &mut self.bids,
                &mut self.asks,
                &mut self.orders_by_id,
            )
        } else {
            self.matcher.match_limit_order(
                &mut order,
                &mut self.bids,
                &mut self.asks,
                &mut self.orders_by_id,
            )
        };
        let unfilled = order.remaining_quantity > 0;
        if unfilled {
            order.cancel();
        }
        proof {
            assert(ids_on(self.orders_by_id@, side) =~= ids_on(before.index, side));
        }
        let counts = self.side_counts(side, own_count);
        self.update_stats(timestamp, &trades, counts.0, counts.1);
        Submission { trades, order, unfilled: market && unfilled }
    }

    /// Trades `order` against the other side and puts what is left of it to
    /// rest on its own side.
    fn match_limit_order(&mut self, order: Order) -> (done: Submission)
        requires
            old(self).well_formed(),
            old(self)@.has_room_for(order),
            order.is_fresh(),
            !old(self)@.index.contains_key(order.id),
        ensures
            final(self).well_formed(),
            final(self)@ == old(self)@.rested(order).book,
            done.trades@ == old(self)@.rested(order).trades,
            done.order == old(self)@.rested(order).order,
            done.unfilled == old(self)@.rested(order).unfilled,
    {
        broadcast use vstd::std_specs::hash::group_hash_axioms;

        let side = order.side;
        let timestamp = order.timestamp;
        let mut own_count = match side {
            OrderSide::Buy => self.stats.bid_order_count,
            OrderSide::Sell => self.stats.ask_order_count,
        };
        let mut order = order;
        let ghost taker = order;
        let ghost before = self@;
        proof {
            let resting = ladder_of(opposite(side), before.bids, before.asks);
            let own = ladder_of(side, before.bids, before.asks);
            lemma_sweep_keeps_book_ok(
                taker,
                false,
                resting,
                own,
                before.index,
                before.last_trade_id,
            );
            lemma_taker_conservation(taker, false, resting, before.index, before.last_trade_id);
            lemma_sweep_taker(taker, false, resting, before.index, before.last_trade_id);
        }
        let trades = self.matcher.match_limit_order(
            &mut order,
            &mut self.bids,
            &mut self.asks,
            &mut self.orders_by_id,
        );
        let ghost swept_index = self.orders_by_id@;
        proof {
            assert(ids_on(swept_index, side) =~= ids_on(before.index, side));
        }
        if order.remaining_quantity > 0 {
            proof {
                lemma_rest_keeps_book_ok(
                    ladder_view(self.bids@),
                    ladder_view(self.asks@),
                    swept_index,
                    order,
                );
                lemma_ids_partition(swept_index);
                assert(ids_on(swept_index.insert(order.id, order), side) =~= ids_on(
                    swept_index,
                    side,
                ).insert(order.id));
                lemma_ids_partition(swept_index.insert(order.id, order));
            }
            self.add_to_book(order.clone());
            assert(vstd::std_specs::hash::spec_hash_map_len(&self.orders_by_id)
                == self.orders_by_id@.len());
            own_count = own_count + 1;
        }
        let counts = self.side_counts(side, own_count);
        self.update_stats(timestamp, &trades, counts.0, counts.1);
        Submission { trades, order, unfilled: false }
    }

    /// Whether the book can take `order` within the limits of the machine.
    pub fn can_accept(&self, order: &Order) -> (yes: bool)
        ensures
            yes == self@.has_room_for(*order),
    {
        broadcast use vstd::std_specs::hash::group_hash_axioms;

        let resting = self.orders_by_id.len() as u64;
        let last = self.matcher.last_trade_id();
        last < u64::MAX - resting && order.quantity <= u64::MAX - self.stats.volume
    }

    /// Submits `order` to the book and says what became of it: the trades it
    /// made, the order as it was left, and whether units of an order that
    /// executed as a market order went unfilled.
    pub fn submit(&mut self, order: Order) -> (done: Submission)
        requires
            old(self).well_formed(),
            old(self)@.has_room_for(order),
            order.is_fresh(),
        ensures
            final(self).well_formed(),
            final(self)@ == old(self)@.submit(order).book,
            done.trades@ == old(self)@.submit(order).trades,
            done.order == old(self)@.submit(order).order,
            done.unfilled == old(self)@.submit(order).unfilled,
            final(self)@.best_bid() matches Some(bid) ==> (final(self)@.best_ask() matches Some(
                ask,
            ) ==> bid < ask),
    {
        broadcast use vstd::std_specs::hash::group_hash_axioms;

        proof {
            lemma_submission_keeps_book_ok(self@, order);
        }
        if !(order.symbol == self.symbol) || order.quantity == 0 || self.orders_by_id.contains_key(
            &order.id,
        ) {
            let mut order = order;
            order.status = OrderStatus::Rejected;
            return Submission { trades: Vec::new(), order, unfilled: false };
        }
        match order.order_type {
            OrderType::Limit => self.match_limit_order(order),
            OrderType::Market => self.match_immediate_order(order, true),
            OrderType::IOC => self.match_immediate_order(order, false),
            OrderType::FOK => {
                proof {
                    lemma_ladder_ok_is_live(self@.bids, OrderSide::Buy, self@.index);
                    lemma_ladder_ok_is_live(self@.asks, OrderSide::Sell, self@.index);
                }
                let total = self.matcher.simulate_order_match(&order, &self.bids, &self.asks);
                if total < order.quantity {
                    self.pass_over(order, OrderStatus::Canceled)
                } else {
                    self.match_immediate_order(order, false)
                }
            },
            OrderType::Stop(trigger) => {
                if self.is_triggered(order.side, trigger) {
                    let mut order = order;
                    order.order_type = OrderType::Market;
                    self.match_immediate_order(order, true)
                } else {
                    self.pass_over(order, OrderStatus::Rejected)
                }
            },
            OrderType::StopLimit(trigger, limit) => {
                if self.is_triggered(order.side, trigger) {
                    let mut order = order;
                    order.order_type = OrderType::Limit;
                    order.price = limit;
                    self.match_limit_order(order)
                } else {
                    self.pass_over(order, OrderStatus::Rejected)
                }
            },
        }
    }

    /// Submits `order` to the book and returns the trades it made.
    pub fn process_order(&mut self, order: Order) -> (trades: Vec<Trade>)
        requires
            old(self).well_formed(),
            old(self)@.has_room_for(order),
            order.is_fresh(),
        ensures
            final(self).well_formed(),
            final(self)@ == old(self)@.submit(order).book,
            trades@ == old(self)@.submit(order).trades,
            final(self)@.best_bid() matches Some(bid) ==> (final(self)@.best_ask() matches Some(
                ask,
            ) ==> bid < ask),
    {
        let done = self.submit(order);
        done.trades
    }

    /// Cancels the resting order `order_id`: it leaves its ladder and the
    /// index. Returns whether there was such an order; where there was
    /// none, nothing changes.
    pub fn cancel_order(&mut self, order_id: u64) -> (canceled: bool)
        requires
            old(self).well_formed(),
        ensures
            final(self).well_formed(),
            canceled == old(self)@.index.contains_key(order_id),
            final(self)@ == old(self)@.cancel(order_id),
    {
        broadcast use vstd::std_specs::hash::group_hash_axioms;

        let side = match self.orders_by_id.get(&order_id) {
            Some(order) => order.side,
            None => {
                return false;
            },
        };
        let own_count = match side {
            OrderSide::Buy => self.stats.bid_order_count,
            OrderSide::Sell => self.stats.ask_order_count,
        };
        let ghost before = self@;
        proof {
            lemma_cancel_keeps_book_ok(before.bids, before.asks, before.index, order_id);
            lemma_ids_partition(before.index);
            assert(ids_on(before.index, side).contains(order_id));
            assert(ids_on(before.index.remove(order_id), side) =~= ids_on(before.index, side).remove(
                order_id,
            ));
        }
        self.remove_order(order_id);
        let counts = self.side_counts(side, own_count - 1);
        let trades: Vec<Trade> = Vec::new();
        let timestamp = self.stats.last_update_time;
        self.update_stats(timestamp, &trades, counts.0, counts.1);
        true
    }

    /// The depth of the book to `levels` price levels a side: bids from the
    /// highest price down, asks from the lowest price up, each price with
    /// the open units of all orders at it.
    pub fn market_depth(&self, levels: usize) -> (depth: (Vec<(u64, u64)>, Vec<(u64, u64)>))
        requires
            depth_fits(self@.bids),
            depth_fits(self@.asks),
        ensures
            is_depth_of(depth.0@, self@.bids, OrderSide::Buy, levels as nat),
            is_depth_of(depth.1@, self@.asks, OrderSide::Sell, levels as nat),
    {
        let bids = side_depth(&self.bids, OrderSide::Buy, levels);
        let asks = side_depth(&self.asks, OrderSide::Sell, levels);
        (bids, asks)
    }

    /// What a market order of `side` for `quantity` units would trade at as
    /// the book stands: the average price, rounded down, and the best price
    /// to hold it against. `None` where the other side does not hold
    /// `quantity` units.
    pub fn quote_slippage(&self, side: OrderSide, quantity: u64) -> (quote: Option<SlippageQuote>)
        requires
            self.well_formed(),
            quantity > 0,
        ensures
            quote == self@.slippage(side, quantity),
    {
        proof {
            lemma_ladder_ok_is_live(self@.bids, OrderSide::Buy, self@.index);
            lemma_ladder_ok_is_live(self@.asks, OrderSide::Sell, self@.index);
        }
        let found = match side {
            OrderSide::Buy => walk_ladder(side, 0, true, quantity, &self.asks),
            OrderSide::Sell => walk_ladder(side, 0, true, quantity, &self.bids),
        };
        if found.filled < quantity {
            return None;
        }
        let best = match side {
            OrderSide::Buy => best_level_price(&self.asks, OrderSide::Sell),
            OrderSide::Sell => best_level_price(&self.bids, OrderSide::Buy),
        };
        assert(found.cost / (quantity as u128) <= u64::MAX) by (nonlinear_arith)
            requires
                found.cost <= quantity * u64::MAX,
                quantity > 0,
        ;
        let average = (found.cost / (quantity as u128)) as u64;
        Some(
            SlippageQuote {
                average_price: average,
                best_price: best.unwrap(),
                total_cost: found.cost,
                volume: quantity,
            },
        )
    }

    /// The live records of all resting orders, in no particular order.
    pub fn all_orders(&self) -> (orders: Vec<&Order>)
        requires
            self.well_formed(),
        ensures
            orders@.len() == self@.index.len(),
            forall|i: int|
                0 <= i < orders@.len() ==> self@.index.contains_key((#[trigger] orders@[i]).id)
                    && self@.index[orders@[i].id] == *orders@[i],
            forall|id: u64| #[trigger]
                self@.index.contains_key(id) ==> exists|i: int|
                    0 <= i < orders@.len() && *(#[trigger] orders@[i]) == self@.index[id],
    {
        broadcast use vstd::std_specs::hash::group_hash_axioms;

        let mut orders: Vec<&Order> = Vec::new();
        let ghost all: Seq<&Order> = self.orders_by_id.values().remaining();
        for order in it: self.orders_by_id.values()
            invariant
                it.seq() == all,
                orders@.len() == it.index(),
                forall|i: int| 0 <= i < orders@.len() ==> orders@[i] == all[i],
        {
            orders.push(order);
        }
        proof {
            assert(orders@ =~= all);
            let index = self.orders_by_id@;
            assert forall|i: int| 0 <= i < orders@.len() implies index.contains_key(
                (#[trigger] orders@[i]).id,
            ) && index[orders@[i].id] == *orders@[i] by {
                assert(all.unref()[i] == *all[i]);
                assert(all.unref().to_set().contains(*all[i]));
                assert(index.values().contains(*all[i]));
                let k = choose|k: u64| index.contains_key(k) && index[k] == *all[i];
                assert(index[k].id == k);
            }
            assert forall|id: u64| #[trigger] index.contains_key(id) implies exists|i: int|
                0 <= i < orders@.len() && *(#[trigger] orders@[i]) == index[id] by {
                assert(index.values().contains(index[id]));
                assert(all.unref().to_set().contains(index[id]));
                let i = choose|i: int| 0 <= i < all.unref().len() && all.unref()[i] == index[id];
                assert(*orders@[i] == index[id]);
            }
        }
        orders
    }

    /// The live record of the resting order `order_id`, if it rests.
    pub fn get_order(&self, order_id: u64) -> (order: Option<&Order>)
        ensures
            match order {
                Some(o) => self@.index.contains_key(order_id) && *o == self@.index[order_id],
                None => !self@.index.contains_key(order_id),
            },
    {
        broadcast use vstd::std_specs::hash::group_hash_axioms;

        self.orders_by_id.get(&order_id)
    }
}

} // verus!
