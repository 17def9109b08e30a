//! The matching engine: it trades an incoming order against a ladder by
//! price-time priority and numbers the trades.

use crate::engine::ladder::{
    ascending_prices, at_least_as_good, best_level_price, is_best, ladder_view,
    lemma_best_is_unique, opposite,
};
use crate::engine::rules::{
    book_ok, can_fill, crosses, index_after_fill, ladder_after_fill, ladder_live, ladder_of,
    level_ok, matchable, next_fill, resting_ok, sides_ok, sweep, sweep_cost, trade_between,
};
use crate::engine::upkeep::lemma_fill_keeps_book_ok;
use crate::models::order::{Order, OrderSide};
use crate::models::trade::Trade;
use std::collections::BTreeMap;
use std::collections::HashMap;
use vstd::prelude::*;

verus! {

/// Pairs incoming orders with resting ones. Its only state is the id of the
/// last trade it made.
pub struct Matcher {
    last_trade_id: u64,
}

/// Whether an order of `side` with limit `price` trades at resting price `p`.
fn price_crosses(side: OrderSide, price: u64, market: bool, p: u64) -> (yes: bool)
    ensures
        yes == crosses(side, price, market, p),
{
    if market {
        return true;
    }
    match side {
        OrderSide::Buy => p <= price,
        OrderSide::Sell => p >= price,
    }
}

/// The side an order of side `side` trades against.
fn other_side(side: OrderSide) -> (other: OrderSide)
    ensures
        other == opposite(side),
{
    match side {
        OrderSide::Buy => OrderSide::Sell,
        OrderSide::Sell => OrderSide::Buy,
    }
}

/// What a walk along a ladder finds for an incoming order.
#[derive(Debug, Clone, Copy)]
pub struct Probe {
    /// The units the order would trade.
    pub filled: u64,
    /// What they would cost: the sum of price times fill.
    pub cost: u128,
}

/// Walks the `resting` ladder in matching order for an incoming order of
/// `side` with `quantity` units open, and adds up what it would trade and at
/// what cost. The ladder is only read.
pub fn walk_ladder(
    side: OrderSide,
    price: u64,
    market: bool,
    quantity: u64,
    resting: &BTreeMap<u64, Vec<Order>>,
) -> (found: Probe)
    requires
        ladder_live(ladder_view(resting@)),
    ensures
        found.filled == matchable(side, price, market, quantity, ladder_view(resting@)),
        found.cost == sweep_cost(side, price, market, quantity, ladder_view(resting@)),
        found.filled <= quantity,
        found.cost <= found.filled * u64::MAX,
{
    broadcast use vstd::std_specs::btree::group_btree_axioms;

    let prices = ascending_prices(resting);
    let resting_side = other_side(side);
    let ghost whole = ladder_view(resting@);
    let ghost mut ladder = whole;
    let mut remaining = quantity;
    let mut cost: u128 = 0;
    let mut lo: usize = 0;
    let mut hi: usize = prices.len();
    assert forall|i: int| 0 <= i < prices.len() implies whole.contains_key(#[trigger] prices[i]) by {
        assert(prices@.to_set().contains(prices@[i]));
    }
    assert forall|r: u64| #[trigger] whole.contains_key(r) implies exists|i: int|
        0 <= i < prices.len() && prices[i] == r by {
        assert(prices@.to_set().contains(r));
    }
    while lo < hi && remaining > 0
        invariant
            0 <= lo <= hi <= prices.len(),
            resting_side == opposite(side),
            whole == ladder_view(resting@),
            ladder_live(whole),
            remaining <= quantity,
            forall|i: int, j: int| 0 <= i < j < prices.len() ==> prices[i] < prices[j],
            forall|i: int| 0 <= i < prices.len() ==> whole.contains_key(#[trigger] prices[i]),
            remaining > 0 ==> forall|r: u64| #[trigger]
                ladder.contains_key(r) <==> exists|i: int| lo <= i < hi && prices[i] == r,
            remaining > 0 ==> forall|i: int|
                lo <= i < hi ==> ladder[#[trigger] prices[i]] == whole[prices[i]],
            matchable(side, price, market, quantity, whole) == (quantity - remaining) + matchable(
                side,
                price,
                market,
                remaining,
                ladder,
            ),
            sweep_cost(side, price, market, quantity, whole) == cost + sweep_cost(
                side,
                price,
                market,
                remaining,
                ladder,
            ),
            cost <= (quantity - remaining) * u64::MAX,
        ensures
            matchable(side, price, market, quantity, whole) == quantity - remaining,
            sweep_cost(side, price, market, quantity, whole) == cost,
            remaining <= quantity,
            cost <= (quantity - remaining) * u64::MAX,
        decreases hi - lo,
    {
        let at: usize = match resting_side {
            OrderSide::Sell => lo,
            OrderSide::Buy => hi - 1,
        };
        let p = prices[at];
        proof {
            assert(ladder.contains_key(p));
            assert forall|r: u64| #[trigger] ladder.contains_key(r) implies at_least_as_good(
                resting_side,
                p,
                r,
            ) by {
                let i = choose|i: int| lo <= i < hi && prices[i] == r;
                if i != at {
                    if resting_side == OrderSide::Sell {
                        assert(prices[at as int] < prices[i]);
                    } else {
                        assert(prices[i] < prices[at as int]);
                    }
                }
            }
            assert(is_best(ladder, resting_side, p));
            lemma_best_is_unique(ladder, resting_side, p);
        }
        if !price_crosses(side, price, market, p) {
            break ;
        }
        let level_ref = resting.get(&p);
        let level = level_ref.unwrap();
        assert(level@ == whole[p]);
        let mut j: usize = 0;
        while j < level.len() && remaining > 0
            invariant
                0 <= j <= level.len(),
                level@ == whole[p],
                whole.contains_key(p),
                ladder_live(whole),
                remaining <= quantity,
                resting_side == opposite(side),
                crosses(side, price, market, p),
                remaining > 0 && j < level.len() ==> is_best(ladder, resting_side, p)
                    && ladder[p] == level@.skip(j as int),
                remaining > 0 ==> forall|r: u64|
                    r != p ==> (#[trigger] ladder.contains_key(r) <==> exists|i: int|
                        lo <= i < hi && prices[i] == r),
                remaining > 0 && j == level.len() ==> !ladder.contains_key(p),
                remaining > 0 ==> forall|i: int|
                    lo <= i < hi && prices[i] != p ==> ladder[#[trigger] prices[i]]
                        == whole[prices[i]],
                matchable(side, price, market, quantity, whole) == (quantity - remaining)
                    + matchable(side, price, market, remaining, ladder),
                sweep_cost(side, price, market, quantity, whole) == cost + sweep_cost(
                    side,
                    price,
                    market,
                    remaining,
                    ladder,
                ),
                cost <= (quantity - remaining) * u64::MAX,
            decreases level.len() - j,
        {
            let open = level[j].remaining_quantity;
            let q = if remaining <= open {
                remaining
            } else {
                open
            };
            proof {
                lemma_best_is_unique(ladder, resting_side, p);
                assert(ladder[p][0] == level@[j as int]);
                assert(whole[p][j as int].remaining_quantity > 0);
                assert(can_fill(side, price, market, remaining, ladder));
                assert(q == next_fill(side, remaining, ladder));
                let after = ladder_after_fill(ladder, p, q);
                if q == open && j + 1 < level.len() {
                    assert(after[p] =~= level@.skip(j as int + 1));
                    assert forall|r: u64| #[trigger] after.contains_key(r) implies at_least_as_good(
                        resting_side,
                        p,
                        r,
                    ) by {
                        assert(ladder.contains_key(r));
                    }
                }
                assert(p * q <= q * u64::MAX) by (nonlinear_arith)
                    requires
                        p <= u64::MAX,
                        q >= 0,
                ;
                assert((quantity - remaining) * u64::MAX + q * u64::MAX == (quantity - (remaining
                    - q)) * u64::MAX) by (nonlinear_arith);
                assert(quantity * u64::MAX <= u64::MAX * u64::MAX) by (nonlinear_arith)
                    requires
                        quantity <= u64::MAX,
                ;
                assert((quantity - (remaining - q)) * u64::MAX <= quantity * u64::MAX)
                    by (nonlinear_arith)
                    requires
                        0 <= remaining - q,
                ;
                ladder = after;
            }
            cost = cost + (p as u128) * (q as u128);
            remaining = remaining - q;
            j = j + 1;
        }
        match resting_side {
            OrderSide::Sell => {
                lo = lo + 1;
            },
            OrderSide::Buy => {
                hi = hi - 1;
            },
        }
        proof {
            if remaining > 0 {
                assert forall|r: u64| #[trigger] ladder.contains_key(r) <==> exists|i: int|
                    lo <= i < hi && prices[i] == r by {
                    if r != p {
                        if ladder.contains_key(r) {
                            let i = choose|i: int|
                                (if resting_side == OrderSide::Sell {
                                    lo - 1
                                } else {
                                    lo as int
                                }) <= i < (if resting_side == OrderSide::Sell {
                                    hi as int
                                } else {
                                    hi + 1
                                }) && prices[i] == r;
                            assert(lo <= i < hi && prices[i] == r);
                        }
                    } else {
                        if exists|i: int| lo <= i < hi && prices[i] == r {
                            let i = choose|i: int| lo <= i < hi && prices[i] == r;
                            if i < at {
                                assert(prices[i] < prices[at as int]);
                            }
                            if at < i {
                                assert(prices[at as int] < prices[i]);
                            }
                        }
                    }
                }
            }
        }
    }
    Probe { filled: quantity - remaining, cost }
}

impl Matcher {
    /// The id of the last trade made; 0 before the first.
    pub closed spec fn issued(&self) -> u64 {
        self.last_trade_id
    }

    /// Whether the trades of one sweep over a book with `resting_orders`
    /// orders can still be numbered: a sweep makes at most one trade more
    /// than it removes orders.
    pub open spec fn can_number(&self, resting_orders: nat) -> bool {
        self.issued() + resting_orders < u64::MAX
    }

    pub fn new() -> (matcher: Self)
        ensures
            matcher.issued() == 0,
    {
        Matcher { last_trade_id: 0 }
    }

    /// The id of the last trade made.
    pub fn last_trade_id(&self) -> (id: u64)
        ensures
            id == self.issued(),
    {
        self.last_trade_id
    }

    /// Issues the next trade id: one more than the last.
    pub fn next_trade_id(&mut self) -> (id: u64)
        requires
            old(self).issued() < u64::MAX,
        ensures
            id == old(self).issued() + 1,
            final(self).issued() == id,
    {
        self.last_trade_id = self.last_trade_id + 1;
        self.last_trade_id
    }

    /// Trades `order` as a market order: against the other side at whatever
    /// price rests there, best price first and first in time first at each
    /// price, until it is filled or that side is empty. What is left of the
    /// order is for the caller to discard.
    pub fn match_market_order(
        &mut self,
        order: &mut Order,
        bids: &mut BTreeMap<u64, Vec<Order>>,
        asks: &mut BTreeMap<u64, Vec<Order>>,
        orders_by_id: &mut HashMap<u64, Order>,
    ) -> (trades: Vec<Trade>)
        requires
            book_ok(ladder_view(old(bids)@), ladder_view(old(asks)@), old(orders_by_id)@),
            old(self).can_number(old(orders_by_id)@.len()),
        ensures
            ({
                let side = old(order).side;
                let s = sweep(
                    *old(order),
                    true,
                    ladder_of(opposite(side), ladder_view(old(bids)@), ladder_view(old(asks)@)),
                    old(orders_by_id)@,
                    old(self).issued(),
                );
                &&& trades@ == s.trades
                &&& *final(order) == s.taker
                &&& ladder_of(opposite(side), ladder_view(final(bids)@), ladder_view(final(asks)@))
                    == s.resting
                &&& ladder_of(side, ladder_view(final(bids)@), ladder_view(final(asks)@))
                    == ladder_of(side, ladder_view(old(bids)@), ladder_view(old(asks)@))
                &&& final(orders_by_id)@ == s.index
                &&& final(self).issued() == s.last_trade_id
                &&& final(order).remaining_quantity > 0 ==> s.resting.dom().is_empty()
            }),
            book_ok(ladder_view(final(bids)@), ladder_view(final(asks)@), final(orders_by_id)@),
            final(self).issued() == old(self).issued() + trades@.len(),
    {
        let trades = match order.side {
            OrderSide::Buy => self.sweep_ladder(order, true, asks, bids, orders_by_id),
            OrderSide::Sell => self.sweep_ladder(order, true, bids, asks, orders_by_id),
        };
        proof {
            let after = ladder_of(
                opposite(old(order).side),
                ladder_view(bids@),
                ladder_view(asks@),
            );
            if order.remaining_quantity > 0 {
                assert forall|p: u64| !after.contains_key(p) by {
                    if after.contains_key(p) {
                        assert(crosses(old(order).side, old(order).price, true, p));
                    }
                }
                assert(after.dom() =~= Set::empty());
            }
        }
        trades
    }

    /// Trades `order` as a limit order: against the other side while the
    /// best price there is within its limit, best price first and first in
    /// time first at each price. What is left of the order is for the caller
    /// to rest or to discard.
    pub fn match_limit_order(
        &mut self,
        order: &mut Order,
        bids: &mut BTreeMap<u64, Vec<Order>>,
        asks: &mut BTreeMap<u64, Vec<Order>>,
        orders_by_id: &mut HashMap<u64, Order>,
    ) -> (trades: Vec<Trade>)
        requires
            book_ok(ladder_view(old(bids)@), ladder_view(old(asks)@), old(orders_by_id)@),
            old(self).can_number(old(orders_by_id)@.len()),
        ensures
            ({
                let side = old(order).side;
                let s = sweep(
                    *old(order),
                    false,
                    ladder_of(opposite(side), ladder_view(old(bids)@), ladder_view(old(asks)@)),
                    old(orders_by_id)@,
                    old(self).issued(),
                );
                &&& trades@ == s.trades
                &&& *final(order) == s.taker
                &&& ladder_of(opposite(side), ladder_view(final(bids)@), ladder_view(final(asks)@))
                    == s.resting
                &&& ladder_of(side, ladder_view(final(bids)@), ladder_view(final(asks)@))
                    == ladder_of(side, ladder_view(old(bids)@), ladder_view(old(asks)@))
                &&& final(orders_by_id)@ == s.index
                &&& final(self).issued() == s.last_trade_id
                &&& final(order).remaining_quantity > 0 ==> forall|p: u64| #[trigger]
                    s.resting.contains_key(p) ==> !Order::price_accepts(
                        side,
                        old(order).price,
                        p,
                    )
            }),
            book_ok(ladder_view(final(bids)@), ladder_view(final(asks)@), final(orders_by_id)@),
            final(self).issued() == old(self).issued() + trades@.len(),
    {
        let trades = match order.side {
            OrderSide::Buy => self.sweep_ladder(order, false, asks, bids, orders_by_id),
            OrderSide::Sell => self.sweep_ladder(order, false, bids, asks, orders_by_id),
        };
        proof {
            let after = ladder_of(
                opposite(old(order).side),
                ladder_view(bids@),
                ladder_view(asks@),
            );
            if order.remaining_quantity > 0 {
                assert forall|p: u64| #[trigger] after.contains_key(p) implies !Order::price_accepts(
                    old(order).side,
                    old(order).price,
                    p,
                ) by {
                    assert(!crosses(old(order).side, old(order).price, false, p));
                }
            }
        }
        trades
    }

    /// How many units `order` would trade as a limit order against the
    /// other side as it stands. Neither ladder is touched.
    pub fn simulate_order_match(
        &self,
        order: &Order,
        bids: &BTreeMap<u64, Vec<Order>>,
        asks: &BTreeMap<u64, Vec<Order>>,
    ) -> (total: u64)
        requires
            ladder_live(ladder_of(opposite(order.side), ladder_view(bids@), ladder_view(asks@))),
        ensures
            total == matchable(
                order.side,
                order.price,
                false,
                order.remaining_quantity,
                ladder_of(opposite(order.side), ladder_view(bids@), ladder_view(asks@)),
            ),
            total <= order.remaining_quantity,
    {
        let found = match order.side {
            OrderSide::Buy => walk_ladder(
                order.side,
                order.price,
                false,
                order.remaining_quantity,
                asks,
            ),
            OrderSide::Sell => walk_ladder(
                order.side,
                order.price,
                false,
                order.remaining_quantity,
                bids,
            ),
        };
        found.filled
    }

    /// Trades `order` against `resting`, the ladder opposite to its side.
    fn sweep_ladder(
        &mut self,
        order: &mut Order,
        market: bool,
        resting: &mut BTreeMap<u64, Vec<Order>>,
        own: &BTreeMap<u64, Vec<Order>>,
        index: &mut HashMap<u64, Order>,
    ) -> (trades: Vec<Trade>)
        requires
            sides_ok(
                old(order).side,
                ladder_view(old(resting)@),
                ladder_view(own@),
                old(index)@,
            ),
            old(self).can_number(old(index)@.len()),
        ensures
            ({
                let s = sweep(
                    *old(order),
                    market,
                    ladder_view(old(resting)@),
                    old(index)@,
                    old(self).issued(),
                );
                &&& trades@ == s.trades
                &&& *final(order) == s.taker
                &&& ladder_view(final(resting)@) == s.resting
                &&& final(index)@ == s.index
                &&& final(self).issued() == s.last_trade_id
            }),
            sides_ok(
                old(order).side,
                ladder_view(final(resting)@),
                ladder_view(own@),
                final(index)@,
            ),
            final(order).remaining_quantity > 0 ==> forall|p: u64| #[trigger]
                ladder_view(final(resting)@).contains_key(p) ==> !crosses(
                    old(order).side,
                    old(order).price,
                    market,
                    p,
                ),
            final(self).issued() == old(self).issued() + trades@.len(),
            final(self).issued() + final(index)@.len()
                <= old(self).issued() + old(index)@.len() + 1,
    {
        broadcast use vstd::std_specs::hash::group_hash_axioms;
        broadcast use vstd::std_specs::btree::group_btree_axioms;

        let mut trades: Vec<Trade> = Vec::new();
        let side = order.side;
        let resting_side = other_side(side);
        let ghost start = sweep(*order, market, ladder_view(resting@), index@, self.last_trade_id);
        let ghost first_id = self.last_trade_id;
        let ghost first_len = index@.len();
        loop
            invariant
                order.side == side,
                order.side == old(order).side,
                order.price == old(order).price,
                resting_side == opposite(side),
                sides_ok(side, ladder_view(resting@), ladder_view(own@), index@),
                ({
                    let now = sweep(
                        *order,
                        market,
                        ladder_view(resting@),
                        index@,
                        self.last_trade_id,
                    );
                    &&& start.trades == trades@ + now.trades
                    &&& start.taker == now.taker
                    &&& start.resting == now.resting
                    &&& start.index == now.index
                    &&& start.last_trade_id == now.last_trade_id
                }),
                self.last_trade_id + index@.len() + (if order.remaining_quantity > 0 {
                    1int
                } else {
                    0int
                }) <= first_id + first_len + 1,
                first_id + first_len < u64::MAX,
                self.last_trade_id == first_id + trades@.len(),
            ensures
                !can_fill(
                    order.side,
                    order.price,
                    market,
                    order.remaining_quantity,
                    ladder_view(resting@),
                ),
                order.remaining_quantity > 0 ==> forall|r: u64| #[trigger]
                    ladder_view(resting@).contains_key(r) ==> !crosses(
                        order.side,
                        order.price,
                        market,
                        r,
                    ),
            decreases order.remaining_quantity,
        {
            if order.remaining_quantity == 0 {
                break ;
            }
            let best = best_level_price(resting, resting_side);
            if best.is_none() {
                break ;
            }
            let p = best.unwrap();
            assert(is_best(ladder_view(resting@), resting_side, p));
            if !price_crosses(side, order.price, market, p) {
                proof {
                    assert forall|r: u64| #[trigger]
                        ladder_view(resting@).contains_key(r) implies !crosses(
                        order.side,
                        order.price,
                        market,
                        r,
                    ) by {
                        assert(at_least_as_good(resting_side, p, r));
                    }
                }
                break ;
            }
            let ghost prev_order = *order;
            let ghost prev_ladder = ladder_view(resting@);
            let ghost prev_index = index@;
            let ghost prev_id = self.last_trade_id;
            let ghost prev_trades = trades@;
            proof {
                assert(level_ok(prev_ladder[p], p, resting_side, prev_index));
                assert(resting_ok(prev_ladder[p][0], p, resting_side, prev_index));
            }

            let taken = resting.remove(&p);
            let mut level = taken.unwrap();
            let ghost maker = level@[0];
            let maker_open = level[0].remaining_quantity;
            let q = if order.remaining_quantity <= maker_open {
                order.remaining_quantity
            } else {
                maker_open
            };
            let timestamp = if order.timestamp >= level[0].timestamp {
                order.timestamp
            } else {
                level[0].timestamp
            };
            let buys = order.is_buy();
            let id = self.next_trade_id();
            let trade = Trade {
                id,
                price: p,
                quantity: q,
                timestamp,
                buy_order_id: if buys {
                    order.id
                } else {
                    level[0].id
                },
                sell_order_id: if buys {
                    level[0].id
                } else {
                    order.id
                },
                buy_user_id: if buys {
                    order.user_id
                } else {
                    level[0].user_id
                },
                sell_user_id: if buys {
                    level[0].user_id
                } else {
                    order.user_id
                },
                symbol: order.symbol.clone(),
            };
            assert(trade == trade_between(id, p, q, prev_order, maker));
            order.fill_partial(q);
            if q == maker_open {
                let gone = level.remove(0);
                index.remove(&gone.id);
                assert(level@ =~= prev_ladder[p].drop_first());
                if level.len() > 0 {
                    resting.insert(p, level);
                }
            } else {
                level[0].fill_partial(q);
                let kept = level[0].clone();
                index.insert(kept.id, kept);
                resting.insert(p, level);
            }
            trades.push(trade);
            proof {
                assert(can_fill(side, prev_order.price, market, prev_order.remaining_quantity, prev_ladder));
                assert(q == next_fill(side, prev_order.remaining_quantity, prev_ladder));
                assert(ladder_view(resting@) =~= ladder_after_fill(prev_ladder, p, q));
                assert(index@ =~= index_after_fill(prev_index, maker, q));
                match side {
                    OrderSide::Buy => {
                        lemma_fill_keeps_book_ok(
                            ladder_view(own@),
                            prev_ladder,
                            prev_index,
                            resting_side,
                            p,
                            q,
                        );
                    },
                    OrderSide::Sell => {
                        lemma_fill_keeps_book_ok(
                            prev_ladder,
                            ladder_view(own@),
                            prev_index,
                            resting_side,
                            p,
                            q,
                        );
                    },
                }
                let before = sweep(prev_order, market, prev_ladder, prev_index, prev_id);
                let now = sweep(*order, market, ladder_view(resting@), index@, self.last_trade_id);
                assert(before.trades == seq![trade] + now.trades);
                assert(trades@ + now.trades =~= prev_trades + before.trades);
            }
        }
        trades
    }
}

} // verus!
