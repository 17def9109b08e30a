//! What holds of every sweep and of every submission: proved once, over
//! the model of the book.

use crate::engine::ladder::{
    at_least_as_good, best_price, is_best, lemma_some_price_is_best, opposite, Ladder,
};
use crate::engine::rules::{
    book_ok, can_fill, crosses, ids_on, index_after_fill, involves, ladder_after_fill, ladder_of,
    level_ok, listed, maker_id, matchable, next_fill, open_units, resting_ok, sides_ok, sweep,
    trade_between, traded_by, traded_quantity,
};
use crate::engine::submission::BookView;
use crate::engine::upkeep::{lemma_fill_keeps_book_ok, lemma_rest_keeps_book_ok};
use crate::models::order::{Order, OrderSide, OrderStatus};
use crate::models::trade::Trade;
use vstd::prelude::*;

verus! {

/// Every order of the index is on one side: the two sides count up to the
/// size of the index.
pub proof fn lemma_ids_partition(index: Map<u64, Order>)
    requires
        index.dom().finite(),
    ensures
        ids_on(index, OrderSide::Buy).finite(),
        ids_on(index, OrderSide::Sell).finite(),
        ids_on(index, OrderSide::Buy).len() + ids_on(index, OrderSide::Sell).len()
            == index.dom().len(),
{
    let buys = ids_on(index, OrderSide::Buy);
    let sells = ids_on(index, OrderSide::Sell);
    vstd::set_lib::lemma_len_subset(buys, index.dom());
    vstd::set_lib::lemma_len_subset(sells, index.dom());
    assert(buys.disjoint(sells));
    assert(buys + sells =~= index.dom());
    vstd::set_lib::lemma_set_disjoint_lens(buys, sells);
}

/// What one step of a sweep is made of, where the incoming order can fill.
proof fn lemma_step(
    taker: Order,
    market: bool,
    resting: Ladder,
    own: Ladder,
    index: Map<u64, Order>,
)
    requires
        sides_ok(taker.side, resting, own, index),
        can_fill(taker.side, taker.price, market, taker.remaining_quantity, resting),
    ensures
        ({
            let p = best_price(resting, opposite(taker.side))->0;
            let maker = resting[p][0];
            let q = next_fill(taker.side, taker.remaining_quantity, resting);
            &&& is_best(resting, opposite(taker.side), p)
            &&& resting_ok(maker, p, opposite(taker.side), index)
            &&& level_ok(resting[p], p, opposite(taker.side), index)
            &&& 0 < q <= maker.remaining_quantity
            &&& q <= taker.remaining_quantity
            &&& sides_ok(
                taker.side,
                ladder_after_fill(resting, p, q),
                own,
                index_after_fill(index, maker, q),
            )
        }),
{
    let side = opposite(taker.side);
    let p = best_price(resting, side)->0;
    let q = next_fill(taker.side, taker.remaining_quantity, resting);
    assert(is_best(resting, side, p));
    assert(level_ok(resting[p], p, side, index));
    match taker.side {
        OrderSide::Buy => {
            lemma_fill_keeps_book_ok(own, resting, index, side, p, q);
        },
        OrderSide::Sell => {
            lemma_fill_keeps_book_ok(resting, own, index, side, p, q);
        },
    }
}

/// A sweep keeps the book in order, adds no order to the index and leaves
/// the orders on the side of the incoming order alone.
pub proof fn lemma_sweep_keeps_book_ok(
    taker: Order,
    market: bool,
    resting: Ladder,
    own: Ladder,
    index: Map<u64, Order>,
    last_trade_id: u64,
)
    requires
        sides_ok(taker.side, resting, own, index),
    ensures
        ({
            let s = sweep(taker, market, resting, index, last_trade_id);
            &&& sides_ok(taker.side, s.resting, own, s.index)
            &&& forall|id: u64| #[trigger]
                s.index.contains_key(id) ==> index.contains_key(id) && s.index[id].side
                    == index[id].side
            &&& forall|id: u64|
                index.contains_key(id) && index[id].side == taker.side
                    ==> #[trigger] s.index.contains_key(id) && s.index[id] == index[id]
            &&& forall|p: u64| #[trigger] s.resting.contains_key(p) ==> resting.contains_key(p)
        }),
    decreases taker.remaining_quantity,
{
    if can_fill(taker.side, taker.price, market, taker.remaining_quantity, resting) {
        lemma_step(taker, market, resting, own, index);
        let p = best_price(resting, opposite(taker.side))->0;
        let maker = resting[p][0];
        let q = next_fill(taker.side, taker.remaining_quantity, resting);
        lemma_sweep_keeps_book_ok(
            taker.after_fill(q),
            market,
            ladder_after_fill(resting, p, q),
            own,
            index_after_fill(index, maker, q),
            (last_trade_id + 1) as u64,
        );
    }
}

/// What a sweep does to the incoming order: it takes units off its open
/// size and sets its status by what is left; nothing else changes.
pub proof fn lemma_sweep_taker(
    taker: Order,
    market: bool,
    resting: Ladder,
    index: Map<u64, Order>,
    last_trade_id: u64,
)
    ensures
        ({
            let s = sweep(taker, market, resting, index, last_trade_id);
            &&& s.taker.remaining_quantity <= taker.remaining_quantity
            &&& s.taker.remaining_quantity + matchable(
                taker.side,
                taker.price,
                market,
                taker.remaining_quantity,
                resting,
            ) == taker.remaining_quantity
            &&& s.taker == (Order {
                remaining_quantity: s.taker.remaining_quantity,
                status: s.taker.status,
                ..taker
            })
            &&& s.trades.len() == 0 ==> s.taker == taker
            &&& s.trades.len() > 0 ==> s.taker.status == (if s.taker.remaining_quantity > 0 {
                OrderStatus::PartiallyFilled
            } else {
                OrderStatus::Filled
            })
        }),
    decreases taker.remaining_quantity,
{
    if can_fill(taker.side, taker.price, market, taker.remaining_quantity, resting) {
        let p = best_price(resting, opposite(taker.side))->0;
        let maker = resting[p][0];
        let q = next_fill(taker.side, taker.remaining_quantity, resting);
        lemma_sweep_taker(
            taker.after_fill(q),
            market,
            ladder_after_fill(resting, p, q),
            index_after_fill(index, maker, q),
            (last_trade_id + 1) as u64,
        );
    }
}

/// Conservation for the incoming order: the units it traded and the units
/// it has left are the units it came with. Every trade of the sweep has it
/// as a party.
pub proof fn lemma_taker_conservation(
    taker: Order,
    market: bool,
    resting: Ladder,
    index: Map<u64, Order>,
    last_trade_id: u64,
)
    ensures
        ({
            let s = sweep(taker, market, resting, index, last_trade_id);
            &&& traded_quantity(s.trades) + s.taker.remaining_quantity
                == taker.remaining_quantity
            &&& traded_by(s.trades, taker.id) == traded_quantity(s.trades)
            &&& forall|k: int|
                0 <= k < s.trades.len() ==> involves(#[trigger] s.trades[k], taker.id)
            &&& forall|k: int| 0 <= k < s.trades.len() ==> (#[trigger] s.trades[k]).quantity > 0
        }),
    decreases taker.remaining_quantity,
{
    let s = sweep(taker, market, resting, index, last_trade_id);
    if can_fill(taker.side, taker.price, market, taker.remaining_quantity, resting) {
        let p = best_price(resting, opposite(taker.side))->0;
        let maker = resting[p][0];
        let q = next_fill(taker.side, taker.remaining_quantity, resting);
        let id = (last_trade_id + 1) as u64;
        let next = taker.after_fill(q);
        lemma_taker_conservation(
            next,
            market,
            ladder_after_fill(resting, p, q),
            index_after_fill(index, maker, q),
            id,
        );
        let rest = sweep(
            next,
            market,
            ladder_after_fill(resting, p, q),
            index_after_fill(index, maker, q),
            id,
        );
        let first = trade_between(id, p, q, taker, maker);
        assert(s.trades == seq![first] + rest.trades);
        assert(s.trades.drop_first() =~= rest.trades);
        assert(s.trades[0] == first);
        assert forall|k: int| 0 <= k < s.trades.len() implies involves(
            #[trigger] s.trades[k],
            taker.id,
        ) && s.trades[k].quantity > 0 by {
            if k > 0 {
                assert(s.trades[k] == rest.trades[k - 1]);
            }
        }
    }
}

/// Conservation for every other order: the units it traded in the sweep
/// and the units it has open after it are the units it had open before.
/// An order that does not rest has none open and trades none.
pub proof fn lemma_maker_conservation(
    taker: Order,
    market: bool,
    resting: Ladder,
    own: Ladder,
    index: Map<u64, Order>,
    last_trade_id: u64,
    id: u64,
)
    requires
        sides_ok(taker.side, resting, own, index),
        id != taker.id,
    ensures
        ({
            let s = sweep(taker, market, resting, index, last_trade_id);
            traded_by(s.trades, id) + open_units(s.index, id) == open_units(index, id)
        }),
    decreases taker.remaining_quantity,
{
    let s = sweep(taker, market, resting, index, last_trade_id);
    if can_fill(taker.side, taker.price, market, taker.remaining_quantity, resting) {
        lemma_step(taker, market, resting, own, index);
        let p = best_price(resting, opposite(taker.side))->0;
        let maker = resting[p][0];
        let q = next_fill(taker.side, taker.remaining_quantity, resting);
        let next_id = (last_trade_id + 1) as u64;
        let resting2 = ladder_after_fill(resting, p, q);
        let index2 = index_after_fill(index, maker, q);
        lemma_maker_conservation(taker.after_fill(q), market, resting2, own, index2, next_id, id);
        let rest = sweep(taker.after_fill(q), market, resting2, index2, next_id);
        let first = trade_between(next_id, p, q, taker, maker);
        assert(s.trades == seq![first] + rest.trades);
        assert(s.trades.drop_first() =~= rest.trades);
        assert(s.trades[0] == first);
        assert(involves(first, id) <==> id == maker.id);
    }
}

/// Every trade of a sweep is the trade between the incoming order and an
/// order that rested on the other side before it: at the price of the
/// resting order, which the incoming order accepts, stamped with the later
/// of their timestamps, and for no more than the resting order had open.
pub proof fn lemma_trades_at_resting_price(
    taker: Order,
    market: bool,
    resting: Ladder,
    own: Ladder,
    index: Map<u64, Order>,
    last_trade_id: u64,
)
    requires
        sides_ok(taker.side, resting, own, index),
    ensures
        ({
            let s = sweep(taker, market, resting, index, last_trade_id);
            forall|k: int|
                0 <= k < s.trades.len() ==> {
                    let trade = #[trigger] s.trades[k];
                    let maker = maker_id(trade, taker.side);
                    &&& index.contains_key(maker)
                    &&& index[maker].side == opposite(taker.side)
                    &&& trade.price == index[maker].price
                    &&& crosses(taker.side, taker.price, market, trade.price)
                    &&& 0 < trade.quantity <= index[maker].remaining_quantity
                    &&& trade == trade_between(
                        trade.id,
                        index[maker].price,
                        trade.quantity,
                        taker,
                        index[maker],
                    )
                }
        }),
    decreases taker.remaining_quantity,
{
    let s = sweep(taker, market, resting, index, last_trade_id);
    if can_fill(taker.side, taker.price, market, taker.remaining_quantity, resting) {
        lemma_step(taker, market, resting, own, index);
        let p = best_price(resting, opposite(taker.side))->0;
        let maker = resting[p][0];
        let q = next_fill(taker.side, taker.remaining_quantity, resting);
        let next_id = (last_trade_id + 1) as u64;
        let resting2 = ladder_after_fill(resting, p, q);
        let index2 = index_after_fill(index, maker, q);
        lemma_trades_at_resting_price(taker.after_fill(q), market, resting2, own, index2, next_id);
        let rest = sweep(taker.after_fill(q), market, resting2, index2, next_id);
        let first = trade_between(next_id, p, q, taker, maker);
        assert(s.trades == seq![first] + rest.trades);
        assert forall|k: int| 0 <= k < s.trades.len() implies {
            let trade = #[trigger] s.trades[k];
            let m = maker_id(trade, taker.side);
            &&& index.contains_key(m)
            &&& index[m].side == opposite(taker.side)
            &&& trade.price == index[m].price
            &&& crosses(taker.side, taker.price, market, trade.price)
            &&& 0 < trade.quantity <= index[m].remaining_quantity
            &&& trade == trade_between(trade.id, index[m].price, trade.quantity, taker, index[m])
        } by {
            if k > 0 {
                assert(s.trades[k] == rest.trades[k - 1]);
                let m = maker_id(rest.trades[k - 1], taker.side);
                assert(index2.contains_key(m));
            }
        }
    }
}

/// The ids of the trades of a sweep count up by one from the last id made
/// before it, so they increase strictly in the order of the trades.
pub proof fn lemma_trade_ids_increase(
    taker: Order,
    market: bool,
    resting: Ladder,
    index: Map<u64, Order>,
    last_trade_id: u64,
)
    requires
        last_trade_id + sweep(taker, market, resting, index, last_trade_id).trades.len()
            <= u64::MAX,
    ensures
        ({
            let s = sweep(taker, market, resting, index, last_trade_id);
            &&& s.last_trade_id == last_trade_id + s.trades.len()
            &&& forall|k: int|
                0 <= k < s.trades.len() ==> (#[trigger] s.trades[k]).id == last_trade_id + 1 + k
            &&& forall|j: int, k: int|
                0 <= j < k < s.trades.len() ==> (#[trigger] s.trades[j]).id < (
                #[trigger] s.trades[k]).id
        }),
    decreases taker.remaining_quantity,
{
    let s = sweep(taker, market, resting, index, last_trade_id);
    if can_fill(taker.side, taker.price, market, taker.remaining_quantity, resting) {
        let p = best_price(resting, opposite(taker.side))->0;
        let maker = resting[p][0];
        let q = next_fill(taker.side, taker.remaining_quantity, resting);
        let next_id = (last_trade_id + 1) as u64;
        let resting2 = ladder_after_fill(resting, p, q);
        let index2 = index_after_fill(index, maker, q);
        let rest = sweep(taker.after_fill(q), market, resting2, index2, next_id);
        let first = trade_between(next_id, p, q, taker, maker);
        assert(s.trades == seq![first] + rest.trades);
        assert(s.trades.len() == 1 + rest.trades.len());
        lemma_trade_ids_increase(taker.after_fill(q), market, resting2, index2, next_id);
        assert forall|k: int| 0 <= k < s.trades.len() implies (#[trigger] s.trades[k]).id
            == last_trade_id + 1 + k by {
            if k > 0 {
                assert(s.trades[k] == rest.trades[k - 1]);
            }
        }
    }
}

/// Whether the resting order `a` has priority over the resting order `b` of
/// the same side: it has the better price, or the same price and the
/// earlier timestamp.
pub open spec fn has_priority(a: Order, b: Order) -> bool {
    &&& a.side == b.side
    &&& if a.price == b.price {
        a.timestamp < b.timestamp
    } else {
        at_least_as_good(a.side, a.price, b.price)
    }
}

/// Price-time priority: where the resting order `a` has priority over the
/// resting order `b`, every trade of a sweep with `a` comes before every
/// trade with `b`, and where `b` trades at all, `a` has left the book.
pub proof fn lemma_price_time_priority(
    taker: Order,
    market: bool,
    resting: Ladder,
    own: Ladder,
    index: Map<u64, Order>,
    last_trade_id: u64,
    a: u64,
    b: u64,
)
    requires
        sides_ok(taker.side, resting, own, index),
        index.contains_key(a),
        index.contains_key(b),
        index[a].side == opposite(taker.side),
        has_priority(index[a], index[b]),
    ensures
        ({
            let s = sweep(taker, market, resting, index, last_trade_id);
            &&& forall|j: int, k: int|
                0 <= j < s.trades.len() && 0 <= k < s.trades.len() && maker_id(
                    #[trigger] s.trades[j],
                    taker.side,
                ) == a && maker_id(#[trigger] s.trades[k], taker.side) == b ==> j < k
            &&& forall|k: int|
                0 <= k < s.trades.len() && maker_id(#[trigger] s.trades[k], taker.side) == b
                    ==> !s.index.contains_key(a)
        }),
    decreases taker.remaining_quantity,
{
    let s = sweep(taker, market, resting, index, last_trade_id);
    if can_fill(taker.side, taker.price, market, taker.remaining_quantity, resting) {
        lemma_step(taker, market, resting, own, index);
        let side = opposite(taker.side);
        let p = best_price(resting, side)->0;
        let level = resting[p];
        let maker = level[0];
        let q = next_fill(taker.side, taker.remaining_quantity, resting);
        let next_id = (last_trade_id + 1) as u64;
        let resting2 = ladder_after_fill(resting, p, q);
        let index2 = index_after_fill(index, maker, q);
        let rest = sweep(taker.after_fill(q), market, resting2, index2, next_id);
        let first = trade_between(next_id, p, q, taker, maker);
        let oa = index[a];
        let ob = index[b];
        assert(s.trades == seq![first] + rest.trades);
        assert(maker_id(first, taker.side) == maker.id);

        assert(maker.id != b) by {
            if maker.id == b {
                assert(maker == ob);
                match taker.side {
                    OrderSide::Buy => {
                        assert(listed(oa, own, resting));
                    },
                    OrderSide::Sell => {
                        assert(listed(oa, resting, own));
                    },
                }
                assert(resting.contains_key(oa.price));
                assert(at_least_as_good(side, p, oa.price));
                assert(oa.price == p);
                let i = choose|i: int| 0 <= i < level.len() && #[trigger] level[i] == oa;
                assert(i != 0);
                assert(level[0].timestamp <= level[i].timestamp);
            }
        }
        lemma_trades_at_resting_price(taker.after_fill(q), market, resting2, own, index2, next_id);
        lemma_sweep_keeps_book_ok(taker.after_fill(q), market, resting2, own, index2, next_id);
        if index2.contains_key(a) {
            lemma_price_time_priority(
                taker.after_fill(q),
                market,
                resting2,
                own,
                index2,
                next_id,
                a,
                b,
            );
        }
        assert forall|j: int, k: int|
            0 <= j < s.trades.len() && 0 <= k < s.trades.len() && maker_id(
                #[trigger] s.trades[j],
                taker.side,
            ) == a && maker_id(#[trigger] s.trades[k], taker.side) == b implies j < k by {
            assert(k > 0);
            assert(s.trades[k] == rest.trades[k - 1]);
            if j > 0 {
                assert(s.trades[j] == rest.trades[j - 1]);
                assert(index2.contains_key(maker_id(rest.trades[j - 1], taker.side)));
            }
        }
        assert forall|k: int|
            0 <= k < s.trades.len() && maker_id(
                #[trigger] s.trades[k],
                taker.side,
            ) == b implies !s.index.contains_key(a) by {
            assert(k > 0);
            assert(s.trades[k] == rest.trades[k - 1]);
        }
    }
}

/// A sweep stops only where nothing is left to trade with: if the incoming
/// order has units open after it, no price left on the other side crosses.
pub proof fn lemma_sweep_leaves_no_cross(
    taker: Order,
    market: bool,
    resting: Ladder,
    own: Ladder,
    index: Map<u64, Order>,
    last_trade_id: u64,
)
    requires
        sides_ok(taker.side, resting, own, index),
    ensures
        ({
            let s = sweep(taker, market, resting, index, last_trade_id);
            s.taker.remaining_quantity > 0 ==> forall|p: u64| #[trigger]
                s.resting.contains_key(p) ==> !crosses(taker.side, taker.price, market, p)
        }),
    decreases taker.remaining_quantity,
{
    let side = opposite(taker.side);
    if can_fill(taker.side, taker.price, market, taker.remaining_quantity, resting) {
        lemma_step(taker, market, resting, own, index);
        let p = best_price(resting, side)->0;
        let maker = resting[p][0];
        let q = next_fill(taker.side, taker.remaining_quantity, resting);
        lemma_sweep_leaves_no_cross(
            taker.after_fill(q),
            market,
            ladder_after_fill(resting, p, q),
            own,
            index_after_fill(index, maker, q),
            (last_trade_id + 1) as u64,
        );
    } else if taker.remaining_quantity > 0 {
        assert forall|p: u64| #[trigger] resting.contains_key(p) implies !crosses(
            taker.side,
            taker.price,
            market,
            p,
        ) by {
            assert(resting.dom().contains(p));
            assert(resting.dom().len() > 0) by {
                if resting.dom().len() == 0 {
                    assert(resting.dom() =~= Set::empty());
                }
            }
            lemma_some_price_is_best(resting, side);
            let b = best_price(resting, side)->0;
            assert(is_best(resting, side, b));
            assert(level_ok(resting[b], b, side, index));
            assert(resting_ok(resting[b][0], b, side, index));
            assert(at_least_as_good(side, b, p));
        }
    }
}

/// What a submission trades is what a sweep trades: of the order as the
/// book executes it, against the other side. A submission that executes
/// nothing trades nothing and leaves ladders, index and trade counter alone.
pub proof fn lemma_submission_is_a_sweep(book: BookView, order: Order)
    ensures
        ({
            let out = book.submit(order);
            match book.execution(order) {
                Some((taker, market)) => {
                    let s = book.swept(taker, market);
                    &&& taker.side == order.side
                    &&& taker.id == order.id
                    &&& taker.quantity == order.quantity
                    &&& taker.remaining_quantity == order.remaining_quantity
                    &&& out.trades == s.trades
                    &&& out.book.last_trade_id == s.last_trade_id
                    &&& out.order.remaining_quantity == s.taker.remaining_quantity
                    &&& out.book.side(opposite(order.side)) == s.resting
                    &&& out.book.index == if BookView::may_rest(taker)
                        && s.taker.remaining_quantity > 0 {
                        s.index.insert(order.id, s.taker)
                    } else {
                        s.index
                    }
                },
                None => {
                    &&& out.trades == Seq::<Trade>::empty()
                    &&& out.book.bids == book.bids
                    &&& out.book.asks == book.asks
                    &&& out.book.index == book.index
                    &&& out.book.last_trade_id == book.last_trade_id
                    &&& out.order.remaining_quantity == order.remaining_quantity
                },
            }
        }),
{
}

/// A book in order is not crossed at the top: where both sides have a best
/// price, the best bid is below the best ask.
pub proof fn lemma_top_is_uncrossed(bids: Ladder, asks: Ladder, index: Map<u64, Order>)
    requires
        book_ok(bids, asks, index),
    ensures
        best_price(bids, OrderSide::Buy) matches Some(bid) ==> (best_price(
            asks,
            OrderSide::Sell,
        ) matches Some(ask) ==> bid < ask),
{
    if best_price(bids, OrderSide::Buy) is Some && best_price(asks, OrderSide::Sell) is Some {
        let bid = best_price(bids, OrderSide::Buy)->0;
        let ask = best_price(asks, OrderSide::Sell)->0;
        assert(is_best(bids, OrderSide::Buy, bid));
        assert(is_best(asks, OrderSide::Sell, ask));
    }
}

/// Where the order `id` stands at position `i` of the level at `p` on the
/// ladder of `side`.
pub open spec fn rests_at(
    bids: Ladder,
    asks: Ladder,
    id: u64,
    side: OrderSide,
    p: u64,
    i: int,
) -> bool {
    &&& ladder_of(side, bids, asks).contains_key(p)
    &&& 0 <= i < ladder_of(side, bids, asks)[p].len()
    &&& ladder_of(side, bids, asks)[p][i].id == id
}

/// Index and ladders hold the same orders: an id is in the index exactly
/// where an order with that id rests on a ladder, and then it rests at one
/// place only, as the record that the index holds.
pub proof fn lemma_index_matches_ladders(
    bids: Ladder,
    asks: Ladder,
    index: Map<u64, Order>,
    id: u64,
)
    requires
        book_ok(bids, asks, index),
    ensures
        index.contains_key(id) <==> exists|side: OrderSide, p: u64, i: int|
            rests_at(bids, asks, id, side, p, i),
        forall|side: OrderSide, p: u64, i: int, other_side: OrderSide, q: u64, j: int|
            rests_at(bids, asks, id, side, p, i) && rests_at(bids, asks, id, other_side, q, j)
                ==> side == other_side && p == q && i == j,
        forall|side: OrderSide, p: u64, i: int|
            rests_at(bids, asks, id, side, p, i) ==> ladder_of(side, bids, asks)[p][i]
                == index[id],
{
    assert forall|side: OrderSide, p: u64, i: int|
        rests_at(bids, asks, id, side, p, i) implies index.contains_key(id) && ladder_of(
        side,
        bids,
        asks,
    )[p][i] == index[id] && index[id].side == side && index[id].price == p by {
        let ladder = ladder_of(side, bids, asks);
        assert(level_ok(ladder[p], p, side, index));
        assert(resting_ok(ladder[p][i], p, side, index));
    }
    if index.contains_key(id) {
        let o = index[id];
        assert(listed(o, bids, asks));
        let ladder = ladder_of(o.side, bids, asks);
        let i = choose|i: int| 0 <= i < ladder[o.price].len() && #[trigger] ladder[o.price][i] == o;
        assert(rests_at(bids, asks, id, o.side, o.price, i));
    }
    assert forall|side: OrderSide, p: u64, i: int, other_side: OrderSide, q: u64, j: int|
        rests_at(bids, asks, id, side, p, i) && rests_at(
            bids,
            asks,
            id,
            other_side,
            q,
            j,
        ) implies side == other_side && p == q && i == j by {
        let ladder = ladder_of(side, bids, asks);
        assert(level_ok(ladder[p], p, side, index));
        assert(resting_ok(ladder[p][i], p, side, index));
        let other_ladder = ladder_of(other_side, bids, asks);
        assert(resting_ok(other_ladder[q][j], q, other_side, index));
        if i < j {
            assert(ladder[p][i].id != ladder[p][j].id);
        }
        if j < i {
            assert(ladder[p][j].id != ladder[p][i].id);
        }
    }
}

/// Conservation: the units that a submitted order traded and the units it
/// has left are the units it came with, and where it comes to rest, it
/// rests with what it has left. Every other order has the units open
/// afterwards that it had open before, less the units it traded.
pub proof fn lemma_submission_conserves(book: BookView, order: Order, other: u64)
    requires
        book.well_formed(),
        order.is_fresh(),
        other != order.id,
    ensures
        ({
            let out = book.submit(order);
            &&& traded_quantity(out.trades) + out.order.remaining_quantity == order.quantity
            &&& traded_by(out.trades, order.id) == traded_quantity(out.trades)
            &&& !book.rejects(order) && out.book.index.contains_key(order.id)
                ==> out.book.index[order.id] == out.order
            &&& traded_by(out.trades, other) + open_units(out.book.index, other) == open_units(
                book.index,
                other,
            )
        }),
{
    lemma_submission_is_a_sweep(book, order);
    match book.execution(order) {
        Some((taker, market)) => {
            let resting = ladder_of(opposite(taker.side), book.bids, book.asks);
            let own = ladder_of(taker.side, book.bids, book.asks);
            lemma_taker_conservation(taker, market, resting, book.index, book.last_trade_id);
            lemma_maker_conservation(
                taker,
                market,
                resting,
                own,
                book.index,
                book.last_trade_id,
                other,
            );
            lemma_sweep_keeps_book_ok(taker, market, resting, own, book.index, book.last_trade_id);
        },
        None => {
            assert(traded_quantity(Seq::<Trade>::empty()) == 0);
            assert(traded_by(Seq::<Trade>::empty(), other) == 0);
            assert(traded_by(Seq::<Trade>::empty(), order.id) == 0);
        },
    }
}

/// A submission keeps the book in order: ladders and index hold the same
/// orders afterwards, and no bid is at or above an ask.
pub proof fn lemma_submission_keeps_book_ok(book: BookView, order: Order)
    requires
        book_ok(book.bids, book.asks, book.index),
        order.is_fresh(),
    ensures
        ({
            let out = book.submit(order);
            &&& book_ok(out.book.bids, out.book.asks, out.book.index)
            &&& out.book.best_bid() matches Some(bid) ==> (out.book.best_ask() matches Some(ask)
                ==> bid < ask)
        }),
{
    let out = book.submit(order);
    lemma_submission_is_a_sweep(book, order);
    match book.execution(order) {
        Some((taker, market)) => {
            let resting = ladder_of(opposite(taker.side), book.bids, book.asks);
            let own = ladder_of(taker.side, book.bids, book.asks);
            let s = book.swept(taker, market);
            lemma_sweep_keeps_book_ok(taker, market, resting, own, book.index, book.last_trade_id);
            lemma_sweep_leaves_no_cross(
                taker,
                market,
                resting,
                own,
                book.index,
                book.last_trade_id,
            );
            lemma_sweep_taker(taker, market, resting, book.index, book.last_trade_id);
            if BookView::may_rest(taker) && s.taker.remaining_quantity > 0 {
                assert(!market);
                match taker.side {
                    OrderSide::Buy => {
                        lemma_rest_keeps_book_ok(book.bids, s.resting, s.index, s.taker);
                    },
                    OrderSide::Sell => {
                        lemma_rest_keeps_book_ok(s.resting, book.asks, s.index, s.taker);
                    },
                }
            }
        },
        None => {},
    }
    lemma_top_is_uncrossed(out.book.bids, out.book.asks, out.book.index);
}

/// Price-time priority: where the resting order `a` has priority over the
/// resting order `b`, a submission trades with `a` before it trades with
/// `b`, and where it trades with `b` at all, `a` has left the book.
pub proof fn lemma_submission_keeps_priority(book: BookView, order: Order, a: u64, b: u64)
    requires
        book.well_formed(),
        order.is_fresh(),
        book.index.contains_key(a),
        book.index.contains_key(b),
        book.index[a].side == opposite(order.side),
        has_priority(book.index[a], book.index[b]),
    ensures
        ({
            let out = book.submit(order);
            &&& forall|j: int, k: int|
                0 <= j < out.trades.len() && 0 <= k < out.trades.len() && maker_id(
                    #[trigger] out.trades[j],
                    order.side,
                ) == a && maker_id(#[trigger] out.trades[k], order.side) == b ==> j < k
            &&& forall|k: int|
                0 <= k < out.trades.len() && maker_id(#[trigger] out.trades[k], order.side) == b
                    ==> !out.book.index.contains_key(a)
        }),
{
    lemma_submission_is_a_sweep(book, order);
    match book.execution(order) {
        Some((taker, market)) => {
            let resting = ladder_of(opposite(taker.side), book.bids, book.asks);
            let own = ladder_of(taker.side, book.bids, book.asks);
            lemma_price_time_priority(
                taker,
                market,
                resting,
                own,
                book.index,
                book.last_trade_id,
                a,
                b,
            );
        },
        None => {},
    }
}

/// Every trade of a submission is the trade between the submitted order
/// and an order that rested on the other side of the book: at the price of
/// the resting order, never at that of the submitted one, stamped with the
/// later of their timestamps, and for more than nothing.
pub proof fn lemma_submission_trades_at_resting_price(book: BookView, order: Order)
    requires
        book.well_formed(),
        order.is_fresh(),
    ensures
        ({
            let out = book.submit(order);
            forall|k: int|
                0 <= k < out.trades.len() ==> {
                    let trade = #[trigger] out.trades[k];
                    let maker = maker_id(trade, order.side);
                    &&& book.index.contains_key(maker)
                    &&& book.index[maker].side == opposite(order.side)
                    &&& trade.price == book.index[maker].price
                    &&& 0 < trade.quantity <= book.index[maker].remaining_quantity
                    &&& trade == trade_between(
                        trade.id,
                        book.index[maker].price,
                        trade.quantity,
                        order,
                        book.index[maker],
                    )
                }
        }),
{
    lemma_submission_is_a_sweep(book, order);
    match book.execution(order) {
        Some((taker, market)) => {
            let resting = ladder_of(opposite(taker.side), book.bids, book.asks);
            let own = ladder_of(taker.side, book.bids, book.asks);
            lemma_trades_at_resting_price(
                taker,
                market,
                resting,
                own,
                book.index,
                book.last_trade_id,
            );
        },
        None => {},
    }
}

/// The ids of the trades of a submission count up by one from the id of
/// the last trade before it, and the book remembers the last of them: trade
/// ids increase strictly within a submission and from one to the next.
pub proof fn lemma_submission_numbers_trades(book: BookView, order: Order)
    requires
        book.last_trade_id + book.submit(order).trades.len() <= u64::MAX,
    ensures
        ({
            let out = book.submit(order);
            &&& out.book.last_trade_id == book.last_trade_id + out.trades.len()
            &&& forall|k: int|
                0 <= k < out.trades.len() ==> (#[trigger] out.trades[k]).id == book.last_trade_id
                    + 1 + k
            &&& forall|j: int, k: int|
                0 <= j < k < out.trades.len() ==> (#[trigger] out.trades[j]).id < (
                #[trigger] out.trades[k]).id
        }),
{
    lemma_submission_is_a_sweep(book, order);
    match book.execution(order) {
        Some((taker, market)) => {
            let resting = ladder_of(opposite(taker.side), book.bids, book.asks);
            lemma_trade_ids_increase(taker, market, resting, book.index, book.last_trade_id);
        },
        None => {},
    }
}

/// Fill-or-kill: a fill-or-kill order that the book takes is filled in
/// full where the other side holds its quantity within its limit; where
/// that side is as much as one unit short, the order is canceled, nothing
/// trades, and ladders and index stay as they were.
pub proof fn lemma_fill_or_kill(book: BookView, order: Order)
    requires
        book.well_formed(),
        order.is_fresh(),
        !book.rejects(order),
        order.order_type is FOK,
    ensures
        ({
            let out = book.submit(order);
            if book.fillable(order) >= order.quantity {
                &&& out.order.remaining_quantity == 0
                &&& out.order.status == OrderStatus::Filled
                &&& traded_quantity(out.trades) == order.quantity
                &&& !out.book.index.contains_key(order.id)
            } else {
                &&& out.trades == Seq::<Trade>::empty()
                &&& out.order == (Order { status: OrderStatus::Canceled, ..order })
                &&& out.book.bids == book.bids
                &&& out.book.asks == book.asks
                &&& out.book.index == book.index
            }
        }),
{
    lemma_submission_is_a_sweep(book, order);
    if book.fillable(order) >= order.quantity {
        let resting = ladder_of(opposite(order.side), book.bids, book.asks);
        let own = ladder_of(order.side, book.bids, book.asks);
        lemma_sweep_taker(order, false, resting, book.index, book.last_trade_id);
        lemma_taker_conservation(order, false, resting, book.index, book.last_trade_id);
        lemma_sweep_keeps_book_ok(order, false, resting, own, book.index, book.last_trade_id);
    }
}

/// Only limit orders rest: after a submission of a market,
/// immediate-or-cancel, fill-or-kill or stop order, the order is not in the
/// book, its own side is as it was, and what was left of it is canceled.
pub proof fn lemma_residual_is_discarded(book: BookView, order: Order)
    requires
        book.well_formed(),
        order.is_fresh(),
        !book.rejects(order),
        !BookView::may_rest(order),
    ensures
        ({
            let out = book.submit(order);
            &&& !out.book.index.contains_key(order.id)
            &&& ladder_of(order.side, out.book.bids, out.book.asks) == ladder_of(
                order.side,
                book.bids,
                book.asks,
            )
            &&& out.order.remaining_quantity > 0 ==> out.order.status == OrderStatus::Canceled
                || out.order.status == OrderStatus::Rejected
        }),
{
    lemma_submission_is_a_sweep(book, order);
    match book.execution(order) {
        Some((taker, market)) => {
            let resting = ladder_of(opposite(taker.side), book.bids, book.asks);
            let own = ladder_of(taker.side, book.bids, book.asks);
            lemma_sweep_keeps_book_ok(taker, market, resting, own, book.index, book.last_trade_id);
            lemma_sweep_taker(taker, market, resting, book.index, book.last_trade_id);
        },
        None => {},
    }
}

/// Every order in the book has units open and is neither filled, canceled
/// nor rejected: a filled order is not there to cancel, and the
/// cancellation of an order that is not in the book changes nothing.
pub proof fn lemma_cancel_needs_a_resting_order(book: BookView, id: u64)
    requires
        book.well_formed(),
    ensures
        book.index.contains_key(id) ==> book.index[id].is_live() && book.index[id].well_formed()
            && book.index[id].id == id,
        !book.index.contains_key(id) ==> book.cancel(id) == book,
        book.index.contains_key(id) ==> !book.cancel(id).index.contains_key(id),
{
    if book.index.contains_key(id) {
        let order = book.index[id];
        assert(listed(order, book.bids, book.asks));
        let ladder = ladder_of(order.side, book.bids, book.asks);
        let level = ladder[order.price];
        let i = choose|i: int| 0 <= i < level.len() && #[trigger] level[i] == order;
        assert(level_ok(ladder[order.price], order.price, order.side, book.index));
        assert(resting_ok(ladder[order.price][i], order.price, order.side, book.index));
    }
}

} // verus!
