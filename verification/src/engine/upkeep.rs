//! Why the book stays in order: a fill, an order that comes to rest and an
//! order that leaves each keep the invariant.

use crate::engine::ladder::{opposite, Ladder};
use crate::engine::rules::{
    arrival_index, book_ok, index_after_fill, ladder_after_fill, ladder_live, ladder_of, ladder_ok,
    ladder_with, ladder_without, level_ok, listed, listed_on, position_of, resting_ok,
};
use crate::models::order::{Order, OrderSide};
use vstd::prelude::*;

verus! {

/// The bids of a book given the ladder of `side` and the other ladder.
pub open spec fn bids_given(side: OrderSide, own: Ladder, other: Ladder) -> Ladder {
    match side {
        OrderSide::Buy => own,
        OrderSide::Sell => other,
    }
}

/// The asks of a book given the ladder of `side` and the other ladder.
pub open spec fn asks_given(side: OrderSide, own: Ladder, other: Ladder) -> Ladder {
    match side {
        OrderSide::Buy => other,
        OrderSide::Sell => own,
    }
}

/// A ladder in order is live.
pub proof fn lemma_ladder_ok_is_live(ladder: Ladder, side: OrderSide, index: Map<u64, Order>)
    requires
        ladder_ok(ladder, side, index),
    ensures
        ladder_live(ladder),
{
    assert forall|p: u64| #[trigger] ladder.contains_key(p) implies ladder[p].len() > 0
        && forall|i: int|
        0 <= i < ladder[p].len() ==> (#[trigger] ladder[p][i]).remaining_quantity > 0 by {
        assert(level_ok(ladder[p], p, side, index));
        assert forall|i: int| 0 <= i < ladder[p].len() implies (#[trigger] ladder[p][i]).remaining_quantity
            > 0 by {
            assert(resting_ok(ladder[p][i], p, side, index));
        }
    }
}

/// One fill on the ladder of `side` leaves that ladder, the other one and
/// the index in order with each other.
proof fn lemma_fill_keeps_ladders(
    resting: Ladder,
    other: Ladder,
    index: Map<u64, Order>,
    side: OrderSide,
    p: u64,
    q: u64,
)
    requires
        ladder_ok(resting, side, index),
        ladder_ok(other, opposite(side), index),
        index.dom().finite(),
        forall|id: u64| #[trigger]
            index.contains_key(id) ==> index[id].id == id && listed_on(
                index[id],
                if index[id].side == side {
                    resting
                } else {
                    other
                },
            ),
        resting.contains_key(p),
        0 < q <= resting[p][0].remaining_quantity,
    ensures
        ({
            let after = ladder_after_fill(resting, p, q);
            let index2 = index_after_fill(index, resting[p][0], q);
            &&& ladder_ok(after, side, index2)
            &&& ladder_ok(other, opposite(side), index2)
            &&& index2.dom().finite()
            &&& forall|id: u64| #[trigger]
                index2.contains_key(id) ==> index2[id].id == id && listed_on(
                    index2[id],
                    if index2[id].side == side {
                        after
                    } else {
                        other
                    },
                )
            &&& forall|r: u64| after.contains_key(r) ==> resting.contains_key(r)
        }),
{
    let level = resting[p];
    let maker = level[0];
    let after = ladder_after_fill(resting, p, q);
    let index2 = index_after_fill(index, maker, q);
    let filled = q >= maker.remaining_quantity;
    assert(level_ok(level, p, side, index));
    assert(resting_ok(maker, p, side, index));

    assert forall|r: u64| #[trigger] other.contains_key(r) implies level_ok(
        other[r],
        r,
        opposite(side),
        index2,
    ) by {
        let lv = other[r];
        assert(level_ok(lv, r, opposite(side), index));
        assert forall|i: int| 0 <= i < lv.len() implies resting_ok(
            #[trigger] lv[i],
            r,
            opposite(side),
            index2,
        ) by {
            assert(resting_ok(lv[i], r, opposite(side), index));
        }
    }

    assert forall|r: u64| #[trigger] after.contains_key(r) implies level_ok(
        after[r],
        r,
        side,
        index2,
    ) by {
        if r != p {
            let lv = resting[r];
            assert(after[r] == lv);
            assert(level_ok(lv, r, side, index));
            assert forall|i: int| 0 <= i < lv.len() implies resting_ok(
                #[trigger] lv[i],
                r,
                side,
                index2,
            ) by {
                assert(resting_ok(lv[i], r, side, index));
            }
        } else if filled {
            let lv = level.drop_first();
            assert(after[r] == lv);
            assert forall|i: int| 0 <= i < lv.len() implies resting_ok(
                #[trigger] lv[i],
                r,
                side,
                index2,
            ) by {
                assert(lv[i] == level[i + 1]);
                assert(resting_ok(level[i + 1], p, side, index));
                assert(level[0].id != level[i + 1].id);
            }
            assert forall|i: int, j: int| 0 <= i < j < lv.len() implies (#[trigger] lv[i]).timestamp
                <= (#[trigger] lv[j]).timestamp && lv[i].id != lv[j].id by {
                assert(lv[i] == level[i + 1]);
                assert(lv[j] == level[j + 1]);
            }
        } else {
            let lv = level.update(0, maker.after_fill(q));
            assert(after[r] == lv);
            assert forall|i: int| 0 <= i < lv.len() implies resting_ok(
                #[trigger] lv[i],
                r,
                side,
                index2,
            ) by {
                if i > 0 {
                    assert(lv[i] == level[i]);
                    assert(resting_ok(level[i], p, side, index));
                    assert(level[0].id != level[i].id);
                }
            }
            assert forall|i: int, j: int| 0 <= i < j < lv.len() implies (#[trigger] lv[i]).timestamp
                <= (#[trigger] lv[j]).timestamp && lv[i].id != lv[j].id by {
                assert(lv[j] == level[j]);
                assert(level[0].timestamp <= level[j].timestamp);
                assert(level[0].id != level[j].id);
                if i > 0 {
                    assert(lv[i] == level[i]);
                }
            }
        }
    }

    assert forall|id: u64| #[trigger] index2.contains_key(id) implies index2[id].id == id
        && listed_on(
        index2[id],
        if index2[id].side == side {
            after
        } else {
            other
        },
    ) by {
        if id == maker.id {
            assert(!filled);
            assert(after[p][0] == index2[id]);
        } else {
            let o = index[id];
            assert(index.contains_key(id));
            assert(index2[id] == o);
            if o.side == side {
                assert(listed_on(o, resting));
                let i = choose|i: int| 0 <= i < resting[o.price].len() && #[trigger] resting[o.price][i] == o;
                if o.price == p {
                    assert(i != 0);
                    if filled {
                        assert(level.drop_first()[i - 1] == o);
                        assert(after[p][i - 1] == o);
                    } else {
                        assert(after[p][i] == o);
                    }
                } else {
                    assert(after[o.price][i] == o);
                }
            }
        }
    }
}

/// One fill keeps the book in order: the first order at price `p` of the
/// ladder of `side` gives `q` units.
pub proof fn lemma_fill_keeps_book_ok(
    bids: Ladder,
    asks: Ladder,
    index: Map<u64, Order>,
    side: OrderSide,
    p: u64,
    q: u64,
)
    requires
        book_ok(bids, asks, index),
        ladder_of(side, bids, asks).contains_key(p),
        0 < q <= ladder_of(side, bids, asks)[p][0].remaining_quantity,
    ensures
        ({
            let resting = ladder_of(side, bids, asks);
            let after = ladder_after_fill(resting, p, q);
            let index2 = index_after_fill(index, resting[p][0], q);
            match side {
                OrderSide::Buy => book_ok(after, asks, index2),
                OrderSide::Sell => book_ok(bids, after, index2),
            }
        }),
{
    let resting = ladder_of(side, bids, asks);
    let other = ladder_of(opposite(side), bids, asks);
    assert forall|id: u64| #[trigger] index.contains_key(id) implies index[id].id == id
        && listed_on(
        index[id],
        if index[id].side == side {
            resting
        } else {
            other
        },
    ) by {
        assert(listed(index[id], bids, asks));
    }
    lemma_fill_keeps_ladders(resting, other, index, side, p, q);
    let after = ladder_after_fill(resting, p, q);
    let index2 = index_after_fill(index, resting[p][0], q);
    match side {
        OrderSide::Buy => {
            assert forall|id: u64| #[trigger] index2.contains_key(id) implies index2[id].id == id
                && listed(index2[id], after, asks) by {}
        },
        OrderSide::Sell => {
            assert forall|id: u64| #[trigger] index2.contains_key(id) implies index2[id].id == id
                && listed(index2[id], bids, after) by {}
        },
    }
}

/// In a level in time order, every order before the arrival index is not
/// later than `timestamp` and every order from it on is later.
pub proof fn lemma_arrival_index(level: Seq<Order>, timestamp: u64)
    requires
        forall|i: int, j: int|
            0 <= i < j < level.len() ==> (#[trigger] level[i]).timestamp <= (#[trigger] level[j]).timestamp,
    ensures
        0 <= arrival_index(level, timestamp) <= level.len(),
        forall|i: int|
            0 <= i < arrival_index(level, timestamp) ==> (#[trigger] level[i]).timestamp
                <= timestamp,
        forall|i: int|
            arrival_index(level, timestamp) <= i < level.len() ==> (#[trigger] level[i]).timestamp
                > timestamp,
    decreases level.len(),
{
    if level.len() > 0 && level.last().timestamp > timestamp {
        let front = level.drop_last();
        assert forall|i: int, j: int| 0 <= i < j < front.len() implies (#[trigger] front[i]).timestamp
            <= (#[trigger] front[j]).timestamp by {
            assert(front[i] == level[i] && front[j] == level[j]);
        }
        lemma_arrival_index(front, timestamp);
        assert forall|i: int| 0 <= i < arrival_index(level, timestamp) implies (#[trigger] level[i]).timestamp
            <= timestamp by {
            assert(front[i] == level[i]);
        }
        assert forall|i: int|
            arrival_index(level, timestamp) <= i < level.len() implies (#[trigger] level[i]).timestamp
            > timestamp by {
            if i < front.len() {
                assert(front[i] == level[i]);
            }
        }
    } else if level.len() > 0 {
        assert forall|i: int| 0 <= i < level.len() implies (#[trigger] level[i]).timestamp
            <= timestamp by {
            if i < level.len() - 1 {
                assert(level[i].timestamp <= level[level.len() - 1].timestamp);
            }
        }
    }
}

/// A live order with a new id that crosses no price of the other side may
/// come to rest: the book stays in order.
pub proof fn lemma_rest_keeps_book_ok(
    bids: Ladder,
    asks: Ladder,
    index: Map<u64, Order>,
    order: Order,
)
    requires
        book_ok(bids, asks, index),
        order.is_live(),
        !index.contains_key(order.id),
        forall|p: u64| #[trigger]
            ladder_of(opposite(order.side), bids, asks).contains_key(p) ==> !Order::price_accepts(
                order.side,
                order.price,
                p,
            ),
    ensures
        ({
            let index2 = index.insert(order.id, order);
            match order.side {
                OrderSide::Buy => book_ok(ladder_with(bids, order), asks, index2),
                OrderSide::Sell => book_ok(bids, ladder_with(asks, order), index2),
            }
        }),
{
    let side = order.side;
    let own = ladder_of(side, bids, asks);
    let other = ladder_of(opposite(side), bids, asks);
    let own2 = ladder_with(own, order);
    let index2 = index.insert(order.id, order);
    let p = order.price;

    assert forall|r: u64| #[trigger] other.contains_key(r) implies level_ok(
        other[r],
        r,
        opposite(side),
        index2,
    ) by {
        let lv = other[r];
        assert(level_ok(lv, r, opposite(side), index));
        assert forall|i: int| 0 <= i < lv.len() implies resting_ok(
            #[trigger] lv[i],
            r,
            opposite(side),
            index2,
        ) by {
            assert(resting_ok(lv[i], r, opposite(side), index));
        }
    }
    assert forall|r: u64| #[trigger] own2.contains_key(r) implies level_ok(own2[r], r, side, index2) by {
        if r != p {
            let lv = own[r];
            assert(level_ok(lv, r, side, index));
            assert forall|i: int| 0 <= i < lv.len() implies resting_ok(
                #[trigger] lv[i],
                r,
                side,
                index2,
            ) by {
                assert(resting_ok(lv[i], r, side, index));
            }
        } else if own.contains_key(p) {
            let lv = own[p];
            let k = arrival_index(lv, order.timestamp);
            let lv2 = lv.insert(k, order);
            assert(level_ok(lv, p, side, index));
            lemma_arrival_index(lv, order.timestamp);
            assert(own2[p] == lv2);
            assert forall|i: int| 0 <= i < lv2.len() implies resting_ok(
                #[trigger] lv2[i],
                p,
                side,
                index2,
            ) by {
                if i < k {
                    assert(lv2[i] == lv[i]);
                    assert(resting_ok(lv[i], p, side, index));
                } else if i > k {
                    assert(lv2[i] == lv[i - 1]);
                    assert(resting_ok(lv[i - 1], p, side, index));
                }
            }
            assert forall|i: int, j: int| 0 <= i < j < lv2.len() implies (#[trigger] lv2[i]).timestamp
                <= (#[trigger] lv2[j]).timestamp && lv2[i].id != lv2[j].id by {
                let a = if i < k {
                    i
                } else {
                    i - 1
                };
                let b = if j < k {
                    j
                } else {
                    j - 1
                };
                if i != k {
                    assert(lv2[i] == lv[a]);
                    assert(resting_ok(lv[a], p, side, index));
                }
                if j != k {
                    assert(lv2[j] == lv[b]);
                    assert(resting_ok(lv[b], p, side, index));
                }
                if i != k && j != k {
                    assert(lv[a].timestamp <= lv[b].timestamp);
                    assert(lv[a].id != lv[b].id);
                }
            }
        } else {
            assert(own2[p] == seq![order]);
        }
    }
    assert forall|id: u64| #[trigger] index2.contains_key(id) implies index2[id].id == id
        && listed_on(index2[id], ladder_of(index2[id].side, bids_given(side, own2, other), asks_given(
        side,
        own2,
        other,
    ))) by {
        if id == order.id {
            if own.contains_key(p) {
                let lv = own[p];
                let k = arrival_index(lv, order.timestamp);
                lemma_arrival_index(lv, order.timestamp);
                assert(own2[p][k] == order);
            } else {
                assert(own2[p][0] == order);
            }
        } else {
            let o = index[id];
            assert(listed(o, bids, asks));
            if o.side == side {
                let i = choose|i: int| 0 <= i < own[o.price].len() && #[trigger] own[o.price][i] == o;
                if o.price == p {
                    let lv = own[p];
                    let k = arrival_index(lv, order.timestamp);
                    lemma_arrival_index(lv, order.timestamp);
                    if i < k {
                        assert(own2[p][i] == o);
                    } else {
                        assert(own2[p][i + 1] == o);
                    }
                } else {
                    assert(own2[o.price][i] == o);
                }
            }
        }
    }
    match side {
        OrderSide::Buy => {
            assert(bids_given(side, own2, other) == own2);
            assert(asks_given(side, own2, other) == asks);
            assert forall|b: u64, a: u64| #[trigger]
                own2.contains_key(b) && #[trigger] asks.contains_key(a) implies b < a by {
                if b == p {
                    assert(!Order::price_accepts(side, p, a));
                }
            }
            assert forall|id: u64| #[trigger] index2.contains_key(id) implies index2[id].id == id
                && listed(index2[id], own2, asks) by {}
        },
        OrderSide::Sell => {
            assert(bids_given(side, own2, other) == bids);
            assert(asks_given(side, own2, other) == own2);
            assert forall|b: u64, a: u64| #[trigger]
                bids.contains_key(b) && #[trigger] own2.contains_key(a) implies b < a by {
                if a == p {
                    assert(!Order::price_accepts(side, p, b));
                }
            }
            assert forall|id: u64| #[trigger] index2.contains_key(id) implies index2[id].id == id
                && listed(index2[id], bids, own2) by {}
        },
    }
}

/// The resting order filed under `id` may leave: the book stays in order.
pub proof fn lemma_cancel_keeps_book_ok(bids: Ladder, asks: Ladder, index: Map<u64, Order>, id: u64)
    requires
        book_ok(bids, asks, index),
        index.contains_key(id),
    ensures
        ({
            let order = index[id];
            let index2 = index.remove(id);
            match order.side {
                OrderSide::Buy => book_ok(ladder_without(bids, order), asks, index2),
                OrderSide::Sell => book_ok(bids, ladder_without(asks, order), index2),
            }
        }),
        ({
            let order = index[id];
            let level = ladder_of(order.side, bids, asks)[order.price];
            &&& ladder_of(order.side, bids, asks).contains_key(order.price)
            &&& 0 <= position_of(level, id) < level.len()
            &&& level[position_of(level, id)] == order
        }),
{
    let order = index[id];
    let side = order.side;
    let own = ladder_of(side, bids, asks);
    let other = ladder_of(opposite(side), bids, asks);
    let own2 = ladder_without(own, order);
    let index2 = index.remove(id);
    let p = order.price;
    let level = own[p];
    assert(listed(order, bids, asks));
    let w = choose|i: int| 0 <= i < level.len() && #[trigger] level[i] == order;
    assert(level[w].id == id);
    let pos = position_of(level, id);
    assert(level_ok(level, p, side, index));
    assert(pos == w) by {
        if pos < w {
            assert(level[pos].id != level[w].id);
        }
        if w < pos {
            assert(level[w].id != level[pos].id);
        }
    }

    assert forall|r: u64| #[trigger] other.contains_key(r) implies level_ok(
        other[r],
        r,
        opposite(side),
        index2,
    ) by {
        let lv = other[r];
        assert(level_ok(lv, r, opposite(side), index));
        assert forall|i: int| 0 <= i < lv.len() implies resting_ok(
            #[trigger] lv[i],
            r,
            opposite(side),
            index2,
        ) by {
            assert(resting_ok(lv[i], r, opposite(side), index));
        }
    }
    assert forall|r: u64| #[trigger] own2.contains_key(r) implies level_ok(own2[r], r, side, index2) by {
        if r != p {
            let lv = own[r];
            assert(level_ok(lv, r, side, index));
            assert forall|i: int| 0 <= i < lv.len() implies resting_ok(
                #[trigger] lv[i],
                r,
                side,
                index2,
            ) by {
                assert(resting_ok(lv[i], r, side, index));
            }
        } else {
            let lv2 = level.remove(pos);
            assert(own2[p] == lv2);
            assert forall|i: int| 0 <= i < lv2.len() implies resting_ok(
                #[trigger] lv2[i],
                p,
                side,
                index2,
            ) by {
                let a = if i < pos {
                    i
                } else {
                    i + 1
                };
                assert(lv2[i] == level[a]);
                assert(resting_ok(level[a], p, side, index));
                if a < pos {
                    assert(level[a].id != level[pos].id);
                } else {
                    assert(level[pos].id != level[a].id);
                }
            }
            assert forall|i: int, j: int| 0 <= i < j < lv2.len() implies (#[trigger] lv2[i]).timestamp
                <= (#[trigger] lv2[j]).timestamp && lv2[i].id != lv2[j].id by {
                let a = if i < pos {
                    i
                } else {
                    i + 1
                };
                let b = if j < pos {
                    j
                } else {
                    j + 1
                };
                assert(lv2[i] == level[a]);
                assert(lv2[j] == level[b]);
            }
        }
    }
    assert forall|x: u64| #[trigger] index2.contains_key(x) implies index2[x].id == x && listed_on(
        index2[x],
        ladder_of(index2[x].side, bids_given(side, own2, other), asks_given(side, own2, other)),
    ) by {
        let o = index[x];
        assert(index.contains_key(x));
        assert(listed(o, bids, asks));
        if o.side == side {
            let i = choose|i: int| 0 <= i < own[o.price].len() && #[trigger] own[o.price][i] == o;
            if o.price == p {
                assert(i != pos);
                if i < pos {
                    assert(level.remove(pos)[i] == o);
                    assert(own2[p][i] == o);
                } else {
                    assert(level.remove(pos)[i - 1] == o);
                    assert(own2[p][i - 1] == o);
                }
            } else {
                assert(own2[o.price][i] == o);
            }
        }
    }
    match side {
        OrderSide::Buy => {
            assert(bids_given(side, own2, other) == own2);
            assert(asks_given(side, own2, other) == asks);
            assert forall|x: u64| #[trigger] index2.contains_key(x) implies index2[x].id == x
                && listed(index2[x], own2, asks) by {}
        },
        OrderSide::Sell => {
            assert(bids_given(side, own2, other) == bids);
            assert(asks_given(side, own2, other) == own2);
            assert forall|x: u64| #[trigger] index2.contains_key(x) implies index2[x].id == x
                && listed(index2[x], bids, own2) by {}
        },
    }
}

} // verus!
