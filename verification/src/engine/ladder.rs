//! One side of a book: price levels, each a queue of resting orders.
//!
//! In memory a side is a `BTreeMap` from price to the orders resting at that
//! price. Its mathematical model, a [`Ladder`], maps each price to the
//! sequence of those orders, first in time first.

use crate::models::order::{Order, OrderSide};
use std::collections::BTreeMap;
use vstd::prelude::*;
use vstd::std_specs::cmp::OrdSpec;
use vstd::std_specs::iter::IteratorSpec;

verus! {

/// The model of one side of a book.
pub type Ladder = Map<u64, Seq<Order>>;

/// The model of a side held in a `BTreeMap`.
pub open spec fn ladder_view(levels: Map<u64, Vec<Order>>) -> Ladder {
    Map::new(|p: u64| levels.contains_key(p), |p: u64| levels[p]@)
}

/// The side an order of side `side` trades against.
pub open spec fn opposite(side: OrderSide) -> OrderSide {
    match side {
        OrderSide::Buy => OrderSide::Sell,
        OrderSide::Sell => OrderSide::Buy,
    }
}

/// Whether price `p` is at least as good as `q` for orders resting on
/// `side`: bids are better the higher, asks the lower.
pub open spec fn at_least_as_good(side: OrderSide, p: u64, q: u64) -> bool {
    match side {
        OrderSide::Buy => p >= q,
        OrderSide::Sell => p <= q,
    }
}

/// Whether `p` is the best price of the ladder of `side`.
pub open spec fn is_best(ladder: Ladder, side: OrderSide, p: u64) -> bool {
    &&& ladder.contains_key(p)
    &&& forall|q: u64| #[trigger] ladder.contains_key(q) ==> at_least_as_good(side, p, q)
}

/// The best price of the ladder of `side`: the highest bid, the lowest ask.
pub open spec fn best_price(ladder: Ladder, side: OrderSide) -> Option<u64> {
    if exists|p: u64| is_best(ladder, side, p) {
        Some(choose|p: u64| is_best(ladder, side, p))
    } else {
        None
    }
}

/// A best price is the best price: there is at most one.
pub proof fn lemma_best_is_unique(ladder: Ladder, side: OrderSide, p: u64)
    requires
        is_best(ladder, side, p),
    ensures
        best_price(ladder, side) == Some(p),
{
    let c = choose|c: u64| is_best(ladder, side, c);
    assert(ladder.contains_key(c));
    assert(ladder.contains_key(p));
}

/// A ladder without levels has no best price.
pub proof fn lemma_empty_has_no_best(ladder: Ladder, side: OrderSide)
    requires
        forall|q: u64| !ladder.contains_key(q),
    ensures
        best_price(ladder, side) is None,
{
}

/// A ladder with a level has a best price.
pub proof fn lemma_some_price_is_best(ladder: Ladder, side: OrderSide)
    requires
        ladder.dom().finite(),
        ladder.dom().len() > 0,
    ensures
        best_price(ladder, side) is Some,
    decreases ladder.dom().len(),
{
    let x = ladder.dom().choose();
    let rest = ladder.remove(x);
    if rest.dom().len() == 0 {
        assert forall|q: u64| #[trigger] ladder.contains_key(q) implies at_least_as_good(
            side,
            x,
            q,
        ) by {
            if q != x {
                assert(rest.dom().contains(q));
            }
        }
        lemma_best_is_unique(ladder, side, x);
    } else {
        lemma_some_price_is_best(rest, side);
        let m = best_price(rest, side)->0;
        assert(is_best(rest, side, m));
        let b = if at_least_as_good(side, x, m) {
            x
        } else {
            m
        };
        assert forall|q: u64| #[trigger] ladder.contains_key(q) implies at_least_as_good(
            side,
            b,
            q,
        ) by {
            if q != x {
                assert(rest.contains_key(q));
            }
        }
        lemma_best_is_unique(ladder, side, b);
    }
}

/// The model of a side is finite, with the keys of the map.
pub proof fn lemma_ladder_view_dom(levels: BTreeMap<u64, Vec<Order>>)
    ensures
        ladder_view(levels@).dom() == levels@.dom(),
        ladder_view(levels@).dom().finite(),
{
    broadcast use vstd::std_specs::btree::group_btree_axioms;
    assert(ladder_view(levels@).dom() =~= levels@.dom());
}

/// Calls `BTreeMap::last_key_value` and hands out the key. The contract
/// states what the documentation of that method does and is believed, not
/// proved: the key is the greatest key of the map, and there is none exactly
/// where the map is empty.
#[verifier::external_body]
fn greatest_key(levels: &BTreeMap<u64, Vec<Order>>) -> (key: Option<u64>)
    ensures
        match key {
            Some(p) => levels@.contains_key(p) && forall|q: u64|
                #[trigger] levels@.contains_key(q) ==> q <= p,
            None => forall|q: u64| !levels@.contains_key(q),
        },
{
    match levels.last_key_value() {
        Some((p, _)) => Some(*p),
        None => None,
    }
}

/// The least key of the map, `None` where the map is empty: the first key
/// of a walk over the keys, which a `BTreeMap` hands out in ascending order.
fn least_key(levels: &BTreeMap<u64, Vec<Order>>) -> (key: Option<u64>)
    ensures
        match key {
            Some(p) => levels@.contains_key(p) && forall|q: u64|
                #[trigger] levels@.contains_key(q) ==> p <= q,
            None => forall|q: u64| !levels@.contains_key(q),
        },
{
    broadcast use vstd::std_specs::btree::group_btree_axioms;
    broadcast use vstd::laws_cmp::group_laws_cmp;

    for k in it: levels.keys()
        invariant
            it.index() == 0,
    {
        proof {
            let keys = it.seq();
            assert(keys.unref()[0] == *k);
            assert(keys.unref().to_set().contains(*k));
            assert forall|q: u64| #[trigger] levels@.contains_key(q) implies *k <= q by {
                assert(keys.unref().to_set().contains(q));
                let i = choose|i: int| 0 <= i < keys.unref().len() && keys.unref()[i] == q;
                if i > 0 {
                    assert(OrdSpec::cmp_spec(&keys[0], &keys[i]) is Less);
                }
            }
        }
        return Some(*k);
    }
    proof {
        assert forall|q: u64| !levels@.contains_key(q) by {
            if levels@.contains_key(q) {
                assert(levels.keys().remaining().unref().to_set().contains(q));
            }
        }
    }
    None
}

/// The best price of a side: the highest bid or the lowest ask.
pub fn best_level_price(levels: &BTreeMap<u64, Vec<Order>>, side: OrderSide) -> (best: Option<u64>)
    ensures
        best == best_price(ladder_view(levels@), side),
        best is None <==> ladder_view(levels@).dom().is_empty(),
{
    let best = match side {
        OrderSide::Buy => greatest_key(levels),
        OrderSide::Sell => least_key(levels),
    };
    proof {
        let ladder = ladder_view(levels@);
        match best {
            Some(p) => {
                assert(ladder.contains_key(p));
                assert(is_best(ladder, side, p));
                lemma_best_is_unique(ladder, side, p);
            },
            None => {
                lemma_empty_has_no_best(ladder, side);
                assert(ladder.dom() =~= Set::empty());
            },
        }
    }
    best
}

/// The prices of a side in ascending order, each once.
pub fn ascending_prices(levels: &BTreeMap<u64, Vec<Order>>) -> (prices: Vec<u64>)
    ensures
        prices@.to_set() == ladder_view(levels@).dom(),
        forall|i: int, j: int| 0 <= i < j < prices.len() ==> prices[i] < prices[j],
        prices.len() == ladder_view(levels@).dom().len(),
{
    broadcast use vstd::std_specs::btree::group_btree_axioms;
    broadcast use vstd::laws_cmp::group_laws_cmp;

    let mut prices: Vec<u64> = Vec::new();
    let ghost keys: Seq<&u64> = levels.keys().remaining();
    for k in it: levels.keys()
        invariant
            it.seq() == keys,
            prices@.len() == it.index(),
            forall|i: int| 0 <= i < prices.len() ==> prices[i] == *keys[i],
    {
        prices.push(*k);
    }
    proof {
        assert(prices@ =~= keys.unref());
        lemma_ladder_view_dom(*levels);
        assert forall|i: int, j: int| 0 <= i < j < prices.len() implies prices[i] < prices[j] by {
            assert(OrdSpec::cmp_spec(&keys[i], &keys[j]) is Less);
        }
        prices@.unique_seq_to_set();
    }
    prices
}

/// The open units of a price level: the sum over its orders.
pub open spec fn level_quantity(level: Seq<Order>) -> nat
    decreases level.len(),
{
    if level.len() == 0 {
        0
    } else {
        level_quantity(level.drop_last()) + level.last().remaining_quantity as nat
    }
}

/// The open units of the first orders of a level are no more than those of
/// the whole level.
pub proof fn lemma_level_quantity_grows(level: Seq<Order>, n: int)
    requires
        0 <= n <= level.len(),
    ensures
        level_quantity(level.take(n)) <= level_quantity(level),
    decreases level.len(),
{
    if n == level.len() {
        assert(level.take(n) =~= level);
    } else {
        lemma_level_quantity_grows(level.drop_last(), n);
        assert(level.drop_last().take(n) =~= level.take(n));
    }
}

/// The open units of a price level, where they fit in 64 bits.
pub fn level_total(level: &Vec<Order>) -> (total: u64)
    requires
        level_quantity(level@) <= u64::MAX,
    ensures
        total == level_quantity(level@),
{
    let mut total: u64 = 0;
    let mut i: usize = 0;
    assert(level@.take(0) =~= Seq::<Order>::empty());
    while i < level.len()
        invariant
            0 <= i <= level.len(),
            total == level_quantity(level@.take(i as int)),
            level_quantity(level@) <= u64::MAX,
        decreases level.len() - i,
    {
        proof {
            lemma_level_quantity_grows(level@, i + 1);
            assert(level@.take(i + 1).drop_last() =~= level@.take(i as int));
        }
        total = total + level[i].remaining_quantity;
        i = i + 1;
    }
    assert(level@.take(level.len() as int) =~= level@);
    total
}

} // verus!
