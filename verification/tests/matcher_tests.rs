use rustflow::{Matcher, Order, OrderSide, OrderStatus};
use std::collections::{BTreeMap, HashMap};

type Ladder = BTreeMap<u64, Vec<Order>>;

fn limit(id: u64, price: u64, quantity: u64, side: OrderSide, timestamp: u64) -> Order {
    Order::new_limit(id, price, quantity, side, 1000 + id, timestamp, None, "BTC-USD".to_string())
}

fn book_of(orders: Vec<Order>) -> (Ladder, Ladder, HashMap<u64, Order>) {
    let mut bids = Ladder::new();
    let mut asks = Ladder::new();
    let mut index = HashMap::new();
    for order in orders {
        index.insert(order.id, order.clone());
        let ladder = if order.is_buy() { &mut bids } else { &mut asks };
        ladder.entry(order.price).or_insert_with(Vec::new).push(order);
    }
    (bids, asks, index)
}

fn open_at(ladder: &Ladder, price: u64) -> Vec<(u64, u64)> {
    ladder.get(&price).map(|level| level.iter().map(|o| (o.id, o.remaining_quantity)).collect()).unwrap_or_default()
}

#[test]
fn matcher_counts_trades_from_one() {
    let mut matcher = Matcher::new();
    assert_eq!(matcher.last_trade_id(), 0);
    assert_eq!(matcher.next_trade_id(), 1);
    assert_eq!(matcher.next_trade_id(), 2);
    assert_eq!(matcher.last_trade_id(), 2);
}

#[test]
fn limit_match_stops_at_the_limit() {
    let (mut bids, mut asks, mut index) = book_of(vec![
        limit(1, 100, 3, OrderSide::Sell, 1),
        limit(2, 101, 3, OrderSide::Sell, 2),
        limit(3, 103, 3, OrderSide::Sell, 3),
        limit(4, 90, 3, OrderSide::Buy, 4),
    ]);
    let mut matcher = Matcher::new();
    let mut taker = limit(9, 101, 10, OrderSide::Buy, 9);

    let trades = matcher.match_limit_order(&mut taker, &mut bids, &mut asks, &mut index);
    assert_eq!(trades.len(), 2);
    assert_eq!((trades[0].id, trades[0].price, trades[0].quantity, trades[0].sell_order_id), (1, 100, 3, 1));
    assert_eq!((trades[1].id, trades[1].price, trades[1].quantity, trades[1].sell_order_id), (2, 101, 3, 2));
    assert_eq!(taker.remaining_quantity, 4);
    assert_eq!(taker.status, OrderStatus::PartiallyFilled);
    assert_eq!(taker.quantity, 10);
    assert_eq!(asks.keys().copied().collect::<Vec<u64>>(), vec![103]);
    assert_eq!(open_at(&bids, 90), vec![(4, 3)]);
    assert!(!index.contains_key(&1) && !index.contains_key(&2));
    assert!(index.contains_key(&3) && index.contains_key(&4));
    assert!(!index.contains_key(&9));
    assert_eq!(matcher.last_trade_id(), 2);
}

#[test]
fn limit_match_without_a_cross_changes_nothing() {
    let (mut bids, mut asks, mut index) = book_of(vec![limit(1, 100, 3, OrderSide::Sell, 1)]);
    let mut matcher = Matcher::new();
    let mut taker = limit(9, 99, 10, OrderSide::Buy, 9);
    let trades = matcher.match_limit_order(&mut taker, &mut bids, &mut asks, &mut index);
    assert!(trades.is_empty());
    assert_eq!(taker.remaining_quantity, 10);
    assert_eq!(taker.status, OrderStatus::New);
    assert_eq!(open_at(&asks, 100), vec![(1, 3)]);
    assert_eq!(matcher.last_trade_id(), 0);
}

#[test]
fn partial_fill_of_a_resting_order_is_kept_in_place() {
    let (mut bids, mut asks, mut index) = book_of(vec![
        limit(1, 100, 5, OrderSide::Buy, 1),
        limit(2, 100, 5, OrderSide::Buy, 2),
    ]);
    let mut matcher = Matcher::new();
    let mut taker = limit(9, 100, 2, OrderSide::Sell, 9);
    let trades = matcher.match_limit_order(&mut taker, &mut bids, &mut asks, &mut index);
    assert_eq!(trades.len(), 1);
    assert_eq!((trades[0].buy_order_id, trades[0].sell_order_id, trades[0].quantity), (1, 9, 2));
    assert_eq!(taker.status, OrderStatus::Filled);
    assert_eq!(open_at(&bids, 100), vec![(1, 3), (2, 5)]);
    assert_eq!(index[&1].remaining_quantity, 3);
    assert_eq!(index[&1].status, OrderStatus::PartiallyFilled);
    assert_eq!(bids[&100][0].status, OrderStatus::PartiallyFilled);
    assert_eq!(index[&2].status, OrderStatus::New);
}

#[test]
fn market_match_ignores_the_price_of_the_order() {
    let (mut bids, mut asks, mut index) = book_of(vec![
        limit(1, 100, 3, OrderSide::Buy, 1),
        limit(2, 50, 3, OrderSide::Buy, 2),
    ]);
    let mut matcher = Matcher::new();
    let mut taker = limit(9, 1_000, 5, OrderSide::Sell, 9);
    let trades = matcher.match_market_order(&mut taker, &mut bids, &mut asks, &mut index);
    assert_eq!(trades.iter().map(|t| (t.price, t.quantity)).collect::<Vec<(u64, u64)>>(), vec![(100, 3), (50, 2)]);
    assert_eq!(taker.remaining_quantity, 0);
    assert_eq!(open_at(&bids, 50), vec![(2, 1)]);
    assert!(!bids.contains_key(&100));
}

#[test]
fn market_match_empties_the_side_when_it_is_too_small() {
    let (mut bids, mut asks, mut index) = book_of(vec![limit(1, 100, 3, OrderSide::Sell, 1)]);
    let mut matcher = Matcher::new();
    let mut taker = Order::new_market(9, 5, OrderSide::Buy, 1, 9, None, "BTC-USD".to_string());
    let trades = matcher.match_market_order(&mut taker, &mut bids, &mut asks, &mut index);
    assert_eq!(trades.len(), 1);
    assert_eq!(taker.remaining_quantity, 2);
    assert_eq!(taker.status, OrderStatus::PartiallyFilled);
    assert!(asks.is_empty());
    assert!(index.is_empty());
}

#[test]
fn simulation_adds_up_what_crosses_and_touches_nothing() {
    let (bids, asks, index) = book_of(vec![
        limit(1, 100, 3, OrderSide::Sell, 1),
        limit(2, 100, 4, OrderSide::Sell, 2),
        limit(3, 101, 5, OrderSide::Sell, 3),
        limit(4, 103, 6, OrderSide::Sell, 4),
        limit(5, 95, 6, OrderSide::Buy, 5),
        limit(6, 94, 1, OrderSide::Buy, 6),
    ]);
    let matcher = Matcher::new();
    assert_eq!(matcher.simulate_order_match(&limit(9, 101, 100, OrderSide::Buy, 9), &bids, &asks), 12);
    assert_eq!(matcher.simulate_order_match(&limit(9, 101, 8, OrderSide::Buy, 9), &bids, &asks), 8);
    assert_eq!(matcher.simulate_order_match(&limit(9, 100, 100, OrderSide::Buy, 9), &bids, &asks), 7);
    assert_eq!(matcher.simulate_order_match(&limit(9, 99, 100, OrderSide::Buy, 9), &bids, &asks), 0);
    assert_eq!(matcher.simulate_order_match(&limit(9, u64::MAX, u64::MAX, OrderSide::Buy, 9), &bids, &asks), 18);
    assert_eq!(matcher.simulate_order_match(&limit(9, 95, 100, OrderSide::Sell, 9), &bids, &asks), 6);
    assert_eq!(matcher.simulate_order_match(&limit(9, 0, 100, OrderSide::Sell, 9), &bids, &asks), 7);
    assert_eq!(matcher.simulate_order_match(&limit(9, 96, 100, OrderSide::Sell, 9), &bids, &asks), 0);
    assert_eq!(matcher.simulate_order_match(&limit(9, 0, 0, OrderSide::Sell, 9), &bids, &asks), 0);
    assert_eq!(open_at(&asks, 100), vec![(1, 3), (2, 4)]);
    assert_eq!(index.len(), 6);
    assert_eq!(matcher.last_trade_id(), 0);
}

#[test]
fn simulation_agrees_with_the_match() {
    let orders = vec![
        limit(1, 100, 3, OrderSide::Sell, 1),
        limit(2, 100, 4, OrderSide::Sell, 2),
        limit(3, 101, 5, OrderSide::Sell, 3),
    ];
    for quantity in [1u64, 3, 4, 7, 8, 12, 13] {
        let (mut bids, mut asks, mut index) = book_of(orders.clone());
        let mut matcher = Matcher::new();
        let mut taker = limit(9, 101, quantity, OrderSide::Buy, 9);
        let expected = matcher.simulate_order_match(&taker, &bids, &asks);
        let trades = matcher.match_limit_order(&mut taker, &mut bids, &mut asks, &mut index);
        let filled: u64 = trades.iter().map(|t| t.quantity).sum();
        assert_eq!(filled, expected);
        assert_eq!(filled + taker.remaining_quantity, quantity);
    }
}
