use rustflow::{Order, OrderSide, OrderStatus, OrderType};

fn limit(id: u64, price: u64, quantity: u64, side: OrderSide, user: u64, timestamp: u64) -> Order {
    Order::new_limit(id, price, quantity, side, user, timestamp, None, "BTC-USD".to_string())
}

#[test]
fn test_order_creation() {
    let buy_limit = Order::new_limit(1, 100, 10, OrderSide::Buy, 1001, 123456789, None, "BTC-USD".to_string());
    assert_eq!(buy_limit.side, OrderSide::Buy);
    assert_eq!(buy_limit.order_type, OrderType::Limit);
    assert_eq!(buy_limit.remaining_quantity, 10);

    let sell_market = Order::new_market(2, 5, OrderSide::Sell, 1002, 123456790, None, "BTC-USD".to_string());
    assert_eq!(sell_market.side, OrderSide::Sell);
    assert_eq!(sell_market.order_type, OrderType::Market);
    assert_eq!(sell_market.price, 0);
}

#[test]
fn test_order_fill() {
    let mut order = Order::new_limit(1, 100, 10, OrderSide::Buy, 1001, 123456789, None, "BTC-USD".to_string());

    order.fill_partial(4);
    assert_eq!(order.remaining_quantity, 6);
    assert_eq!(order.status, OrderStatus::PartiallyFilled);

    order.fill_partial(6);
    assert_eq!(order.remaining_quantity, 0);
    assert_eq!(order.status, OrderStatus::Filled);
}

#[test]
fn test_order_matching() {
    let buy = Order::new_limit(1, 100, 10, OrderSide::Buy, 1001, 123456789, None, "BTC-USD".to_string());
    let sell_low = Order::new_limit(2, 90, 5, OrderSide::Sell, 1002, 123456790, None, "BTC-USD".to_string());
    let sell_high = Order::new_limit(3, 110, 5, OrderSide::Sell, 1003, 123456791, None, "BTC-USD".to_string());

    assert!(buy.can_match_with(&sell_low));
    assert!(!buy.can_match_with(&sell_high));
}

#[test]
fn test_order_comparison() {
    let buy1 = Order::new_limit(1, 100, 10, OrderSide::Buy, 1001, 100, None, "BTC-USD".to_string());
    let buy2 = Order::new_limit(2, 110, 10, OrderSide::Buy, 1002, 100, None, "BTC-USD".to_string());

    assert!(buy2 > buy1);

    let buy3 = Order::new_limit(3, 100, 10, OrderSide::Buy, 1003, 100, None, "BTC-USD".to_string());
    let buy4 = Order::new_limit(4, 100, 10, OrderSide::Buy, 1004, 200, None, "BTC-USD".to_string());

    assert!(buy3 < buy4);

    let sell1 = Order::new_limit(5, 100, 10, OrderSide::Sell, 1005, 100, None, "BTC-USD".to_string());
    let sell2 = Order::new_limit(6, 90, 10, OrderSide::Sell, 1006, 100, None, "BTC-USD".to_string());

    assert!(sell2 < sell1);
}

#[test]
fn market_buy_carries_the_highest_price() {
    let order = Order::new_market(1, 5, OrderSide::Buy, 7, 1, Some("c-1".to_string()), "BTC-USD".to_string());
    assert_eq!(order.price, u64::MAX);
    assert_eq!(order.quantity, 5);
    assert_eq!(order.remaining_quantity, 5);
    assert_eq!(order.status, OrderStatus::New);
    assert_eq!(order.client_order_id, Some("c-1".to_string()));
    assert_eq!(order.user_id, 7);
    assert_eq!(order.timestamp, 1);
}

#[test]
fn fill_complete_leaves_nothing_open() {
    let mut order = limit(1, 100, 10, OrderSide::Sell, 1, 1);
    assert!(!order.is_filled());
    order.fill_complete();
    assert!(order.is_filled());
    assert_eq!(order.remaining_quantity, 0);
    assert_eq!(order.status, OrderStatus::Filled);
    assert_eq!(order.quantity, 10);
}

#[test]
fn fill_of_nothing_marks_partially_filled() {
    let mut order = limit(1, 100, 10, OrderSide::Sell, 1, 1);
    order.fill_partial(0);
    assert_eq!(order.remaining_quantity, 10);
    assert_eq!(order.status, OrderStatus::PartiallyFilled);
}

#[test]
fn cancel_spares_a_filled_order() {
    let mut open = limit(1, 100, 10, OrderSide::Buy, 1, 1);
    open.cancel();
    assert_eq!(open.status, OrderStatus::Canceled);

    let mut filled = limit(2, 100, 10, OrderSide::Buy, 1, 1);
    filled.fill_complete();
    filled.cancel();
    assert_eq!(filled.status, OrderStatus::Filled);
}

#[test]
fn sides_are_told_apart() {
    let buy = limit(1, 100, 10, OrderSide::Buy, 1, 1);
    let sell = limit(2, 100, 10, OrderSide::Sell, 1, 1);
    assert!(buy.is_buy() && !buy.is_sell());
    assert!(sell.is_sell() && !sell.is_buy());
}

#[test]
fn matching_needs_opposite_sides_and_one_symbol() {
    let buy = limit(1, 100, 10, OrderSide::Buy, 1, 1);
    let other_buy = limit(2, 90, 10, OrderSide::Buy, 2, 2);
    assert!(!buy.can_match_with(&other_buy));

    let elsewhere = Order::new_limit(3, 90, 5, OrderSide::Sell, 3, 3, None, "ETH-USD".to_string());
    assert!(!buy.can_match_with(&elsewhere));

    let at_price = limit(4, 100, 5, OrderSide::Sell, 4, 4);
    assert!(buy.can_match_with(&at_price));
    assert!(at_price.can_match_with(&buy));

    let above = limit(5, 101, 5, OrderSide::Sell, 5, 5);
    assert!(!above.can_match_with(&buy));
}

#[test]
fn orders_are_the_same_by_id() {
    let a = limit(1, 100, 10, OrderSide::Buy, 1, 1);
    let b = limit(1, 200, 20, OrderSide::Sell, 2, 2);
    let c = limit(2, 100, 10, OrderSide::Buy, 1, 1);
    assert!(a == b);
    assert!(a != c);
}

#[test]
fn orders_of_different_sides_compare_equal() {
    let buy = limit(1, 100, 10, OrderSide::Buy, 1, 1);
    let sell = limit(2, 90, 10, OrderSide::Sell, 1, 5);
    assert_eq!(buy.partial_cmp(&sell), Some(std::cmp::Ordering::Equal));
    let twin = limit(3, 100, 1, OrderSide::Buy, 9, 1);
    assert_eq!(buy.partial_cmp(&twin), Some(std::cmp::Ordering::Equal));
}

#[test]
fn clone_keeps_every_field() {
    let mut order = Order::new_limit(9, 55, 7, OrderSide::Sell, 3, 11, Some("x".to_string()), "BTC-USD".to_string());
    order.order_type = OrderType::StopLimit(60, 55);
    let copy = order.clone();
    assert_eq!(copy.id, 9);
    assert_eq!(copy.price, 55);
    assert_eq!(copy.quantity, 7);
    assert_eq!(copy.remaining_quantity, 7);
    assert_eq!(copy.side, OrderSide::Sell);
    assert_eq!(copy.order_type, OrderType::StopLimit(60, 55));
    assert_eq!(copy.timestamp, 11);
    assert_eq!(copy.status, OrderStatus::New);
    assert_eq!(copy.user_id, 3);
    assert_eq!(copy.client_order_id, Some("x".to_string()));
    assert_eq!(copy.symbol, "BTC-USD");
}

#[test]
fn sides_and_types_have_names() {
    assert_eq!(OrderSide::Buy.to_string(), "Buy");
    assert_eq!(OrderSide::Sell.to_string(), "Sell");
    assert_eq!(OrderType::Limit.to_string(), "Limit");
    assert_eq!(OrderType::Market.to_string(), "Market");
    assert_eq!(OrderType::IOC.to_string(), "IOC");
    assert_eq!(OrderType::FOK.to_string(), "FOK");
    assert_eq!(OrderType::Stop(12345).to_string(), "Stop(12345)");
    assert_eq!(OrderType::StopLimit(12345, 12300).to_string(), "StopLimit(12345, 12300)");
    assert_eq!(OrderType::Stop(0).to_string(), "Stop(0)");
    assert_eq!(OrderType::Stop(u64::MAX).to_string(), "Stop(18446744073709551615)");
}
