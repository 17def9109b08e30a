use rustflow::Trade;

#[test]
fn test_trade_creation() {
    let trade = Trade::new(1, 10000, 5, 123456789, 101, 102, 1001, 1002, "BTC-USD".to_string());

    assert_eq!(trade.id, 1);
    assert_eq!(trade.price, 10000);
    assert_eq!(trade.quantity, 5);
    assert_eq!(trade.buy_order_id, 101);
    assert_eq!(trade.sell_order_id, 102);
}

#[test]
fn test_trade_value() {
    let trade = Trade::new(1, 10000, 5, 123456789, 101, 102, 1001, 1002, "BTC-USD".to_string());

    assert_eq!(trade.value(), 50000);
}

#[test]
fn checked_value_tells_when_the_value_does_not_fit() {
    let small = Trade::new(1, 10000, 5, 1, 1, 2, 1, 2, "BTC-USD".to_string());
    assert_eq!(small.checked_value(), Some(50000));
    let edge = Trade::new(2, u64::MAX, 1, 1, 1, 2, 1, 2, "BTC-USD".to_string());
    assert_eq!(edge.checked_value(), Some(u64::MAX));
    assert_eq!(edge.value(), u64::MAX);
    let large = Trade::new(3, u64::MAX, 2, 1, 1, 2, 1, 2, "BTC-USD".to_string());
    assert_eq!(large.checked_value(), None);
    let nothing = Trade::new(4, u64::MAX, 0, 1, 1, 2, 1, 2, "BTC-USD".to_string());
    assert_eq!(nothing.checked_value(), Some(0));
}

#[test]
fn trade_clone_keeps_every_field() {
    let trade = Trade::new(1, 10000, 5, 123456789, 101, 102, 1001, 1002, "BTC-USD".to_string());
    let copy = trade.clone();
    assert_eq!(copy.id, 1);
    assert_eq!(copy.price, 10000);
    assert_eq!(copy.quantity, 5);
    assert_eq!(copy.timestamp, 123456789);
    assert_eq!(copy.buy_order_id, 101);
    assert_eq!(copy.sell_order_id, 102);
    assert_eq!(copy.buy_user_id, 1001);
    assert_eq!(copy.sell_user_id, 1002);
    assert_eq!(copy.symbol, "BTC-USD");
}
