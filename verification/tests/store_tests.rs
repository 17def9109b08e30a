use rustflow::{Order, OrderSide, OrderStatus, OrderStore, Trade, TradeStore};

fn trade(id: u64, quantity: u64, buyer: u64, seller: u64, symbol: &str) -> Trade {
    Trade::new(id, 100, quantity, id, 10 + id, 20 + id, buyer, seller, symbol.to_string())
}

fn order(id: u64, side: OrderSide, user: u64, symbol: &str) -> Order {
    Order::new_limit(id, 100, 10, side, user, id, None, symbol.to_string())
}

fn ids_of_trades(mut found: Vec<&Trade>) -> Vec<u64> {
    found.sort_by_key(|t| t.id);
    found.iter().map(|t| t.id).collect()
}

fn ids_of_orders(mut found: Vec<&Order>) -> Vec<u64> {
    found.sort_by_key(|o| o.id);
    found.iter().map(|o| o.id).collect()
}

#[test]
fn new_trade_store_is_empty_and_has_no_file() {
    let store = TradeStore::new();
    assert_eq!(store.count(), 0);
    assert_eq!(store.file_path(), None);
    assert!(!store.auto_flush());
    assert!(store.get_all_trades().is_empty());
    assert!(store.get_trade(1).is_none());
    assert!(store.volume_by_symbol().is_empty());
}

#[test]
fn trade_store_with_file_says_when_to_flush() {
    let mut eager = TradeStore::with_file("trades.json", true);
    assert_eq!(eager.file_path(), Some("trades.json"));
    assert!(eager.auto_flush());
    assert_eq!(eager.count(), 0);
    assert!(eager.add_trade(trade(1, 5, 1, 2, "BTC-USD")));
    assert!(eager.add_trades(vec![trade(2, 5, 1, 2, "BTC-USD")]));
    assert!(eager.clear());
    assert_eq!(eager.count(), 0);

    let mut lazy = TradeStore::with_file("trades.json", false);
    assert!(!lazy.add_trade(trade(1, 5, 1, 2, "BTC-USD")));
    assert!(!lazy.add_trades(vec![]));
    assert!(!lazy.clear());

    let mut plain = TradeStore::new();
    assert!(!plain.add_trade(trade(1, 5, 1, 2, "BTC-USD")));
}

#[test]
fn later_trade_replaces_an_earlier_one_with_its_id() {
    let mut store = TradeStore::new();
    store.add_trade(trade(1, 5, 1, 2, "BTC-USD"));
    store.add_trade(trade(1, 7, 1, 2, "BTC-USD"));
    assert_eq!(store.count(), 1);
    assert_eq!(store.get_trade(1).unwrap().quantity, 7);

    store.add_trades(vec![trade(2, 1, 1, 2, "BTC-USD"), trade(3, 2, 1, 2, "BTC-USD"), trade(2, 9, 1, 2, "BTC-USD")]);
    assert_eq!(store.count(), 3);
    assert_eq!(store.get_trade(2).unwrap().quantity, 9);
    assert_eq!(store.get_trade(3).unwrap().quantity, 2);
    assert_eq!(ids_of_trades(store.get_all_trades()), vec![1, 2, 3]);
}

#[test]
fn trades_are_found_by_symbol_and_user() {
    let mut store = TradeStore::new();
    store.add_trades(vec![
        trade(1, 5, 1, 2, "BTC-USD"),
        trade(2, 6, 2, 3, "ETH-USD"),
        trade(3, 7, 3, 1, "BTC-USD"),
        trade(4, 8, 4, 4, "ETH-USD"),
    ]);
    assert_eq!(ids_of_trades(store.get_trades_by_symbol("BTC-USD")), vec![1, 3]);
    assert_eq!(ids_of_trades(store.get_trades_by_symbol("ETH-USD")), vec![2, 4]);
    assert!(store.get_trades_by_symbol("XRP-USD").is_empty());
    assert_eq!(ids_of_trades(store.get_trades_by_user(1)), vec![1, 3]);
    assert_eq!(ids_of_trades(store.get_trades_by_user(2)), vec![1, 2]);
    assert_eq!(ids_of_trades(store.get_trades_by_user(4)), vec![4]);
    assert!(store.get_trades_by_user(9).is_empty());
}

#[test]
fn volume_is_summed_by_symbol() {
    let mut store = TradeStore::new();
    store.add_trades(vec![
        trade(1, 5, 1, 2, "BTC-USD"),
        trade(2, 6, 2, 3, "ETH-USD"),
        trade(3, 7, 3, 1, "BTC-USD"),
        trade(4, 0, 4, 4, "XRP-USD"),
    ]);
    let mut volumes = store.volume_by_symbol();
    volumes.sort();
    assert_eq!(
        volumes,
        vec![("BTC-USD".to_string(), 12), ("ETH-USD".to_string(), 6), ("XRP-USD".to_string(), 0)]
    );
}

#[test]
fn new_order_store_is_empty_and_has_no_file() {
    let store = OrderStore::new();
    assert_eq!(store.count(), 0);
    assert_eq!(store.file_path(), None);
    assert!(!store.auto_flush());
    assert!(store.get_all_orders().is_empty());
    assert!(store.get_order(1).is_none());
    assert!(store.order_count_by_symbol().is_empty());
    assert!(store.order_count_by_status().is_empty());
    assert!(store.order_count_by_side().is_empty());
}

#[test]
fn order_store_with_file_says_when_to_flush() {
    let mut eager = OrderStore::with_file("orders.json", true);
    assert_eq!(eager.file_path(), Some("orders.json"));
    assert!(eager.add_or_update_order(order(1, OrderSide::Buy, 1, "BTC-USD")));
    assert!(eager.add_orders(vec![]));
    assert!(eager.clear());
    assert_eq!(eager.count(), 0);
    let mut lazy = OrderStore::with_file("orders.json", false);
    assert!(!lazy.add_or_update_order(order(1, OrderSide::Buy, 1, "BTC-USD")));
    assert!(!lazy.clear());
}

#[test]
fn order_is_updated_under_its_id() {
    let mut store = OrderStore::new();
    store.add_or_update_order(order(1, OrderSide::Buy, 1, "BTC-USD"));
    let mut filled = order(1, OrderSide::Buy, 1, "BTC-USD");
    filled.fill_partial(4);
    store.add_or_update_order(filled);
    assert_eq!(store.count(), 1);
    assert_eq!(store.get_order(1).unwrap().remaining_quantity, 6);
    store.add_orders(vec![order(2, OrderSide::Sell, 2, "BTC-USD"), order(1, OrderSide::Sell, 3, "BTC-USD")]);
    assert_eq!(store.count(), 2);
    assert_eq!(store.get_order(1).unwrap().user_id, 3);
}

#[test]
fn orders_are_found_by_symbol_user_and_status() {
    let mut store = OrderStore::new();
    let mut filled = order(3, OrderSide::Buy, 1, "BTC-USD");
    filled.fill_complete();
    let mut canceled = order(4, OrderSide::Sell, 2, "ETH-USD");
    canceled.cancel();
    let mut partial = order(5, OrderSide::Sell, 2, "ETH-USD");
    partial.fill_partial(1);
    let mut rejected = order(6, OrderSide::Buy, 3, "ETH-USD");
    rejected.status = OrderStatus::Rejected;
    store.add_orders(vec![
        order(1, OrderSide::Buy, 1, "BTC-USD"),
        order(2, OrderSide::Sell, 2, "BTC-USD"),
        filled,
        canceled,
        partial,
        rejected,
    ]);

    assert_eq!(ids_of_orders(store.get_all_orders()), vec![1, 2, 3, 4, 5, 6]);
    assert_eq!(ids_of_orders(store.get_orders_by_symbol("BTC-USD")), vec![1, 2, 3]);
    assert_eq!(ids_of_orders(store.get_orders_by_symbol("ETH-USD")), vec![4, 5, 6]);
    assert!(store.get_orders_by_symbol("").is_empty());
    assert_eq!(ids_of_orders(store.get_orders_by_user(2)), vec![2, 4, 5]);
    assert_eq!(ids_of_orders(store.get_orders_by_status(OrderStatus::New)), vec![1, 2]);
    assert_eq!(ids_of_orders(store.get_orders_by_status(OrderStatus::Filled)), vec![3]);
    assert_eq!(ids_of_orders(store.get_orders_by_status(OrderStatus::Canceled)), vec![4]);
    assert_eq!(ids_of_orders(store.get_active_orders()), vec![1, 2, 5, 6]);

    let mut by_symbol = store.order_count_by_symbol();
    by_symbol.sort();
    assert_eq!(by_symbol, vec![("BTC-USD".to_string(), 3), ("ETH-USD".to_string(), 3)]);
    assert_eq!(
        store.order_count_by_status(),
        vec![
            (OrderStatus::New, 2),
            (OrderStatus::PartiallyFilled, 1),
            (OrderStatus::Filled, 1),
            (OrderStatus::Canceled, 1),
            (OrderStatus::Rejected, 1),
        ]
    );
    assert_eq!(store.order_count_by_side(), vec![(OrderSide::Buy, 3), (OrderSide::Sell, 3)]);
}

#[test]
fn counts_leave_out_what_has_no_order() {
    let mut store = OrderStore::new();
    store.add_or_update_order(order(1, OrderSide::Sell, 1, "BTC-USD"));
    assert_eq!(store.order_count_by_side(), vec![(OrderSide::Sell, 1)]);
    assert_eq!(store.order_count_by_status(), vec![(OrderStatus::New, 1)]);
    assert_eq!(store.order_count_by_symbol(), vec![("BTC-USD".to_string(), 1)]);
}
