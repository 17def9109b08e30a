use rustflow::{Order, OrderBook, OrderSide, OrderStatus, OrderType};

const SYMBOL: &str = "BTC-USD";

/// A small generator of numbers that looks random and is the same on every run.
struct Numbers(u64);

impl Numbers {
    fn next(&mut self) -> u64 {
        self.0 = self.0.wrapping_mul(6364136223846793005).wrapping_add(1442695040888963407);
        self.0 >> 33
    }

    fn below(&mut self, bound: u64) -> u64 {
        self.next() % bound
    }
}

/// A resting order of the plain book below.
#[derive(Clone, Debug, PartialEq)]
struct Resting {
    id: u64,
    side: OrderSide,
    price: u64,
    remaining: u64,
    timestamp: u64,
    arrival: u64,
}

/// A book kept as one flat list, matched by searching it: slow and plain.
struct PlainBook {
    resting: Vec<Resting>,
    arrivals: u64,
    last_trade_id: u64,
}

#[derive(Debug, PartialEq)]
struct PlainTrade {
    id: u64,
    price: u64,
    quantity: u64,
    buy_order_id: u64,
    sell_order_id: u64,
}

impl PlainBook {
    fn new() -> Self {
        PlainBook { resting: Vec::new(), arrivals: 0, last_trade_id: 0 }
    }

    fn best(&self, side: OrderSide) -> Option<u64> {
        let prices = self.resting.iter().filter(|o| o.side == side).map(|o| o.price);
        match side {
            OrderSide::Buy => prices.max(),
            OrderSide::Sell => prices.min(),
        }
    }

    fn first_against(&self, taker_side: OrderSide) -> Option<usize> {
        let other = if taker_side == OrderSide::Buy { OrderSide::Sell } else { OrderSide::Buy };
        let best = self.best(other)?;
        let mut at: Option<usize> = None;
        for (i, o) in self.resting.iter().enumerate() {
            if o.side != other || o.price != best {
                continue;
            }
            let earlier = match at {
                None => true,
                Some(j) => {
                    let held = &self.resting[j];
                    (o.timestamp, o.arrival) < (held.timestamp, held.arrival)
                }
            };
            if earlier {
                at = Some(i);
            }
        }
        at
    }

    fn crosses(side: OrderSide, limit: Option<u64>, price: u64) -> bool {
        match (limit, side) {
            (None, _) => true,
            (Some(limit), OrderSide::Buy) => price <= limit,
            (Some(limit), OrderSide::Sell) => price >= limit,
        }
    }

    fn fillable(&self, side: OrderSide, limit: u64) -> u64 {
        let other = if side == OrderSide::Buy { OrderSide::Sell } else { OrderSide::Buy };
        self.resting
            .iter()
            .filter(|o| o.side == other && Self::crosses(side, Some(limit), o.price))
            .map(|o| o.remaining as u128)
            .sum::<u128>()
            .min(u64::MAX as u128) as u64
    }

    fn sweep(&mut self, id: u64, side: OrderSide, limit: Option<u64>, quantity: u64) -> (Vec<PlainTrade>, u64) {
        let mut remaining = quantity;
        let mut trades = Vec::new();
        while remaining > 0 {
            let at = match self.first_against(side) {
                Some(at) => at,
                None => break,
            };
            if !Self::crosses(side, limit, self.resting[at].price) {
                break;
            }
            let fill = remaining.min(self.resting[at].remaining);
            self.last_trade_id += 1;
            let maker = self.resting[at].id;
            trades.push(PlainTrade {
                id: self.last_trade_id,
                price: self.resting[at].price,
                quantity: fill,
                buy_order_id: if side == OrderSide::Buy { id } else { maker },
                sell_order_id: if side == OrderSide::Sell { id } else { maker },
            });
            remaining -= fill;
            self.resting[at].remaining -= fill;
            if self.resting[at].remaining == 0 {
                self.resting.remove(at);
            }
        }
        (trades, remaining)
    }

    fn rest(&mut self, id: u64, side: OrderSide, price: u64, remaining: u64, timestamp: u64) {
        self.arrivals += 1;
        self.resting.push(Resting { id, side, price, remaining, timestamp, arrival: self.arrivals });
    }

    fn submit(&mut self, order: &Order) -> Vec<PlainTrade> {
        if order.symbol != SYMBOL || order.quantity == 0 || self.resting.iter().any(|o| o.id == order.id) {
            return Vec::new();
        }
        let triggered = |book: &PlainBook, trigger: u64| match order.side {
            OrderSide::Buy => book.best(OrderSide::Sell).map_or(false, |ask| ask <= trigger),
            OrderSide::Sell => book.best(OrderSide::Buy).map_or(false, |bid| bid >= trigger),
        };
        match order.order_type {
            OrderType::Limit => {
                let (trades, left) = self.sweep(order.id, order.side, Some(order.price), order.quantity);
                if left > 0 {
                    self.rest(order.id, order.side, order.price, left, order.timestamp);
                }
                trades
            }
            OrderType::Market => self.sweep(order.id, order.side, None, order.quantity).0,
            OrderType::IOC => self.sweep(order.id, order.side, Some(order.price), order.quantity).0,
            OrderType::FOK => {
                if self.fillable(order.side, order.price) < order.quantity {
                    Vec::new()
                } else {
                    self.sweep(order.id, order.side, Some(order.price), order.quantity).0
                }
            }
            OrderType::Stop(trigger) => {
                if triggered(self, trigger) {
                    self.sweep(order.id, order.side, None, order.quantity).0
                } else {
                    Vec::new()
                }
            }
            OrderType::StopLimit(trigger, limit) => {
                if triggered(self, trigger) {
                    let (trades, left) = self.sweep(order.id, order.side, Some(limit), order.quantity);
                    if left > 0 {
                        self.rest(order.id, order.side, limit, left, order.timestamp);
                    }
                    trades
                } else {
                    Vec::new()
                }
            }
        }
    }

    fn cancel(&mut self, id: u64) -> bool {
        match self.resting.iter().position(|o| o.id == id) {
            Some(at) => {
                self.resting.remove(at);
                true
            }
            None => false,
        }
    }

    fn depth(&self, side: OrderSide) -> Vec<(u64, u64)> {
        let mut prices: Vec<u64> = self.resting.iter().filter(|o| o.side == side).map(|o| o.price).collect();
        prices.sort();
        prices.dedup();
        if side == OrderSide::Buy {
            prices.reverse();
        }
        prices
            .into_iter()
            .map(|p| (p, self.resting.iter().filter(|o| o.side == side && o.price == p).map(|o| o.remaining).sum()))
            .collect()
    }
}

fn random_order(numbers: &mut Numbers, id: u64, timestamp: u64) -> Order {
    let side = if numbers.below(2) == 0 { OrderSide::Buy } else { OrderSide::Sell };
    let price = 90 + numbers.below(21);
    let quantity = numbers.below(12);
    let symbol = if numbers.below(40) == 0 { "ETH-USD" } else { SYMBOL };
    let mut order = Order::new_limit(id, price, quantity, side, numbers.below(5), timestamp, None, symbol.to_string());
    order.order_type = match numbers.below(10) {
        0 => OrderType::Market,
        1 => OrderType::IOC,
        2 => OrderType::FOK,
        3 => OrderType::Stop(90 + numbers.below(21)),
        4 => OrderType::StopLimit(90 + numbers.below(21), 90 + numbers.below(21)),
        _ => OrderType::Limit,
    };
    order
}

fn run(seed: u64, steps: u64) {
    let mut numbers = Numbers(seed);
    let mut book = OrderBook::new(SYMBOL);
    let mut plain = PlainBook::new();
    let mut last_trade_id = 0;
    let mut volume = 0;

    for step in 1..=steps {
        if numbers.below(6) == 0 {
            let id = 1 + numbers.below(step);
            assert_eq!(book.cancel_order(id), plain.cancel(id), "cancel of {} at step {}", id, step);
        } else {
            let id = if numbers.below(25) == 0 { 1 + numbers.below(step) } else { step };
            let timestamp = step / 3 + numbers.below(3);
            let order = random_order(&mut numbers, id, timestamp);
            let expected = plain.submit(&order);
            assert!(book.can_accept(&order));
            let done = book.submit(order.clone());

            let got: Vec<PlainTrade> = done
                .trades
                .iter()
                .map(|t| PlainTrade {
                    id: t.id,
                    price: t.price,
                    quantity: t.quantity,
                    buy_order_id: t.buy_order_id,
                    sell_order_id: t.sell_order_id,
                })
                .collect();
            assert_eq!(got, expected, "trades of {:?} at step {}", order, step);

            let traded: u64 = done.trades.iter().map(|t| t.quantity).sum();
            assert_eq!(traded + done.order.remaining_quantity, order.quantity);
            for trade in &done.trades {
                assert!(trade.id > last_trade_id);
                last_trade_id = trade.id;
                assert!(trade.quantity > 0);
                assert_eq!(trade.symbol, SYMBOL);
            }
            volume += traded;
            match book.get_order(order.id) {
                Some(resting) if done.order.status != OrderStatus::Rejected => {
                    assert_eq!(resting.remaining_quantity, done.order.remaining_quantity);
                }
                _ => {}
            }
        }

        if let (Some(bid), Some(ask)) = (book.best_bid(), book.best_ask()) {
            assert!(bid < ask, "crossed at step {}", step);
        }
        assert_eq!(book.best_bid(), plain.best(OrderSide::Buy));
        assert_eq!(book.best_ask(), plain.best(OrderSide::Sell));
        let (bids, asks) = book.market_depth(usize::MAX);
        assert_eq!(bids, plain.depth(OrderSide::Buy));
        assert_eq!(asks, plain.depth(OrderSide::Sell));

        let mut listed: Vec<(u64, u64)> = book.all_orders().iter().map(|o| (o.id, o.remaining_quantity)).collect();
        listed.sort();
        let mut held: Vec<(u64, u64)> = plain.resting.iter().map(|o| (o.id, o.remaining)).collect();
        held.sort();
        assert_eq!(listed, held);
        for order in book.all_orders() {
            assert!(order.remaining_quantity > 0 && order.remaining_quantity <= order.quantity);
            assert!(order.status == OrderStatus::New || order.status == OrderStatus::PartiallyFilled);
            assert_eq!(book.get_order(order.id).unwrap().price, order.price);
        }

        let stats = book.stats();
        assert_eq!(stats.best_bid, book.best_bid());
        assert_eq!(stats.best_ask, book.best_ask());
        assert_eq!(stats.bid_order_count, plain.resting.iter().filter(|o| o.side == OrderSide::Buy).count());
        assert_eq!(stats.ask_order_count, plain.resting.iter().filter(|o| o.side == OrderSide::Sell).count());
        assert_eq!(stats.trade_count, last_trade_id);
        assert_eq!(stats.volume, volume);
    }
    assert!(last_trade_id > 0);
}

#[test]
fn book_agrees_with_a_plain_book_on_a_long_sequence() {
    run(1, 3000);
}

#[test]
fn book_agrees_with_a_plain_book_on_other_sequences() {
    for seed in 2..40 {
        run(seed, 150);
    }
}
