//! A store of orders by order id.

use crate::models::order::{Order, OrderSide, OrderStatus};
use std::collections::HashMap;
use vstd::prelude::*;
use vstd::std_specs::iter::IteratorSpec;

verus! {

/// Orders by id, with the file that backs them, if any.
pub struct OrderStore {
    orders: HashMap<u64, Order>,
    file_path: Option<String>,
    auto_flush: bool,
}

/// The store after it has taken `orders` one after the other: a later
/// order replaces an earlier one with the same id.
pub open spec fn with_orders(stored: Map<u64, Order>, orders: Seq<Order>) -> Map<u64, Order>
    decreases orders.len(),
{
    if orders.len() == 0 {
        stored
    } else {
        with_orders(stored, orders.drop_last()).insert(orders.last().id, orders.last())
    }
}

/// Whether `found` lists the stored orders that are `wanted`: only those,
/// all of those, and each once.
pub open spec fn lists_orders(
    found: Seq<&Order>,
    stored: Map<u64, Order>,
    wanted: spec_fn(Order) -> bool,
) -> bool {
    &&& forall|i: int|
        0 <= i < found.len() ==> stored.contains_key((#[trigger] found[i]).id) && stored[found[i].id]
            == *found[i] && wanted(*found[i])
    &&& forall|id: u64| #[trigger]
        stored.contains_key(id) && wanted(stored[id]) ==> exists|i: int|
            0 <= i < found.len() && *(#[trigger] found[i]) == stored[id]
    &&& forall|i: int, j: int|
        0 <= i < j < found.len() ==> (#[trigger] found[i]).id != (#[trigger] found[j]).id
}

/// The ids of the stored orders that are `wanted`.
pub open spec fn ids_of(stored: Map<u64, Order>, wanted: spec_fn(Order) -> bool) -> Set<u64> {
    Set::new(|id: u64| stored.contains_key(id) && wanted(stored[id]))
}

/// Whether an order is neither filled nor canceled.
pub open spec fn is_active(order: Order) -> bool {
    order.status != OrderStatus::Filled && order.status != OrderStatus::Canceled
}

/// Whether `tally` counts the stored orders by side: a side with orders is
/// listed once, with the number of its orders, and no other side is listed.
pub open spec fn tallies_sides(tally: Seq<(OrderSide, usize)>, stored: Map<u64, Order>) -> bool {
    &&& forall|j: int|
        0 <= j < tally.len() ==> (#[trigger] tally[j]).1 > 0 && tally[j].1 == ids_of(
            stored,
            |o: Order| o.side == tally[j].0,
        ).len()
    &&& forall|i: int, j: int|
        0 <= i < j < tally.len() ==> (#[trigger] tally[i]).0 != (#[trigger] tally[j]).0
    &&& forall|id: u64| #[trigger]
        stored.contains_key(id) ==> exists|j: int|
            0 <= j < tally.len() && (#[trigger] tally[j]).0 == stored[id].side
}

/// Whether `tally` counts the stored orders by status, as [`tallies_sides`]
/// does by side.
pub open spec fn tallies_statuses(
    tally: Seq<(OrderStatus, usize)>,
    stored: Map<u64, Order>,
) -> bool {
    &&& forall|j: int|
        0 <= j < tally.len() ==> (#[trigger] tally[j]).1 > 0 && tally[j].1 == ids_of(
            stored,
            |o: Order| o.status == tally[j].0,
        ).len()
    &&& forall|i: int, j: int|
        0 <= i < j < tally.len() ==> (#[trigger] tally[i]).0 != (#[trigger] tally[j]).0
    &&& forall|id: u64| #[trigger]
        stored.contains_key(id) ==> exists|j: int|
            0 <= j < tally.len() && (#[trigger] tally[j]).0 == stored[id].status
}

/// Whether `tally` counts the stored orders by symbol, as [`tallies_sides`]
/// does by side.
pub open spec fn tallies_symbols(tally: Seq<(String, usize)>, stored: Map<u64, Order>) -> bool {
    &&& forall|j: int|
        0 <= j < tally.len() ==> (#[trigger] tally[j]).1 > 0 && tally[j].1 == ids_of(
            stored,
            |o: Order| o.symbol@ == tally[j].0@,
        ).len()
    &&& forall|i: int, j: int|
        0 <= i < j < tally.len() ==> (#[trigger] tally[i]).0@ != (#[trigger] tally[j]).0@
    &&& forall|id: u64| #[trigger]
        stored.contains_key(id) ==> exists|j: int|
            0 <= j < tally.len() && (#[trigger] tally[j]).0@ == stored[id].symbol@
}

/// Which orders a query asks for.
enum OrderFilter {
    All,
    Symbol(String),
    User(u64),
    Status(OrderStatus),
    Side(OrderSide),
    Active,
}

impl OrderFilter {
    spec fn wants(&self, order: Order) -> bool {
        match self {
            OrderFilter::All => true,
            OrderFilter::Symbol(symbol) => order.symbol@ == symbol@,
            OrderFilter::User(user) => order.user_id == *user,
            OrderFilter::Status(status) => order.status == *status,
            OrderFilter::Side(side) => order.side == *side,
            OrderFilter::Active => is_active(order),
        }
    }

    fn accepts(&self, order: &Order) -> (yes: bool)
        ensures
            yes == self.wants(*order),
    {
        match self {
            OrderFilter::All => true,
            OrderFilter::Symbol(symbol) => order.symbol == *symbol,
            OrderFilter::User(user) => order.user_id == *user,
            OrderFilter::Status(status) => order.status == *status,
            OrderFilter::Side(side) => order.side == *side,
            OrderFilter::Active => order.status != OrderStatus::Filled && order.status
                != OrderStatus::Canceled,
        }
    }
}

/// The place of a status in the order New, PartiallyFilled, Filled,
/// Canceled, Rejected.
pub open spec fn status_number(status: OrderStatus) -> int {
    match status {
        OrderStatus::New => 0,
        OrderStatus::PartiallyFilled => 1,
        OrderStatus::Filled => 2,
        OrderStatus::Canceled => 3,
        OrderStatus::Rejected => 4,
    }
}

/// The status at place `k` of that order.
fn status_at(k: usize) -> (status: OrderStatus)
    requires
        k < 5,
    ensures
        status_number(status) == k,
{
    if k == 0 {
        OrderStatus::New
    } else if k == 1 {
        OrderStatus::PartiallyFilled
    } else if k == 2 {
        OrderStatus::Filled
    } else if k == 3 {
        OrderStatus::Canceled
    } else {
        OrderStatus::Rejected
    }
}

impl View for OrderStore {
    type V = Map<u64, Order>;

    closed spec fn view(&self) -> Map<u64, Order> {
        self.orders@
    }
}

impl OrderStore {
    /// Every order is stored under its own id.
    pub open spec fn well_formed(&self) -> bool {
        forall|id: u64| #[trigger] self@.contains_key(id) ==> self@[id].id == id
    }

    /// The path of the backing file, if the store has one.
    pub closed spec fn path(&self) -> Option<Seq<char>> {
        match self.file_path {
            Some(path) => Some(path@),
            None => None,
        }
    }

    /// Whether every change is to be written to the backing file at once.
    pub closed spec fn flushes(&self) -> bool {
        self.auto_flush
    }

    /// An empty store without a backing file.
    pub fn new() -> (store: Self)
        ensures
            store@ == Map::<u64, Order>::empty(),
            store.path() is None,
            !store.flushes(),
            store.well_formed(),
    {
        OrderStore { orders: HashMap::new(), file_path: None, auto_flush: false }
    }

    /// An empty store backed by the file at `file_path`. What that file
    /// holds is for the caller to read and to add.
    pub fn with_file(file_path: &str, auto_flush: bool) -> (store: Self)
        ensures
            store@ == Map::<u64, Order>::empty(),
            store.path() == Some(file_path@),
            store.flushes() == auto_flush,
            store.well_formed(),
    {
        OrderStore { orders: HashMap::new(), file_path: Some(file_path.to_owned()), auto_flush }
    }

    /// The path of the backing file, if the store has one.
    pub fn file_path(&self) -> (path: Option<&str>)
        ensures
            match path {
                Some(p) => self.path() == Some(p@),
                None => self.path() is None,
            },
    {
        match &self.file_path {
            Some(path) => Some(path.as_str()),
            None => None,
        }
    }

    /// Whether every change is to be written to the backing file at once.
    pub fn auto_flush(&self) -> (yes: bool)
        ensures
            yes == self.flushes(),
    {
        self.auto_flush
    }

    /// Stores `order` under its id, in place of any order stored under it.
    /// Returns whether the store is now to be written to its file.
    pub fn add_or_update_order(&mut self, order: Order) -> (flush: bool)
        requires
            old(self).well_formed(),
        ensures
            final(self)@ == old(self)@.insert(order.id, order),
            final(self).path() == old(self).path(),
            final(self).flushes() == old(self).flushes(),
            final(self).well_formed(),
            flush == old(self).flushes(),
    {
        broadcast use vstd::std_specs::hash::group_hash_axioms;

        self.orders.insert(order.id, order);
        assert forall|id: u64| #[trigger] self@.contains_key(id) implies self@[id].id == id by {
            if id != order.id {
                assert(old(self)@.contains_key(id));
            }
        }
        self.auto_flush
    }

    /// Stores `orders` one after the other. Returns whether the store is now
    /// to be written to its file.
    pub fn add_orders(&mut self, orders: Vec<Order>) -> (flush: bool)
        requires
            old(self).well_formed(),
        ensures
            final(self)@ == with_orders(old(self)@, orders@),
            final(self).path() == old(self).path(),
            final(self).flushes() == old(self).flushes(),
            final(self).well_formed(),
            flush == old(self).flushes(),
    {
        broadcast use vstd::std_specs::hash::group_hash_axioms;

        let ghost all = orders@;
        assert(all.take(0) =~= Seq::<Order>::empty());
        for order in it: orders.into_iter()
            invariant
                it.seq() == all,
                self.orders@ == with_orders(old(self)@, all.take(it.index())),
                self.file_path == old(self).file_path,
                self.auto_flush == old(self).auto_flush,
                self.well_formed(),
        {
            assert(all.take(it.index() + 1).drop_last() =~= all.take(it.index()));
            let ghost before = self@;
            assert(before == self.orders@);
            self.orders.insert(order.id, order);
            assert forall|id: u64| #[trigger] self@.contains_key(id) implies self@[id].id == id by {
                if id != order.id {
                    assert(before.contains_key(id));
                }
            }
        }
        assert(all.take(all.len() as int) =~= all);
        self.auto_flush
    }

    /// The order stored under `order_id`, if there is one.
    pub fn get_order(&self, order_id: u64) -> (order: Option<&Order>)
        ensures
            match order {
                Some(o) => self@.contains_key(order_id) && *o == self@[order_id],
                None => !self@.contains_key(order_id),
            },
    {
        broadcast use vstd::std_specs::hash::group_hash_axioms;

        self.orders.get(&order_id)
    }

    /// The stored orders that `filter` asks for, in no particular order.
    fn select(&self, filter: &OrderFilter) -> (found: Vec<&Order>)
        requires
            self.well_formed(),
        ensures
            lists_orders(found@, self@, |o: Order| filter.wants(o)),
            found@.len() == ids_of(self@, |o: Order| filter.wants(o)).len(),
    {
        broadcast use vstd::std_specs::hash::group_hash_axioms;

        let mut found: Vec<&Order> = Vec::new();
        let ghost stored = self.orders@;
        let ghost keys: Seq<&u64> = self.orders.keys().remaining();
        let ghost mut picked: Seq<int> = Seq::empty();
        let ghost mut slot: Map<int, int> = Map::empty();
        for key in it: self.orders.keys()
            invariant
                it.seq() == keys,
                keys == self.orders.keys().remaining(),
                stored == self.orders@,
                self.well_formed(),
                picked.len() == found.len(),
                forall|i: int|
                    0 <= i < found.len() ==> 0 <= #[trigger] picked[i] < it.index() && *keys[picked[i]]
                        == found@[i].id,
                forall|i: int, j: int|
                    0 <= i < j < found.len() ==> #[trigger] picked[i] < #[trigger] picked[j],
                forall|i: int|
                    0 <= i < found.len() ==> stored.contains_key((#[trigger] found@[i]).id)
                        && stored[found@[i].id] == *found@[i] && filter.wants(*found@[i]),
                forall|k: int|
                    0 <= k < it.index() && filter.wants(stored[*#[trigger] keys[k]])
                        ==> slot.contains_key(k) && 0 <= slot[k] < found.len() && *found@[slot[k]]
                        == stored[*keys[k]],
        {
            proof {
                assert(keys.unref()[it.index()] == *key);
                assert(keys.unref().to_set().contains(*key));
                assert(self@ == self.orders@);
                assert(self@.contains_key(*key));
            }
            let order = self.orders.get(key).unwrap();
            if filter.accepts(order) {
                proof {
                    slot = slot.insert(it.index(), found.len() as int);
                    picked = picked.push(it.index());
                }
                found.push(order);
            }
        }
        proof {
            assert forall|i: int, j: int| 0 <= i < j < found.len() implies (#[trigger] found@[i]).id
                != (#[trigger] found@[j]).id by {
                assert(picked[i] < picked[j]);
                assert(keys[picked[i]] != keys[picked[j]]);
            }
            assert forall|id: u64| #[trigger]
                stored.contains_key(id) && filter.wants(stored[id]) implies exists|i: int|
                0 <= i < found.len() && *(#[trigger] found@[i]) == stored[id] by {
                assert(keys.unref().to_set().contains(id));
                let k = choose|k: int| 0 <= k < keys.unref().len() && keys.unref()[k] == id;
                assert(*keys[k] == id);
                assert(slot.contains_key(k));
                assert(*found@[slot[k]] == stored[id]);
            }
            lemma_listing_counts(found@, stored, |o: Order| filter.wants(o));
        }
        found
    }

    /// All stored orders, in no particular order.
    pub fn get_all_orders(&self) -> (found: Vec<&Order>)
        requires
            self.well_formed(),
        ensures
            lists_orders(found@, self@, |o: Order| true),
            found@.len() == self@.len(),
    {
        let found = self.select(&OrderFilter::All);
        proof {
            assert(ids_of(self@, |o: Order| OrderFilter::All.wants(o)) =~= self@.dom());
        }
        found
    }

    /// The stored orders for `symbol`, in no particular order.
    pub fn get_orders_by_symbol(&self, symbol: &str) -> (found: Vec<&Order>)
        requires
            self.well_formed(),
        ensures
            lists_orders(found@, self@, |o: Order| o.symbol@ == symbol@),
    {
        self.select(&OrderFilter::Symbol(symbol.to_owned()))
    }

    /// The stored orders of `user_id`, in no particular order.
    pub fn get_orders_by_user(&self, user_id: u64) -> (found: Vec<&Order>)
        requires
            self.well_formed(),
        ensures
            lists_orders(found@, self@, |o: Order| o.user_id == user_id),
    {
        self.select(&OrderFilter::User(user_id))
    }

    /// The stored orders with `status`, in no particular order.
    pub fn get_orders_by_status(&self, status: OrderStatus) -> (found: Vec<&Order>)
        requires
            self.well_formed(),
        ensures
            lists_orders(found@, self@, |o: Order| o.status == status),
    {
        self.select(&OrderFilter::Status(status))
    }

    /// The stored orders that are neither filled nor canceled, in no
    /// particular order.
    pub fn get_active_orders(&self) -> (found: Vec<&Order>)
        requires
            self.well_formed(),
        ensures
            lists_orders(found@, self@, |o: Order| is_active(o)),
    {
        self.select(&OrderFilter::Active)
    }

    /// How many stored orders `filter` asks for.
    fn tally(&self, filter: &OrderFilter) -> (count: usize)
        requires
            self.well_formed(),
        ensures
            count == ids_of(self@, |o: Order| filter.wants(o)).len(),
            forall|id: u64|
                self@.contains_key(id) && filter.wants(#[trigger] self@[id]) ==> count > 0,
    {
        let found = self.select(filter);
        found.len()
    }

    /// The number of stored orders of each side that has any.
    pub fn order_count_by_side(&self) -> (tally: Vec<(OrderSide, usize)>)
        requires
            self.well_formed(),
        ensures
            tallies_sides(tally@, self@),
    {
        let mut tally: Vec<(OrderSide, usize)> = Vec::new();
        let buys = self.tally(&OrderFilter::Side(OrderSide::Buy));
        let sells = self.tally(&OrderFilter::Side(OrderSide::Sell));
        proof {
            assert(ids_of(self@, |o: Order| OrderFilter::Side(OrderSide::Buy).wants(o)) =~= ids_of(
                self@,
                |o: Order| o.side == OrderSide::Buy,
            ));
            assert(ids_of(self@, |o: Order| OrderFilter::Side(OrderSide::Sell).wants(o)) =~= ids_of(
                self@,
                |o: Order| o.side == OrderSide::Sell,
            ));
        }
        if buys > 0 {
            tally.push((OrderSide::Buy, buys));
        }
        if sells > 0 {
            tally.push((OrderSide::Sell, sells));
        }
        proof {
            assert forall|id: u64| #[trigger] self@.contains_key(id) implies exists|j: int|
                0 <= j < tally.len() && (#[trigger] tally@[j]).0 == self@[id].side by {
                if self@[id].side == OrderSide::Buy {
                    assert(OrderFilter::Side(OrderSide::Buy).wants(self@[id]));
                    assert(tally@[0].0 == OrderSide::Buy);
                } else {
                    assert(OrderFilter::Side(OrderSide::Sell).wants(self@[id]));
                    assert(tally@[tally.len() - 1].0 == OrderSide::Sell);
                }
            }
        }
        tally
    }

    /// The number of stored orders of each status that has any.
    pub fn order_count_by_status(&self) -> (tally: Vec<(OrderStatus, usize)>)
        requires
            self.well_formed(),
        ensures
            tallies_statuses(tally@, self@),
    {
        let mut tally: Vec<(OrderStatus, usize)> = Vec::new();
        let ghost mut slot: Map<OrderStatus, int> = Map::empty();
        let mut k: usize = 0;
        while k < 5
            invariant
                0 <= k <= 5,
                self.well_formed(),
                forall|j: int|
                    0 <= j < tally.len() ==> (#[trigger] tally@[j]).1 > 0 && tally@[j].1 == ids_of(
                        self@,
                        |o: Order| o.status == tally@[j].0,
                    ).len() && status_number(tally@[j].0) < k,
                forall|i: int, j: int|
                    0 <= i < j < tally.len() ==> status_number((#[trigger] tally@[i]).0)
                        < status_number((#[trigger] tally@[j]).0),
                forall|id: u64|
                    self@.contains_key(id) && status_number(#[trigger] self@[id].status) < k
                        ==> slot.contains_key(self@[id].status) && 0 <= slot[self@[id].status]
                        < tally.len() && tally@[slot[self@[id].status]].0 == self@[id].status,
            decreases 5 - k,
        {
            let status = status_at(k);
            let count = self.tally(&OrderFilter::Status(status));
            proof {
                assert(ids_of(self@, |o: Order| OrderFilter::Status(status).wants(o)) =~= ids_of(
                    self@,
                    |o: Order| o.status == status,
                ));
            }
            if count > 0 {
                proof {
                    slot = slot.insert(status, tally.len() as int);
                }
                tally.push((status, count));
            } else {
                assert forall|id: u64| self@.contains_key(id) implies (#[trigger] self@[id]).status
                    != status by {
                    if self@[id].status == status {
                        assert(OrderFilter::Status(status).wants(self@[id]));
                    }
                }
            }
            k = k + 1;
        }
        proof {
            assert forall|id: u64| #[trigger] self@.contains_key(id) implies exists|j: int|
                0 <= j < tally.len() && (#[trigger] tally@[j]).0 == self@[id].status by {
                assert(status_number(self@[id].status) < 5);
                assert(tally@[slot[self@[id].status]].0 == self@[id].status);
            }
        }
        tally
    }

    /// The number of stored orders of each symbol that has any.
    pub fn order_count_by_symbol(&self) -> (tally: Vec<(String, usize)>)
        requires
            self.well_formed(),
        ensures
            tallies_symbols(tally@, self@),
    {
        let mut tally: Vec<(String, usize)> = Vec::new();
        let all = self.select(&OrderFilter::All);
        let ghost mut slot: Map<int, int> = Map::empty();
        let mut n: usize = 0;
        while n < all.len()
            invariant
                0 <= n <= all.len(),
                self.well_formed(),
                lists_orders(all@, self@, |o: Order| OrderFilter::All.wants(o)),
                forall|j: int|
                    0 <= j < tally.len() ==> (#[trigger] tally@[j]).1 > 0 && tally@[j].1 == ids_of(
                        self@,
                        |o: Order| o.symbol@ == tally@[j].0@,
                    ).len(),
                forall|i: int, j: int|
                    0 <= i < j < tally.len() ==> (#[trigger] tally@[i]).0@ != (#[trigger] tally@[j]).0@,
                forall|i: int|
                    0 <= i < n ==> slot.contains_key(i) && 0 <= slot[i] < tally.len()
                        && tally@[slot[i]].0@ == (#[trigger] all@[i]).symbol@,
            decreases all.len() - n,
        {
            let order = all[n];
            let mut j: usize = 0;
            while j < tally.len() && !(tally[j].0 == order.symbol)
                invariant
                    0 <= j <= tally.len(),
                    forall|i: int| 0 <= i < j ==> (#[trigger] tally@[i]).0@ != order.symbol@,
                decreases tally.len() - j,
            {
                j = j + 1;
            }
            if j == tally.len() {
                let symbol = order.symbol.clone();
                let count = self.tally(&OrderFilter::Symbol(order.symbol.clone()));
                proof {
                    assert(ids_of(self@, |o: Order| OrderFilter::Symbol(order.symbol).wants(o))
                        =~= ids_of(self@, |o: Order| o.symbol@ == symbol@));
                    assert(self@.contains_key(order.id) && self@[order.id] == *order);
                    assert(OrderFilter::Symbol(order.symbol).wants(self@[order.id]));
                }
                tally.push((symbol, count));
            }
            proof {
                slot = slot.insert(n as int, j as int);
            }
            n = n + 1;
        }
        proof {
            assert forall|id: u64| #[trigger] self@.contains_key(id) implies exists|j: int|
                0 <= j < tally.len() && (#[trigger] tally@[j]).0@ == self@[id].symbol@ by {
                assert(OrderFilter::All.wants(self@[id]));
                let i = choose|i: int| 0 <= i < all@.len() && *(#[trigger] all@[i]) == self@[id];
                assert(slot.contains_key(i));
                assert(tally@[slot[i]].0@ == self@[id].symbol@);
            }
        }
        tally
    }

    /// How many orders are stored.
    pub fn count(&self) -> (count: usize)
        ensures
            count == self@.len(),
    {
        broadcast use vstd::std_specs::hash::group_hash_axioms;

        self.orders.len()
    }

    /// Forgets all orders. Returns whether the store is now to be written
    /// to its file.
    pub fn clear(&mut self) -> (flush: bool)
        ensures
            final(self)@ == Map::<u64, Order>::empty(),
            final(self).path() == old(self).path(),
            final(self).flushes() == old(self).flushes(),
            final(self).well_formed(),
            flush == old(self).flushes(),
    {
        broadcast use vstd::std_specs::hash::group_hash_axioms;

        self.orders.clear();
        self.auto_flush
    }
}

/// A listing is as long as there are ids of wanted orders.
pub proof fn lemma_listing_counts(
    found: Seq<&Order>,
    stored: Map<u64, Order>,
    wanted: spec_fn(Order) -> bool,
)
    requires
        stored.dom().finite(),
        forall|id: u64| #[trigger] stored.contains_key(id) ==> stored[id].id == id,
        lists_orders(found, stored, wanted),
    ensures
        found.len() == ids_of(stored, wanted).len(),
{
    let ids = found.map_values(|o: &Order| o.id);
    assert(ids.no_duplicates());
    ids.unique_seq_to_set();
    assert(ids.to_set() =~= ids_of(stored, wanted)) by {
        assert forall|id: u64| ids_of(stored, wanted).contains(id) implies ids.to_set().contains(
            id,
        ) by {
            let i = choose|i: int| 0 <= i < found.len() && *(#[trigger] found[i]) == stored[id];
            assert(ids[i] == found[i].id);
        }
        assert forall|id: u64| ids.to_set().contains(id) implies ids_of(stored, wanted).contains(
            id,
        ) by {
            let i = choose|i: int| 0 <= i < ids.len() && ids[i] == id;
            assert(stored.contains_key(found[i].id));
        }
    }
}

} // verus!
