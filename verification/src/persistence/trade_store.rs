//! A store of trades by trade id.

use crate::models::trade::Trade;
use std::collections::HashMap;
use vstd::prelude::*;
use vstd::std_specs::iter::IteratorSpec;

verus! {

/// Trades by id, with the file that backs them, if any.
pub struct TradeStore {
    trades: HashMap<u64, Trade>,
    file_path: Option<String>,
    auto_flush: bool,
}

/// The store after it has taken `trades` one after the other: a later
/// trade replaces an earlier one with the same id.
pub open spec fn with_trades(stored: Map<u64, Trade>, trades: Seq<Trade>) -> Map<u64, Trade>
    decreases trades.len(),
{
    if trades.len() == 0 {
        stored
    } else {
        with_trades(stored, trades.drop_last()).insert(trades.last().id, trades.last())
    }
}

/// Whether `found` lists the stored trades that are `wanted`: only those,
/// all of those, and each once.
pub open spec fn lists_trades(
    found: Seq<&Trade>,
    stored: Map<u64, Trade>,
    wanted: spec_fn(Trade) -> bool,
) -> bool {
    &&& forall|i: int|
        0 <= i < found.len() ==> stored.contains_key((#[trigger] found[i]).id) && stored[found[i].id]
            == *found[i] && wanted(*found[i])
    &&& forall|id: u64| #[trigger]
        stored.contains_key(id) && wanted(stored[id]) ==> exists|i: int|
            0 <= i < found.len() && *(#[trigger] found[i]) == stored[id]
    &&& forall|i: int, j: int|
        0 <= i < j < found.len() ==> (#[trigger] found[i]).id != (#[trigger] found[j]).id
}

/// Whether `found` lists the stored trades for `symbol`, each once.
pub open spec fn lists_symbol(
    found: Seq<&Trade>,
    stored: Map<u64, Trade>,
    symbol: Seq<char>,
) -> bool {
    lists_trades(found, stored, |t: Trade| t.symbol@ == symbol)
}

/// The sum of the quantities of the listed trades.
pub open spec fn quantity_sum(found: Seq<&Trade>) -> nat
    decreases found.len(),
{
    if found.len() == 0 {
        0
    } else {
        quantity_sum(found.drop_last()) + found.last().quantity as nat
    }
}

/// Whether the traded volume of every symbol fits in 64 bits.
pub open spec fn volumes_fit(stored: Map<u64, Trade>) -> bool {
    forall|found: Seq<&Trade>, symbol: Seq<char>| #[trigger]
        lists_symbol(found, stored, symbol) ==> quantity_sum(found) <= u64::MAX
}

/// Whether `volume` is the traded volume of `symbol`: the sum of the
/// quantities over a listing of its trades, of which there is at least one.
pub open spec fn is_volume_of(volume: u64, symbol: Seq<char>, stored: Map<u64, Trade>) -> bool {
    exists|found: Seq<&Trade>| #[trigger]
        lists_symbol(found, stored, symbol) && found.len() > 0 && volume == quantity_sum(found)
}

/// Whether `volumes` gives the traded volume by symbol: a symbol with
/// trades is listed once, with the sum of the quantities of its trades, each
/// trade counted once, and no other symbol is listed.
pub open spec fn sums_symbols(volumes: Seq<(String, u64)>, stored: Map<u64, Trade>) -> bool {
    &&& forall|j: int|
        0 <= j < volumes.len() ==> is_volume_of(
            (#[trigger] volumes[j]).1,
            volumes[j].0@,
            stored,
        )
    &&& forall|i: int, j: int|
        0 <= i < j < volumes.len() ==> (#[trigger] volumes[i]).0@ != (#[trigger] volumes[j]).0@
    &&& forall|id: u64| #[trigger]
        stored.contains_key(id) ==> exists|j: int|
            0 <= j < volumes.len() && (#[trigger] volumes[j]).0@ == stored[id].symbol@
}

/// The quantities of the first trades of a listing sum to no more than
/// those of the whole listing.
pub proof fn lemma_quantity_sum_grows(found: Seq<&Trade>, n: int)
    requires
        0 <= n <= found.len(),
    ensures
        quantity_sum(found.take(n)) <= quantity_sum(found),
    decreases found.len(),
{
    if n == found.len() {
        assert(found.take(n) =~= found);
    } else {
        lemma_quantity_sum_grows(found.drop_last(), n);
        assert(found.drop_last().take(n) =~= found.take(n));
    }
}

/// The sum of the quantities of the listed trades, where it fits in 64
/// bits.
fn sum_quantities(found: &Vec<&Trade>) -> (total: u64)
    requires
        quantity_sum(found@) <= u64::MAX,
    ensures
        total == quantity_sum(found@),
{
    let mut total: u64 = 0;
    let mut i: usize = 0;
    assert(found@.take(0) =~= Seq::<&Trade>::empty());
    while i < found.len()
        invariant
            0 <= i <= found.len(),
            total == quantity_sum(found@.take(i as int)),
            quantity_sum(found@) <= u64::MAX,
        decreases found.len() - i,
    {
        proof {
            lemma_quantity_sum_grows(found@, i + 1);
            assert(found@.take(i + 1).drop_last() =~= found@.take(i as int));
        }
        total = total + found[i].quantity;
        i = i + 1;
    }
    assert(found@.take(found.len() as int) =~= found@);
    total
}

/// Which trades a query asks for.
enum TradeFilter {
    All,
    Symbol(String),
    User(u64),
}

impl TradeFilter {
    spec fn wants(&self, trade: Trade) -> bool {
        match self {
            TradeFilter::All => true,
            TradeFilter::Symbol(symbol) => trade.symbol@ == symbol@,
            TradeFilter::User(user) => trade.buy_user_id == *user || trade.sell_user_id == *user,
        }
    }

    fn accepts(&self, trade: &Trade) -> (yes: bool)
        ensures
            yes == self.wants(*trade),
    {
        match self {
            TradeFilter::All => true,
            TradeFilter::Symbol(symbol) => trade.symbol == *symbol,
            TradeFilter::User(user) => trade.buy_user_id == *user || trade.sell_user_id == *user,
        }
    }
}

impl View for TradeStore {
    type V = Map<u64, Trade>;

    closed spec fn view(&self) -> Map<u64, Trade> {
        self.trades@
    }
}

impl TradeStore {
    /// Every trade is stored under its own id.
    pub open spec fn well_formed(&self) -> bool {
        forall|id: u64| #[trigger] self@.contains_key(id) ==> self@[id].id == id
    }

    /// The path of the backing file, if the store has one.
    pub closed spec fn path(&self) -> Option<Seq<char>> {
        match self.file_path {
            Some(path) => Some(path@),
            None => None,
        }
    }

    /// Whether every change is to be written to the backing file at once.
    pub closed spec fn flushes(&self) -> bool {
        self.auto_flush
    }

    /// An empty store without a backing file.
    pub fn new() -> (store: Self)
        ensures
            store@ == Map::<u64, Trade>::empty(),
            store.path() is None,
            !store.flushes(),
            store.well_formed(),
    {
        TradeStore { trades: HashMap::new(), file_path: None, auto_flush: false }
    }

    /// An empty store backed by the file at `file_path`. What that file
    /// holds is for the caller to read and to add.
    pub fn with_file(file_path: &str, auto_flush: bool) -> (store: Self)
        ensures
            store@ == Map::<u64, Trade>::empty(),
            store.path() == Some(file_path@),
            store.flushes() == auto_flush,
            store.well_formed(),
    {
        TradeStore { trades: HashMap::new(), file_path: Some(file_path.to_owned()), auto_flush }
    }

    /// The path of the backing file, if the store has one.
    pub fn file_path(&self) -> (path: Option<&str>)
        ensures
            match path {
                Some(p) => self.path() == Some(p@),
                None => self.path() is None,
            },
    {
        match &self.file_path {
            Some(path) => Some(path.as_str()),
            None => None,
        }
    }

    /// Whether every change is to be written to the backing file at once.
    pub fn auto_flush(&self) -> (yes: bool)
        ensures
            yes == self.flushes(),
    {
        self.auto_flush
    }

    /// Stores `trade` under its id, in place of any trade stored under it.
    /// Returns whether the store is now to be written to its file.
    pub fn add_trade(&mut self, trade: Trade) -> (flush: bool)
        requires
            old(self).well_formed(),
        ensures
            final(self)@ == old(self)@.insert(trade.id, trade),
            final(self).path() == old(self).path(),
            final(self).flushes() == old(self).flushes(),
            final(self).well_formed(),
            flush == old(self).flushes(),
    {
        broadcast use vstd::std_specs::hash::group_hash_axioms;

        self.trades.insert(trade.id, trade);
        assert forall|id: u64| #[trigger] self@.contains_key(id) implies self@[id].id == id by {
            if id != trade.id {
                assert(old(self)@.contains_key(id));
            }
        }
        self.auto_flush
    }

    /// Stores `trades` one after the other. Returns whether the store is now
    /// to be written to its file.
    pub fn add_trades(&mut self, trades: Vec<Trade>) -> (flush: bool)
        requires
            old(self).well_formed(),
        ensures
            final(self)@ == with_trades(old(self)@, trades@),
            final(self).path() == old(self).path(),
            final(self).flushes() == old(self).flushes(),
            final(self).well_formed(),
            flush == old(self).flushes(),
    {
        broadcast use vstd::std_specs::hash::group_hash_axioms;

        let ghost all = trades@;
        assert(all.take(0) =~= Seq::<Trade>::empty());
        for trade in it: trades.into_iter()
            invariant
                it.seq() == all,
                self.trades@ == with_trades(old(self)@, all.take(it.index())),
                self.file_path == old(self).file_path,
                self.auto_flush == old(self).auto_flush,
                self.well_formed(),
        {
            assert(all.take(it.index() + 1).drop_last() =~= all.take(it.index()));
            let ghost before = self@;
            assert(before == self.trades@);
            self.trades.insert(trade.id, trade);
            assert forall|id: u64| #[trigger] self@.contains_key(id) implies self@[id].id == id by {
                if id != trade.id {
                    assert(before.contains_key(id));
                }
            }
        }
        assert(all.take(all.len() as int) =~= all);
        self.auto_flush
    }

    /// The trade stored under `trade_id`, if there is one.
    pub fn get_trade(&self, trade_id: u64) -> (trade: Option<&Trade>)
        ensures
            match trade {
                Some(t) => self@.contains_key(trade_id) && *t == self@[trade_id],
                None => !self@.contains_key(trade_id),
            },
    {
        broadcast use vstd::std_specs::hash::group_hash_axioms;

        self.trades.get(&trade_id)
    }

    /// The stored trades that `filter` asks for, in no particular order.
    fn select(&self, filter: &TradeFilter) -> (found: Vec<&Trade>)
        requires
            self.well_formed(),
        ensures
            lists_trades(found@, self@, |t: Trade| filter.wants(t)),
    {
        broadcast use vstd::std_specs::hash::group_hash_axioms;

        let mut found: Vec<&Trade> = Vec::new();
        let ghost stored = self.trades@;
        let ghost keys: Seq<&u64> = self.trades.keys().remaining();
        let ghost mut picked: Seq<int> = Seq::empty();
        let ghost mut slot: Map<int, int> = Map::empty();
        for key in it: self.trades.keys()
            invariant
                it.seq() == keys,
                keys == self.trades.keys().remaining(),
                stored == self.trades@,
                self.well_formed(),
                picked.len() == found.len(),
                forall|i: int|
                    0 <= i < found.len() ==> 0 <= #[trigger] picked[i] < it.index() && *keys[picked[i]]
                        == found@[i].id,
                forall|i: int, j: int|
                    0 <= i < j < found.len() ==> #[trigger] picked[i] < #[trigger] picked[j],
                forall|i: int|
                    0 <= i < found.len() ==> stored.contains_key((#[trigger] found@[i]).id)
                        && stored[found@[i].id] == *found@[i] && filter.wants(*found@[i]),
                forall|k: int|
                    0 <= k < it.index() && filter.wants(stored[*#[trigger] keys[k]])
                        ==> slot.contains_key(k) && 0 <= slot[k] < found.len() && *found@[slot[k]]
                        == stored[*keys[k]],
        {
            proof {
                assert(keys.unref()[it.index()] == *key);
                assert(keys.unref().to_set().contains(*key));
                assert(self@ == self.trades@);
                assert(self@.contains_key(*key));
            }
            let trade = self.trades.get(key).unwrap();
            if filter.accepts(trade) {
                proof {
                    slot = slot.insert(it.index(), found.len() as int);
                    picked = picked.push(it.index());
                }
                found.push(trade);
            }
        }
        proof {
            assert forall|i: int, j: int| 0 <= i < j < found.len() implies (#[trigger] found@[i]).id
                != (#[trigger] found@[j]).id by {
                assert(picked[i] < picked[j]);
                assert(keys[picked[i]] != keys[picked[j]]);
            }
            assert forall|id: u64| #[trigger]
                stored.contains_key(id) && filter.wants(stored[id]) implies exists|i: int|
                0 <= i < found.len() && *(#[trigger] found@[i]) == stored[id] by {
                assert(keys.unref().to_set().contains(id));
                let k = choose|k: int| 0 <= k < keys.unref().len() && keys.unref()[k] == id;
                assert(*keys[k] == id);
                assert(slot.contains_key(k));
                assert(*found@[slot[k]] == stored[id]);
            }
        }
        found
    }

    /// All stored trades, in no particular order.
    pub fn get_all_trades(&self) -> (found: Vec<&Trade>)
        requires
            self.well_formed(),
        ensures
            lists_trades(found@, self@, |t: Trade| true),
            found@.len() == self@.len(),
    {
        broadcast use vstd::std_specs::hash::group_hash_axioms;

        let found = self.select(&TradeFilter::All);
        proof {
            lemma_listing_is_complete(found@, self@);
        }
        found
    }

    /// The stored trades for `symbol`, in no particular order.
    pub fn get_trades_by_symbol(&self, symbol: &str) -> (found: Vec<&Trade>)
        requires
            self.well_formed(),
        ensures
            lists_trades(found@, self@, |t: Trade| t.symbol@ == symbol@),
    {
        self.select(&TradeFilter::Symbol(symbol.to_owned()))
    }

    /// The stored trades that `user_id` bought or sold in, in no particular
    /// order.
    pub fn get_trades_by_user(&self, user_id: u64) -> (found: Vec<&Trade>)
        requires
            self.well_formed(),
        ensures
            lists_trades(
                found@,
                self@,
                |t: Trade| t.buy_user_id == user_id || t.sell_user_id == user_id,
            ),
    {
        self.select(&TradeFilter::User(user_id))
    }

    /// The traded volume of each symbol that has trades.
    pub fn volume_by_symbol(&self) -> (volumes: Vec<(String, u64)>)
        requires
            self.well_formed(),
            volumes_fit(self@),
        ensures
            sums_symbols(volumes@, self@),
    {
        let mut volumes: Vec<(String, u64)> = Vec::new();
        let all = self.select(&TradeFilter::All);
        let ghost mut homes: Seq<int> = Seq::empty();
        let mut n: usize = 0;
        while n < all.len()
            invariant
                0 <= n <= all.len(),
                self.well_formed(),
                volumes_fit(self@),
                lists_trades(all@, self@, |t: Trade| TradeFilter::All.wants(t)),
                forall|j: int|
                    0 <= j < volumes.len() ==> is_volume_of(
                        (#[trigger] volumes@[j]).1,
                        volumes@[j].0@,
                        self@,
                    ),
                forall|i: int, j: int|
                    0 <= i < j < volumes.len() ==> (#[trigger] volumes@[i]).0@ != (
                    #[trigger] volumes@[j]).0@,
                homes.len() == n,
                forall|i: int|
                    0 <= i < n ==> 0 <= #[trigger] homes[i] < volumes.len() && volumes@[homes[i]].0@
                        == all@[i].symbol@,
            decreases all.len() - n,
        {
            let trade = all[n];
            let mut j: usize = 0;
            while j < volumes.len() && !(volumes[j].0 == trade.symbol)
                invariant
                    0 <= j <= volumes.len(),
                    forall|i: int| 0 <= i < j ==> (#[trigger] volumes@[i]).0@ != trade.symbol@,
                decreases volumes.len() - j,
            {
                j = j + 1;
            }
            if j == volumes.len() {
                let symbol = trade.symbol.clone();
                let found = self.select(&TradeFilter::Symbol(trade.symbol.clone()));
                proof {
                    assert(self@.contains_key(trade.id) && self@[trade.id] == *trade);
                    assert(TradeFilter::Symbol(trade.symbol).wants(self@[trade.id]));
                    assert(lists_symbol(found@, self@, symbol@));
                    assert(found@.len() > 0);
                }
                let total = sum_quantities(&found);
                assert(is_volume_of(total, symbol@, self@));
                volumes.push((symbol, total));
            }
            proof {
                homes = homes.push(j as int);
            }
            n = n + 1;
        }
        proof {
            assert forall|id: u64| #[trigger] self@.contains_key(id) implies exists|j: int|
                0 <= j < volumes.len() && (#[trigger] volumes@[j]).0@ == self@[id].symbol@ by {
                assert(TradeFilter::All.wants(self@[id]));
                let i = choose|i: int| 0 <= i < all@.len() && *(#[trigger] all@[i]) == self@[id];
                assert(volumes@[homes[i]].0@ == self@[id].symbol@);
            }
        }
        volumes
    }

    /// How many trades are stored.
    pub fn count(&self) -> (count: usize)
        ensures
            count == self@.len(),
    {
        broadcast use vstd::std_specs::hash::group_hash_axioms;

        self.trades.len()
    }

    /// Forgets all trades. Returns whether the store is now to be written
    /// to its file.
    pub fn clear(&mut self) -> (flush: bool)
        ensures
            final(self)@ == Map::<u64, Trade>::empty(),
            final(self).path() == old(self).path(),
            final(self).flushes() == old(self).flushes(),
            final(self).well_formed(),
            flush == old(self).flushes(),
    {
        broadcast use vstd::std_specs::hash::group_hash_axioms;

        self.trades.clear();
        self.auto_flush
    }
}

/// A listing of all stored trades is as long as the store is large.
pub proof fn lemma_listing_is_complete(found: Seq<&Trade>, stored: Map<u64, Trade>)
    requires
        stored.dom().finite(),
        forall|id: u64| #[trigger] stored.contains_key(id) ==> stored[id].id == id,
        lists_trades(found, stored, |t: Trade| true),
    ensures
        found.len() == stored.len(),
{
    let ids = found.map_values(|t: &Trade| t.id);
    assert(ids.no_duplicates());
    ids.unique_seq_to_set();
    assert(ids.to_set() =~= stored.dom()) by {
        assert forall|id: u64| stored.dom().contains(id) implies ids.to_set().contains(id) by {
            let i = choose|i: int| 0 <= i < found.len() && *(#[trigger] found[i]) == stored[id];
            assert(stored[found[i].id] == *found[i]);
            assert(ids[i] == found[i].id);
        }
        assert forall|id: u64| ids.to_set().contains(id) implies stored.dom().contains(id) by {
            let i = choose|i: int| 0 <= i < ids.len() && ids[i] == id;
            assert(stored.contains_key(found[i].id));
        }
    }
}

} // verus!
