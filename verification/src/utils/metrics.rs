//! A histogram of observations in power-of-two buckets.

use std::collections::HashMap;
use vstd::prelude::*;
use vstd::std_specs::bits::u64_leading_zeros;
use vstd::std_specs::iter::IteratorSpec;

verus! {

/// Counts of observations by bucket, with their number, sum and extremes.
#[derive(Debug)]
pub struct Histogram {
    counts: HashMap<u64, u64>,
    count: u64,
    sum: u64,
    min: Option<u64>,
    max: Option<u64>,
}

/// The mathematical model of a histogram.
pub struct HistogramView {
    /// The number of observations in each bucket that has any.
    pub counts: Map<u64, u64>,
    pub count: u64,
    pub sum: u64,
    pub min: Option<u64>,
    pub max: Option<u64>,
}

/// The bucket of a value: the greatest power of two that is not above it,
/// and 0 for 0.
pub open spec fn bucket_of(value: nat) -> nat
    decreases value,
{
    if value <= 1 {
        value
    } else {
        2 * bucket_of(value / 2)
    }
}

/// The buckets in ascending order: 0, then the powers of two that fit in
/// 64 bits. There are 65 of them.
pub open spec fn bucket_number(k: nat) -> u64 {
    if k == 0 {
        0
    } else {
        1u64 << ((k - 1) as u64)
    }
}

/// The number of observations in bucket `b`.
pub open spec fn count_at(counts: Map<u64, u64>, b: u64) -> nat {
    if counts.contains_key(b) {
        counts[b] as nat
    } else {
        0
    }
}

/// The number of observations in the first `k` buckets.
pub open spec fn cumulative(counts: Map<u64, u64>, k: nat) -> nat
    decreases k,
{
    if k == 0 {
        0
    } else {
        cumulative(counts, (k - 1) as nat) + count_at(counts, bucket_number((k - 1) as nat))
    }
}

/// The first bucket from number `k` on that holds observations and with
/// which the buckets up to it hold at least `rank` of them.
pub open spec fn bucket_at_rank(counts: Map<u64, u64>, rank: u64, k: nat) -> Option<u64>
    decreases 65 - k,
{
    if k >= 65 {
        None
    } else if counts.contains_key(bucket_number(k)) && cumulative(counts, k + 1) >= rank {
        Some(bucket_number(k))
    } else {
        bucket_at_rank(counts, rank, k + 1)
    }
}

/// The smaller of two optional values, where `None` stands for no value.
pub open spec fn least(a: Option<u64>, b: Option<u64>) -> Option<u64> {
    match (a, b) {
        (None, _) => b,
        (_, None) => a,
        (Some(x), Some(y)) => Some(if x <= y {
            x
        } else {
            y
        }),
    }
}

/// The greater of two optional values, where `None` stands for no value.
pub open spec fn greatest(a: Option<u64>, b: Option<u64>) -> Option<u64> {
    match (a, b) {
        (None, _) => b,
        (_, None) => a,
        (Some(x), Some(y)) => Some(if x >= y {
            x
        } else {
            y
        }),
    }
}

/// The counts of two histograms added bucket by bucket.
pub open spec fn merged_counts(a: Map<u64, u64>, b: Map<u64, u64>) -> Map<u64, u64> {
    Map::new(
        |k: u64| a.contains_key(k) || b.contains_key(k),
        |k: u64| (count_at(a, k) + count_at(b, k)) as u64,
    )
}

impl HistogramView {
    /// No bucket holds more observations than there are, and every bucket
    /// is one of the 65.
    pub open spec fn well_formed(self) -> bool {
        &&& forall|b: u64| #[trigger] self.counts.contains_key(b) ==> self.counts[b] <= self.count
        &&& forall|b: u64| #[trigger]
            self.counts.contains_key(b) ==> exists|k: nat| k < 65 && b == #[trigger] bucket_number(k)
    }

    /// The histogram after one more observation.
    pub open spec fn observed(self, value: u64) -> HistogramView {
        let bucket = bucket_of(value as nat) as u64;
        HistogramView {
            counts: self.counts.insert(bucket, (count_at(self.counts, bucket) + 1) as u64),
            count: (self.count + 1) as u64,
            sum: (self.sum + value) as u64,
            min: least(self.min, Some(value)),
            max: greatest(self.max, Some(value)),
        }
    }

    /// The histogram of the observations of both.
    pub open spec fn merged(self, other: HistogramView) -> HistogramView {
        HistogramView {
            counts: merged_counts(self.counts, other.counts),
            count: (self.count + other.count) as u64,
            sum: (self.sum + other.sum) as u64,
            min: least(self.min, other.min),
            max: greatest(self.max, other.max),
        }
    }

    /// The rank of the median among `count` observations: half of them,
    /// rounded up.
    pub open spec fn median_rank(self) -> u64 {
        (self.count / 2 + self.count % 2) as u64
    }
}

/// The bucket of a value is the power of two at its highest set bit.
pub proof fn lemma_bucket_is_highest_bit(value: u64)
    requires
        value >= 1,
    ensures
        0 <= u64_leading_zeros(value) <= 63,
        bucket_of(value as nat) == 1u64 << ((63 - u64_leading_zeros(value)) as u64),
        bucket_of(value as nat) == bucket_number((64 - u64_leading_zeros(value)) as nat),
        bucket_of(value as nat) <= value,
    decreases value,
{
    reveal(u64_leading_zeros);
    if value == 1 {
        assert(u64_leading_zeros(0) == 64);
        assert(1u64 << 0u64 == 1u64) by (bit_vector);
    } else {
        let half = (value / 2) as u64;
        lemma_bucket_is_highest_bit(half);
        let k = (63 - u64_leading_zeros(half)) as u64;
        let low = 1u64 << k;
        assert(low <= half);
        assert(k < 63) by {
            assert(k <= 63 && (1u64 << k) < 0x8000_0000_0000_0000u64 ==> k < 63) by (bit_vector);
        }
        assert(1u64 << ((k + 1) as u64) == 2 * (1u64 << k)) by (bit_vector)
            requires
                k < 63,
        ;
    }
}

impl View for Histogram {
    type V = HistogramView;

    closed spec fn view(&self) -> HistogramView {
        HistogramView {
            counts: self.counts@,
            count: self.count,
            sum: self.sum,
            min: self.min,
            max: self.max,
        }
    }
}

impl Clone for Histogram {
    fn clone(&self) -> (copy: Self)
        ensures
            copy@ == self@,
    {
        Histogram {
            counts: self.counts.clone(),
            count: self.count,
            sum: self.sum,
            min: self.min,
            max: self.max,
        }
    }
}

impl Default for Histogram {
    fn default() -> (histogram: Self)
        ensures
            histogram@ == (HistogramView {
                counts: Map::empty(),
                count: 0,
                sum: 0,
                min: None,
                max: None,
            }),
    {
        Histogram::new()
    }
}

impl Histogram {
    /// The invariant that every operation of the histogram keeps.
    pub open spec fn well_formed(&self) -> bool {
        self@.well_formed()
    }

    /// A histogram without observations.
    pub fn new() -> (histogram: Self)
        ensures
            histogram@ == (HistogramView {
                counts: Map::empty(),
                count: 0,
                sum: 0,
                min: None,
                max: None,
            }),
            histogram.well_formed(),
    {
        Histogram { counts: HashMap::new(), count: 0, sum: 0, min: None, max: None }
    }

    /// The bucket of `value`: the greatest power of two that is not above
    /// it, and 0 for 0.
    fn bucket_for(&self, value: u64) -> (bucket: u64)
        ensures
            bucket == bucket_of(value as nat),
            exists|k: nat| k < 65 && bucket == #[trigger] bucket_number(k),
    {
        if value == 0 {
            assert(0 == bucket_number(0));
            return 0;
        }
        proof {
            lemma_bucket_is_highest_bit(value);
        }
        let highest_bit: u32 = 63 - value.leading_zeros();
        assert(bucket_of(value as nat) == bucket_number((64 - u64_leading_zeros(value)) as nat));
        1u64 << highest_bit
    }

    /// Records one observation.
    pub fn observe(&mut self, value: u64)
        requires
            old(self).well_formed(),
            old(self)@.count < u64::MAX,
            old(self)@.sum + value <= u64::MAX,
        ensures
            final(self)@ == old(self)@.observed(value),
            final(self).well_formed(),
    {
        broadcast use vstd::std_specs::hash::group_hash_axioms;

        let bucket = self.bucket_for(value);
        let seen = match self.counts.get(&bucket) {
            Some(n) => *n,
            None => 0,
        };
        self.counts.insert(bucket, seen + 1);
        self.count = self.count + 1;
        self.sum = self.sum + value;
        self.min = match self.min {
            None => Some(value),
            Some(min) => Some(if min <= value {
                min
            } else {
                value
            }),
        };
        self.max = match self.max {
            None => Some(value),
            Some(max) => Some(if max >= value {
                max
            } else {
                value
            }),
        };
        proof {
            assert forall|b: u64| #[trigger] self@.counts.contains_key(b) implies self@.counts[b]
                <= self@.count && exists|k: nat| k < 65 && b == #[trigger] bucket_number(k) by {
                if b != bucket {
                    assert(old(self)@.counts.contains_key(b));
                }
            }
        }
    }

    /// The number of observations.
    pub fn count(&self) -> (count: u64)
        ensures
            count == self@.count,
    {
        self.count
    }

    /// The sum of the observations.
    pub fn sum(&self) -> (sum: u64)
        ensures
            sum == self@.sum,
    {
        self.sum
    }

    /// The least observation, if there is one.
    pub fn min(&self) -> (min: Option<u64>)
        ensures
            min == self@.min,
    {
        self.min
    }

    /// The greatest observation, if there is one.
    pub fn max(&self) -> (max: Option<u64>)
        ensures
            max == self@.max,
    {
        self.max
    }

    /// The first bucket, in ascending order, that holds observations and
    /// with which the buckets up to it hold at least `rank` of them.
    pub fn value_at_rank(&self, rank: u64) -> (bucket: Option<u64>)
        ensures
            bucket == bucket_at_rank(self@.counts, rank, 0),
    {
        broadcast use vstd::std_specs::hash::group_hash_axioms;

        let mut total: u128 = 0;
        let mut k: u64 = 0;
        while k < 65
            invariant
                0 <= k <= 65,
                total == cumulative(self@.counts, k as nat),
                total <= k * u64::MAX,
                bucket_at_rank(self@.counts, rank, 0) == bucket_at_rank(self@.counts, rank, k as nat),
            decreases 65 - k,
        {
            let bucket: u64 = if k == 0 {
                0
            } else {
                1u64 << (k - 1)
            };
            assert(bucket == bucket_number(k as nat));
            assert((k + 1) * u64::MAX < u128::MAX) by (nonlinear_arith)
                requires
                    k < 65,
            ;
            assert(k * u64::MAX + u64::MAX == (k + 1) * u64::MAX) by (nonlinear_arith);
            match self.counts.get(&bucket) {
                Some(n) => {
                    total = total + (*n as u128);
                    if total >= rank as u128 {
                        return Some(bucket);
                    }
                },
                None => {},
            }
            k = k + 1;
        }
        None
    }

    /// The median of the observations by bucket: the bucket at the rank of
    /// half their number, rounded up. `None` where there is no observation.
    pub fn median(&self) -> (median: Option<u64>)
        ensures
            median == if self@.count == 0 {
                None
            } else {
                bucket_at_rank(self@.counts, self@.median_rank(), 0)
            },
    {
        if self.count == 0 {
            return None;
        }
        self.value_at_rank(self.count / 2 + self.count % 2)
    }

    /// Adds the observations of `other` to this histogram.
    pub fn merge(&mut self, other: &Histogram)
        requires
            old(self).well_formed(),
            other.well_formed(),
            old(self)@.count + other@.count <= u64::MAX,
            old(self)@.sum + other@.sum <= u64::MAX,
        ensures
            final(self)@ == old(self)@.merged(other@),
            final(self).well_formed(),
    {
        broadcast use vstd::std_specs::hash::group_hash_axioms;

        let ghost mine = self.counts@;
        let ghost theirs = other.counts@;
        let ghost keys: Seq<&u64> = other.counts.keys().remaining();
        let ghost mut visited: Set<u64> = Set::empty();
        for key in it: other.counts.keys()
            invariant
                it.seq() == keys,
                keys == other.counts.keys().remaining(),
                theirs == other.counts@,
                mine == old(self).counts@,
                old(self).well_formed(),
                other.well_formed(),
                old(self)@.count + other@.count <= u64::MAX,
                self.count == old(self).count,
                self.sum == old(self).sum,
                self.min == old(self).min,
                self.max == old(self).max,
                forall|j: int| 0 <= j < it.index() ==> visited.contains(*#[trigger] keys[j]),
                forall|b: u64| #[trigger]
                    visited.contains(b) ==> exists|j: int| 0 <= j < it.index() && *keys[j] == b,
                self.counts@ == Map::new(
                    |b: u64| mine.contains_key(b) || (theirs.contains_key(b) && visited.contains(b)),
                    |b: u64|
                        (count_at(mine, b) + if visited.contains(b) {
                            count_at(theirs, b)
                        } else {
                            0
                        }) as u64,
                ),
        {
            proof {
                assert(keys.unref()[it.index()] == *key);
                assert(keys.unref().to_set().contains(*key));
                assert(other@.counts == theirs);
                assert(old(self)@.counts == mine);
                assert(other@.counts.contains_key(*key));
                if visited.contains(*key) {
                    let j = choose|j: int| 0 <= j < it.index() && *keys[j] == *key;
                    assert(keys[j] != keys[it.index()]);
                }
                if mine.contains_key(*key) {
                    assert(old(self)@.counts.contains_key(*key));
                }
            }
            let more = *other.counts.get(key).unwrap();
            let have = match self.counts.get(key) {
                Some(n) => *n,
                None => 0,
            };
            self.counts.insert(*key, have + more);
            proof {
                let ghost before = visited;
                visited = visited.insert(*key);
                assert(self.counts@ =~= Map::new(
                    |b: u64| mine.contains_key(b) || (theirs.contains_key(b) && visited.contains(b)),
                    |b: u64|
                        (count_at(mine, b) + if visited.contains(b) {
                            count_at(theirs, b)
                        } else {
                            0
                        }) as u64,
                ));
                assert forall|b: u64| #[trigger] visited.contains(b) implies exists|j: int|
                    0 <= j < it.index() + 1 && *keys[j] == b by {
                    if b == *key {
                        assert(*keys[it.index()] == b);
                    } else {
                        assert(before.contains(b));
                        let j = choose|j: int| 0 <= j < it.index() && *keys[j] == b;
                        assert(*keys[j] == b);
                    }
                }
            }
        }
        proof {
            assert forall|b: u64| theirs.contains_key(b) implies visited.contains(b) by {
                assert(keys.unref().to_set().contains(b));
                let j = choose|j: int| 0 <= j < keys.unref().len() && keys.unref()[j] == b;
                assert(visited.contains(*keys[j]));
            }
            assert(self.counts@ =~= merged_counts(mine, theirs));
        }
        self.count = self.count + other.count;
        self.sum = self.sum + other.sum;
        self.min = match (self.min, other.min) {
            (None, None) => None,
            (Some(min), None) => Some(min),
            (None, Some(min)) => Some(min),
            (Some(a), Some(b)) => Some(if a <= b {
                a
            } else {
                b
            }),
        };
        self.max = match (self.max, other.max) {
            (None, None) => None,
            (Some(max), None) => Some(max),
            (None, Some(max)) => Some(max),
            (Some(a), Some(b)) => Some(if a >= b {
                a
            } else {
                b
            }),
        };
        proof {
            assert(old(self)@.counts == mine);
            assert(other@.counts == theirs);
            assert forall|b: u64| #[trigger] self@.counts.contains_key(b) implies self@.counts[b]
                <= self@.count && exists|k: nat| k < 65 && b == #[trigger] bucket_number(k) by {
                if mine.contains_key(b) {
                    assert(old(self)@.counts.contains_key(b));
                }
                if theirs.contains_key(b) {
                    assert(other@.counts.contains_key(b));
                }
            }
        }
    }
}

} // verus!
