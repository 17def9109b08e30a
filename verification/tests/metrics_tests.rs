use rustflow::utils::metrics::Histogram;

fn rank_of(percentile: f64, count: u64) -> u64 {
    (percentile / 100.0 * count as f64).ceil() as u64
}

fn average(hist: &Histogram) -> Option<f64> {
    if hist.count() > 0 {
        Some(hist.sum() as f64 / hist.count() as f64)
    } else {
        None
    }
}

#[test]
fn test_histogram() {
    let mut hist = Histogram::new();

    assert_eq!(hist.count(), 0);
    assert_eq!(hist.min(), None);
    assert_eq!(hist.max(), None);
    assert_eq!(average(&hist), None);

    hist.observe(10);
    hist.observe(20);
    hist.observe(30);

    assert_eq!(hist.count(), 3);
    assert_eq!(hist.sum(), 60);
    assert_eq!(hist.min(), Some(10));
    assert_eq!(hist.max(), Some(30));
    assert_eq!(average(&hist), Some(20.0));
}

#[test]
fn test_histogram_percentiles() {
    let mut hist = Histogram::new();

    for i in 1..=100 {
        hist.observe(i);
    }

    assert!(hist.value_at_rank(rank_of(50.0, hist.count())).unwrap() >= 32);
    assert!(hist.value_at_rank(rank_of(95.0, hist.count())).unwrap() >= 64);
    assert!(hist.value_at_rank(rank_of(99.0, hist.count())).unwrap() >= 64);
}

#[test]
fn test_histogram_merge() {
    let mut hist1 = Histogram::new();
    hist1.observe(10);
    hist1.observe(20);

    let mut hist2 = Histogram::new();
    hist2.observe(30);
    hist2.observe(40);

    hist1.merge(&hist2);

    assert_eq!(hist1.count(), 4);
    assert_eq!(hist1.sum(), 100);
    assert_eq!(hist1.min(), Some(10));
    assert_eq!(hist1.max(), Some(40));
    assert_eq!(average(&hist1), Some(25.0));
}

#[test]
fn observations_fall_into_power_of_two_buckets() {
    for (value, bucket) in [
        (0u64, 0u64),
        (1, 1),
        (2, 2),
        (3, 2),
        (4, 4),
        (7, 4),
        (8, 8),
        (100, 64),
        (1000, 512),
        (u64::MAX, 1 << 63),
    ] {
        let mut hist = Histogram::new();
        hist.observe(value);
        assert_eq!(hist.median(), Some(bucket));
        assert_eq!(hist.value_at_rank(0), Some(bucket));
        assert_eq!(hist.value_at_rank(1), Some(bucket));
        assert_eq!(hist.value_at_rank(2), None);
    }
}

#[test]
fn median_is_the_bucket_at_half_the_count() {
    let mut hist = Histogram::new();
    assert_eq!(hist.median(), None);
    assert_eq!(hist.value_at_rank(0), None);
    for value in [1u64, 2, 3, 9, 17, 33, 65] {
        hist.observe(value);
    }
    assert_eq!(hist.median(), Some(8));
    assert_eq!(hist.value_at_rank(1), Some(1));
    assert_eq!(hist.value_at_rank(2), Some(2));
    assert_eq!(hist.value_at_rank(3), Some(2));
    assert_eq!(hist.value_at_rank(4), Some(8));
    assert_eq!(hist.value_at_rank(7), Some(64));
    assert_eq!(hist.value_at_rank(8), None);
    hist.observe(1);
    assert_eq!(hist.median(), Some(2));
    hist.observe(1);
    hist.observe(1);
    hist.observe(1);
    assert_eq!(hist.median(), Some(2));
    hist.observe(1);
    assert_eq!(hist.median(), Some(1));
}

#[test]
fn merge_adds_bucket_by_bucket() {
    let mut left = Histogram::new();
    for value in [1u64, 5, 6] {
        left.observe(value);
    }
    let mut right = Histogram::new();
    for value in [4u64, 70, 0] {
        right.observe(value);
    }
    left.merge(&right);
    assert_eq!(left.count(), 6);
    assert_eq!(left.sum(), 86);
    assert_eq!(left.min(), Some(0));
    assert_eq!(left.max(), Some(70));
    assert_eq!(left.value_at_rank(1), Some(0));
    assert_eq!(left.value_at_rank(2), Some(1));
    assert_eq!(left.value_at_rank(3), Some(4));
    assert_eq!(left.value_at_rank(5), Some(4));
    assert_eq!(left.value_at_rank(6), Some(64));
    assert_eq!(right.count(), 3);

    let empty = Histogram::new();
    left.merge(&empty);
    assert_eq!(left.count(), 6);
    assert_eq!(left.min(), Some(0));
    let mut fresh = Histogram::default();
    fresh.merge(&left);
    assert_eq!(fresh.count(), 6);
    assert_eq!(fresh.max(), Some(70));
    assert_eq!(fresh.median(), Some(4));
    let copy = fresh.clone();
    assert_eq!(copy.sum(), 86);
    assert_eq!(copy.median(), Some(4));
}
