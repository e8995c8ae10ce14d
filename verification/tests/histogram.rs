use shredstream_proxy::histogram::{DupLagHistogram, DUP_LAG_BUCKETS_US, DUP_LAG_LE_SECONDS};

#[test]
fn labels_spell_the_bounds_in_seconds() {
    for (bound, label) in DUP_LAG_BUCKETS_US.iter().zip(DUP_LAG_LE_SECONDS) {
        let seconds: f64 = label.parse().unwrap();
        assert_eq!((seconds * 1e6).round() as u64, *bound);
    }
}

#[test]
fn bounds_belong_to_their_own_band() {
    for (band, bound) in DUP_LAG_BUCKETS_US.iter().enumerate() {
        let mut hist = DupLagHistogram::default();
        hist.record(*bound);
        assert_eq!(hist.buckets[band], 1);
        hist.record(*bound + 1);
        if band < 12 {
            assert_eq!(hist.buckets[band + 1], 1);
            assert_eq!(hist.overflow, 0);
        } else {
            assert_eq!(hist.overflow, 1);
        }
        assert_eq!(hist.count, 2);
        assert_eq!(hist.sum_micros, 2 * *bound + 1);
    }
}

#[test]
fn cumulative_counts_end_below_the_count() {
    let mut hist = DupLagHistogram::default();
    for lag in [0, 50, 51, 1_000, 400_000, 500_001] {
        hist.record(lag);
    }
    let counts = hist.cumulative_counts();
    assert_eq!(counts, vec![2, 3, 3, 3, 4, 4, 4, 4, 4, 4, 4, 4, 5]);
    assert_eq!(counts[12] + hist.overflow, hist.count);
}

#[test]
fn cumulative_counts_are_the_lags_up_to_each_bound() {
    let lags: Vec<u64> = (0..2_000).map(|i: u64| i * i * i % 700_001).collect();
    let mut hist = DupLagHistogram::default();
    for lag in &lags {
        hist.record(*lag);
    }
    let expected: Vec<u64> = DUP_LAG_BUCKETS_US
        .iter()
        .map(|bound| lags.iter().filter(|lag| *lag <= bound).count() as u64)
        .collect();
    assert_eq!(hist.cumulative_counts(), expected);
    assert_eq!(hist.overflow, lags.iter().filter(|lag| **lag > 500_000).count() as u64);
    assert_eq!((hist.count, hist.sum_micros), (2_000, lags.iter().sum()));
}

#[test]
fn counters_wrap() {
    let mut hist = DupLagHistogram::default();
    hist.count = u64::MAX;
    hist.sum_micros = u64::MAX;
    hist.buckets[0] = u64::MAX;
    hist.record(7);
    assert_eq!((hist.count, hist.sum_micros, hist.buckets[0]), (0, 6, 0));
}
