use shredstream_proxy::addr::{pair_key, IpAddr};
use shredstream_proxy::clock::Timestamp;
use shredstream_proxy::tracker::DupLagTracker;

const SECOND_US: u128 = 1_000_000;
const MILLI_US: u128 = 1_000;

fn start() -> Timestamp {
    Timestamp { nanos: 7_000_000_123 }
}

fn later(micros: u128) -> Timestamp {
    Timestamp { nanos: start().nanos + micros * 1_000 }
}

#[test]
fn test_dup_lag_records_winner_loser_pair() {
    let mut tracker = DupLagTracker::new(10 * SECOND_US, 1, start());
    let jito = IpAddr::v4(202, 8, 9, 160);
    let dz = IpAddr::v4(148, 51, 121, 14);
    let shred = [42u8; 1228];

    // first arrival: DZ multicast wins
    tracker.observe(&shred, start(), dz, 7733);
    assert!(tracker.hist.is_empty(), "first sighting must not record");

    // duplicate 2.4ms later via unicast: (winner=dz, loser=jito) in the 2.5ms bucket
    tracker.observe(&shred, later(2_400), jito, 20000);
    {
        let hist = tracker
            .hist
            .get(&pair_key(dz, 7733, jito, 20000))
            .expect("pair recorded with winner first");
        assert_eq!(hist.count, 1);
        assert_eq!(hist.sum_micros, 2_400);
        // bands: index 5 is (1ms, 2.5ms]
        assert_eq!(hist.buckets[5], 1);
        assert_eq!((0..13).map(|i| hist.buckets[i]).sum::<u64>(), 1);
    }

    // different bytes are a different shred: no cross-recording
    let other = [7u8; 1228];
    tracker.observe(&other, start(), jito, 20000);
    assert_eq!(tracker.hist.len(), 1);
}

#[test]
fn test_dup_lag_overflow_bucket() {
    let mut tracker = DupLagTracker::new(10 * SECOND_US, 1, start());
    let a = IpAddr::v4(1, 1, 1, 1);
    let b = IpAddr::v4(2, 2, 2, 2);
    let shred = [9u8; 100];
    tracker.observe(&shred, start(), a, 1);
    tracker.observe(&shred, later(2 * SECOND_US), b, 2); // > 500ms => +Inf band
    let hist = tracker.hist.get(&pair_key(a, 1, b, 2)).unwrap();
    assert_eq!(hist.count, 1);
    assert_eq!(hist.overflow, 1);
    assert_eq!((0..13).map(|i| hist.buckets[i]).sum::<u64>(), 0);
}

#[test]
fn test_dup_lag_rotation_evicts_first_seen() {
    let mut tracker = DupLagTracker::new(MILLI_US, 1, start());
    let a = IpAddr::v4(1, 1, 1, 1);
    let b = IpAddr::v4(2, 2, 2, 2);
    let shred = [5u8; 100];

    tracker.observe(&shred, start(), a, 1);
    // two rotations later (entry aged out of both shards), the same bytes
    // are treated as a fresh first arrival, not a duplicate
    tracker.maybe_rotate(later(2 * MILLI_US));
    tracker.maybe_rotate(later(4 * MILLI_US));
    tracker.observe(&shred, later(5 * MILLI_US), b, 2);
    assert!(tracker.hist.is_empty(), "expired first-seen must not produce a lag record");
}

#[test]
fn test_dup_lag_idle_gap_drops_both_shards() {
    // After an idle gap far beyond the retention window, a re-arrival of
    // old bytes must be a fresh first-seen, not a multi-second "lag".
    let mut tracker = DupLagTracker::new(10 * MILLI_US, 1, start());
    let a = IpAddr::v4(1, 1, 1, 1);
    let b = IpAddr::v4(2, 2, 2, 2);
    let shred = [3u8; 100];

    tracker.observe(&shred, start(), a, 1);
    // single observe after a 50ms gap (5 retention periods): the one
    // rotation it triggers must clear BOTH shards
    tracker.observe(&shred, later(50 * MILLI_US), b, 2);
    assert!(
        tracker.hist.is_empty(),
        "stale first-seen across an idle gap must not record a lag"
    );
    // and the re-arrival was stored as the new first-seen: an immediate
    // duplicate now records with it as the winner
    tracker.observe(&shred, later(51 * MILLI_US), a, 1);
    assert!(tracker.hist.get(&pair_key(b, 2, a, 1)).is_some());
}

#[test]
fn test_dup_lag_rotation_runs_on_unsampled_traffic() {
    // With sampling enabled, unsampled packets must still drive rotation
    // so first-seen retention is bounded by time, not by sampled arrivals.
    let mut tracker = DupLagTracker::new_seeded(10 * MILLI_US, 4, 99, start());
    let a = IpAddr::v4(1, 1, 1, 1);

    let sampled = (0..=255u8)
        .map(|i| [i; 64])
        .find(|p| tracker.hash(p.as_slice()) & 3 == 0)
        .expect("some payload samples");
    let unsampled = (0..=255u8)
        .map(|i| [i; 64])
        .find(|p| tracker.hash(p.as_slice()) & 3 != 0)
        .expect("some payload does not sample");

    tracker.observe(&sampled, start(), a, 1);
    let (current, older) = tracker.first_seen_counts();
    assert_eq!(current + older, 1);
    // an UNSAMPLED arrival after a 5-period gap must still rotate (and,
    // having overshot a full period, clear both shards)
    tracker.observe(&unsampled, later(50 * MILLI_US), a, 1);
    let (current, older) = tracker.first_seen_counts();
    assert_eq!(current + older, 0, "unsampled traffic must drive rotation");
}

#[test]
fn test_dup_lag_hash_sampling_keeps_pairs_consistent() {
    // mask=3 samples 1-in-4 by hash; a sampled shred must record its pair
    // (both arrivals observed), an unsampled one must record nothing.
    let mut tracker = DupLagTracker::new_seeded(10 * SECOND_US, 4, 1234, start());
    let a = IpAddr::v4(1, 1, 1, 1);
    let b = IpAddr::v4(2, 2, 2, 2);

    let mut sampled = 0u64;
    for i in 0..64u8 {
        let payload = [i; 64];
        let expect_sampled = tracker.hash(payload.as_slice()) & 3 == 0;
        tracker.observe(&payload, start(), a, 1);
        tracker.observe(&payload, later(100), b, 2);
        sampled += expect_sampled as u64;
    }
    assert!(sampled > 0, "seed should sample at least one of 64 payloads");
    let hist = tracker.hist.get(&pair_key(a, 1, b, 2)).expect("sampled pairs recorded");
    assert_eq!(hist.count, sampled);
}

#[test]
fn equal_seeds_hash_alike_in_one_process() {
    let one = DupLagTracker::new_seeded(1, 1, 5, start());
    let two = DupLagTracker::new_seeded(1, 1, 5, start());
    let other = DupLagTracker::new_seeded(1, 1, 6, start());
    let payloads: Vec<[u8; 16]> = (0..8u8).map(|i| [i; 16]).collect();
    assert!(payloads.iter().all(|p| one.hash(p) == two.hash(p)));
    assert!(payloads.iter().any(|p| one.hash(p) != other.hash(p)));
    assert_ne!(one.hash(&payloads[0]), one.hash(&payloads[1]));
}

#[test]
fn equal_seeds_sample_the_same_payloads() {
    let mut one = DupLagTracker::new_seeded(10 * MILLI_US, 4, 77, start());
    let mut two = DupLagTracker::new_seeded(10 * SECOND_US, 4, 77, later(3));
    let a = IpAddr::v4(1, 1, 1, 1);
    for i in 0..64u8 {
        one.observe(&[i; 20], start(), a, 1);
        two.observe(&[i; 20], later(3), a, 1);
        assert_eq!(one.first_seen_counts(), two.first_seen_counts());
    }
    let (current, older) = one.first_seen_counts();
    assert!(0 < current && current < 64);
    assert_eq!(older, 0);
}

#[test]
fn sampled_repeats_are_recorded_in_any_order() {
    let mut tracker = DupLagTracker::new(10 * MILLI_US, 4, start());
    let a = IpAddr::v4(1, 1, 1, 1);
    let b = IpAddr::v4(2, 2, 2, 2);
    // hashes 0 to 15, of which four are sampled; all of them once, then all again, backwards
    for hash in 0..16u64 {
        tracker.observe_hash(hash, later(1_000 + 10 * hash as u128), a, 1);
    }
    for hash in (0..16u64).rev() {
        tracker.observe_hash(hash, later(10_900), b, 2);
    }
    // a third arrival of one of them is a repeat too
    tracker.observe_hash(8, later(10_950), b, 2);
    assert_eq!(tracker.hist.len(), 1);
    let hist = tracker.hist.get(&pair_key(a, 1, b, 2)).unwrap();
    assert_eq!(hist.count, 5);
    assert_eq!(hist.sum_micros, 9_900 + 9_860 + 9_820 + 9_780 + 9_870);
    assert_eq!(hist.buckets.iter().sum::<u64>() + hist.overflow, hist.count);
}

#[test]
fn histograms_account_for_lags_between_rotations() {
    let mut tracker = DupLagTracker::new(10 * MILLI_US, 1, start());
    let a = IpAddr::v4(1, 1, 1, 1);
    let b = IpAddr::v4(2, 2, 2, 2);
    for round in 0..20u128 {
        let now = round * 4 * MILLI_US;
        tracker.observe_hash(round as u64, later(now), a, 1);
        tracker.maybe_rotate(later(now + 1 * MILLI_US));
        tracker.observe_hash(round as u64, later(now + 2 * MILLI_US), b, 2);
        tracker.maybe_rotate(later(now + 3 * MILLI_US));
    }
    assert_eq!(tracker.hist.len(), 1);
    let hist = tracker.hist.get(&pair_key(a, 1, b, 2)).unwrap();
    assert_eq!((hist.count, hist.sum_micros), (20, 40_000));
    assert_eq!(hist.buckets.iter().sum::<u64>() + hist.overflow, hist.count);
}

#[test]
fn payloads_that_share_a_hash_are_counted_too() {
    let mut tracker = DupLagTracker::new(10 * MILLI_US, 1, start());
    let a = IpAddr::v4(1, 1, 1, 1);
    let b = IpAddr::v4(2, 2, 2, 2);
    for now in [0, 300, 600] {
        tracker.observe_hash(5, later(now), a, 1);
        tracker.observe_hash(5, later(now + 100), b, 2);
    }
    assert_eq!(tracker.hist.get(&pair_key(a, 1, b, 2)).unwrap().count, 3);
    assert_eq!(tracker.hist.get(&pair_key(a, 1, a, 1)).unwrap().count, 2);
}

#[test]
fn times_before_the_anchor_are_remembered_for_a_period() {
    let a = IpAddr::v4(1, 1, 1, 1);
    let b = IpAddr::v4(2, 2, 2, 2);
    let mut tracker = DupLagTracker::new(10 * MILLI_US, 1, later(5 * MILLI_US));
    tracker.observe(&[1u8; 10], start(), a, 1);
    tracker.observe(&[2u8; 10], later(3 * MILLI_US), a, 1);
    tracker.observe(&[1u8; 10], later(10 * MILLI_US), b, 2);
    assert_eq!(tracker.hist.get(&pair_key(a, 1, b, 2)).unwrap().sum_micros, 10_000);
    assert_eq!(tracker.first_seen_counts(), (2, 0));
}

#[test]
fn a_first_sighting_outlasts_one_rotation() {
    let mut tracker = DupLagTracker::new(10 * MILLI_US, 1, start());
    let a = IpAddr::v4(1, 1, 1, 1);
    let b = IpAddr::V6(2);
    let shred = [1u8; 10];
    tracker.observe(&shred, later(9_999), a, 1);
    assert_eq!(tracker.first_seen_counts(), (1, 0));
    // the deadline falls in between; the sighting moves to the older shard
    tracker.observe(&[2u8; 10], later(10_000), a, 1);
    assert_eq!(tracker.first_seen_counts(), (1, 1));
    // a period after the first sighting, to the microsecond
    tracker.observe(&shred, later(19_999), b, 2);
    let hist = tracker.hist.get(&pair_key(a, 1, b, 2)).unwrap();
    assert_eq!(hist.sum_micros, 10_000);
    assert_eq!(hist.buckets[7], 1);
}

#[test]
fn late_rotations_do_not_stretch_retention() {
    // deadline at 10ms, first arrival after it at 19ms: the next deadline is at 29ms
    let mut tracker = DupLagTracker::new(10 * MILLI_US, 1, start());
    let a = IpAddr::v4(1, 1, 1, 1);
    let b = IpAddr::v4(2, 2, 2, 2);
    let shred = [1u8; 10];
    tracker.observe(&shred, start(), a, 1);
    tracker.observe(&[2u8; 10], later(19 * MILLI_US), a, 1);
    assert_eq!(tracker.first_seen_counts(), (1, 1));
    // the sighting is still held, but more than two periods old: this arrival takes its place
    tracker.observe(&shred, later(28 * MILLI_US), b, 2);
    assert!(tracker.hist.is_empty());
    assert_eq!(tracker.first_seen_counts(), (2, 0));
    tracker.observe(&shred, later(29 * MILLI_US), a, 1);
    assert_eq!(tracker.hist.len(), 1);
    assert_eq!(tracker.hist.get(&pair_key(b, 2, a, 1)).unwrap().sum_micros, 1_000);
}

#[test]
fn retention_ends_at_two_periods() {
    let a = IpAddr::v4(1, 1, 1, 1);
    let b = IpAddr::v4(2, 2, 2, 2);
    let shred = [1u8; 10];
    for (lag, recorded) in [(19_600, true), (19_999, true), (20_000, false), (28_999, false)] {
        let mut tracker = DupLagTracker::new(10 * MILLI_US, 1, start());
        tracker.observe(&shred, start(), a, 1);
        tracker.observe(&[2u8; 10], later(19 * MILLI_US), a, 1);
        // a duplicate within the window does not renew it
        tracker.observe(&shred, later(19_500), a, 1);
        tracker.observe(&shred, later(lag), b, 2);
        let found = tracker.hist.get(&pair_key(a, 1, b, 2)).map(|hist| hist.sum_micros);
        assert_eq!(found, if recorded { Some(lag as u64) } else { None });
    }
}

#[test]
fn an_old_sighting_in_the_current_shard_is_replaced() {
    let a = IpAddr::v4(1, 1, 1, 1);
    let b = IpAddr::v4(2, 2, 2, 2);
    let shred = [1u8; 10];
    let anchor = later(30 * MILLI_US);
    let mut tracker = DupLagTracker::new(10 * MILLI_US, 1, anchor);
    // seen before the tracker's own time began, so no deadline has passed since
    tracker.observe(&shred, start(), a, 1);
    tracker.observe(&shred, anchor, b, 2);
    assert!(tracker.hist.is_empty());
    assert_eq!(tracker.first_seen_counts(), (1, 0));
    tracker.observe(&shred, later(30_050), a, 1);
    assert_eq!(tracker.hist.get(&pair_key(b, 2, a, 1)).unwrap().sum_micros, 50);
}

#[test]
fn punctual_rotations_end_retention_before_two_periods() {
    let mut tracker = DupLagTracker::new(10 * MILLI_US, 1, start());
    let a = IpAddr::v4(1, 1, 1, 1);
    let shred = [1u8; 10];
    tracker.observe(&shred, start(), a, 1);
    tracker.maybe_rotate(later(10 * MILLI_US));
    tracker.maybe_rotate(later(20 * MILLI_US));
    tracker.observe(&shred, later(20 * MILLI_US), a, 1);
    assert!(tracker.hist.is_empty());
}

#[test]
fn duplicates_do_not_replace_the_winner() {
    let mut tracker = DupLagTracker::new(10 * SECOND_US, 1, start());
    let a = IpAddr::v4(1, 1, 1, 1);
    let b = IpAddr::v4(2, 2, 2, 2);
    let shred = [8u8; 10];
    tracker.observe(&shred, start(), a, 1);
    tracker.observe(&shred, later(10), b, 2);
    tracker.observe(&shred, later(60), b, 2);
    // a source can lose against itself
    tracker.observe(&shred, later(100), a, 1);
    assert_eq!(tracker.first_seen_counts(), (1, 0));
    assert_eq!(tracker.hist.len(), 2);
    let listed = tracker.list_lags();
    assert_eq!(listed.len(), 2);
    let of = |key| listed.iter().find(|(k, _)| *k == key).unwrap().1;
    let hist = of(pair_key(a, 1, b, 2));
    assert_eq!((hist.count, hist.sum_micros), (2, 70));
    assert_eq!((hist.buckets[0], hist.buckets[1]), (1, 1));
    let hist = of(pair_key(a, 1, a, 1));
    assert_eq!((hist.count, hist.sum_micros, hist.buckets[1]), (1, 100, 1));
}

#[test]
fn arrivals_from_before_the_first_have_no_lag() {
    let mut tracker = DupLagTracker::new(10 * SECOND_US, 1, start());
    let a = IpAddr::v4(1, 1, 1, 1);
    let shred = [8u8; 10];
    tracker.observe(&shred, later(50), a, 1);
    tracker.observe(&shred, later(20), a, 2);
    let hist = tracker.hist.get(&pair_key(a, 1, a, 2)).unwrap();
    assert_eq!((hist.count, hist.sum_micros, hist.buckets[0]), (1, 0, 1));
}

#[test]
fn a_period_of_zero_counts_as_one_microsecond() {
    let mut tracker = DupLagTracker::new(0, 1, start());
    let a = IpAddr::v4(1, 1, 1, 1);
    tracker.observe(&[8u8; 10], start(), a, 1);
    tracker.maybe_rotate(start());
    assert_eq!(tracker.first_seen_counts(), (1, 0));
    tracker.maybe_rotate(later(1));
    assert_eq!(tracker.first_seen_counts(), (0, 1));
    tracker.maybe_rotate(later(3));
    assert_eq!(tracker.first_seen_counts(), (0, 0));
}

#[test]
fn a_given_hash_is_found_again() {
    let mut tracker = DupLagTracker::new(10 * SECOND_US, 8, start());
    let a = IpAddr::v4(1, 1, 1, 1);
    tracker.observe_hash(16, start(), a, 1);
    tracker.observe_hash(17, start(), a, 1);
    assert_eq!(tracker.first_seen_counts(), (1, 0));
    tracker.observe_hash(16, later(250), a, 2);
    let hist = tracker.hist.get(&pair_key(a, 1, a, 2)).unwrap();
    assert_eq!((hist.sum_micros, hist.buckets[2]), (250, 1));
}

#[test]
fn lags_are_whole_microseconds_of_the_difference() {
    let early = Timestamp { nanos: 1_999 };
    let late = Timestamp { nanos: 3_000 };
    assert_eq!(late.micros_since(early), 1);
    assert_eq!(early.micros_since(late), 0);
    let far = Timestamp { nanos: ((1u128 << 64) + 5) * 1_000 };
    assert_eq!(far.micros_since(Timestamp { nanos: 0 }), 5);
}
