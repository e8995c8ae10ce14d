//! The lag between a shred's first arrival and later arrivals of the same bytes.
use vstd::arithmetic::power2::{lemma2_to64, lemma_pow2_pos, lemma_pow2_unfold, pow2};
use vstd::prelude::*;

use crate::addr::{pair_key, pair_key_of, IpAddr, PairKey};
use crate::bindings::{
    clear_first_seen, count_first_seen, find_or_insert_first_seen, first_seen_entries,
    get_first_seen, get_histogram, hash_bytes, hasher_seeds, hashes_by_seeds, histogram_entries,
    keyed_hash, list_histograms, lists_entries, new_first_seen, new_histograms, put_first_seen,
    put_histogram, random_hasher, remove_first_seen, seeded_hasher,
};
use crate::clock::{Timestamp, TWO_POW_64};
use crate::histogram::{DupLagHistogram, LagCounts};

verus! {

/// The first arrival of some bytes.
#[derive(Clone, Copy, Debug, PartialEq, Eq, Structural)]
pub struct FirstSeen {
    pub when: Timestamp,
    pub addr: IpAddr,
    pub port: u16,
}

/// Measures the lag between a shred's first arrival and later duplicate
/// arrivals of the same bytes, attributed by (winner, loser) source pair.
/// Used to quantify how much earlier one shred provider delivers than another.
pub struct DupLagTracker {
    pub sightings: FirstSightings,
    /// Lifetime-cumulative histograms keyed by winner and loser.
    pub hist: dashmap::DashMap<PairKey, DupLagHistogram>,
}

/// The first sightings of a tracker, and what it samples by.
pub struct FirstSightings {
    /// Two time-rotated shards: lookups check both, inserts go to `cur`.
    /// Rotation drops the older shard, bounding retention to [ttl, 2*ttl). A sighting
    /// that a late rotation left in place is passed over once it is two periods old.
    shards: [dashmap::DashMap<u64, FirstSeen>; 2],
    cur: usize,
    /// Next rotation, as microseconds since `anchor`.
    rotate_deadline_us: u64,
    anchor: Timestamp,
    ttl_us: u64,
    /// Sample a packet when `hash & sample_mask == 0`. Hash-based (not random)
    /// so the winner and loser arrivals of the same shred are both sampled.
    sample_mask: u64,
    hasher: ahash::RandomState,
}

/// What a tracker holds.
#[verifier::ext_equal]
pub struct TrackerState {
    /// First sightings since the last rotation, by the hash of the bytes.
    pub current: Map<u64, FirstSeen>,
    /// First sightings from before the last rotation.
    pub older: Map<u64, FirstSeen>,
    pub rotate_deadline_us: u64,
    pub anchor: Timestamp,
    pub ttl_us: u64,
    pub sample_mask: u64,
    pub hasher: ahash::RandomState,
    pub hist: Map<PairKey, LagCounts>,
}

impl TrackerState {
    /// A tracker that has seen nothing. The period is at least one microsecond, and is kept at
    /// 64 bits.
    pub open spec fn fresh(
        ttl_us: u128,
        sample_rate: u32,
        anchor: Timestamp,
        hasher: ahash::RandomState,
    ) -> TrackerState {
        let ttl = if ttl_us == 0 {
            1u64
        } else {
            (ttl_us as int % (TWO_POW_64 as int)) as u64
        };
        TrackerState {
            current: Map::empty(),
            older: Map::empty(),
            rotate_deadline_us: ttl,
            anchor,
            ttl_us: ttl,
            sample_mask: (sample_rate - 1) as u64,
            hasher,
            hist: Map::empty(),
        }
    }

    /// Microseconds from the tracker's anchor to `now`.
    pub open spec fn micros(self, now: Timestamp) -> u64 {
        now.micros_after(self.anchor)
    }

    /// The state after rotation at `now`. Before the deadline nothing happens. At or after it the
    /// older first sightings are dropped and the current ones become the older ones; when a
    /// further period has passed, the current ones are dropped too.
    pub open spec fn rotated(self, now: Timestamp) -> TrackerState {
        let now_us = self.micros(now);
        if now_us < self.rotate_deadline_us {
            self
        } else {
            TrackerState {
                current: Map::empty(),
                older: if now_us >= self.rotate_deadline_us.saturating_add(self.ttl_us) {
                    Map::empty()
                } else {
                    self.current
                },
                rotate_deadline_us: now_us.wrapping_add(self.ttl_us),
                ..self
            }
        }
    }

    /// The first sighting of bytes with this hash that the shards hold, if any.
    pub open spec fn first_sighting(self, hash: u64) -> Option<FirstSeen> {
        if self.older.contains_key(hash) {
            Some(self.older[hash])
        } else if self.current.contains_key(hash) {
            Some(self.current[hash])
        } else {
            None
        }
    }

    /// The first sighting of bytes with this hash, if it is remembered at `now`: while it is less
    /// than two periods old.
    pub open spec fn remembered(self, hash: u64, now: Timestamp) -> Option<FirstSeen> {
        match self.first_sighting(hash) {
            Some(first) => if now.micros_after(first.when) < 2 * self.ttl_us {
                Some(first)
            } else {
                None
            },
            None => None,
        }
    }

    /// The histogram of a pair; that of no lag if the pair has none yet.
    pub open spec fn lags(self, pair: PairKey) -> LagCounts {
        if self.hist.contains_key(pair) {
            self.hist[pair]
        } else {
            LagCounts::none()
        }
    }

    /// The state with the lag from `first` to an arrival at `now` filed under the pair of sources.
    pub open spec fn with_lag(
        self,
        first: FirstSeen,
        now: Timestamp,
        addr: IpAddr,
        port: u16,
    ) -> TrackerState {
        let pair = pair_key_of(first.addr, first.port, addr, port);
        TrackerState {
            hist: self.hist.insert(pair, self.lags(pair).recorded(now.micros_after(first.when))),
            ..self
        }
    }

    /// Whether bytes with this hash are looked at.
    pub open spec fn samples(self, hash: u64) -> bool {
        hash & self.sample_mask == 0
    }

    /// The hash of some bytes.
    pub open spec fn hash_of(self, data: Seq<u8>) -> u64 {
        keyed_hash(self.hasher, data)
    }

    /// The state after the arrival of bytes with this hash. The shards rotate whether or not the
    /// bytes are sampled. If a first sighting is remembered, the arrival is filed as a lag behind it;
    /// else the arrival is the first sighting from now on, in place of any other.
    pub open spec fn observed(
        self,
        hash: u64,
        now: Timestamp,
        addr: IpAddr,
        port: u16,
    ) -> TrackerState {
        let turned = self.rotated(now);
        if !turned.samples(hash) {
            turned
        } else {
            match turned.remembered(hash, now) {
                Some(first) => turned.with_lag(first, now, addr, port),
                None => TrackerState {
                    current: turned.current.insert(hash, FirstSeen { when: now, addr, port }),
                    older: turned.older.remove(hash),
                    ..turned
                },
            }
        }
    }
}

/// Whether `n` is a power of two.
pub open spec fn is_power_of_two(n: u32) -> bool {
    exists|k: nat| k < 32 && n == #[trigger] pow2(k)
}

/// One is a power of two; a number is one just if its double is; no other odd number is, and zero is
/// none.
pub proof fn powers_of_two_double(n: u32)
    ensures
        is_power_of_two(1),
        !is_power_of_two(0),
        0 < n <= u32::MAX / 2 ==> (is_power_of_two(n) <==> is_power_of_two((2 * n) as u32)),
        n > 1 && n % 2 == 1 ==> !is_power_of_two(n),
{
    lemma2_to64();
    assert(1 == pow2(0));
    if is_power_of_two(0) {
        let k = choose|k: nat| k < 32 && 0 == #[trigger] pow2(k);
        lemma_pow2_pos(k);
    }
    if is_power_of_two(n) {
        let k = choose|k: nat| k < 32 && n == #[trigger] pow2(k);
        lemma_pow2_unfold(k + 1);
        if k > 0 {
            lemma_pow2_unfold(k);
        }
        if n <= u32::MAX / 2 {
            if k == 31 {
                assert(pow2(31) == 0x8000_0000);
            }
            assert((2 * n) as u32 == pow2(k + 1));
        }
    }
    if 0 < n <= u32::MAX / 2 && is_power_of_two((2 * n) as u32) {
        let k = choose|k: nat| k < 32 && (2 * n) as u32 == #[trigger] pow2(k);
        assert(k > 0);
        lemma_pow2_unfold(k);
        assert(n == pow2((k - 1) as nat));
    }
}

impl FirstSightings {
    /// What a tracker with these first sightings and some histograms holds.
    pub closed spec fn with_histograms(&self, hist: Map<PairKey, LagCounts>) -> TrackerState {
        TrackerState {
            current: first_seen_entries(self.shards@[self.cur as int]),
            older: first_seen_entries(self.shards@[1 - self.cur]),
            rotate_deadline_us: self.rotate_deadline_us,
            anchor: self.anchor,
            ttl_us: self.ttl_us,
            sample_mask: self.sample_mask,
            hasher: self.hasher,
            hist,
        }
    }

    /// One of the two shards is the current one.
    pub closed spec fn wf(&self) -> bool {
        self.cur < 2
    }
}

impl View for DupLagTracker {
    type V = TrackerState;

    open spec fn view(&self) -> TrackerState {
        self.sightings.with_histograms(
            histogram_entries(self.hist).map_values(|hist: DupLagHistogram| hist@),
        )
    }
}

/// A tracker's view shows what its public histograms hold.
pub proof fn view_shows_histograms(tracker: DupLagTracker)
    ensures
        tracker@.hist == histogram_entries(tracker.hist).map_values(|hist: DupLagHistogram| hist@),
{
}

impl DupLagTracker {
    /// The first sightings are well-formed.
    pub open spec fn wf(&self) -> bool {
        self.sightings.wf()
    }

    /// A tracker that remembers first sightings for at least `ttl_us` microseconds (at least one,
    /// and at 64 bits) and less than twice as long, and looks at one hash in `sample_rate`. Times
    /// count from `anchor`.
    pub fn new(ttl_us: u128, sample_rate: u32, anchor: Timestamp) -> (tracker: DupLagTracker)
        requires
            is_power_of_two(sample_rate),
        ensures
            tracker.wf(),
            tracker@ == TrackerState::fresh(ttl_us, sample_rate, anchor, tracker@.hasher),
    {
        DupLagTracker::with_hasher(ttl_us, sample_rate, anchor, random_hasher())
    }

    fn with_hasher(
        ttl_us: u128,
        sample_rate: u32,
        anchor: Timestamp,
        hasher: ahash::RandomState,
    ) -> (tracker: DupLagTracker)
        requires
            is_power_of_two(sample_rate),
        ensures
            tracker.wf(),
            tracker@ == TrackerState::fresh(ttl_us, sample_rate, anchor, hasher),
    {
        let wide: u128 = if ttl_us == 0 {
            1
        } else {
            ttl_us
        };
        assert(wide as u64 == wide % 0x1_0000_0000_0000_0000) by (bit_vector);
        let ttl: u64 = #[verifier::truncate] (wide as u64);
        proof {
            let k = choose|k: nat| k < 32 && sample_rate == #[trigger] pow2(k);
            lemma_pow2_pos(k);
        }
        let tracker = DupLagTracker {
            sightings: FirstSightings {
                shards: [new_first_seen(), new_first_seen()],
                cur: 0,
                rotate_deadline_us: ttl,
                anchor,
                ttl_us: ttl,
                sample_mask: sample_rate as u64 - 1,
                hasher,
            },
            hist: new_histograms(),
        };
        assert(tracker@.hist =~= Map::<PairKey, LagCounts>::empty());
        tracker
    }

    /// A tracker as `new` makes it, whose hashing is seeded by `seed`: two of them with the same
    /// seed hash alike.
    pub fn new_seeded(ttl_us: u128, sample_rate: u32, seed: u64, anchor: Timestamp) -> (tracker:
        DupLagTracker)
        requires
            is_power_of_two(sample_rate),
        ensures
            tracker.wf(),
            tracker@ == TrackerState::fresh(ttl_us, sample_rate, anchor, tracker@.hasher),
            hasher_seeds(tracker@.hasher) == (seed, seed ^ 1, seed ^ 2, seed ^ 3),
            hashes_by_seeds(tracker@.hasher),
    {
        DupLagTracker::with_hasher(
            ttl_us,
            sample_rate,
            anchor,
            seeded_hasher(seed, seed ^ 1, seed ^ 2, seed ^ 3),
        )
    }

    /// Turns the shards over if the deadline has passed.
    pub fn maybe_rotate(&mut self, now: Timestamp)
        requires
            old(self).wf(),
        ensures
            final(self).wf(),
            final(self)@ == old(self)@.rotated(now),
    {
        let now_us: u64 = now.micros_since(self.sightings.anchor);
        let deadline: u64 = self.sightings.rotate_deadline_us;
        if now_us < deadline {
            return ;
        }
        self.sightings.rotate_deadline_us = now_us.wrapping_add(self.sightings.ttl_us);
        let cur: usize = self.sightings.cur;
        let prev: usize = 1 - cur;
        clear_first_seen(&mut self.sightings.shards[prev]);
        // After an idle gap of a full extra period, `cur` is also entirely
        // older than the retention window: drop it too so stale entries
        // can't match late re-arrivals and inflate lag sums.
        if now_us >= deadline.saturating_add(self.sightings.ttl_us) {
            clear_first_seen(&mut self.sightings.shards[cur]);
        }
        // the cleared shard becomes the new insert target; the old `cur` ages out next rotation
        self.sightings.cur = prev;
    }

    fn record_lag(&mut self, first: &FirstSeen, now: Timestamp, addr: IpAddr, port: u16)
        requires
            old(self).wf(),
        ensures
            final(self).wf(),
            final(self)@ == old(self)@.with_lag(*first, now, addr, port),
    {
        let lag_us: u64 = now.micros_since(first.when);
        let key = pair_key(first.addr, first.port, addr, port);
        let mut hist = match get_histogram(&self.hist, key) {
            Some(hist) => hist,
            None => DupLagHistogram::default(),
        };
        hist.record(lag_us);
        put_histogram(&mut self.hist, key, hist);
        assert(self@.hist =~= old(self)@.with_lag(*first, now, addr, port).hist);
    }

    /// Whether a first sighting is less than two periods old.
    fn is_recent(&self, first: &FirstSeen, now: Timestamp) -> (recent: bool)
        ensures
            recent == (now.micros_after(first.when) < 2 * self@.ttl_us),
    {
        (now.micros_since(first.when) as u128) < 2 * self.sightings.ttl_us as u128
    }

    /// Records the arrival of bytes with the given hash.
    pub fn observe_hash(&mut self, hash: u64, now: Timestamp, addr: IpAddr, port: u16)
        requires
            old(self).wf(),
        ensures
            final(self).wf(),
            final(self)@ == old(self)@.observed(hash, now, addr, port),
    {
        // Rotate on every arrival so the retention window holds regardless of the sampling rate.
        self.maybe_rotate(now);
        if hash & self.sightings.sample_mask != 0 {
            return ;
        }
        let cur: usize = self.sightings.cur;
        let arrival = FirstSeen { when: now, addr, port };
        if let Some(first) = get_first_seen(&self.sightings.shards[1 - cur], hash) {
            if self.is_recent(&first, now) {
                self.record_lag(&first, now, addr, port);
            } else {
                remove_first_seen(&mut self.sightings.shards[1 - cur], hash);
                put_first_seen(&mut self.sightings.shards[cur], hash, arrival);
            }
            return ;
        }
        if let Some(first) = find_or_insert_first_seen(
            &mut self.sightings.shards[cur],
            hash,
            arrival,
        ) {
            if self.is_recent(&first, now) {
                self.record_lag(&first, now, addr, port);
            } else {
                put_first_seen(&mut self.sightings.shards[cur], hash, arrival);
            }
        }
    }

    /// Record one packet arrival. First sighting of these bytes stores
    /// (now, source); a later sighting within the retention window records the
    /// lag into the (winner, loser) histogram. Must run before dedup marks
    /// discards: `Packet::data` hides payloads of discarded packets, and the
    /// duplicates are exactly what is observed.
    pub fn observe(&mut self, data: &[u8], now: Timestamp, addr: IpAddr, port: u16)
        requires
            old(self).wf(),
        ensures
            final(self).wf(),
            final(self)@ == old(self)@.observed(old(self)@.hash_of(data@), now, addr, port),
            old(self)@.hash_of(data@) == keyed_hash(old(self)@.hasher, data@),
    {
        let hash: u64 = hash_bytes(&self.sightings.hasher, data);
        self.observe_hash(hash, now, addr, port);
    }

    /// The histograms of all pairs, in an order that is not known.
    pub fn list_lags(&self) -> (listed: Vec<(PairKey, DupLagHistogram)>)
        ensures
            lists_entries(
                listed@.map_values(|entry: (PairKey, DupLagHistogram)| (entry.0, entry.1@)),
                self@.hist,
            ),
    {
        let listed = list_histograms(&self.hist);
        proof {
            let view = |entry: (PairKey, DupLagHistogram)| (entry.0, entry.1@);
            let shown = listed@.map_values(view);
            let held = histogram_entries(self.hist);
            assert forall|i: int| 0 <= i < shown.len() implies self@.hist.contains_pair(
                (#[trigger] shown[i]).0,
                shown[i].1,
            ) by {
                assert(held.contains_pair(listed@[i].0, listed@[i].1));
            }
            assert forall|i: int, j: int| 0 <= i < j < shown.len() implies (#[trigger] shown[i]).0
                != (#[trigger] shown[j]).0 by {
                assert(listed@[i].0 != listed@[j].0);
            }
            assert forall|pair: PairKey| #[trigger] self@.hist.contains_key(pair) implies exists|
                i: int,
            | 0 <= i < shown.len() && (#[trigger] shown[i]).0 == pair by {
                assert(held.contains_key(pair));
                let i = choose|i: int|
                    0 <= i < listed@.len() && (#[trigger] listed@[i]).0 == pair;
                assert(shown[i].0 == pair);
            }
        }
        listed
    }

    /// How many first sightings there are in the current shard, and how many in the older one.
    pub fn first_seen_counts(&self) -> (counts: (usize, usize))
        requires
            self.wf(),
        ensures
            counts.0 == self@.current.len(),
            counts.1 == self@.older.len(),
    {
        let cur: usize = self.sightings.cur;
        (
            count_first_seen(&self.sightings.shards[cur]),
            count_first_seen(&self.sightings.shards[1 - cur]),
        )
    }

    /// The hash by which `data` is sampled and found again.
    pub fn hash(&self, data: &[u8]) -> (hash: u64)
        ensures
            hash == self@.hash_of(data@),
            hash == keyed_hash(self@.hasher, data@),
    {
        hash_bytes(&self.sightings.hasher, data)
    }
}

} // verus!
