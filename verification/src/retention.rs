//! What a tracker promises over many arrivals and rotations: how long first sightings last, which
//! arrivals are looked at, and who is named the winner.
use vstd::arithmetic::power2::{lemma_pow2_pos, pow2};
use vstd::bits::lemma_u64_low_bits_mask_is_mod;
use vstd::prelude::*;

use crate::addr::{
    key_addr, pair_key_names_the_winner_first, pair_key_of, source_key_round_trip, IpAddr, PairKey,
};
use crate::bindings::{hasher_seeds, hashes_by_seeds, keyed_hash};
use crate::clock::{spans_are_whole_microseconds, Timestamp, TWO_POW_64};
use crate::histogram::{
    band_total, few_lags_are_exact, none_is_balanced, recording_keeps_balance, LagCounts,
    DUP_LAG_BANDS,
};
use crate::tracker::{is_power_of_two, FirstSeen, TrackerState};

verus! {

/// One arrival: the hash of its bytes, when it came, and from where.
pub struct Arrival {
    pub hash: u64,
    pub now: Timestamp,
    pub addr: IpAddr,
    pub port: u16,
}

/// What a tracker goes through: bytes arrive, or the shards are looked at and rotate if it is time.
pub enum Step {
    Arrival(Arrival),
    Rotation(Timestamp),
}

impl Step {
    /// When it happens.
    pub open spec fn now(self) -> Timestamp {
        match self {
            Step::Arrival(arrival) => arrival.now,
            Step::Rotation(now) => now,
        }
    }

    /// Whether bytes with this hash arrive.
    pub open spec fn brings(self, hash: u64) -> bool {
        self matches Step::Arrival(arrival) && arrival.hash == hash
    }
}

impl TrackerState {
    /// The state after one arrival.
    pub open spec fn after(self, arrival: Arrival) -> TrackerState {
        self.observed(arrival.hash, arrival.now, arrival.addr, arrival.port)
    }

    /// The state after one step.
    pub open spec fn after_step(self, step: Step) -> TrackerState {
        match step {
            Step::Arrival(arrival) => self.after(arrival),
            Step::Rotation(now) => self.rotated(now),
        }
    }

    /// The state after a series of steps.
    pub open spec fn after_all(self, steps: Seq<Step>) -> TrackerState
        decreases steps.len(),
    {
        if steps.len() == 0 {
            self
        } else {
            self.after_all(steps.drop_last()).after_step(steps.last())
        }
    }

    /// When something was first seen, in microseconds since the anchor.
    pub open spec fn seen_us(self, first: FirstSeen) -> int {
        self.micros(first.when) as int
    }

    /// The deadline still lies ahead of `seen_us` if the sighting is in the current shard, and
    /// more than a period ahead of it if it is in the older one.
    spec fn keeps(self, hash: u64, first: FirstSeen) -> bool {
        let seen_us = self.seen_us(first);
        ||| {
            &&& self.current.contains_pair(hash, first)
            &&& !self.older.contains_key(hash)
            &&& seen_us < self.rotate_deadline_us
        }
        ||| {
            &&& self.older.contains_pair(hash, first)
            &&& seen_us + self.ttl_us < self.rotate_deadline_us
        }
    }

    /// Whole microseconds from the anchor to `time`, rounded down; negative before the anchor.
    pub open spec fn offset_us(self, time: Timestamp) -> int {
        (time.nanos - self.anchor.nanos) / 1000
    }

    /// Whether `now` is at most one period after `first`, in whole microseconds since the anchor.
    pub open spec fn within_a_period(self, first: Timestamp, now: Timestamp) -> bool {
        self.offset_us(now) <= self.offset_us(first) + self.ttl_us
    }

    /// Whether 64 bits of microseconds reach two periods past `time`.
    pub open spec fn leaves_room(self, time: Timestamp) -> bool {
        self.offset_us(time) + 2 * self.ttl_us <= u64::MAX
    }

    /// The shards hold no first sighting of bytes with this hash.
    pub open spec fn holds_none(self, hash: u64) -> bool {
        !self.current.contains_key(hash) && !self.older.contains_key(hash)
    }

    /// What an arrival records: the pair of sources and the lag, if it is sampled and a first
    /// sighting of its bytes is remembered.
    pub open spec fn lag_of(self, arrival: Arrival) -> Option<(PairKey, u64)> {
        if !self.samples(arrival.hash) {
            None
        } else {
            match self.rotated(arrival.now).remembered(arrival.hash, arrival.now) {
                Some(first) => Some(
                    (
                        pair_key_of(first.addr, first.port, arrival.addr, arrival.port),
                        arrival.now.micros_after(first.when),
                    ),
                ),
                None => None,
            }
        }
    }

    /// What a step records.
    pub open spec fn lag_at(self, step: Step) -> Option<(PairKey, u64)> {
        match step {
            Step::Arrival(arrival) => self.lag_of(arrival),
            Step::Rotation(_) => None,
        }
    }

    /// The lags that a series of steps records for a pair, in order.
    pub open spec fn recorded_lags(self, steps: Seq<Step>, pair: PairKey) -> Seq<u64>
        decreases steps.len(),
    {
        if steps.len() == 0 {
            Seq::empty()
        } else {
            let rest = steps.drop_last();
            let earlier = self.recorded_lags(rest, pair);
            match self.after_all(rest).lag_at(steps.last()) {
                Some((recorded, lag_us)) => if recorded == pair {
                    earlier.push(lag_us)
                } else {
                    earlier
                },
                None => earlier,
            }
        }
    }

    /// The histogram of a pair is that of `lags`, and the pair has one if there is any lag.
    pub open spec fn has_lags(self, pair: PairKey, lags: Seq<u64>) -> bool {
        &&& self.lags(pair) == LagCounts::of(lags)
        &&& self.hist.contains_key(pair) <==> lags.len() > 0
    }

    /// Every repeat in a series comes at most one period after the first arrival of its bytes, and
    /// so does all that happens in between.
    pub open spec fn repeats_in_time(self, steps: Seq<Step>) -> bool {
        forall|i: int, j: int, k: int|
            #![trigger steps[i], steps[j], steps[k]]
            0 <= i < k <= j < steps.len() && (steps[i] matches Step::Arrival(first)
                && steps[j].brings(first.hash) && first_arrival(steps.take(i), first.hash) is None)
                ==> self.within_a_period(steps[i].now(), steps[k].now())
    }

    /// How many arrivals of a series are sampled repeats for a pair: the bytes came before in the
    /// series, first from the pair's winner, and now come from its loser.
    pub open spec fn sampled_repeats(self, steps: Seq<Step>, pair: PairKey) -> nat
        decreases steps.len(),
    {
        if steps.len() == 0 {
            0
        } else {
            let rest = steps.drop_last();
            self.sampled_repeats(rest, pair) + match steps.last() {
                Step::Arrival(last) => if self.repeats_for(rest, last, pair) {
                    1nat
                } else {
                    0
                },
                Step::Rotation(_) => 0,
            }
        }
    }

    /// Whether an arrival is a sampled repeat for a pair after a series of steps.
    pub open spec fn repeats_for(self, steps: Seq<Step>, last: Arrival, pair: PairKey) -> bool {
        match first_arrival(steps, last.hash) {
            Some(first) => self.samples(last.hash) && pair_key_of(
                first.addr,
                first.port,
                last.addr,
                last.port,
            ) == pair,
            None => false,
        }
    }

    /// The shards hold no other first sighting of bytes with this hash.
    spec fn holds_only(self, hash: u64, first: FirstSeen) -> bool {
        &&& self.current.contains_key(hash) ==> self.current[hash] == first
        &&& self.older.contains_key(hash) ==> self.older[hash] == first
    }

    /// Every histogram accounts for all the lags that it counted.
    pub open spec fn histograms_balanced(self) -> bool {
        forall|pair: PairKey| #[trigger] self.hist.contains_key(pair) ==> self.hist[pair].balanced()
    }
}

/// The first arrival in a series of bytes with this hash.
pub open spec fn first_arrival(steps: Seq<Step>, hash: u64) -> Option<Arrival>
    decreases steps.len(),
{
    if steps.len() == 0 {
        None
    } else {
        match first_arrival(steps.drop_last(), hash) {
            Some(first) => Some(first),
            None => match steps.last() {
                Step::Arrival(arrival) => if arrival.hash == hash {
                    Some(arrival)
                } else {
                    None
                },
                Step::Rotation(_) => None,
            },
        }
    }
}

/// What no arrival and no rotation changes: where times count from, the period, the sampling and the
/// hashing.
pub proof fn steps_keep_settings(state: TrackerState, steps: Seq<Step>)
    ensures
        state.after_all(steps).anchor == state.anchor,
        state.after_all(steps).ttl_us == state.ttl_us,
        state.after_all(steps).sample_mask == state.sample_mask,
        state.after_all(steps).hasher == state.hasher,
    decreases steps.len(),
{
    if steps.len() > 0 {
        steps_keep_settings(state, steps.drop_last());
    }
}

/// The same bytes get the same hash and the same sampling decision whenever they arrive, so the
/// arrivals of one shred are all looked at or none is.
pub proof fn sampling_is_by_content(state: TrackerState, steps: Seq<Step>, data: Seq<u8>)
    ensures
        state.after_all(steps).hash_of(data) == state.hash_of(data),
        state.after_all(steps).samples(state.hash_of(data)) == state.samples(state.hash_of(data)),
{
    steps_keep_settings(state, steps);
}

/// Two trackers whose hashers were made of the same seeds give every byte string the same hash, and
/// with the same sampling rate they look at the same ones, whatever happens to either.
pub proof fn equal_seeds_sample_alike(
    one: TrackerState,
    two: TrackerState,
    steps: Seq<Step>,
    others: Seq<Step>,
    data: Seq<u8>,
)
    requires
        hashes_by_seeds(one.hasher),
        hasher_seeds(one.hasher) == hasher_seeds(two.hasher),
        one.sample_mask == two.sample_mask,
    ensures
        ({
            let one = one.after_all(steps);
            let two = two.after_all(others);
            &&& one.hash_of(data) == two.hash_of(data)
            &&& one.samples(one.hash_of(data)) == two.samples(two.hash_of(data))
        }),
{
    steps_keep_settings(one, steps);
    steps_keep_settings(two, others);
}

/// A new tracker looks at the hashes that its sampling rate divides: one in `sample_rate`.
pub proof fn one_hash_in_rate(
    ttl_us: u128,
    sample_rate: u32,
    anchor: Timestamp,
    hasher: ahash::RandomState,
    hash: u64,
)
    requires
        is_power_of_two(sample_rate),
    ensures
        TrackerState::fresh(ttl_us, sample_rate, anchor, hasher).samples(hash) <==> hash % (
        sample_rate as u64) == 0,
{
    let k = choose|k: nat| k < 32 && sample_rate == #[trigger] pow2(k);
    lemma_pow2_pos(k);
    lemma_u64_low_bits_mask_is_mod(hash, k);
}

/// Bytes are told apart by the hash that the tracker's hasher gives to all of them.
pub proof fn bytes_go_by_their_hash(state: TrackerState, data: Seq<u8>)
    ensures
        state.hash_of(data) == keyed_hash(state.hasher, data),
{
}

/// A new tracker has seen nothing and recorded nothing. Its period is the one that was asked for,
/// though not zero, as far as 64 bits go; times count from the anchor; and the shards first rotate
/// one period after it.
pub proof fn new_trackers_are_empty(
    ttl_us: u128,
    sample_rate: u32,
    anchor: Timestamp,
    hasher: ahash::RandomState,
    hash: u64,
    pair: PairKey,
)
    ensures
        ({
            let state = TrackerState::fresh(ttl_us, sample_rate, anchor, hasher);
            &&& !state.current.contains_key(hash)
            &&& !state.older.contains_key(hash)
            &&& !state.hist.contains_key(pair)
            &&& state.anchor == anchor
            &&& state.hasher == hasher
            &&& ttl_us == 0 ==> state.ttl_us == 1
            &&& 0 < ttl_us <= u64::MAX ==> state.ttl_us == ttl_us
            &&& ttl_us > u64::MAX ==> (ttl_us - state.ttl_us) % (u64::MAX + 1) == 0
            &&& state.rotate_deadline_us == state.ttl_us
        }),
{
}

/// The shards rotate at the deadline and not before. What was held from before the rotation ahead of
/// it is dropped; what came since is held one period longer, unless a whole period was missed. The
/// next rotation is a period away, and nothing happens until then.
pub proof fn rotations_are_timed(state: TrackerState, now: Timestamp, later: Timestamp)
    ensures
        state.micros(now) == now.micros_after(state.anchor),
        now.micros_after(state.anchor) < state.rotate_deadline_us ==> state.rotated(now) == state,
        now.micros_after(state.anchor) >= state.rotate_deadline_us ==> {
            let turned = state.rotated(now);
            let now_us = now.micros_after(state.anchor);
            let later_us = later.micros_after(state.anchor);
            &&& forall|hash: u64| !(#[trigger] turned.current.contains_key(hash))
            &&& state.rotate_deadline_us + state.ttl_us <= u64::MAX ==> forall|
                hash: u64,
                first: FirstSeen,
            | #[trigger]
                turned.older.contains_pair(hash, first) <==> now_us < state.rotate_deadline_us
                    + state.ttl_us && state.current.contains_pair(hash, first)
            &&& turned.hist == state.hist
            &&& now_us + state.ttl_us <= u64::MAX && later_us < now_us + state.ttl_us
                ==> turned.rotated(later) == turned
            &&& now_us + state.ttl_us <= later_us ==> forall|hash: u64|
                !(#[trigger] turned.rotated(later).older.contains_key(hash))
        },
{
}

/// A first sighting is found in whichever shard holds it, and counts while it is less than two periods
/// old; none is made up.
pub proof fn held_sightings_are_found(
    state: TrackerState,
    hash: u64,
    first: FirstSeen,
    now: Timestamp,
)
    ensures
        state.older.contains_pair(hash, first) ==> state.first_sighting(hash) == Some(first),
        state.current.contains_pair(hash, first) && !state.older.contains_key(hash)
            ==> state.first_sighting(hash) == Some(first),
        state.first_sighting(hash) == Some(first) ==> state.older.contains_pair(hash, first)
            || state.current.contains_pair(hash, first),
        state.remembered(hash, now) == Some(first) <==> state.first_sighting(hash) == Some(first)
            && now.micros_after(first.when) < 2 * state.ttl_us,
{
}

/// Bytes that are not sampled leave no trace, but their arrival still turns the shards over.
pub proof fn unsampled_arrivals_rotate(state: TrackerState, arrival: Arrival)
    requires
        !state.samples(arrival.hash),
    ensures
        state.after(arrival) == state.rotated(arrival.now),
{
}

/// A first arrival, or one whose first sighting is no longer remembered, is held with its source and
/// records no lag.
pub proof fn first_arrival_records_nothing(state: TrackerState, arrival: Arrival)
    requires
        state.samples(arrival.hash),
        state.rotated(arrival.now).remembered(arrival.hash, arrival.now) is None,
    ensures
        state.after(arrival).hist == state.hist,
        state.after(arrival).first_sighting(arrival.hash) == Some(
            FirstSeen { when: arrival.now, addr: arrival.addr, port: arrival.port },
        ),
{
}

/// A duplicate is counted once, for the pair of the first source and its own; no other pair
/// changes, and the first arrival stays the one to beat.
pub proof fn duplicates_leave_the_winner(state: TrackerState, arrival: Arrival, first: FirstSeen)
    requires
        state.samples(arrival.hash),
        state.rotated(arrival.now).remembered(arrival.hash, arrival.now) == Some(first),
    ensures
        ({
            let pair = pair_key_of(first.addr, first.port, arrival.addr, arrival.port);
            let lag_us = arrival.now.micros_after(first.when);
            &&& state.after(arrival).lags(pair) == state.lags(pair).recorded(lag_us)
            &&& forall|other: PairKey|
                other != pair ==> state.after(arrival).lags(other) == state.lags(other)
        }),
        state.after(arrival).current == state.rotated(arrival.now).current,
        state.after(arrival).older == state.rotated(arrival.now).older,
{
}

proof fn kept_through(state: TrackerState, hash: u64, first: FirstSeen, step: Step)
    requires
        state.ttl_us >= 1,
        state.leaves_room(first.when),
        state.keeps(hash, first),
        state.within_a_period(first.when, step.now()),
    ensures
        state.rotated(step.now()).remembered(hash, step.now()) == Some(first),
        state.after_step(step).keeps(hash, first),
{
    assert(state.micros(step.now()) <= state.seen_us(first) + state.ttl_us);
    assert(step.now().micros_after(first.when) <= state.ttl_us);
}

proof fn kept_through_all(
    state: TrackerState,
    hash: u64,
    first: FirstSeen,
    steps: Seq<Step>,
)
    requires
        state.ttl_us >= 1,
        state.leaves_room(first.when),
        state.keeps(hash, first),
        forall|i: int|
            0 <= i < steps.len() ==> state.within_a_period(
                first.when,
                (#[trigger] steps[i]).now(),
            ),
    ensures
        state.after_all(steps).keeps(hash, first),
    decreases steps.len(),
{
    if steps.len() > 0 {
        let rest = steps.drop_last();
        assert forall|i: int| 0 <= i < rest.len() implies state.within_a_period(
            first.when,
            (#[trigger] rest[i]).now(),
        ) by {
            assert(rest[i] == steps[i]);
        }
        kept_through_all(state, hash, first, rest);
        steps_keep_settings(state, rest);
        assert(steps.last() == steps[steps.len() - 1]);
        kept_through(state.after_all(rest), hash, first, steps.last());
    }
}

/// A first sighting is remembered for at least one period: a duplicate that comes at most `ttl_us`
/// microseconds after it is filed under the pair of sources and no other, and leaves the first
/// sighting in place, whatever else happened in between.
pub proof fn remembered_for_a_period(
    state: TrackerState,
    first: Arrival,
    between: Seq<Step>,
    duplicate: Arrival,
)
    requires
        state.ttl_us >= 1,
        state.leaves_room(first.now),
        state.samples(first.hash),
        state.rotated(first.now).remembered(first.hash, first.now) is None,
        forall|i: int|
            0 <= i < between.len() ==> state.within_a_period(
                first.now,
                (#[trigger] between[i]).now(),
            ),
        state.within_a_period(first.now, duplicate.now),
        duplicate.hash == first.hash,
    ensures
        ({
            let before = state.after(first).after_all(between);
            let after = before.after(duplicate);
            let pair = pair_key_of(first.addr, first.port, duplicate.addr, duplicate.port);
            let lag_us = duplicate.now.micros_after(first.now);
            &&& before.lag_of(duplicate) == Some((pair, lag_us))
            &&& after.lags(pair) == before.lags(pair).recorded(lag_us)
            &&& after.hist.contains_key(pair)
            &&& forall|other: PairKey|
                other != pair ==> after.lags(other) == before.lags(other)
                    && after.hist.contains_key(other) == before.hist.contains_key(other)
            &&& after.first_sighting(first.hash) == Some(
                FirstSeen { when: first.now, addr: first.addr, port: first.port },
            )
        }),
{
    let sighting = FirstSeen { when: first.now, addr: first.addr, port: first.port };
    let start = state.after(first);
    assert(start.keeps(first.hash, sighting));
    kept_through_all(start, first.hash, sighting, between);
    steps_keep_settings(start, between);
    let before = start.after_all(between);
    kept_through(before, first.hash, sighting, Step::Arrival(duplicate));
    duplicates_leave_the_winner(before, duplicate, sighting);
}

/// A duplicate within a period of the first arrival is filed as the loser behind the source that came
/// first: under a key whose first half is the address and the port of the first arrival, and whose
/// second half is its own. The lag is the time between the two in whole microseconds. It is counted
/// once and added to the sum, and no other pair changes.
pub proof fn lags_name_winner_and_loser(
    state: TrackerState,
    first: Arrival,
    between: Seq<Step>,
    duplicate: Arrival,
)
    requires
        state.ttl_us >= 1,
        state.leaves_room(first.now),
        state.samples(first.hash),
        state.rotated(first.now).remembered(first.hash, first.now) is None,
        forall|i: int|
            0 <= i < between.len() ==> state.within_a_period(
                first.now,
                (#[trigger] between[i]).now(),
            ),
        state.within_a_period(first.now, duplicate.now),
        duplicate.hash == first.hash,
        first.now.nanos <= duplicate.now.nanos,
    ensures
        ({
            let before = state.after(first).after_all(between);
            let after = before.observed(
                duplicate.hash,
                duplicate.now,
                duplicate.addr,
                duplicate.port,
            );
            before.lag_of(duplicate) matches Some((pair, lag_us)) && {
                &&& key_addr(pair.0) == first.addr && pair.0.2 == first.port
                &&& key_addr(pair.1) == duplicate.addr && pair.1.2 == duplicate.port
                &&& 1000 * lag_us <= duplicate.now.nanos - first.now.nanos
                &&& duplicate.now.nanos - first.now.nanos < 1000 * (lag_us + 1)
                &&& after.hist.contains_key(pair)
                &&& after.hist[pair].count == (before.lags(pair).count + 1) % (u64::MAX + 1)
                &&& after.hist[pair].sum_micros == (before.lags(pair).sum_micros + lag_us) % (
                u64::MAX + 1)
                &&& forall|other: PairKey|
                    other != pair ==> (#[trigger] after.hist.contains_key(other)
                        <==> before.hist.contains_key(other)) && (after.hist.contains_key(other)
                        ==> after.hist[other] == before.hist[other])
            }
        }),
{
    remembered_for_a_period(state, first, between, duplicate);
    pair_key_names_the_winner_first(first.addr, first.port, duplicate.addr, duplicate.port);
    spans_are_whole_microseconds(first.now, duplicate.now);
}

/// Retention ends before two periods: whatever happened before, an arrival leaves the histograms as
/// they were or records a lag of less than `2 * ttl_us` behind a first sighting that is less than
/// two periods old.
pub proof fn lags_stay_bounded(state: TrackerState, steps: Seq<Step>, duplicate: Arrival)
    ensures
        ({
            let before = state.after_all(steps);
            ||| before.after(duplicate).hist == before.hist
            ||| exists|first: FirstSeen|
                {
                    &&& before.rotated(duplicate.now).first_sighting(duplicate.hash) == Some(first)
                    &&& before.after(duplicate) == #[trigger] before.rotated(
                        duplicate.now,
                    ).with_lag(first, duplicate.now, duplicate.addr, duplicate.port)
                    &&& duplicate.now.micros_after(first.when) < 2 * state.ttl_us
                    &&& first.when.within_reach(duplicate.now) ==> duplicate.now.nanos
                        - first.when.nanos < 2 * state.ttl_us * 1000
                }
        }),
{
    steps_keep_settings(state, steps);
    let before = state.after_all(steps);
    let turned = before.rotated(duplicate.now);
    if before.samples(duplicate.hash) {
        if let Some(first) = turned.remembered(duplicate.hash, duplicate.now) {
            assert(before.after(duplicate) == turned.with_lag(
                first,
                duplicate.now,
                duplicate.addr,
                duplicate.port,
            ));
        }
    }
}

proof fn held_alone_through(
    state: TrackerState,
    hash: u64,
    first: FirstSeen,
    steps: Seq<Step>,
)
    requires
        state.holds_only(hash, first),
        forall|i: int| 0 <= i < steps.len() ==> !(#[trigger] steps[i]).brings(hash),
    ensures
        state.after_all(steps).holds_only(hash, first),
    decreases steps.len(),
{
    if steps.len() > 0 {
        let rest = steps.drop_last();
        assert forall|i: int| 0 <= i < rest.len() implies !(#[trigger] rest[i]).brings(hash) by {
            assert(rest[i] == steps[i]);
        }
        held_alone_through(state, hash, first, rest);
        assert(steps.last() == steps[steps.len() - 1]);
    }
}

/// An arrival that comes two periods or more after the first sighting of its bytes is a first
/// sighting itself, whatever other bytes arrived in between: it records no lag, and is the one to
/// beat from then on.
pub proof fn forgotten_after_two_periods(
    state: TrackerState,
    first: Arrival,
    between: Seq<Step>,
    again: Arrival,
)
    requires
        state.samples(first.hash),
        state.rotated(first.now).remembered(first.hash, first.now) is None,
        forall|i: int| 0 <= i < between.len() ==> !(#[trigger] between[i]).brings(first.hash),
        again.hash == first.hash,
        first.now.within_reach(again.now),
        again.now.nanos - first.now.nanos >= 2 * state.ttl_us * 1000,
    ensures
        ({
            let before = state.after(first).after_all(between);
            &&& before.after(again).hist == before.hist
            &&& before.after(again).first_sighting(again.hash) == Some(
                FirstSeen { when: again.now, addr: again.addr, port: again.port },
            )
        }),
{
    let sighting = FirstSeen { when: first.now, addr: first.addr, port: first.port };
    let start = state.after(first);
    held_alone_through(start, first.hash, sighting, between);
    steps_keep_settings(start, between);
    let before = start.after_all(between);
    first_arrival_records_nothing(before, again);
}

/// After an idle gap of a full period past the deadline nothing is remembered, so an arrival
/// records no lag.
pub proof fn idle_gap_forgets(state: TrackerState, arrival: Arrival)
    requires
        state.micros(arrival.now) >= state.rotate_deadline_us + state.ttl_us,
    ensures
        state.rotated(arrival.now).current == Map::<u64, FirstSeen>::empty(),
        state.rotated(arrival.now).older == Map::<u64, FirstSeen>::empty(),
        state.after(arrival).hist == state.hist,
{
}

/// Two rotations leave nothing of what was remembered before them.
pub proof fn two_rotations_forget(state: TrackerState, first: Timestamp, second: Timestamp)
    requires
        state.micros(first) >= state.rotate_deadline_us,
        state.rotated(first).micros(second) >= state.rotated(first).rotate_deadline_us,
    ensures
        state.rotated(first).rotated(second).current == Map::<u64, FirstSeen>::empty(),
        state.rotated(first).rotated(second).older == Map::<u64, FirstSeen>::empty(),
{
}

/// Histograms go on accounting for every lag that they counted.
pub proof fn histograms_stay_balanced(state: TrackerState, steps: Seq<Step>)
    requires
        state.histograms_balanced(),
    ensures
        state.after_all(steps).histograms_balanced(),
    decreases steps.len(),
{
    if steps.len() > 0 {
        histograms_stay_balanced(state, steps.drop_last());
        let before = state.after_all(steps.drop_last());
        if let Step::Arrival(last) = steps.last() {
            let turned = before.rotated(last.now);
            if let Some(first) = turned.remembered(last.hash, last.now) {
                let pair = pair_key_of(first.addr, first.port, last.addr, last.port);
                none_is_balanced();
                recording_keeps_balance(turned.lags(pair), last.now.micros_after(first.when));
            }
        }
    }
}

/// Recording a lag adds it to the histogram of its pair and changes no other.
pub proof fn recording_adds_the_lag(
    state: TrackerState,
    first: FirstSeen,
    now: Timestamp,
    addr: IpAddr,
    port: u16,
    pair: PairKey,
    lags: Seq<u64>,
)
    requires
        state.has_lags(pair, lags),
    ensures
        state.with_lag(first, now, addr, port).has_lags(
            pair,
            if pair == pair_key_of(first.addr, first.port, addr, port) {
                lags.push(now.micros_after(first.when))
            } else {
                lags
            },
        ),
{
    assert(lags.push(now.micros_after(first.when)).drop_last() =~= lags);
}

/// A series of arrivals and rotations adds to the histogram of each pair the lags that it records
/// for the pair, and makes a histogram for no other pair.
pub proof fn histograms_gain_the_lags(
    state: TrackerState,
    earlier: Seq<u64>,
    steps: Seq<Step>,
    pair: PairKey,
)
    requires
        state.has_lags(pair, earlier),
    ensures
        state.after_all(steps).has_lags(pair, earlier + state.recorded_lags(steps, pair)),
    decreases steps.len(),
{
    let lags = earlier + state.recorded_lags(steps, pair);
    if steps.len() > 0 {
        let rest = steps.drop_last();
        histograms_gain_the_lags(state, earlier, rest, pair);
        let before = earlier + state.recorded_lags(rest, pair);
        match state.after_all(rest).lag_at(steps.last()) {
            Some((recorded, lag_us)) => if recorded == pair {
                assert(lags.drop_last() =~= before);
                assert(lags.last() == lag_us);
            },
            None => {},
        }
    } else {
        assert(lags =~= earlier);
    }
}

/// With no histogram to begin with, whatever arrives and whenever the shards rotate, every histogram
/// is that of the lags that were recorded for its pair, and there is one for just the pairs that have
/// a lag. As long as 64 bits hold their number, the histogram counts each of them once: its bands
/// and its overflow make up its count.
pub proof fn histograms_hold_the_lags(state: TrackerState, steps: Seq<Step>, pair: PairKey)
    requires
        state.hist == Map::<PairKey, LagCounts>::empty(),
    ensures
        ({
            let lags = state.recorded_lags(steps, pair);
            let after = state.after_all(steps);
            let counts = after.lags(pair);
            &&& counts == LagCounts::of(lags)
            &&& after.hist.contains_key(pair) <==> lags.len() > 0
            &&& lags.len() <= u64::MAX ==> counts.count == lags.len() && band_total(
                counts.bands,
                DUP_LAG_BANDS as nat,
            ) + counts.overflow == counts.count
        }),
{
    let lags = state.recorded_lags(steps, pair);
    histograms_gain_the_lags(state, Seq::empty(), steps, pair);
    assert(Seq::<u64>::empty() + lags =~= lags);
    if lags.len() <= u64::MAX {
        few_lags_are_exact(lags);
    }
}

proof fn after_both(state: TrackerState, some: Seq<Step>, more: Seq<Step>)
    ensures
        state.after_all(some + more) == state.after_all(some).after_all(more),
    decreases more.len(),
{
    if more.len() > 0 {
        assert((some + more).drop_last() =~= some + more.drop_last());
        after_both(state, some, more.drop_last());
    } else {
        assert(some + more =~= some);
    }
}

proof fn still_held_nowhere(state: TrackerState, hash: u64, steps: Seq<Step>)
    requires
        state.holds_none(hash),
        first_arrival(steps, hash) is None,
    ensures
        state.after_all(steps).holds_none(hash),
    decreases steps.len(),
{
    if steps.len() > 0 {
        still_held_nowhere(state, hash, steps.drop_last());
    }
}

proof fn place_of_first(steps: Seq<Step>, hash: u64) -> (i: int)
    requires
        first_arrival(steps, hash) is Some,
    ensures
        0 <= i < steps.len(),
        steps[i] == Step::Arrival(first_arrival(steps, hash)->0),
        first_arrival(steps, hash)->0.hash == hash,
        first_arrival(steps.take(i), hash) is None,
    decreases steps.len(),
{
    let rest = steps.drop_last();
    if first_arrival(rest, hash) is Some {
        let i = place_of_first(rest, hash);
        assert(rest.take(i) =~= steps.take(i));
        i
    } else {
        assert(steps.take(steps.len() - 1) =~= rest);
        steps.len() - 1
    }
}

proof fn last_repeat_recorded(state: TrackerState, steps: Seq<Step>, last: Arrival)
    requires
        steps.len() > 0,
        steps.last() == Step::Arrival(last),
        state.ttl_us >= 1,
        state.holds_none(last.hash),
        forall|i: int| 0 <= i < steps.len() ==> state.leaves_room((#[trigger] steps[i]).now()),
        state.repeats_in_time(steps),
    ensures
        ({
            let rest = steps.drop_last();
            match first_arrival(rest, last.hash) {
                Some(first) => state.samples(last.hash) ==> state.after_all(rest).lag_of(last)
                    == Some(
                    (
                        pair_key_of(first.addr, first.port, last.addr, last.port),
                        last.now.micros_after(first.now),
                    ),
                ),
                None => state.after_all(rest).lag_of(last) is None,
            }
        }),
{
    let rest = steps.drop_last();
    let n = rest.len() as int;
    steps_keep_settings(state, rest);
    if first_arrival(rest, last.hash) is None {
        still_held_nowhere(state, last.hash, rest);
    } else if state.samples(last.hash) {
        let i = place_of_first(rest, last.hash);
        let first = first_arrival(rest, last.hash)->0;
        let before = state.after_all(rest.take(i));
        let between = rest.subrange(i + 1, n);
        assert(rest.take(i) =~= steps.take(i));
        steps_keep_settings(state, rest.take(i));
        still_held_nowhere(state, last.hash, rest.take(i));
        assert(rest.take(i + 1).drop_last() =~= rest.take(i));
        assert(state.after_all(rest.take(i + 1)) == before.after(first));
        assert(rest =~= rest.take(i + 1) + between);
        after_both(state, rest.take(i + 1), between);
        assert(steps[i] == Step::Arrival(first) && steps[n] == Step::Arrival(last));
        assert forall|k: int| 0 <= k < between.len() implies before.within_a_period(
            first.now,
            (#[trigger] between[k]).now(),
        ) by {
            assert(between[k] == steps[i + 1 + k]);
        }
        remembered_for_a_period(before, first, between, last);
    }
}

proof fn earlier_repeats_in_time(state: TrackerState, steps: Seq<Step>)
    requires
        steps.len() > 0,
        state.repeats_in_time(steps),
    ensures
        state.repeats_in_time(steps.drop_last()),
{
    let rest = steps.drop_last();
    assert forall|i: int, j: int, k: int|
        #![trigger rest[i], rest[j], rest[k]]
        0 <= i < k <= j < rest.len() && (rest[i] matches Step::Arrival(first)
            && rest[j].brings(first.hash) && first_arrival(rest.take(i), first.hash) is None)
            implies state.within_a_period(rest[i].now(), rest[k].now()) by {
        assert(rest.take(i) =~= steps.take(i));
        assert(rest[i] == steps[i] && rest[j] == steps[j] && rest[k] == steps[k]);
    }
}

proof fn recorded_lags_counted(state: TrackerState, steps: Seq<Step>, pair: PairKey)
    ensures
        state.after_all(steps).lags(pair).count == (state.lags(pair).count
            + state.recorded_lags(steps, pair).len()) % (TWO_POW_64 as int),
    decreases steps.len(),
{
    if steps.len() > 0 {
        let rest = steps.drop_last();
        recorded_lags_counted(state, rest, pair);
        one_lag_counted(state.after_all(rest), steps.last(), pair);
    }
}

proof fn one_lag_counted(state: TrackerState, step: Step, pair: PairKey)
    ensures
        state.after_step(step).lags(pair).count == match state.lag_at(step) {
            Some((recorded, _)) => if recorded == pair {
                state.lags(pair).count.wrapping_add(1)
            } else {
                state.lags(pair).count
            },
            None => state.lags(pair).count,
        },
{
}

/// Over a series of arrivals of bytes that were not seen before, in any order and with rotations in
/// between, a lag is recorded for every repeat that is sampled and for nothing else, as long as
/// repeats come within a period. The count of each pair grows by the number of its sampled repeats.
pub proof fn sampled_repeats_are_recorded(state: TrackerState, steps: Seq<Step>, pair: PairKey)
    requires
        state.ttl_us >= 1,
        forall|i: int|
            #![trigger steps[i]]
            0 <= i < steps.len() ==> {
                &&& steps[i] matches Step::Arrival(arrival) ==> state.holds_none(arrival.hash)
                &&& state.leaves_room(steps[i].now())
            },
        state.repeats_in_time(steps),
    ensures
        state.recorded_lags(steps, pair).len() == state.sampled_repeats(steps, pair),
        state.after_all(steps).lags(pair).count == (state.lags(pair).count
            + state.sampled_repeats(steps, pair)) % (TWO_POW_64 as int),
    decreases steps.len(),
{
    if steps.len() > 0 {
        let rest = steps.drop_last();
        assert forall|i: int| 0 <= i < rest.len() implies #[trigger] rest[i] == steps[i] by {}
        earlier_repeats_in_time(state, steps);
        sampled_repeats_are_recorded(state, rest, pair);
        steps_keep_settings(state, rest);
        assert(steps.last() == steps[steps.len() - 1]);
        if let Step::Arrival(last) = steps.last() {
            last_repeat_recorded(state, steps, last);
        }
    }
    recorded_lags_counted(state, steps, pair);
}

/// Pairs of arrivals as one series: the two of each pair in a row.
pub open spec fn in_turn(pairs: Seq<(Arrival, Arrival)>) -> Seq<Step>
    decreases pairs.len(),
{
    if pairs.len() == 0 {
        Seq::empty()
    } else {
        in_turn(pairs.drop_last()).push(Step::Arrival(pairs.last().0)).push(
            Step::Arrival(pairs.last().1),
        )
    }
}

proof fn no_arrival_in_turn(pairs: Seq<(Arrival, Arrival)>, hash: u64)
    requires
        forall|i: int|
            0 <= i < pairs.len() ==> (#[trigger] pairs[i]).0.hash != hash && pairs[i].1.hash
                != hash,
    ensures
        first_arrival(in_turn(pairs), hash) is None,
    decreases pairs.len(),
{
    if pairs.len() > 0 {
        let rest = pairs.drop_last();
        assert forall|i: int| 0 <= i < rest.len() implies (#[trigger] rest[i]).0.hash != hash
            && rest[i].1.hash != hash by {
            assert(rest[i] == pairs[i]);
        }
        no_arrival_in_turn(rest, hash);
        let earlier = in_turn(rest);
        let all = in_turn(pairs);
        assert(pairs.last() == pairs[pairs.len() - 1]);
        assert(all.drop_last() =~= earlier.push(Step::Arrival(pairs.last().0)));
        assert(all.drop_last().drop_last() =~= earlier);
        assert(first_arrival(all.drop_last(), hash) is None);
    }
}

/// How many of some payloads are sampled, by the hash of their first arrivals.
pub open spec fn sampled_payloads(state: TrackerState, pairs: Seq<(Arrival, Arrival)>) -> nat {
    pairs.filter(|twice: (Arrival, Arrival)| state.samples(twice.0.hash)).len()
}

/// When payloads with distinct hashes each arrive twice within a period, first from one source and
/// then from another, the count of these two grows by the number of payloads that are sampled: both
/// arrivals of a payload are looked at or neither is.
pub proof fn sampled_payloads_count_once(
    state: TrackerState,
    pairs: Seq<(Arrival, Arrival)>,
    winner: (IpAddr, u16),
    loser: (IpAddr, u16),
)
    requires
        state.ttl_us >= 1,
        forall|i: int|
            #![trigger pairs[i]]
            0 <= i < pairs.len() ==> {
                let (first, second) = pairs[i];
                &&& first.hash == second.hash
                &&& (first.addr, first.port) == winner
                &&& (second.addr, second.port) == loser
                &&& state.holds_none(first.hash)
                &&& state.leaves_room(first.now)
                &&& state.within_a_period(first.now, second.now)
            },
        forall|i: int, j: int|
            0 <= i < j < pairs.len() ==> (#[trigger] pairs[i]).0.hash != (
            #[trigger] pairs[j]).0.hash,
    ensures
        ({
            let pair = pair_key_of(winner.0, winner.1, loser.0, loser.1);
            state.after_all(in_turn(pairs)).lags(pair).count == (state.lags(pair).count
                + sampled_payloads(state, pairs)) % (TWO_POW_64 as int)
        }),
    decreases pairs.len(),
{
    reveal(Seq::filter);
    let pair = pair_key_of(winner.0, winner.1, loser.0, loser.1);
    if pairs.len() > 0 {
        let rest = pairs.drop_last();
        let (first, second) = pairs.last();
        assert forall|i: int| 0 <= i < rest.len() implies #[trigger] rest[i] == pairs[i] by {}
        sampled_payloads_count_once(state, rest, winner, loser);
        let earlier = in_turn(rest);
        let all = in_turn(pairs);
        assert(pairs.last() == pairs[pairs.len() - 1]);
        assert(all.drop_last() =~= earlier.push(Step::Arrival(first)));
        assert(all.drop_last().drop_last() =~= earlier);
        assert forall|i: int| 0 <= i < rest.len() implies (#[trigger] rest[i]).0.hash
            != first.hash && rest[i].1.hash != first.hash by {
            assert(rest[i] == pairs[i]);
        }
        no_arrival_in_turn(rest, first.hash);
        still_held_nowhere(state, first.hash, earlier);
        steps_keep_settings(state, earlier);
        let before = state.after_all(earlier);
        assert(state.after_all(all.drop_last()) == before.after(first));
        assert(state.after_all(all) == before.after(first).after(second));
        if state.samples(first.hash) {
            assert(before.after(first).after_all(Seq::empty()) == before.after(first));
            remembered_for_a_period(before, first, Seq::empty(), second);
        }
    }
}

/// The first arrival with a hash in a series of pairs is the first of its pair.
proof fn pairs_open_with_the_winner(
    pairs: Seq<(Arrival, Arrival)>,
    winner: (IpAddr, u16),
    hash: u64,
)
    requires
        forall|i: int|
            0 <= i < pairs.len() ==> (#[trigger] pairs[i]).0.hash == pairs[i].1.hash && (
            pairs[i].0.addr, pairs[i].0.port) == winner,
    ensures
        first_arrival(in_turn(pairs), hash) matches Some(first) ==> (first.addr, first.port)
            == winner,
    decreases pairs.len(),
{
    if pairs.len() > 0 {
        let rest = pairs.drop_last();
        assert forall|i: int| 0 <= i < rest.len() implies #[trigger] rest[i] == pairs[i] by {}
        pairs_open_with_the_winner(rest, winner, hash);
        let all = in_turn(pairs);
        assert(pairs.last() == pairs[pairs.len() - 1]);
        assert(all.drop_last() =~= in_turn(rest).push(Step::Arrival(pairs.last().0)));
        assert(all.drop_last().drop_last() =~= in_turn(rest));
        assert(first_arrival(all.drop_last(), hash) == match first_arrival(in_turn(rest), hash) {
            Some(first) => Some(first),
            None => if pairs.last().0.hash == hash {
                Some(pairs.last().0)
            } else {
                None
            },
        });
    }
}

proof fn repeats_in_turn(
    state: TrackerState,
    pairs: Seq<(Arrival, Arrival)>,
    winner: (IpAddr, u16),
    loser: (IpAddr, u16),
)
    requires
        winner != loser,
        forall|i: int|
            0 <= i < pairs.len() ==> (#[trigger] pairs[i]).0.hash == pairs[i].1.hash && (
            pairs[i].0.addr, pairs[i].0.port) == winner && (pairs[i].1.addr, pairs[i].1.port)
                == loser,
    ensures
        state.sampled_repeats(
            in_turn(pairs),
            pair_key_of(winner.0, winner.1, loser.0, loser.1),
        ) == sampled_payloads(state, pairs),
    decreases pairs.len(),
{
    reveal(Seq::filter);
    if pairs.len() > 0 {
        let pair = pair_key_of(winner.0, winner.1, loser.0, loser.1);
        let rest = pairs.drop_last();
        let (first, second) = pairs.last();
        assert forall|i: int| 0 <= i < rest.len() implies #[trigger] rest[i] == pairs[i] by {}
        repeats_in_turn(state, rest, winner, loser);
        pairs_open_with_the_winner(rest, winner, first.hash);
        source_key_round_trip(winner.0, winner.1);
        source_key_round_trip(loser.0, loser.1);
        let earlier = in_turn(rest);
        let opened = earlier.push(Step::Arrival(first));
        let all = in_turn(pairs);
        assert(pairs.last() == pairs[pairs.len() - 1]);
        assert(all.drop_last() =~= opened);
        assert(opened.drop_last() =~= earlier);
        assert(!state.repeats_for(earlier, first, pair));
        assert(state.sampled_repeats(opened, pair) == state.sampled_repeats(earlier, pair));
        assert(state.repeats_for(opened, second, pair) <==> state.samples(first.hash));
    }
}

/// The count also grows by the number of sampled payloads when some of them share a hash, if the two
/// sources differ and the repeats of a hash come within a period of its first arrival.
pub proof fn payloads_may_share_a_hash(
    state: TrackerState,
    pairs: Seq<(Arrival, Arrival)>,
    winner: (IpAddr, u16),
    loser: (IpAddr, u16),
)
    requires
        state.ttl_us >= 1,
        winner != loser,
        forall|i: int|
            #![trigger pairs[i]]
            0 <= i < pairs.len() ==> {
                let (first, second) = pairs[i];
                &&& first.hash == second.hash
                &&& (first.addr, first.port) == winner
                &&& (second.addr, second.port) == loser
                &&& state.holds_none(first.hash)
                &&& state.leaves_room(first.now)
                &&& state.leaves_room(second.now)
            },
        state.repeats_in_time(in_turn(pairs)),
    ensures
        ({
            let pair = pair_key_of(winner.0, winner.1, loser.0, loser.1);
            state.after_all(in_turn(pairs)).lags(pair).count == (state.lags(pair).count
                + sampled_payloads(state, pairs)) % (TWO_POW_64 as int)
        }),
{
    let pair = pair_key_of(winner.0, winner.1, loser.0, loser.1);
    repeats_in_turn(state, pairs, winner, loser);
    steps_come_from_pairs(pairs);
    sampled_repeats_are_recorded(state, in_turn(pairs), pair);
}

proof fn steps_come_from_pairs(pairs: Seq<(Arrival, Arrival)>)
    ensures
        in_turn(pairs).len() == 2 * pairs.len(),
        forall|i: int|
            0 <= i < in_turn(pairs).len() ==> #[trigger] in_turn(pairs)[i] == Step::Arrival(
                if i % 2 == 0 {
                    pairs[i / 2].0
                } else {
                    pairs[i / 2].1
                },
            ),
    decreases pairs.len(),
{
    if pairs.len() > 0 {
        steps_come_from_pairs(pairs.drop_last());
    }
}

} // verus!
