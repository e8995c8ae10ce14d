//! What happens to a batch of packets between its arrival and its departure.
use vstd::prelude::*;

use crate::addr::{source_key, source_key_of, SourceKey};
use crate::bindings::{
    filter_bits, get_packet_counts, keyed_hash, put_packet_counts,
};
use crate::clock::{Timestamp, TWO_POW_64};
use crate::datapoint::{
    point_views, DataPoint, FieldValue, FieldView, Level, PointView, TagValue, TagView,
};
use crate::metrics::{FlowCounts, MetricsState, ShredMetrics};
use crate::packet::{
    count_without_payload, dedup_batch, duplicates_add_up, duplicates_of, filter_state,
    packets_are_counted_one_by_one, payloads_are_sent_or_duplicates, payloads_of, Packet,
    ShredDeduper, PACKET_DATA_SIZE,
};
use crate::retention::{steps_keep_settings, Arrival, Step};
use crate::tracker::{DupLagTracker, TrackerState};

verus! {

/// What became of sending a batch to one destination.
#[derive(Clone, Copy, Debug, PartialEq, Eq, Structural)]
pub enum SendOutcome {
    /// Every packet went out.
    Sent,
    /// So many packets did not; the rest of the batch did.
    Failed { num_failed: usize },
}

impl SendOutcome {
    /// How many packets of the batch did not go out.
    pub open spec fn failures(self) -> nat {
        match self {
            SendOutcome::Sent => 0,
            SendOutcome::Failed { num_failed } => num_failed as nat,
        }
    }
}

/// A reading of the wall clock, relative to the Unix epoch.
#[derive(Clone, Copy, Debug, PartialEq, Eq, Structural)]
pub struct WallTime {
    pub secs: i64,
    pub nanos: u32,
}

/// A shred that was made to measure the time that it takes to arrive.
#[derive(Debug)]
pub struct TraceShred {
    pub region: String,
    pub created_at: Option<WallTime>,
    pub seq_num: u32,
}

/// The state of a lag tracker after it has seen the payloads of a batch, in order.
pub open spec fn observed_packets(
    state: TrackerState,
    packets: Seq<Packet>,
    now: Timestamp,
    listen_port: u16,
) -> TrackerState
    decreases packets.len(),
{
    if packets.len() == 0 {
        state
    } else {
        let before = observed_packets(state, packets.drop_last(), now, listen_port);
        let packet = packets.last();
        match packet.payload() {
            Some(payload) => before.observed(
                before.hash_of(payload),
                now,
                packet.meta.addr,
                listen_port,
            ),
            None => before,
        }
    }
}

/// The arrivals that a batch amounts to: one for each packet with a payload, in order.
pub open spec fn arrivals_of(
    state: TrackerState,
    packets: Seq<Packet>,
    now: Timestamp,
    listen_port: u16,
) -> Seq<Step> {
    packets.filter_map(
        |packet: Packet|
            match packet.payload() {
                Some(payload) => Some(
                    Step::Arrival(
                        Arrival {
                            hash: state.hash_of(payload),
                            now,
                            addr: packet.meta.addr,
                            port: listen_port,
                        },
                    ),
                ),
                None => None,
            },
    )
}

/// To the lag tracker a batch is a series of arrivals, so that what holds of any series holds of
/// batches.
pub proof fn batches_are_arrivals(
    state: TrackerState,
    packets: Seq<Packet>,
    now: Timestamp,
    listen_port: u16,
)
    ensures
        observed_packets(state, packets, now, listen_port) == state.after_all(
            arrivals_of(state, packets, now, listen_port),
        ),
    decreases packets.len(),
{
    let arrivals = arrivals_of(state, packets, now, listen_port);
    if packets.len() > 0 {
        let rest = packets.drop_last();
        let earlier = arrivals_of(state, rest, now, listen_port);
        batches_are_arrivals(state, rest, now, listen_port);
        steps_keep_settings(state, earlier);
        if packets.last().payload() is Some {
            assert(arrivals.drop_last() =~= earlier);
        } else {
            assert(arrivals =~= earlier);
        }
    }
}

proof fn observed_in_a_row(
    state: TrackerState,
    some: Seq<Packet>,
    more: Seq<Packet>,
    now: Timestamp,
    listen_port: u16,
)
    ensures
        observed_packets(state, some + more, now, listen_port) == observed_packets(
            observed_packets(state, some, now, listen_port),
            more,
            now,
            listen_port,
        ),
    decreases more.len(),
{
    if more.len() > 0 {
        observed_in_a_row(state, some, more.drop_last(), now, listen_port);
        assert((some + more).drop_last() =~= some + more.drop_last());
    } else {
        assert(some + more =~= some);
    }
}

/// A batch amounts to as many arrivals as it has payloads. Each has the hash that the tracker's
/// hasher gives to the payload, in order, and comes at the same time on the same port.
pub proof fn every_payload_is_an_arrival(
    state: TrackerState,
    packets: Seq<Packet>,
    now: Timestamp,
    listen_port: u16,
)
    ensures
        ({
            let arrivals = arrivals_of(state, packets, now, listen_port);
            &&& arrivals.len() == payloads_of(packets).len()
            &&& forall|i: int|
                0 <= i < arrivals.len() ==> (#[trigger] arrivals[i] matches Step::Arrival(arrival)
                    && arrival.hash == keyed_hash(state.hasher, payloads_of(packets)[i])
                    && arrival.now == now && arrival.port == listen_port)
        }),
    decreases packets.len(),
{
    if packets.len() > 0 {
        every_payload_is_an_arrival(state, packets.drop_last(), now, listen_port);
    }
}

/// The counts of discarded and of other packets from a source; zero if there are none yet.
pub open spec fn counts_of(counts: Map<SourceKey, (u64, u64)>, key: SourceKey) -> (u64, u64) {
    if counts.contains_key(key) {
        counts[key]
    } else {
        (0, 0)
    }
}

/// The counts by source after one more packet.
pub open spec fn tallied_one(
    counts: Map<SourceKey, (u64, u64)>,
    packet: Packet,
    listen_port: u16,
) -> Map<SourceKey, (u64, u64)> {
    let key = source_key_of(packet.meta.addr, listen_port);
    let (discarded, not_discarded) = counts_of(counts, key);
    counts.insert(
        key,
        if packet.meta.discard {
            (discarded.wrapping_add(1), not_discarded)
        } else {
            (discarded, not_discarded.wrapping_add(1))
        },
    )
}

/// The counts by source after a batch.
pub open spec fn tallied(
    counts: Map<SourceKey, (u64, u64)>,
    packets: Seq<Packet>,
    listen_port: u16,
) -> Map<SourceKey, (u64, u64)>
    decreases packets.len(),
{
    if packets.len() == 0 {
        counts
    } else {
        tallied_one(tallied(counts, packets.drop_last(), listen_port), packets.last(), listen_port)
    }
}

/// How many packets of a batch come from a source and have the given discard flag.
pub open spec fn packets_from(
    packets: Seq<Packet>,
    listen_port: u16,
    key: SourceKey,
    discard: bool,
) -> nat
    decreases packets.len(),
{
    if packets.len() == 0 {
        0
    } else {
        packets_from(packets.drop_last(), listen_port, key, discard) + if source_key_of(
            packets.last().meta.addr,
            listen_port,
        ) == key && packets.last().meta.discard == discard {
            1nat
        } else {
            0
        }
    }
}

/// A batch adds to the counts of each source the number of its packets, the discarded and the
/// others apart, and to no other source.
pub proof fn tally_counts_packets(
    counts: Map<SourceKey, (u64, u64)>,
    packets: Seq<Packet>,
    listen_port: u16,
    key: SourceKey,
)
    ensures
        ({
            let before = counts_of(counts, key);
            let after = counts_of(tallied(counts, packets, listen_port), key);
            let discarded = packets_from(packets, listen_port, key, true);
            let not_discarded = packets_from(packets, listen_port, key, false);
            &&& after.0 == (before.0 + discarded) % (TWO_POW_64 as int)
            &&& after.1 == (before.1 + not_discarded) % (TWO_POW_64 as int)
            &&& tallied(counts, packets, listen_port).contains_key(key) <==> counts.contains_key(
                key,
            ) || discarded + not_discarded > 0
        }),
    decreases packets.len(),
{
    if packets.len() > 0 {
        let rest = packets.drop_last();
        tally_counts_packets(counts, rest, listen_port, key);
        let before = counts_of(counts, key);
        let after = counts_of(tallied(counts, rest, listen_port), key);
        let discarded = packets_from(rest, listen_port, key, true);
        let not_discarded = packets_from(rest, listen_port, key, false);
        wrapped_sum(after.0, before.0 + discarded, 1);
        wrapped_sum(after.1, before.1 + not_discarded, 1);
    }
}

impl MetricsState {
    /// The state after a batch came in on `listen_port`. The lag tracker sees the packets as they
    /// came, `arrived`; the count of duplicates and the counts by source go by what deduplication
    /// made of them, `deduped`.
    pub open spec fn batch_received(
        self,
        arrived: Seq<Packet>,
        deduped: Seq<Packet>,
        now: Timestamp,
        listen_port: u16,
    ) -> MetricsState {
        MetricsState {
            flow: FlowCounts {
                received: self.flow.received.wrapping_add(arrived.len() as u64),
                duplicate: self.flow.duplicate.wrapping_add(
                    duplicates_of(arrived, deduped) as u64,
                ),
                ..self.flow
            },
            dup_lag: match self.dup_lag {
                Some(tracker) => Some(observed_packets(tracker, arrived, now, listen_port)),
                None => None,
            },
            packets: tallied(self.packets, deduped, listen_port),
            ..self
        }
    }

    /// The state after a batch of `num_packets` was sent to one destination: the packets that failed
    /// and those that were forwarded are counted apart.
    pub open spec fn batch_sent(self, outcome: SendOutcome, num_packets: usize) -> MetricsState {
        MetricsState {
            flow: match outcome {
                SendOutcome::Sent => FlowCounts {
                    success_forward: self.flow.success_forward.wrapping_add(num_packets as u64),
                    ..self.flow
                },
                SendOutcome::Failed { num_failed } => FlowCounts {
                    fail_forward: self.flow.fail_forward.wrapping_add(num_failed as u64),
                    success_forward: self.flow.success_forward.wrapping_add(
                        num_packets.saturating_sub(num_failed) as u64,
                    ),
                    ..self.flow
                },
            },
            ..self
        }
    }

    /// The state after a batch was sent to several destinations.
    pub open spec fn batch_sent_to_all(
        self,
        outcomes: Seq<SendOutcome>,
        num_packets: usize,
    ) -> MetricsState
        decreases outcomes.len(),
    {
        if outcomes.len() == 0 {
            self
        } else {
            self.batch_sent_to_all(outcomes.drop_last(), num_packets).batch_sent(
                outcomes.last(),
                num_packets,
            )
        }
    }
}

proof fn tallied_in_a_row(
    counts: Map<SourceKey, (u64, u64)>,
    some: Seq<Packet>,
    more: Seq<Packet>,
    listen_port: u16,
)
    ensures
        tallied(counts, some + more, listen_port) == tallied(
            tallied(counts, some, listen_port),
            more,
            listen_port,
        ),
    decreases more.len(),
{
    if more.len() > 0 {
        tallied_in_a_row(counts, some, more.drop_last(), listen_port);
        assert((some + more).drop_last() =~= some + more.drop_last());
    } else {
        assert(some + more =~= some);
    }
}

/// Two batches that come in together count for as much as one after the other, in everything that
/// the metrics hold: no packet of a batch is passed over, whatever its place.
pub proof fn batches_add_up(
    state: MetricsState,
    arrived: Seq<Packet>,
    deduped: Seq<Packet>,
    more_arrived: Seq<Packet>,
    more_deduped: Seq<Packet>,
    now: Timestamp,
    listen_port: u16,
)
    requires
        arrived.len() == deduped.len(),
        more_arrived.len() == more_deduped.len(),
        arrived.len() + more_arrived.len() <= u64::MAX,
    ensures
        state.batch_received(
            arrived + more_arrived,
            deduped + more_deduped,
            now,
            listen_port,
        ) == state.batch_received(arrived, deduped, now, listen_port).batch_received(
            more_arrived,
            more_deduped,
            now,
            listen_port,
        ),
        state.batch_received(seq![], seq![], now, listen_port) == state,
{
    duplicates_add_up(arrived, deduped, more_arrived, more_deduped);
    duplicates_add_up(more_arrived, more_deduped, seq![], seq![]);
    duplicates_add_up(seq![], seq![], seq![], seq![]);
    tallied_in_a_row(state.packets, deduped, more_deduped, listen_port);
    if let Some(tracker) = state.dup_lag {
        observed_in_a_row(tracker, arrived, more_arrived, now, listen_port);
    }
}

/// What one packet counts for: one received; one duplicate if it came with a payload and was
/// discarded; one for its source, among the discarded or the others; and one arrival for the lag
/// tracker, of the payload as it came. Nothing else changes.
pub proof fn one_packet_counts_once(
    state: MetricsState,
    arrived: Packet,
    deduped: Packet,
    now: Timestamp,
    listen_port: u16,
)
    ensures
        ({
            let after = state.batch_received(seq![arrived], seq![deduped], now, listen_port);
            let key = source_key_of(deduped.meta.addr, listen_port);
            let (discarded, others) = if state.packets.contains_key(key) {
                state.packets[key]
            } else {
                (0u64, 0u64)
            };
            &&& after.flow.received == (state.flow.received + 1) % (u64::MAX + 1)
            &&& after.flow.duplicate == (state.flow.duplicate + if !arrived.meta.discard
                && arrived.meta.size <= PACKET_DATA_SIZE && deduped.meta.discard {
                1int
            } else {
                0
            }) % (u64::MAX + 1)
            &&& after.flow.success_forward == state.flow.success_forward
            &&& after.flow.fail_forward == state.flow.fail_forward
            &&& after.packets.contains_key(key)
            &&& after.packets[key].0 == (discarded + if deduped.meta.discard {
                1int
            } else {
                0
            }) % (u64::MAX + 1)
            &&& after.packets[key].1 == (others + if deduped.meta.discard {
                0int
            } else {
                1
            }) % (u64::MAX + 1)
            &&& forall|other: SourceKey|
                other != key ==> (#[trigger] after.packets.contains_key(other)
                    <==> state.packets.contains_key(other)) && (after.packets.contains_key(other)
                    ==> after.packets[other] == state.packets[other])
            &&& after.dup_lag == match (state.dup_lag, arrived.payload()) {
                (Some(tracker), Some(payload)) => Some(
                    tracker.observed(
                        keyed_hash(tracker.hasher, payload),
                        now,
                        arrived.meta.addr,
                        listen_port,
                    ),
                ),
                (before, _) => before,
            }
            &&& after.cumulative == state.cumulative
            &&& after.service == state.service
            &&& after.enabled_grpc_service == state.enabled_grpc_service
            &&& after.multicast_subscribe_port == state.multicast_subscribe_port
            &&& after.multicast_device == state.multicast_device
        }),
{
    packets_are_counted_one_by_one(seq![], seq![], arrived, deduped);
    let none = Seq::<Packet>::empty();
    assert(none.push(arrived) =~= seq![arrived] && none.push(deduped) =~= seq![deduped]);
    assert(seq![arrived].drop_last() =~= none && seq![deduped].drop_last() =~= none);
    reveal_with_fuel(observed_packets, 2);
    reveal_with_fuel(tallied, 2);
}

/// What a batch sends to a destination counts there alone: a batch that went out whole adds its
/// packets to those forwarded; one of which some failed adds those to the failed and the rest to the
/// forwarded. Nothing else changes.
pub proof fn one_destination_counts_once(
    state: MetricsState,
    num_packets: usize,
    num_failed: usize,
)
    requires
        num_failed <= num_packets,
    ensures
        ({
            let whole = state.batch_sent(SendOutcome::Sent, num_packets);
            let part = state.batch_sent(SendOutcome::Failed { num_failed }, num_packets);
            &&& whole.flow.success_forward == (state.flow.success_forward + num_packets) % (u64::MAX
                + 1)
            &&& whole.flow.fail_forward == state.flow.fail_forward
            &&& part.flow.fail_forward == (state.flow.fail_forward + num_failed) % (u64::MAX + 1)
            &&& part.flow.success_forward == (state.flow.success_forward + num_packets - num_failed)
                % (u64::MAX + 1)
            &&& whole.flow.received == state.flow.received && part.flow.received
                == state.flow.received
            &&& whole.flow.duplicate == state.flow.duplicate && part.flow.duplicate
                == state.flow.duplicate
            &&& whole == (MetricsState { flow: whole.flow, ..state })
            &&& part == (MetricsState { flow: part.flow, ..state })
        }),
{
}

/// How many packets failed, over all destinations.
pub open spec fn packets_failed(outcomes: Seq<SendOutcome>) -> nat
    decreases outcomes.len(),
{
    if outcomes.len() == 0 {
        0
    } else {
        packets_failed(outcomes.drop_last()) + outcomes.last().failures()
    }
}

proof fn wrapped_sum(counter: u64, total: int, more: u64)
    requires
        0 <= total,
        counter == total % (TWO_POW_64 as int),
    ensures
        counter.wrapping_add(more) == (total + more) % (TWO_POW_64 as int),
{
}

/// Every destination counts every packet of the batch once, as failed or as forwarded; nothing but
/// these two counts changes. No destination fails more packets than there are.
pub proof fn sends_count_every_destination(
    state: MetricsState,
    outcomes: Seq<SendOutcome>,
    num_packets: usize,
)
    requires
        forall|i: int|
            0 <= i < outcomes.len() ==> (#[trigger] outcomes[i]).failures() <= num_packets,
    ensures
        packets_failed(outcomes) <= outcomes.len() * num_packets,
        ({
            let after = state.batch_sent_to_all(outcomes, num_packets);
            let failed = packets_failed(outcomes);
            let sent = outcomes.len() * num_packets - failed;
            after == (MetricsState {
                flow: FlowCounts {
                    fail_forward: ((state.flow.fail_forward + failed) % (TWO_POW_64 as int)) as u64,
                    success_forward: ((state.flow.success_forward + sent) % (
                    TWO_POW_64 as int)) as u64,
                    ..state.flow
                },
                ..state
            })
        }),
    decreases outcomes.len(),
{
    if outcomes.len() > 0 {
        let rest = outcomes.drop_last();
        assert forall|i: int| 0 <= i < rest.len() implies (#[trigger] rest[i]).failures()
            <= num_packets by {
            assert(rest[i] == outcomes[i]);
        }
        sends_count_every_destination(state, rest, num_packets);
        let before = state.batch_sent_to_all(rest, num_packets).flow;
        let last = outcomes[outcomes.len() - 1];
        assert(last.failures() <= num_packets);
        assert(outcomes.len() * num_packets == rest.len() * num_packets + num_packets)
            by (nonlinear_arith)
            requires
                outcomes.len() == rest.len() + 1,
        ;
        let failed = state.flow.fail_forward + packets_failed(rest);
        let sent = state.flow.success_forward + rest.len() * num_packets - packets_failed(rest);
        wrapped_sum(before.fail_forward, failed, last.failures() as u64);
        wrapped_sum(before.success_forward, sent, (num_packets - last.failures()) as u64);
    } else {
        assert(0 * num_packets == 0) by (nonlinear_arith);
    }
}

/// Each duplicate that a batch brings is counted once, however many destinations the batch goes to.
pub proof fn duplicates_count_once(
    state: MetricsState,
    arrived: Seq<Packet>,
    deduped: Seq<Packet>,
    now: Timestamp,
    listen_port: u16,
    outcomes: Seq<SendOutcome>,
    num_packets: usize,
)
    ensures
        state.batch_received(arrived, deduped, now, listen_port).batch_sent_to_all(
            outcomes,
            num_packets,
        ).flow.duplicate == state.flow.duplicate.wrapping_add(
            duplicates_of(arrived, deduped) as u64,
        ),
    decreases outcomes.len(),
{
    if outcomes.len() > 0 {
        duplicates_count_once(
            state,
            arrived,
            deduped,
            now,
            listen_port,
            outcomes.drop_last(),
            num_packets,
        );
    }
}

impl WallTime {
    /// Nanoseconds since the Unix epoch.
    pub open spec fn epoch_nanos(self) -> int {
        self.secs * 1_000_000_000 + self.nanos
    }

    /// Whole microseconds from `earlier` to `self`, and zero if `earlier` is the later of the two.
    pub open spec fn micros_after(self, earlier: WallTime) -> u128 {
        if self.epoch_nanos() >= earlier.epoch_nanos() {
            ((self.epoch_nanos() - earlier.epoch_nanos()) / 1000) as u128
        } else {
            0
        }
    }

    pub fn micros_since(self, earlier: WallTime) -> (micros: u128)
        ensures
            micros == self.micros_after(earlier),
    {
        let end: i128 = self.secs as i128 * 1_000_000_000 + self.nanos as i128;
        let start: i128 = earlier.secs as i128 * 1_000_000_000 + earlier.nanos as i128;
        if end >= start {
            (end - start) as u128 / 1000
        } else {
            0
        }
    }
}

/// The time from one reading of the wall clock to another counts whole microseconds: no more than have
/// passed, and not one less. Nothing has passed since a reading that is later.
pub proof fn journeys_are_whole_microseconds(earlier: WallTime, later: WallTime)
    ensures
        ({
            let span = (later.secs - earlier.secs) * 1_000_000_000 + later.nanos - earlier.nanos;
            let micros = later.micros_after(earlier);
            &&& span < 0 ==> micros == 0
            &&& span >= 0 ==> 1000 * micros <= span < 1000 * (micros + 1)
        }),
{
}

/// The sample about the journey of a trace shred; none if it does not say when it was made.
pub open spec fn trace_point_of(
    received_at: WallTime,
    region: Seq<char>,
    created_at: Option<WallTime>,
    seq_num: u32,
) -> Option<PointView> {
    match created_at {
        Some(created_at) => Some(
            PointView::named(Level::Info, "shredstream_proxy-trace_shred_latency"@).with_tag(
                "trace_region"@,
                TagView::Text(region),
            ).with_field("trace_seq_num"@, FieldView::Int(seq_num as i64)).with_field(
                "elapsed_micros"@,
                FieldView::Int(received_at.micros_after(created_at) as i64),
            ),
        ),
        None => None,
    }
}

/// The samples about some trace shreds, in order.
pub open spec fn trace_points_of(received_at: WallTime, traces: Seq<TraceShred>) -> Seq<PointView> {
    traces.filter_map(
        |trace: TraceShred|
            trace_point_of(received_at, trace.region@, trace.created_at, trace.seq_num),
    )
}

/// Of each trace shred that says when it was made there is a sample, in order, and of no other. It
/// names the region, the number of the shred, and how long the shred took.
pub proof fn trace_shreds_are_shown_one_by_one(
    received_at: WallTime,
    some: Seq<TraceShred>,
    more: Seq<TraceShred>,
    trace: TraceShred,
)
    ensures
        trace_points_of(received_at, some + more) == trace_points_of(received_at, some)
            + trace_points_of(received_at, more),
        trace.created_at is None ==> trace_points_of(received_at, seq![trace]).len() == 0,
        trace.created_at matches Some(created_at) ==> {
            let shown = trace_points_of(received_at, seq![trace]);
            &&& shown.len() == 1
            &&& shown[0].level == Level::Info
            &&& shown[0].name == "shredstream_proxy-trace_shred_latency"@
            &&& shown[0].tags == seq![("trace_region"@, TagView::Text(trace.region@))]
            &&& shown[0].fields == seq![
                ("trace_seq_num"@, FieldView::Int(trace.seq_num as i64)),
                (
                    "elapsed_micros"@,
                    FieldView::Int(received_at.micros_after(created_at) as i64),
                ),
            ]
        },
    decreases more.len(),
{
    let none = Seq::<TraceShred>::empty();
    reveal_with_fuel(Seq::filter_map, 2);
    assert(seq![trace].drop_last() =~= none);
    if more.len() == 0 {
        assert(some + more =~= some);
    } else {
        trace_shreds_are_shown_one_by_one(received_at, some, more.drop_last(), trace);
        assert((some + more).drop_last() =~= some + more.drop_last());
    }
}

/// The samples about trace shreds that were received together.
pub fn trace_points(received_at: WallTime, traces: &Vec<TraceShred>) -> (points: Vec<DataPoint>)
    ensures
        point_views(points@) == trace_points_of(received_at, traces@),
        point_views(points@) == traces@.filter_map(
            |trace: TraceShred|
                trace_point_of(received_at, trace.region@, trace.created_at, trace.seq_num),
        ),
{
    let mut points: Vec<DataPoint> = Vec::new();
    let ghost shown = |trace: TraceShred|
        trace_point_of(received_at, trace.region@, trace.created_at, trace.seq_num);
    let mut i: usize = 0;
    while i < traces.len()
        invariant
            i <= traces.len(),
            shown == (|trace: TraceShred|
                trace_point_of(received_at, trace.region@, trace.created_at, trace.seq_num)),
            point_views(points@) == traces@.take(i as int).filter_map(shown),
        decreases traces.len() - i,
    {
        let trace = &traces[i];
        if let Some(created_at) = trace.created_at {
            let elapsed: u128 = received_at.micros_since(created_at);
            let point = DataPoint::new(
                Level::Info,
                "shredstream_proxy-trace_shred_latency",
            ).with_tag("trace_region", TagValue::Text(trace.region.clone())).with_field(
                "trace_seq_num",
                FieldValue::Int(trace.seq_num as i64),
            ).with_field(
                "elapsed_micros",
                FieldValue::Int(#[verifier::truncate] (elapsed as i64)),
            );
            let ghost before = points@;
            points.push(point);
            assert(point_views(points@) =~= point_views(before).push(point@));
        }
        proof {
            traces@.lemma_filter_map_take_succ(shown, i as int);
        }
        i = i + 1;
    }
    assert(traces@.take(i as int) =~= traces@);
    points
}

impl DupLagTracker {
    /// Records the arrival of every packet of a batch that has a payload.
    pub fn observe_packets(&mut self, packets: &Vec<Packet>, now: Timestamp, listen_port: u16)
        requires
            old(self).wf(),
        ensures
            final(self).wf(),
            final(self)@ == observed_packets(old(self)@, packets@, now, listen_port),
    {
        let mut i: usize = 0;
        while i < packets.len()
            invariant
                i <= packets.len(),
                self.wf(),
                self@ == observed_packets(old(self)@, packets@.take(i as int), now, listen_port),
            decreases packets.len() - i,
        {
            if let Some(data) = packets[i].data() {
                self.observe(data, now, packets[i].meta.addr, listen_port);
            }
            assert(packets@.take(i + 1).drop_last() =~= packets@.take(i as int));
            i = i + 1;
        }
        assert(packets@.take(i as int) =~= packets@);
    }
}

impl ShredMetrics {
    /// Counts the packets of a batch under their source, the discarded and the others apart.
    pub fn tally_packets(&mut self, packets: &Vec<Packet>, listen_port: u16)
        ensures
            final(self)@ == (MetricsState {
                packets: tallied(old(self)@.packets, packets@, listen_port),
                ..old(self)@
            }),
            final(self).dup_lag == old(self).dup_lag,
    {
        let mut i: usize = 0;
        while i < packets.len()
            invariant
                i <= packets.len(),
                self@ == (MetricsState {
                    packets: tallied(old(self)@.packets, packets@.take(i as int), listen_port),
                    ..old(self)@
                }),
                self.dup_lag == old(self).dup_lag,
            decreases packets.len() - i,
        {
            let discard = packets[i].meta.discard;
            let key = source_key(packets[i].meta.addr, listen_port);
            let (discarded, not_discarded) = match get_packet_counts(&self.packets_received, key) {
                Some(counts) => counts,
                None => (0, 0),
            };
            let counts = if discard {
                (discarded.wrapping_add(1), not_discarded)
            } else {
                (discarded, not_discarded.wrapping_add(1))
            };
            put_packet_counts(&mut self.packets_received, key, counts);
            assert(packets@.take(i + 1).drop_last() =~= packets@.take(i as int));
            i = i + 1;
        }
        assert(packets@.take(i as int) =~= packets@);
    }

    /// Takes in a batch that arrived on `listen_port`: counts it, shows its payloads to the lag
    /// tracker, discards and counts the duplicates, and counts its packets by source. The lag
    /// tracker goes first: a discarded packet has no payload, and duplicate arrivals are what it
    /// must see.
    /// Returns the number of duplicates. A packet that came without a payload is none of them.
    pub fn receive_batch(
        &mut self,
        packets: &mut Vec<Packet>,
        listen_port: u16,
        now: Timestamp,
        deduper: &mut ShredDeduper,
    ) -> (num_duplicates: u64)
        requires
            old(self).wf(),
            filter_bits(*old(deduper)) > 0,
        ensures
            final(self).wf(),
            final(self)@ == old(self)@.batch_received(
                old(packets)@,
                final(packets)@,
                now,
                listen_port,
            ),
            final(packets)@ == filter_state(*old(deduper)).deduped(old(packets)@),
            filter_state(*final(deduper)) == filter_state(*old(deduper)).shown(old(packets)@),
            num_duplicates == duplicates_of(old(packets)@, final(packets)@),
            final(self)@.dup_lag == match old(self)@.dup_lag {
                Some(tracker) => Some(
                    tracker.after_all(arrivals_of(tracker, old(packets)@, now, listen_port)),
                ),
                None => None,
            },
            filter_bits(*final(deduper)) == filter_bits(*old(deduper)),
    {
        self.received = self.received.wrapping_add(packets.len() as u64);
        if let Some(tracker) = &mut self.dup_lag {
            tracker.observe_packets(packets, now, listen_port);
        }
        let num_empty: usize = count_without_payload(packets);
        let num_deduped: u64 = dedup_batch(deduper, packets);
        proof {
            payloads_are_sent_or_duplicates(filter_state(*old(deduper)), old(packets)@);
            if let Some(tracker) = old(self)@.dup_lag {
                batches_are_arrivals(tracker, old(packets)@, now, listen_port);
            }
        }
        let num_duplicates: u64 = num_deduped - num_empty as u64;
        self.duplicate = self.duplicate.wrapping_add(num_duplicates);
        self.tally_packets(packets, listen_port);
        num_duplicates
    }

    /// Counts a batch that was sent to one destination.
    pub fn record_send(&mut self, outcome: SendOutcome, num_packets: usize)
        requires
            old(self).wf(),
        ensures
            final(self).wf(),
            final(self)@ == old(self)@.batch_sent(outcome, num_packets),
    {
        match outcome {
            SendOutcome::Sent => {
                self.success_forward = self.success_forward.wrapping_add(num_packets as u64);
            },
            SendOutcome::Failed { num_failed } => {
                let num_sent: usize = num_packets.saturating_sub(num_failed);
                self.fail_forward = self.fail_forward.wrapping_add(num_failed as u64);
                self.success_forward = self.success_forward.wrapping_add(num_sent as u64);
            },
        }
    }
}

} // verus!
