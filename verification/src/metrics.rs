//! Counters of the proxy, and the samples made of them.
use vstd::prelude::*;
use vstd::seq_lib::seq_to_set_is_finite;

use crate::addr::{
    addr_of_key, key_addr, pair_key_of, source_key_of, source_key_round_trip, IpAddr, PairKey,
    SourceKey,
};
use crate::bindings::{
    clear_packet_counts, list_packet_counts, lists_entries, new_packet_counts, packet_entries,
};
use crate::datapoint::{
    point_views, DataPoint, FieldValue, FieldView, Level, PointView, TagValue, TagView,
};
use crate::histogram::{
    cumulative_counts_lags, lag_total, lags_at_most, DupLagHistogram, LagCounts, DUP_LAG_BANDS,
    DUP_LAG_BUCKETS_US, DUP_LAG_LE_SECONDS,
};
use crate::tracker::{DupLagTracker, TrackerState};

verus! {

/// Counters of the proxy. All of them wrap at 64 bits.
pub struct ShredMetrics {
    // receive stats
    /// Total number of shreds received. Includes duplicates when receiving shreds from multiple regions
    pub received: u64,
    /// Total number of shreds successfully forwarded, accounting for all destinations
    pub success_forward: u64,
    /// Total number of shreds failed to forward, accounting for all destinations
    pub fail_forward: u64,
    /// Number of duplicate shreds received
    pub duplicate: u64,
    /// (discarded, not discarded), keyed by (source IP, local listen port).
    /// The listen port lets operators distinguish multicast
    /// from unicast traffic that shares a source IP.
    pub packets_received: dashmap::DashMap<SourceKey, (u64, u64)>,
    // service metrics
    pub enabled_grpc_service: bool,
    /// Configured multicast listen port; used to render the `device` tag on
    /// `shredstream_proxy-receiver_stats` at report time.
    pub multicast_subscribe_port: u16,
    /// Configured multicast device name (e.g. `doublezero1`); used as the
    /// `device` tag for packets received on `multicast_subscribe_port`.
    pub multicast_device: String,
    /// Number of data shreds recovered using coding shreds
    pub recovered_count: u64,
    /// Number of Solana entries decoded from shreds
    pub entry_count: u64,
    /// Number of transactions decoded from shreds
    pub txn_count: u64,
    /// Number of times we couldn't find the previous DATA_COMPLETE_SHRED flag
    pub unknown_start_position_count: u64,
    /// Number of FEC recovery errors
    pub fec_recovery_error_count: u64,
    /// Number of bincode Entry deserialization errors
    pub bincode_deserialize_error_count: u64,
    /// Number of times we couldn't find the previous DATA_COMPLETE_SHRED flag but tried to deshred+deserialize, and failed
    pub unknown_start_position_error_count: u64,
    // cumulative metrics (persist after reset)
    pub agg_received_cumulative: u64,
    pub agg_success_forward_cumulative: u64,
    pub agg_fail_forward_cumulative: u64,
    pub duplicate_cumulative: u64,
    /// First-seen vs duplicate-arrival lag tracking.
    /// Histograms are lifetime-cumulative and are not cleared by `reset()`.
    pub dup_lag: Option<DupLagTracker>,
}

/// The counters of the reconstruction service.
pub struct ServiceCounts {
    pub recovered: u64,
    pub entries: u64,
    pub txns: u64,
    pub unknown_start_positions: u64,
    pub fec_recovery_errors: u64,
    pub bincode_deserialize_errors: u64,
    pub unknown_start_position_errors: u64,
}

/// The counters that are sampled and started over.
pub struct FlowCounts {
    pub received: u64,
    pub success_forward: u64,
    pub fail_forward: u64,
    pub duplicate: u64,
}

/// What the metrics hold.
#[verifier::ext_equal]
pub struct MetricsState {
    /// Since the last reset.
    pub flow: FlowCounts,
    /// Before the last reset.
    pub cumulative: FlowCounts,
    pub service: ServiceCounts,
    pub packets: Map<SourceKey, (u64, u64)>,
    pub enabled_grpc_service: bool,
    pub multicast_subscribe_port: u16,
    pub multicast_device: Seq<char>,
    pub dup_lag: Option<TrackerState>,
}

impl View for ShredMetrics {
    type V = MetricsState;

    open spec fn view(&self) -> MetricsState {
        MetricsState {
            flow: FlowCounts {
                received: self.received,
                success_forward: self.success_forward,
                fail_forward: self.fail_forward,
                duplicate: self.duplicate,
            },
            cumulative: FlowCounts {
                received: self.agg_received_cumulative,
                success_forward: self.agg_success_forward_cumulative,
                fail_forward: self.agg_fail_forward_cumulative,
                duplicate: self.duplicate_cumulative,
            },
            service: ServiceCounts {
                recovered: self.recovered_count,
                entries: self.entry_count,
                txns: self.txn_count,
                unknown_start_positions: self.unknown_start_position_count,
                fec_recovery_errors: self.fec_recovery_error_count,
                bincode_deserialize_errors: self.bincode_deserialize_error_count,
                unknown_start_position_errors: self.unknown_start_position_error_count,
            },
            packets: packet_entries(self.packets_received),
            enabled_grpc_service: self.enabled_grpc_service,
            multicast_subscribe_port: self.multicast_subscribe_port,
            multicast_device: self.multicast_device@,
            dup_lag: match self.dup_lag {
                Some(tracker) => Some(tracker@),
                None => None,
            },
        }
    }
}

impl FlowCounts {
    pub open spec fn zero() -> FlowCounts {
        FlowCounts { received: 0, success_forward: 0, fail_forward: 0, duplicate: 0 }
    }

    /// The sum, counter by counter.
    pub open spec fn plus(self, other: FlowCounts) -> FlowCounts {
        FlowCounts {
            received: self.received.wrapping_add(other.received),
            success_forward: self.success_forward.wrapping_add(other.success_forward),
            fail_forward: self.fail_forward.wrapping_add(other.fail_forward),
            duplicate: self.duplicate.wrapping_add(other.duplicate),
        }
    }
}

impl ServiceCounts {
    pub open spec fn zero() -> ServiceCounts {
        ServiceCounts {
            recovered: 0,
            entries: 0,
            txns: 0,
            unknown_start_positions: 0,
            fec_recovery_errors: 0,
            bincode_deserialize_errors: 0,
            unknown_start_position_errors: 0,
        }
    }
}

/// The device that a local port belongs to.
pub open spec fn device_of(port: u16, multicast_port: u16, multicast_device: Seq<char>) -> Seq<
    char,
> {
    if port == multicast_port {
        multicast_device
    } else {
        "unicast"@
    }
}

impl MetricsState {
    /// Metrics that have counted nothing.
    pub open spec fn fresh(
        enabled_grpc_service: bool,
        multicast_subscribe_port: u16,
        multicast_device: Seq<char>,
        dup_lag: Option<TrackerState>,
    ) -> MetricsState {
        MetricsState {
            flow: FlowCounts::zero(),
            cumulative: FlowCounts::zero(),
            service: ServiceCounts::zero(),
            packets: Map::empty(),
            enabled_grpc_service,
            multicast_subscribe_port,
            multicast_device,
            dup_lag,
        }
    }

    pub open spec fn device(self, port: u16) -> Seq<char> {
        device_of(port, self.multicast_subscribe_port, self.multicast_device)
    }

    /// What is reported of the connection.
    pub open spec fn connection_point(self) -> PointView {
        PointView::named(Level::Info, "shredstream_proxy-connection_metrics"@).with_count(
            "received"@,
            self.flow.received,
        ).with_count("success_forward"@, self.flow.success_forward).with_count(
            "fail_forward"@,
            self.flow.fail_forward,
        ).with_count("duplicate"@, self.flow.duplicate)
    }

    /// What is reported of the reconstruction service.
    pub open spec fn service_point(self) -> PointView {
        PointView::named(Level::Info, "shredstream_proxy-service_metrics"@).with_count(
            "recovered_count"@,
            self.service.recovered,
        ).with_count("entry_count"@, self.service.entries).with_count(
            "txn_count"@,
            self.service.txns,
        ).with_count(
            "unknown_start_position_count"@,
            self.service.unknown_start_positions,
        ).with_count("fec_recovery_error_count"@, self.service.fec_recovery_errors).with_count(
            "bincode_deserialize_error_count"@,
            self.service.bincode_deserialize_errors,
        ).with_count(
            "unknown_start_position_error_count"@,
            self.service.unknown_start_position_errors,
        )
    }

    /// What is reported of one source of packets.
    pub open spec fn receiver_point(self, entry: (SourceKey, (u64, u64))) -> PointView {
        let (key, (discarded, not_discarded)) = entry;
        PointView::named(Level::Info, "shredstream_proxy-receiver_stats"@).with_tag(
            "addr"@,
            TagView::Addr(key_addr(key)),
        ).with_tag("listen_port"@, TagView::Port(key.2)).with_tag(
            "device"@,
            TagView::Text(self.device(key.2)),
        ).with_count("discarded_packets"@, discarded).with_count(
            "not_discarded_packets"@,
            not_discarded,
        )
    }

    /// A sample about the lags of one source behind another, with the tags that name the two.
    pub open spec fn pair_point(self, pair: PairKey) -> PointView {
        let (winner, loser) = pair;
        PointView::named(Level::Info, "shredstream_proxy-dup_lag_seconds"@).with_tag(
            "winner_addr"@,
            TagView::Addr(key_addr(winner)),
        ).with_tag("winner_port"@, TagView::Port(winner.2)).with_tag(
            "winner_device"@,
            TagView::Text(self.device(winner.2)),
        ).with_tag("loser_addr"@, TagView::Addr(key_addr(loser))).with_tag(
            "loser_port"@,
            TagView::Port(loser.2),
        ).with_tag("loser_device"@, TagView::Text(self.device(loser.2)))
    }

    /// The lags at or below one bound.
    pub open spec fn bucket_point(self, pair: PairKey, le: Seq<char>, count: u64) -> PointView {
        self.pair_point(pair).with_tag("le"@, TagView::Text(le)).with_count("bucket"@, count)
    }

    /// What is reported of one pair: the lags at or below each bound, all lags, and their count
    /// and sum.
    pub open spec fn lag_points(self, entry: (PairKey, LagCounts)) -> Seq<PointView> {
        let (pair, counts) = entry;
        Seq::new(
            DUP_LAG_BANDS as nat,
            |i: int|
                self.bucket_point(pair, DUP_LAG_LE_SECONDS@[i]@, counts.cumulative((i + 1) as nat)),
        ).push(self.bucket_point(pair, "+Inf"@, counts.count)).push(
            self.pair_point(pair).with_count("count"@, counts.count).with_field(
                "sum"@,
                FieldView::MicrosAsSeconds(counts.sum_micros),
            ),
        )
    }

    /// Everything that is reported, when the entries of the two maps come in the given orders.
    pub open spec fn report_points(
        self,
        receivers: Seq<(SourceKey, (u64, u64))>,
        pairs: Seq<(PairKey, LagCounts)>,
    ) -> Seq<PointView> {
        let service = if self.enabled_grpc_service {
            seq![self.service_point()]
        } else {
            seq![]
        };
        seq![self.connection_point()] + service + receivers.map_values(
            |entry: (SourceKey, (u64, u64))| self.receiver_point(entry),
        ) + pairs.map_values(|entry: (PairKey, LagCounts)| self.lag_points(entry)).flatten()
    }

    /// Whether `points` is everything that is reported, with the entries of each map in some order.
    pub open spec fn reports(self, points: Seq<PointView>) -> bool {
        exists|receivers: Seq<(SourceKey, (u64, u64))>, pairs: Seq<(PairKey, LagCounts)>|
            {
                &&& lists_entries(receivers, self.packets)
                &&& lists_entries(pairs, self.histograms())
                &&& points == #[trigger] self.report_points(receivers, pairs)
            }
    }

    /// The histograms that are reported.
    pub open spec fn histograms(self) -> Map<PairKey, LagCounts> {
        match self.dup_lag {
            Some(tracker) => tracker.hist,
            None => Map::empty(),
        }
    }

    /// The state after a report: the counts by source start over, and those of the service too if
    /// they were shown.
    pub open spec fn reported(self, info_enabled: bool) -> MetricsState {
        MetricsState {
            packets: Map::empty(),
            service: if info_enabled && self.enabled_grpc_service {
                ServiceCounts::zero()
            } else {
                self.service
            },
            ..self
        }
    }

    /// The state after a reset: what was counted goes over to the cumulative counts.
    pub open spec fn reset(self) -> MetricsState {
        MetricsState {
            flow: FlowCounts::zero(),
            cumulative: self.cumulative.plus(self.flow),
            ..self
        }
    }
}

/// Listed histograms with their counts as mathematical values.
pub open spec fn lag_entries(listed: Seq<(PairKey, DupLagHistogram)>) -> Seq<(PairKey, LagCounts)> {
    listed.map_values(|entry: (PairKey, DupLagHistogram)| (entry.0, entry.1@))
}

/// A reset loses nothing: the cumulative and the current counts together stay what they were.
pub proof fn reset_loses_nothing(state: MetricsState)
    ensures
        state.reset().cumulative.plus(state.reset().flow) == state.cumulative.plus(state.flow),
{
}

/// A second reset in a row changes nothing.
pub proof fn reset_again_changes_nothing(state: MetricsState)
    ensures
        state.reset().reset() == state.reset(),
{
}

/// Neither a report nor a reset touches the lag tracker, and a report touches neither the current
/// nor the cumulative counts.
pub proof fn lags_outlive_reports(state: MetricsState, info_enabled: bool)
    ensures
        state.reported(info_enabled).reset().dup_lag == state.dup_lag,
        state.reported(info_enabled).flow == state.flow,
        state.reported(info_enabled).cumulative == state.cumulative,
{
}

/// The view of the metrics shows every counter and every setting under its own name.
pub proof fn view_shows_the_counters(metrics: ShredMetrics)
    ensures
        metrics@.flow.received == metrics.received,
        metrics@.flow.success_forward == metrics.success_forward,
        metrics@.flow.fail_forward == metrics.fail_forward,
        metrics@.flow.duplicate == metrics.duplicate,
        metrics@.cumulative.received == metrics.agg_received_cumulative,
        metrics@.cumulative.success_forward == metrics.agg_success_forward_cumulative,
        metrics@.cumulative.fail_forward == metrics.agg_fail_forward_cumulative,
        metrics@.cumulative.duplicate == metrics.duplicate_cumulative,
        metrics@.service.recovered == metrics.recovered_count,
        metrics@.service.entries == metrics.entry_count,
        metrics@.service.txns == metrics.txn_count,
        metrics@.service.unknown_start_positions == metrics.unknown_start_position_count,
        metrics@.service.fec_recovery_errors == metrics.fec_recovery_error_count,
        metrics@.service.bincode_deserialize_errors == metrics.bincode_deserialize_error_count,
        metrics@.service.unknown_start_position_errors
            == metrics.unknown_start_position_error_count,
        metrics@.packets == packet_entries(metrics.packets_received),
        metrics@.enabled_grpc_service == metrics.enabled_grpc_service,
        metrics@.multicast_subscribe_port == metrics.multicast_subscribe_port,
        metrics@.multicast_device == metrics.multicast_device@,
        metrics@.dup_lag is Some <==> metrics.dup_lag is Some,
        metrics.dup_lag matches Some(tracker) ==> metrics@.dup_lag == Some(tracker@),
{
}

/// New metrics have counted nothing and keep what they were given.
pub proof fn new_metrics_count_nothing(
    enabled_grpc_service: bool,
    multicast_subscribe_port: u16,
    multicast_device: Seq<char>,
    dup_lag: Option<TrackerState>,
    key: SourceKey,
)
    ensures
        ({
            let state = MetricsState::fresh(
                enabled_grpc_service,
                multicast_subscribe_port,
                multicast_device,
                dup_lag,
            );
            &&& state.flow.received == 0 && state.flow.success_forward == 0
            &&& state.flow.fail_forward == 0 && state.flow.duplicate == 0
            &&& state.cumulative == state.flow
            &&& state.service.recovered == 0 && state.service.entries == 0
            &&& state.service.txns == 0 && state.service.unknown_start_positions == 0
            &&& state.service.fec_recovery_errors == 0
            &&& state.service.bincode_deserialize_errors == 0
            &&& state.service.unknown_start_position_errors == 0
            &&& !state.packets.contains_key(key)
            &&& state.enabled_grpc_service == enabled_grpc_service
            &&& state.multicast_subscribe_port == multicast_subscribe_port
            &&& state.multicast_device == multicast_device
            &&& state.dup_lag == dup_lag
        }),
{
}

/// A reset starts the current counts over and adds what each of them was to the cumulative count of
/// the same thing. Nothing else changes.
pub proof fn resets_move_every_count(state: MetricsState)
    ensures
        ({
            let after = state.reset();
            &&& after.flow.received == 0 && after.flow.success_forward == 0
            &&& after.flow.fail_forward == 0 && after.flow.duplicate == 0
            &&& after.cumulative.received == (state.cumulative.received + state.flow.received) % (
            u64::MAX + 1)
            &&& after.cumulative.success_forward == (state.cumulative.success_forward
                + state.flow.success_forward) % (u64::MAX + 1)
            &&& after.cumulative.fail_forward == (state.cumulative.fail_forward
                + state.flow.fail_forward) % (u64::MAX + 1)
            &&& after.cumulative.duplicate == (state.cumulative.duplicate + state.flow.duplicate)
                % (u64::MAX + 1)
            &&& after == (MetricsState { flow: after.flow, cumulative: after.cumulative, ..state })
        }),
{
}

/// A report forgets the counts by source. It starts the counts of the service over if it showed them,
/// and leaves them if not. Nothing else changes.
pub proof fn reports_forget_what_they_showed(
    state: MetricsState,
    info_enabled: bool,
    key: SourceKey,
)
    ensures
        ({
            let after = state.reported(info_enabled);
            let service = after.service;
            &&& !after.packets.contains_key(key)
            &&& info_enabled && state.enabled_grpc_service ==> {
                &&& service.recovered == 0 && service.entries == 0 && service.txns == 0
                &&& service.unknown_start_positions == 0 && service.fec_recovery_errors == 0
                &&& service.bincode_deserialize_errors == 0
                &&& service.unknown_start_position_errors == 0
            }
            &&& !info_enabled || !state.enabled_grpc_service ==> service == state.service
            &&& after == (MetricsState { packets: after.packets, service, ..state })
        }),
{
}

/// A port has the multicast device if it is the multicast port, whatever that is called; every other
/// port is "unicast", whatever the multicast device is called.
pub proof fn devices_go_by_port(port: u16, multicast_port: u16, device: Seq<char>)
    ensures
        device_of(multicast_port, multicast_port, device) == device,
        port != multicast_port ==> device_of(port, multicast_port, device) == "unicast"@,
{
}

/// The sample about the connection shows the four current counts, each under its name.
pub proof fn connection_sample_shows_the_counts(state: MetricsState)
    ensures
        ({
            let point = state.connection_point();
            &&& point.level == Level::Info
            &&& point.name == "shredstream_proxy-connection_metrics"@
            &&& point.tags.len() == 0
            &&& point.fields == seq![
                ("received"@, FieldView::Int(state.flow.received as i64)),
                ("success_forward"@, FieldView::Int(state.flow.success_forward as i64)),
                ("fail_forward"@, FieldView::Int(state.flow.fail_forward as i64)),
                ("duplicate"@, FieldView::Int(state.flow.duplicate as i64)),
            ]
        }),
{
}

/// The sample about the service shows its seven counts, each under its name.
pub proof fn service_sample_shows_the_counts(state: MetricsState)
    ensures
        ({
            let point = state.service_point();
            let service = state.service;
            &&& point.level == Level::Info
            &&& point.name == "shredstream_proxy-service_metrics"@
            &&& point.tags.len() == 0
            &&& point.fields == seq![
                ("recovered_count"@, FieldView::Int(service.recovered as i64)),
                ("entry_count"@, FieldView::Int(service.entries as i64)),
                ("txn_count"@, FieldView::Int(service.txns as i64)),
                (
                    "unknown_start_position_count"@,
                    FieldView::Int(service.unknown_start_positions as i64),
                ),
                ("fec_recovery_error_count"@, FieldView::Int(service.fec_recovery_errors as i64)),
                (
                    "bincode_deserialize_error_count"@,
                    FieldView::Int(service.bincode_deserialize_errors as i64),
                ),
                (
                    "unknown_start_position_error_count"@,
                    FieldView::Int(service.unknown_start_position_errors as i64),
                ),
            ]
        }),
{
}

/// The sample about a source names its address, the port that it sent to and the device of that port,
/// and shows how many of its packets were discarded and how many were not.
pub proof fn receiver_sample_shows_the_source(
    state: MetricsState,
    addr: IpAddr,
    port: u16,
    discarded: u64,
    not_discarded: u64,
)
    ensures
        ({
            let point = state.receiver_point(
                (source_key_of(addr, port), (discarded, not_discarded)),
            );
            &&& point.level == Level::Info
            &&& point.name == "shredstream_proxy-receiver_stats"@
            &&& point.tags == seq![
                ("addr"@, TagView::Addr(addr)),
                ("listen_port"@, TagView::Port(port)),
                (
                    "device"@,
                    TagView::Text(
                        device_of(port, state.multicast_subscribe_port, state.multicast_device),
                    ),
                ),
            ]
            &&& point.fields == seq![
                ("discarded_packets"@, FieldView::Int(discarded as i64)),
                ("not_discarded_packets"@, FieldView::Int(not_discarded as i64)),
            ]
        }),
{
    source_key_round_trip(addr, port);
}

/// Samples about lags name the source that came first as the winner and the other as the loser, each
/// with its address, its port and the device of the port.
pub proof fn lag_samples_name_winner_and_loser(
    state: MetricsState,
    winner_addr: IpAddr,
    winner_port: u16,
    loser_addr: IpAddr,
    loser_port: u16,
)
    ensures
        ({
            let point = state.pair_point(
                pair_key_of(winner_addr, winner_port, loser_addr, loser_port),
            );
            let (port, device) = (state.multicast_subscribe_port, state.multicast_device);
            &&& point.level == Level::Info
            &&& point.name == "shredstream_proxy-dup_lag_seconds"@
            &&& point.fields.len() == 0
            &&& point.tags == seq![
                ("winner_addr"@, TagView::Addr(winner_addr)),
                ("winner_port"@, TagView::Port(winner_port)),
                ("winner_device"@, TagView::Text(device_of(winner_port, port, device))),
                ("loser_addr"@, TagView::Addr(loser_addr)),
                ("loser_port"@, TagView::Port(loser_port)),
                ("loser_device"@, TagView::Text(device_of(loser_port, port, device))),
            ]
        }),
{
    source_key_round_trip(winner_addr, winner_port);
    source_key_round_trip(loser_addr, loser_port);
    let point = state.pair_point(pair_key_of(winner_addr, winner_port, loser_addr, loser_port));
    let (port, device) = (state.multicast_subscribe_port, state.multicast_device);
    assert(point.tags =~= seq![
        ("winner_addr"@, TagView::Addr(winner_addr)),
        ("winner_port"@, TagView::Port(winner_port)),
        ("winner_device"@, TagView::Text(device_of(winner_port, port, device))),
        ("loser_addr"@, TagView::Addr(loser_addr)),
        ("loser_port"@, TagView::Port(loser_port)),
        ("loser_device"@, TagView::Text(device_of(loser_port, port, device))),
    ]);
}

/// The samples about the recorded lags of a pair: for each bound how many lags are at or below it, as
/// a cumulative bucket under the label of the bound; all of them at infinity; and their number and
/// sum. All name the pair.
pub proof fn lag_samples_show_the_lags(state: MetricsState, pair: PairKey, lags: Seq<u64>, i: int)
    ensures
        ({
            let shown = state.lag_points((pair, LagCounts::of(lags)));
            let named = state.pair_point(pair).tags;
            let total = (lags.len() % (u64::MAX + 1) as nat) as u64;
            &&& shown.len() == DUP_LAG_BANDS + 2
            &&& 0 <= i < DUP_LAG_BANDS + 2 ==> shown[i].level == state.pair_point(pair).level
                && shown[i].name == state.pair_point(pair).name
            &&& 0 <= i < DUP_LAG_BANDS ==> {
                let at_most = (lags_at_most(lags, DUP_LAG_BUCKETS_US@[i]) % (u64::MAX
                    + 1) as nat) as u64;
                &&& shown[i].tags == named.push(("le"@, TagView::Text(DUP_LAG_LE_SECONDS@[i]@)))
                &&& shown[i].fields == seq![("bucket"@, FieldView::Int(at_most as i64))]
            }
            &&& shown[DUP_LAG_BANDS as int].tags == named.push(("le"@, TagView::Text("+Inf"@)))
            &&& shown[DUP_LAG_BANDS as int].fields == seq![
                ("bucket"@, FieldView::Int(total as i64)),
            ]
            &&& shown[DUP_LAG_BANDS + 1].tags == named
            &&& shown[DUP_LAG_BANDS + 1].fields == seq![
                ("count"@, FieldView::Int(total as i64)),
                (
                    "sum"@,
                    FieldView::MicrosAsSeconds((lag_total(lags) % (u64::MAX + 1) as nat) as u64),
                ),
            ]
        }),
{
    cumulative_counts_lags(lags, 0);
    if 0 <= i < DUP_LAG_BANDS {
        cumulative_counts_lags(lags, i);
    }
}

/// A list that holds each entry of a map once is as long as the map.
proof fn listed_once<K, V>(listed: Seq<(K, V)>, map: Map<K, V>)
    requires
        lists_entries(listed, map),
    ensures
        map.dom().finite(),
        map.dom().len() == listed.len(),
{
    let keys = listed.map_values(|entry: (K, V)| entry.0);
    assert(keys.no_duplicates());
    keys.unique_seq_to_set();
    assert(keys.to_set() =~= map.dom()) by {
        assert forall|key: K| keys.to_set().contains(key) <==> map.dom().contains(key) by {
            if map.contains_key(key) {
                let i = choose|i: int| 0 <= i < listed.len() && (#[trigger] listed[i]).0 == key;
                assert(keys[i] == key);
            }
            if keys.contains(key) {
                let i = choose|i: int| 0 <= i < keys.len() && keys[i] == key;
                assert(map.contains_pair(listed[i].0, listed[i].1));
            }
        }
    }
    seq_to_set_is_finite(keys);
}

/// Every part of a flattened sequence is in it, and nothing else; parts of one length add up.
proof fn flattened<A>(parts: Seq<Seq<A>>, n: nat)
    requires
        forall|i: int| 0 <= i < parts.len() ==> (#[trigger] parts[i]).len() == n,
    ensures
        parts.flatten().len() == n * parts.len(),
        forall|i: int, k: int|
            0 <= i < parts.len() && 0 <= k < n ==> parts.flatten().contains(
                #[trigger] parts[i][k],
            ),
        forall|item: A| #[trigger]
            parts.flatten().contains(item) ==> exists|i: int|
                0 <= i < parts.len() && (#[trigger] parts[i]).contains(item),
    decreases parts.len(),
{
    if parts.len() > 0 {
        let rest = parts.drop_last();
        let last = parts.last();
        assert forall|i: int| 0 <= i < rest.len() implies (#[trigger] rest[i]).len() == n by {
            assert(rest[i] == parts[i]);
        }
        flattened(rest, n);
        assert(rest.push(last) =~= parts);
        rest.lemma_flatten_push(last);
        let all = parts.flatten();
        let earlier = rest.flatten();
        assert(all =~= earlier + last);
        assert(last == parts[parts.len() - 1]);
        assert(n * parts.len() == n * rest.len() + n) by (nonlinear_arith)
            requires
                parts.len() == rest.len() + 1,
        ;
        assert forall|i: int, k: int| 0 <= i < parts.len() && 0 <= k < n implies all.contains(
            #[trigger] parts[i][k],
        ) by {
            if i < rest.len() {
                assert(rest[i] == parts[i]);
                assert(earlier.contains(rest[i][k]));
                let m = choose|m: int| 0 <= m < earlier.len() && earlier[m] == rest[i][k];
                assert(all[m] == parts[i][k]);
            } else {
                assert(all[earlier.len() + k] == last[k]);
            }
        }
        assert forall|item: A| #[trigger] all.contains(item) implies exists|i: int|
            0 <= i < parts.len() && (#[trigger] parts[i]).contains(item) by {
            let m = choose|m: int| 0 <= m < all.len() && all[m] == item;
            if m < earlier.len() {
                assert(earlier[m] == item);
                assert(earlier.contains(item));
                let i = choose|i: int| 0 <= i < rest.len() && (#[trigger] rest[i]).contains(item);
                assert(parts[i].contains(item));
            } else {
                assert(last[m - earlier.len()] == item);
                assert(parts[parts.len() - 1].contains(item));
            }
        }
    } else {
        assert(n * 0 == 0) by (nonlinear_arith);
        assert(parts.flatten() =~= Seq::empty());
    }
}

proof fn report_parts(
    state: MetricsState,
    receivers: Seq<(SourceKey, (u64, u64))>,
    pairs: Seq<(PairKey, LagCounts)>,
)
    ensures
        ({
            let points = state.report_points(receivers, pairs);
            let parts = pairs.map_values(|entry: (PairKey, LagCounts)| state.lag_points(entry));
            let head = if state.enabled_grpc_service {
                2int
            } else {
                1
            };
            &&& points.len() == head + receivers.len() + parts.flatten().len()
            &&& points[0] == state.connection_point()
            &&& state.enabled_grpc_service ==> points[1] == state.service_point()
            &&& forall|i: int|
                0 <= i < receivers.len() ==> points[head + i] == state.receiver_point(
                    #[trigger] receivers[i],
                )
            &&& forall|i: int|
                0 <= i < parts.flatten().len() ==> points[head + receivers.len() + i]
                    == #[trigger] parts.flatten()[i]
        }),
{
}

/// The histograms that are reported are those of the lag tracker; without one there are none.
pub proof fn histograms_are_the_trackers(state: MetricsState, pair: PairKey)
    ensures
        state.dup_lag matches Some(tracker) ==> state.histograms() == tracker.hist,
        state.dup_lag is None ==> !state.histograms().contains_key(pair),
{
}

/// Whether a sample is about one of the sources.
pub open spec fn tells_of_a_source(state: MetricsState, point: PointView) -> bool {
    exists|key: SourceKey| #[trigger]
        state.packets.contains_key(key) && point == state.receiver_point((key, state.packets[key]))
}

/// Whether a sample is about one of the pairs.
pub open spec fn tells_of_a_pair(state: MetricsState, point: PointView) -> bool {
    exists|pair: PairKey| #[trigger]
        state.histograms().contains_key(pair) && state.lag_points(
            (pair, state.histograms()[pair]),
        ).contains(point)
}

/// A report tells of everything: it starts with the connection; tells of the service if that is on;
/// and has a sample for every source that packets came from, and fifteen samples for every pair of
/// sources that has a histogram, in this order. It tells of nothing else, and its length leaves room
/// for nothing twice.
pub proof fn reports_tell_everything(state: MetricsState, points: Seq<PointView>)
    requires
        state.reports(points),
    ensures
        state.packets.dom().finite() && state.histograms().dom().finite(),
        points.len() == 1 + state.packets.dom().len() + 15 * state.histograms().dom().len() + if
            state.enabled_grpc_service {
            1int
        } else {
            0
        },
        points[0] == state.connection_point(),
        state.enabled_grpc_service ==> points[1] == state.service_point(),
        forall|key: SourceKey| #[trigger]
            state.packets.contains_key(key) ==> points.contains(
                state.receiver_point((key, state.packets[key])),
            ),
        forall|pair: PairKey, k: int|
            state.histograms().contains_key(pair) && 0 <= k < 15 ==> points.contains(
                #[trigger] state.lag_points((pair, state.histograms()[pair]))[k],
            ),
        forall|i: int|
            1 <= i < points.len() ==> {
                let place = i - 1 - if state.enabled_grpc_service {
                    1int
                } else {
                    0
                };
                &&& 0 <= place < state.packets.dom().len() ==> tells_of_a_source(
                    state,
                    #[trigger] points[i],
                )
                &&& state.packets.dom().len() <= place ==> tells_of_a_pair(state, points[i])
            },
{
    let (receivers, pairs) = choose|
        receivers: Seq<(SourceKey, (u64, u64))>,
        pairs: Seq<(PairKey, LagCounts)>,
    |
        {
            &&& lists_entries(receivers, state.packets)
            &&& lists_entries(pairs, state.histograms())
            &&& points == #[trigger] state.report_points(receivers, pairs)
        };
    let lags = state.histograms();
    let parts = pairs.map_values(|entry: (PairKey, LagCounts)| state.lag_points(entry));
    let flat = parts.flatten();
    let head = if state.enabled_grpc_service {
        2int
    } else {
        1
    };
    report_parts(state, receivers, pairs);
    listed_once(receivers, state.packets);
    listed_once(pairs, lags);
    assert forall|i: int| 0 <= i < parts.len() implies (#[trigger] parts[i]).len() == 15 by {
        assert(parts[i] == state.lag_points(pairs[i]));
    }
    flattened(parts, 15);
    assert forall|key: SourceKey| #[trigger]
        state.packets.contains_key(key) implies points.contains(
        state.receiver_point((key, state.packets[key])),
    ) by {
        let i = choose|i: int| 0 <= i < receivers.len() && (#[trigger] receivers[i]).0 == key;
        assert(state.packets.contains_pair(receivers[i].0, receivers[i].1));
        assert(points[head + i] == state.receiver_point(receivers[i]));
    }
    assert forall|pair: PairKey, k: int|
        state.histograms().contains_key(pair) && 0 <= k < 15 implies points.contains(
        #[trigger] state.lag_points((pair, state.histograms()[pair]))[k],
    ) by {
        let i = choose|i: int| 0 <= i < pairs.len() && (#[trigger] pairs[i]).0 == pair;
        assert(lags.contains_pair(pairs[i].0, pairs[i].1));
        assert(parts[i] == state.lag_points((pair, lags[pair])));
        assert(flat.contains(parts[i][k]));
        let m = choose|m: int| 0 <= m < flat.len() && flat[m] == parts[i][k];
        assert(points[head + receivers.len() + m] == flat[m]);
    }
    assert forall|i: int| head <= i < points.len() implies {
        &&& i - head < receivers.len() ==> tells_of_a_source(state, #[trigger] points[i])
        &&& receivers.len() <= i - head ==> tells_of_a_pair(state, points[i])
    } by {
        let j = i - head;
        if j < receivers.len() {
            assert(points[head + j] == state.receiver_point(receivers[j]));
            assert(state.packets.contains_pair(receivers[j].0, receivers[j].1));
            assert(state.packets.contains_key(receivers[j].0));
        } else {
            let m = j - receivers.len();
            assert(points[head + receivers.len() + m] == flat[m]);
            assert(flat.contains(flat[m]));
            let p = choose|p: int|
                0 <= p < parts.len() && (#[trigger] parts[p]).contains(points[i]);
            assert(parts[p] == state.lag_points(pairs[p]));
            assert(lags.contains_pair(pairs[p].0, pairs[p].1));
            assert(lags.contains_key(pairs[p].0));
        }
    }
}

/// The device that a local port belongs to: the multicast device for the multicast port, and
/// "unicast" for any other.
pub fn device_label<'a>(port: u16, multicast_port: u16, multicast_device: &'a str) -> (label:
    &'a str)
    ensures
        label@ == device_of(port, multicast_port, multicast_device@),
{
    if port == multicast_port {
        multicast_device
    } else {
        "unicast"
    }
}

impl Default for ShredMetrics {
    fn default() -> (metrics: ShredMetrics)
        ensures
            metrics.wf(),
            metrics@ == MetricsState::fresh(false, 0, Seq::empty(), None),
    {
        ShredMetrics::new(false, 0, String::new(), None)
    }
}

impl ShredMetrics {
    /// The lag tracker, if there is one, is well formed.
    pub open spec fn wf(&self) -> bool {
        self.dup_lag matches Some(tracker) ==> tracker.wf()
    }

    pub fn new(
        enabled_grpc_service: bool,
        multicast_subscribe_port: u16,
        multicast_device: String,
        dup_lag: Option<DupLagTracker>,
    ) -> (metrics: ShredMetrics)
        requires
            dup_lag matches Some(tracker) ==> tracker.wf(),
        ensures
            metrics.wf(),
            metrics@ == MetricsState::fresh(
                enabled_grpc_service,
                multicast_subscribe_port,
                multicast_device@,
                match dup_lag {
                    Some(tracker) => Some(tracker@),
                    None => None,
                },
            ),
    {
        ShredMetrics {
            enabled_grpc_service,
            multicast_subscribe_port,
            multicast_device,
            dup_lag,
            received: 0,
            success_forward: 0,
            fail_forward: 0,
            duplicate: 0,
            packets_received: new_packet_counts(10),
            recovered_count: 0,
            entry_count: 0,
            txn_count: 0,
            unknown_start_position_count: 0,
            fec_recovery_error_count: 0,
            bincode_deserialize_error_count: 0,
            unknown_start_position_error_count: 0,
            agg_received_cumulative: 0,
            agg_success_forward_cumulative: 0,
            agg_fail_forward_cumulative: 0,
            duplicate_cumulative: 0,
        }
    }

    fn connection_point(&self) -> (point: DataPoint)
        ensures
            point@ == self@.connection_point(),
    {
        DataPoint::new(Level::Info, "shredstream_proxy-connection_metrics").with_count(
            "received",
            self.received,
        ).with_count("success_forward", self.success_forward).with_count(
            "fail_forward",
            self.fail_forward,
        ).with_count("duplicate", self.duplicate)
    }

    fn service_point(&self) -> (point: DataPoint)
        ensures
            point@ == self@.service_point(),
    {
        DataPoint::new(Level::Info, "shredstream_proxy-service_metrics").with_count(
            "recovered_count",
            self.recovered_count,
        ).with_count("entry_count", self.entry_count).with_count(
            "txn_count",
            self.txn_count,
        ).with_count(
            "unknown_start_position_count",
            self.unknown_start_position_count,
        ).with_count("fec_recovery_error_count", self.fec_recovery_error_count).with_count(
            "bincode_deserialize_error_count",
            self.bincode_deserialize_error_count,
        ).with_count(
            "unknown_start_position_error_count",
            self.unknown_start_position_error_count,
        )
    }

    fn device_tag(&self, port: u16) -> (tag: TagValue)
        ensures
            tag@ == TagView::Text(self@.device(port)),
    {
        TagValue::Text(
            device_label(
                port,
                self.multicast_subscribe_port,
                self.multicast_device.as_str(),
            ).to_owned(),
        )
    }

    /// The samples about sources of packets, in the order in which they are given.
    pub fn receiver_points(&self, listed: &Vec<(SourceKey, (u64, u64))>) -> (points: Vec<DataPoint>)
        ensures
            point_views(points@) == listed@.map_values(
                |entry: (SourceKey, (u64, u64))| self@.receiver_point(entry),
            ),
    {
        let mut points: Vec<DataPoint> = Vec::new();
        let mut i: usize = 0;
        while i < listed.len()
            invariant
                i <= listed.len(),
                point_views(points@) == listed@.take(i as int).map_values(
                    |entry: (SourceKey, (u64, u64))| self@.receiver_point(entry),
                ),
            decreases listed.len() - i,
        {
            let (key, (discarded, not_discarded)) = listed[i];
            let point = DataPoint::new(
                Level::Info,
                "shredstream_proxy-receiver_stats",
            ).with_tag("addr", TagValue::Addr(addr_of_key(key))).with_tag(
                "listen_port",
                TagValue::Port(key.2),
            ).with_tag("device", self.device_tag(key.2)).with_count(
                "discarded_packets",
                discarded,
            ).with_count("not_discarded_packets", not_discarded);
            let ghost before = points@;
            points.push(point);
            i = i + 1;
            proof {
                assert(point_views(points@) =~= point_views(before).push(point@));
                assert(listed@.take(i as int).map_values(
                    |entry: (SourceKey, (u64, u64))| self@.receiver_point(entry),
                ) =~= listed@.take(i - 1).map_values(
                    |entry: (SourceKey, (u64, u64))| self@.receiver_point(entry),
                ).push(point@));
            }
        }
        assert(listed@.take(i as int) =~= listed@);
        points
    }

    fn pair_point(&self, pair: PairKey) -> (point: DataPoint)
        ensures
            point@ == self@.pair_point(pair),
    {
        let (winner, loser) = pair;
        DataPoint::new(Level::Info, "shredstream_proxy-dup_lag_seconds").with_tag(
            "winner_addr",
            TagValue::Addr(addr_of_key(winner)),
        ).with_tag("winner_port", TagValue::Port(winner.2)).with_tag(
            "winner_device",
            self.device_tag(winner.2),
        ).with_tag("loser_addr", TagValue::Addr(addr_of_key(loser))).with_tag(
            "loser_port",
            TagValue::Port(loser.2),
        ).with_tag("loser_device", self.device_tag(loser.2))
    }

    fn bucket_point(&self, pair: PairKey, le: &'static str, count: u64) -> (point: DataPoint)
        ensures
            point@ == self@.bucket_point(pair, le@, count),
    {
        self.pair_point(pair).with_tag("le", TagValue::Text(le.to_owned())).with_count(
            "bucket",
            count,
        )
    }

    /// The samples about the lags of one pair.
    fn lag_points(&self, pair: PairKey, hist: &DupLagHistogram) -> (points: Vec<DataPoint>)
        ensures
            point_views(points@) == self@.lag_points((pair, hist@)),
    {
        let counts = hist.cumulative_counts();
        let mut points: Vec<DataPoint> = Vec::new();
        let mut i: usize = 0;
        while i < DUP_LAG_BANDS
            invariant
                i <= DUP_LAG_BANDS,
                counts@ == Seq::new(DUP_LAG_BANDS as nat, |j: int| hist@.cumulative((j + 1) as nat)),
                point_views(points@) == Seq::new(
                    i as nat,
                    |j: int|
                        self@.bucket_point(
                            pair,
                            DUP_LAG_LE_SECONDS@[j]@,
                            hist@.cumulative((j + 1) as nat),
                        ),
                ),
            decreases DUP_LAG_BANDS - i,
        {
            let ghost before = points@;
            let point = self.bucket_point(pair, DUP_LAG_LE_SECONDS[i], counts[i]);
            points.push(point);
            assert(point_views(points@) =~= point_views(before).push(point@));
            i = i + 1;
        }
        let ghost bounded = points@;
        let all = self.bucket_point(pair, "+Inf", hist.count);
        points.push(all);
        let sum = self.pair_point(pair).with_count("count", hist.count).with_field(
            "sum",
            FieldValue::MicrosAsSeconds(hist.sum_micros),
        );
        points.push(sum);
        assert(point_views(points@) =~= point_views(bounded).push(all@).push(sum@));
        points
    }

    /// The samples about lags, pair by pair in the order in which they are given.
    pub fn dup_lag_points(&self, listed: &Vec<(PairKey, DupLagHistogram)>) -> (points: Vec<
        DataPoint,
    >)
        ensures
            point_views(points@) == lag_entries(listed@).map_values(
                |entry: (PairKey, LagCounts)| self@.lag_points(entry),
            ).flatten(),
    {
        let mut points: Vec<DataPoint> = Vec::new();
        let ghost entries = lag_entries(listed@);
        let ghost shown = |entry: (PairKey, LagCounts)| self@.lag_points(entry);
        let mut i: usize = 0;
        while i < listed.len()
            invariant
                i <= listed.len(),
                entries == lag_entries(listed@),
                shown == (|entry: (PairKey, LagCounts)| self@.lag_points(entry)),
                point_views(points@) == entries.take(i as int).map_values(shown).flatten(),
            decreases listed.len() - i,
        {
            let (pair, hist) = listed[i];
            let ghost before = points@;
            let mut of_pair = self.lag_points(pair, &hist);
            let ghost added = of_pair@;
            points.append(&mut of_pair);
            i = i + 1;
            proof {
                assert(point_views(points@) =~= point_views(before) + point_views(added));
                assert(entries.take(i as int).map_values(shown) =~= entries.take(
                    i - 1,
                ).map_values(shown).push(point_views(added)));
                entries.take(i - 1).map_values(shown).lemma_flatten_push(point_views(added));
            }
        }
        assert(entries.take(i as int) =~= entries);
        points
    }

    /// The samples of everything that was counted, when samples at the info level are wanted. The
    /// counts by source start over either way, the service counts once they were shown. The lag
    /// histograms are lifetime-cumulative and stay.
    pub fn report(&mut self, info_enabled: bool) -> (points: Vec<DataPoint>)
        requires
            old(self).wf(),
        ensures
            final(self).wf(),
            final(self)@ == old(self)@.reported(info_enabled),
            !info_enabled ==> points@.len() == 0,
            info_enabled ==> old(self)@.reports(point_views(points@)),
            info_enabled ==> points@.len() == 1 + old(self)@.packets.dom().len() + 15 * old(
                self,
            )@.histograms().dom().len() + if old(self)@.enabled_grpc_service {
                1int
            } else {
                0
            },
    {
        let mut points: Vec<DataPoint> = Vec::new();
        if info_enabled {
            points.push(self.connection_point());
            if self.enabled_grpc_service {
                points.push(self.service_point());
                self.recovered_count = 0;
                self.entry_count = 0;
                self.txn_count = 0;
                self.unknown_start_position_count = 0;
                self.fec_recovery_error_count = 0;
                self.bincode_deserialize_error_count = 0;
                self.unknown_start_position_error_count = 0;
            }
            let ghost head = points@;
            let receivers = list_packet_counts(&self.packets_received);
            let mut shown_receivers = self.receiver_points(&receivers);
            let ghost middle = shown_receivers@;
            points.append(&mut shown_receivers);
            let pairs = match &self.dup_lag {
                Some(tracker) => tracker.list_lags(),
                None => Vec::new(),
            };
            let mut shown_pairs = self.dup_lag_points(&pairs);
            let ghost tail = shown_pairs@;
            points.append(&mut shown_pairs);
            proof {
                let state = old(self)@;
                assert(lists_entries(lag_entries(pairs@), state.histograms()));
                assert(receivers@.map_values(
                    |entry: (SourceKey, (u64, u64))| self@.receiver_point(entry),
                ) =~= receivers@.map_values(
                    |entry: (SourceKey, (u64, u64))| state.receiver_point(entry),
                ));
                assert forall|entry: (PairKey, LagCounts)|
                    self@.lag_points(entry) =~= state.lag_points(entry) by {}
                assert(lag_entries(pairs@).map_values(
                    |entry: (PairKey, LagCounts)| self@.lag_points(entry),
                ) =~= lag_entries(pairs@).map_values(
                    |entry: (PairKey, LagCounts)| state.lag_points(entry),
                ));
                assert(point_views(points@) =~= point_views(head) + point_views(middle)
                    + point_views(tail));
                let service = if state.enabled_grpc_service {
                    seq![state.service_point()]
                } else {
                    seq![]
                };
                assert(point_views(head) =~= seq![state.connection_point()] + service);
                assert(point_views(points@) =~= state.report_points(
                    receivers@,
                    lag_entries(pairs@),
                ));
                reports_tell_everything(state, point_views(points@));
            }
        }
        clear_packet_counts(&mut self.packets_received);
        points
    }

    /// resets current values, increments cumulative values
    pub fn reset(&mut self)
        requires
            old(self).wf(),
        ensures
            final(self).wf(),
            final(self)@ == old(self)@.reset(),
    {
        self.agg_received_cumulative = self.agg_received_cumulative.wrapping_add(self.received);
        self.received = 0;
        self.agg_success_forward_cumulative =
        self.agg_success_forward_cumulative.wrapping_add(self.success_forward);
        self.success_forward = 0;
        self.agg_fail_forward_cumulative =
        self.agg_fail_forward_cumulative.wrapping_add(self.fail_forward);
        self.fail_forward = 0;
        self.duplicate_cumulative = self.duplicate_cumulative.wrapping_add(self.duplicate);
        self.duplicate = 0;
    }
}

} // verus!
