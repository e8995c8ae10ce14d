use shredstream_proxy::addr::{source_key, IpAddr};
use shredstream_proxy::clock::Timestamp;
use shredstream_proxy::control::{
    accessory_action, forwarder_threads, listen_port_range, reconstruct_action, sender_action,
    subscriber_refresh_secs, AccessoryAction, AccessoryEvent, DestinationRefresh,
    ReconstructAction, ReconstructEvent, RefreshAction, RefreshEvent, SenderAction, SenderEvent,
};
use shredstream_proxy::datapoint::{DataPoint, FieldValue, Level, TagValue};
use shredstream_proxy::histogram::DUP_LAG_LE_SECONDS;
use shredstream_proxy::metrics::{device_label, ShredMetrics};
use shredstream_proxy::tracker::DupLagTracker;

fn ints(point: &DataPoint) -> Vec<(&str, i64)> {
    point
        .fields
        .iter()
        .map(|(name, value)| match value {
            FieldValue::Int(value) => (*name, *value),
            other => panic!("not an integer: {other:?}"),
        })
        .collect()
}

fn tags(point: &DataPoint) -> Vec<(&str, String)> {
    point
        .tags
        .iter()
        .map(|(name, value)| {
            let text = match value {
                TagValue::Addr(IpAddr::V4(bits)) => format!("v4:{bits}"),
                TagValue::Addr(IpAddr::V6(bits)) => format!("v6:{bits}"),
                TagValue::Port(port) => format!("{port}"),
                TagValue::Text(text) => text.clone(),
            };
            (*name, text)
        })
        .collect()
}

fn busy_metrics(enabled_grpc_service: bool) -> ShredMetrics {
    let mut metrics = ShredMetrics::new(enabled_grpc_service, 7733, "doublezero1".to_string(), None);
    metrics.received = 10;
    metrics.success_forward = 20;
    metrics.fail_forward = 30;
    metrics.duplicate = u64::MAX;
    metrics.recovered_count = 1;
    metrics.entry_count = 2;
    metrics.txn_count = 3;
    metrics.unknown_start_position_count = 4;
    metrics.fec_recovery_error_count = 5;
    metrics.bincode_deserialize_error_count = 6;
    metrics.unknown_start_position_error_count = 7;
    metrics.packets_received.insert(source_key(IpAddr::V4(9), 7733), (11, 12));
    metrics
}

#[test]
fn report_shows_the_connection_and_the_sources() {
    let mut metrics = busy_metrics(false);
    let points = metrics.report(true);
    assert_eq!(points.len(), 2);
    assert_eq!(points[0].name, "shredstream_proxy-connection_metrics");
    assert_eq!(points[0].level, Level::Info);
    assert!(points[0].tags.is_empty());
    assert_eq!(
        ints(&points[0]),
        vec![("received", 10), ("success_forward", 20), ("fail_forward", 30), ("duplicate", -1)]
    );
    assert_eq!(points[1].name, "shredstream_proxy-receiver_stats");
    assert_eq!(
        tags(&points[1]),
        vec![
            ("addr", "v4:9".to_string()),
            ("listen_port", "7733".to_string()),
            ("device", "doublezero1".to_string())
        ]
    );
    assert_eq!(
        ints(&points[1]),
        vec![("discarded_packets", 11), ("not_discarded_packets", 12)]
    );
    assert!(metrics.packets_received.is_empty());
    assert_eq!(metrics.received, 10);
    // service counts were not shown
    assert_eq!(metrics.recovered_count, 1);
    assert_eq!(metrics.report(true).len(), 1);
}

#[test]
fn report_shows_every_source_once() {
    let mut metrics = ShredMetrics::default();
    for i in 0..20u32 {
        metrics.packets_received.insert(source_key(IpAddr::V4(i), 5), (i as u64, 0));
    }
    let points = metrics.report(true);
    let mut shown: Vec<i64> = points[1..].iter().map(|point| ints(point)[0].1).collect();
    shown.sort();
    assert_eq!(shown, (0..20).collect::<Vec<i64>>());
    assert!(points[1..].iter().all(|point| tags(point)[2].1 == "unicast"));
}

#[test]
fn service_counts_start_over_once_shown() {
    let mut metrics = busy_metrics(true);
    let points = metrics.report(true);
    assert_eq!(points[1].name, "shredstream_proxy-service_metrics");
    assert_eq!(
        ints(&points[1]),
        vec![
            ("recovered_count", 1),
            ("entry_count", 2),
            ("txn_count", 3),
            ("unknown_start_position_count", 4),
            ("fec_recovery_error_count", 5),
            ("bincode_deserialize_error_count", 6),
            ("unknown_start_position_error_count", 7),
        ]
    );
    let again = metrics.report(true);
    assert!(ints(&again[1]).iter().all(|(_, value)| *value == 0));
}

#[test]
fn silent_reports_keep_the_service_counts() {
    let mut metrics = busy_metrics(true);
    assert!(metrics.report(false).is_empty());
    assert!(metrics.packets_received.is_empty());
    assert_eq!(metrics.unknown_start_position_error_count, 7);
}

#[test]
fn lags_are_reported_as_cumulative_buckets() {
    let start = Timestamp { nanos: 0 };
    let after = |micros: u128| Timestamp { nanos: micros * 1_000 };
    let mut tracker = DupLagTracker::new(10_000_000, 1, start);
    let winner = IpAddr::v4(1, 1, 1, 1);
    let loser = IpAddr::V6(5);
    tracker.observe(b"shred", start, winner, 7733);
    for micros in [40, 240, 600_000] {
        tracker.observe(b"shred", after(micros), loser, 20000);
    }
    let mut metrics = ShredMetrics::new(false, 7733, "doublezero1".to_string(), Some(tracker));
    for _ in 0..2 {
        let points = metrics.report(true);
        assert_eq!(points.len(), 1 + 15);
        let named = vec![
            ("winner_addr", format!("v4:{}", 0x01010101)),
            ("winner_port", "7733".to_string()),
            ("winner_device", "doublezero1".to_string()),
            ("loser_addr", "v6:5".to_string()),
            ("loser_port", "20000".to_string()),
            ("loser_device", "unicast".to_string()),
        ];
        for (i, le) in DUP_LAG_LE_SECONDS.iter().enumerate() {
            let point = &points[1 + i];
            assert_eq!(point.name, "shredstream_proxy-dup_lag_seconds");
            let mut expected = named.clone();
            expected.push(("le", le.to_string()));
            assert_eq!(tags(point), expected);
            let count = if i < 2 { 1 } else { 2 };
            assert_eq!(ints(point), vec![("bucket", count)]);
        }
        let mut expected = named.clone();
        expected.push(("le", "+Inf".to_string()));
        assert_eq!(tags(&points[14]), expected);
        assert_eq!(ints(&points[14]), vec![("bucket", 3)]);
        assert_eq!(tags(&points[15]), named);
        assert!(matches!(points[15].fields[0], ("count", FieldValue::Int(3))));
        assert!(matches!(points[15].fields[1], ("sum", FieldValue::MicrosAsSeconds(600_280))));
        // histograms outlive reports and resets
        metrics.reset();
    }
}

#[test]
fn reset_moves_counts_to_the_cumulative_ones() {
    let mut metrics = busy_metrics(true);
    metrics.agg_received_cumulative = 1;
    metrics.duplicate_cumulative = 2;
    for _ in 0..2 {
        metrics.reset();
        assert_eq!(metrics.received, 0);
        assert_eq!(metrics.success_forward, 0);
        assert_eq!(metrics.fail_forward, 0);
        assert_eq!(metrics.duplicate, 0);
        assert_eq!(metrics.agg_received_cumulative, 11);
        assert_eq!(metrics.agg_success_forward_cumulative, 20);
        assert_eq!(metrics.agg_fail_forward_cumulative, 30);
        assert_eq!(metrics.duplicate_cumulative, 1);
    }
    assert_eq!(metrics.recovered_count, 1);
    assert_eq!(metrics.packets_received.len(), 1);
}

#[test]
fn the_accessory_thread_reports_before_it_resets() {
    let mut metrics = busy_metrics(false);
    let points = metrics.report_and_reset(true);
    assert_eq!(ints(&points[0])[0], ("received", 10));
    assert_eq!((metrics.received, metrics.agg_received_cumulative), (0, 10));
    assert_eq!(
        accessory_action(AccessoryEvent::DeduperResetTick),
        AccessoryAction::MaybeResetDeduper
    );
    assert_eq!(accessory_action(AccessoryEvent::MetricsTick), AccessoryAction::ReportAndReset);
    assert_eq!(accessory_action(AccessoryEvent::Shutdown), AccessoryAction::Stop);
}

#[test]
fn ports_name_their_device() {
    assert_eq!(device_label(7733, 7733, "doublezero1"), "doublezero1");
    assert_eq!(device_label(20000, 7733, "doublezero1"), "unicast");
}

#[test]
fn thread_counts_and_ports_have_defaults() {
    assert_eq!(forwarder_threads(Some(9), 2), 9);
    assert_eq!(forwarder_threads(None, 2), 2);
    assert_eq!(forwarder_threads(None, 64), 4);
    assert_eq!(listen_port_range(20000), (20000, 20001));
    assert_eq!(subscriber_refresh_secs(true), Some(30));
    assert_eq!(subscriber_refresh_secs(false), None);
}

#[test]
fn threads_stop_when_their_source_ends() {
    assert_eq!(reconstruct_action(ReconstructEvent::Batch), ReconstructAction::Reconstruct);
    assert_eq!(reconstruct_action(ReconstructEvent::Timeout), ReconstructAction::Wait);
    assert_eq!(reconstruct_action(ReconstructEvent::Disconnected), ReconstructAction::Stop);
    assert_eq!(sender_action(SenderEvent::Packets), SenderAction::Forward);
    assert_eq!(sender_action(SenderEvent::PacketsClosed), SenderAction::Stop);
    assert_eq!(sender_action(SenderEvent::RefreshTick), SenderAction::ReloadDestinations);
    assert_eq!(sender_action(SenderEvent::Shutdown), SenderAction::Stop);
}

#[test]
fn a_failed_fetch_keeps_the_destinations() {
    let mut refresh = DestinationRefresh::new(2);
    assert!(matches!(refresh.handle(RefreshEvent::FetchTick), RefreshAction::Fetch));
    assert!(matches!(refresh.handle(RefreshEvent::Fetched { count: 5 }), RefreshAction::Store));
    assert_eq!(refresh.socket_count, 5);
    match refresh.handle(RefreshEvent::FetchFailed { error: "down".to_string() }) {
        RefreshAction::Submit(point) => {
            assert_eq!(point.level, Level::Warn);
            assert_eq!(point.name, "shredstream_proxy-destination_refresh_error");
            assert!(matches!(point.fields[0], ("prev_unioned_dest_count", FieldValue::Int(5))));
            assert!(matches!(point.fields[1], ("errors", FieldValue::Int(1))));
            assert!(matches!(&point.fields[2], ("error_str", FieldValue::Text(text)) if text == "down"));
        }
        other => panic!("{other:?}"),
    }
    assert_eq!(refresh.socket_count, 5);
    match refresh.handle(RefreshEvent::MetricsTick) {
        RefreshAction::Submit(point) => {
            assert_eq!(point.level, Level::Info);
            assert_eq!(point.name, "shredstream_proxy-destination_refresh_stats");
            assert_eq!(ints(&point), vec![("destination_count", 5)]);
        }
        other => panic!("{other:?}"),
    }
    assert!(matches!(refresh.handle(RefreshEvent::Shutdown), RefreshAction::Stop));
}
