use shredstream_proxy::addr::{pair_key, source_key, IpAddr};
use shredstream_proxy::clock::Timestamp;
use shredstream_proxy::datapoint::{FieldValue, TagValue};
use shredstream_proxy::forwarder::{trace_points, SendOutcome, TraceShred, WallTime};
use shredstream_proxy::metrics::ShredMetrics;
use shredstream_proxy::packet::{
    count_without_payload, dedup_batch, new_deduper, payloads, Meta, Packet, PACKET_DATA_SIZE,
};
use shredstream_proxy::tracker::DupLagTracker;

const NOW: Timestamp = Timestamp { nanos: 1_000_000 };

fn packet(byte: u8, addr: IpAddr) -> Packet {
    let meta = Meta { size: PACKET_DATA_SIZE, addr, port: 48289, discard: false };
    Packet::new([byte; PACKET_DATA_SIZE], meta)
}

#[test]
fn test_2shreds_3destinations() {
    let unspecified = IpAddr::v4(0, 0, 0, 0);
    let mut batch = vec![
        Packet::new(
            [1; PACKET_DATA_SIZE],
            Meta {
                size: PACKET_DATA_SIZE,
                addr: unspecified,
                port: 48289, // received on random port
                discard: false,
            },
        ),
        Packet::new(
            [2; PACKET_DATA_SIZE],
            Meta { size: PACKET_DATA_SIZE, addr: unspecified, port: 9999, discard: false },
        ),
    ];
    let dest_ports = [32881u16, 33881, 34881];
    let mut metrics = ShredMetrics::default();
    let mut deduper = new_deduper();
    assert_eq!(metrics.receive_batch(&mut batch, 20_000, NOW, &mut deduper), 0);

    let mut received: Vec<Vec<Vec<u8>>> = Vec::new();
    for _port in dest_ports {
        let sent = payloads(&batch);
        metrics.record_send(SendOutcome::Sent, sent.len());
        received.push(sent.iter().map(|data| data.to_vec()).collect());
    }

    // check results
    for received in received.iter() {
        assert_eq!(received.len(), 2);
        assert!(received.iter().all(|packet| packet.len() == PACKET_DATA_SIZE));
        assert_eq!(received[0], [1; PACKET_DATA_SIZE]);
        assert_eq!(received[1], [2; PACKET_DATA_SIZE]);
    }
    assert_eq!(received.iter().fold(0, |acc, elem| acc + elem.len()), 6);
    assert_eq!(metrics.received, 2);
    assert_eq!(metrics.success_forward, 6);
    assert_eq!(metrics.fail_forward, 0);
    assert_eq!(metrics.duplicate, 0);
}

#[test]
fn duplicates_are_discarded_and_counted_by_source() {
    let a = IpAddr::v4(1, 1, 1, 1);
    let b = IpAddr::v4(2, 2, 2, 2);
    let mut metrics = ShredMetrics::default();
    let mut deduper = new_deduper();
    let mut batch = vec![packet(1, a), packet(2, a), packet(1, b), packet(1, a)];
    assert_eq!(metrics.receive_batch(&mut batch, 7, NOW, &mut deduper), 2);
    assert_eq!(batch.iter().map(|p| p.meta.discard).collect::<Vec<_>>(), [false, false, true, true]);
    assert_eq!(*metrics.packets_received.get(&source_key(a, 7)).unwrap(), (1, 2));
    assert_eq!(*metrics.packets_received.get(&source_key(b, 7)).unwrap(), (1, 0));

    // the filter remembers across batches; the port tells sources apart
    let mut batch = vec![packet(2, b), packet(3, b)];
    assert_eq!(metrics.receive_batch(&mut batch, 8, NOW, &mut deduper), 1);
    assert_eq!(payloads(&batch).len(), 1);
    assert_eq!(payloads(&batch)[0], [3; PACKET_DATA_SIZE]);
    assert_eq!(*metrics.packets_received.get(&source_key(b, 8)).unwrap(), (1, 1));
    assert_eq!(metrics.packets_received.len(), 3);
    assert_eq!(metrics.received, 6);
    assert_eq!(metrics.duplicate, 3);
}

#[test]
fn duplicates_are_counted_once_for_any_number_of_destinations() {
    let a = IpAddr::v4(1, 1, 1, 1);
    for destinations in 0..4u64 {
        let mut metrics = ShredMetrics::default();
        let mut deduper = new_deduper();
        let mut batch = vec![packet(1, a), packet(1, a)];
        metrics.receive_batch(&mut batch, 7, NOW, &mut deduper);
        for _ in 0..destinations {
            metrics.record_send(SendOutcome::Sent, payloads(&batch).len());
        }
        assert_eq!(metrics.received, 2);
        assert_eq!(metrics.duplicate, 1);
        assert_eq!(metrics.success_forward, destinations);
        assert_eq!(metrics.fail_forward, 0);
    }
}

#[test]
fn packets_without_payload_are_discarded() {
    let a = IpAddr::v4(1, 1, 1, 1);
    let mut marked = packet(1, a);
    marked.meta.discard = true;
    let mut oversized = packet(2, a);
    oversized.meta.size = PACKET_DATA_SIZE + 1;
    let mut short = packet(3, a);
    short.meta.size = 3;
    assert!(marked.data().is_none());
    assert!(oversized.data().is_none());
    assert_eq!(short.data().unwrap(), [3, 3, 3]);
    // the filter goes by the received bytes only
    let mut alike = packet(3, a);
    alike.buffer[3] = 0;
    alike.meta.size = 3;
    let mut batch = vec![marked, oversized, short, alike, packet(1, a)];
    let mut deduper = new_deduper();
    assert_eq!(dedup_batch(&mut deduper, &mut batch), 3);
    assert_eq!(
        batch.iter().map(|p| p.meta.discard).collect::<Vec<_>>(),
        [true, true, false, true, false]
    );
    assert_eq!(batch[1].meta.size, PACKET_DATA_SIZE + 1);
}

#[test]
fn every_new_payload_is_sent_on_in_order() {
    let a = IpAddr::v4(1, 1, 1, 1);
    let mut metrics = ShredMetrics::default();
    let mut deduper = new_deduper();
    let mut batch: Vec<Packet> = (0..60u8).map(|i| packet(i % 40, a)).collect();
    assert_eq!(metrics.receive_batch(&mut batch, 7, NOW, &mut deduper), 20);
    let sent = payloads(&batch);
    assert_eq!(sent.len(), 40);
    assert!((0..40u8).all(|i| sent[i as usize] == [i; PACKET_DATA_SIZE]));

    // what was shown before is not sent again, even after other batches
    metrics.receive_batch(&mut vec![packet(100, a)], 7, NOW, &mut deduper);
    let mut batch: Vec<Packet> = (30..50u8).map(|i| packet(i, a)).collect();
    assert_eq!(metrics.receive_batch(&mut batch, 7, NOW, &mut deduper), 10);
    let sent = payloads(&batch);
    assert_eq!(sent.len(), 10);
    assert!((0..10u8).all(|i| sent[i as usize] == [40 + i; PACKET_DATA_SIZE]));
}

#[test]
fn packets_without_payload_are_no_duplicates() {
    let a = IpAddr::v4(1, 1, 1, 1);
    let mut marked = packet(1, a);
    marked.meta.discard = true;
    let mut oversized = packet(2, a);
    oversized.meta.size = PACKET_DATA_SIZE + 1;
    let mut metrics = ShredMetrics::default();
    let mut deduper = new_deduper();
    let mut batch = vec![marked, oversized];
    assert_eq!(count_without_payload(&batch), 2);
    assert_eq!(metrics.receive_batch(&mut batch, 7, NOW, &mut deduper), 0);
    assert_eq!((metrics.received, metrics.duplicate), (2, 0));
    assert_eq!(*metrics.packets_received.get(&source_key(a, 7)).unwrap(), (2, 0));

    // of four packets one is marked, two are sent on, and one is a duplicate
    let mut batch = vec![packet(1, a), marked, packet(3, a), packet(1, a)];
    let arrived = payloads(&batch).len() as u64;
    let duplicates = metrics.receive_batch(&mut batch, 7, NOW, &mut deduper);
    assert_eq!(duplicates, 1);
    assert_eq!(arrived, payloads(&batch).len() as u64 + duplicates);
    assert_eq!((metrics.received, metrics.duplicate), (6, 1));
    assert_eq!(*metrics.packets_received.get(&source_key(a, 7)).unwrap(), (4, 2));
}

#[test]
fn lag_is_observed_before_duplicates_are_discarded() {
    let a = IpAddr::v4(1, 1, 1, 1);
    let b = IpAddr::v4(2, 2, 2, 2);
    let tracker = DupLagTracker::new(1_000_000, 1, NOW);
    let mut metrics = ShredMetrics::new(false, 0, String::new(), Some(tracker));
    let mut deduper = new_deduper();
    metrics.receive_batch(&mut vec![packet(1, a)], 7, NOW, &mut deduper);
    let mut marked = packet(1, a);
    marked.meta.discard = true;
    let mut batch = vec![packet(1, b), marked];
    let later = Timestamp { nanos: NOW.nanos + 300_000 };
    metrics.receive_batch(&mut batch, 8, later, &mut deduper);
    assert_eq!(batch.iter().filter(|p| p.meta.discard).count(), 2);
    assert_eq!(metrics.duplicate, 1);
    let tracker = metrics.dup_lag.as_ref().unwrap();
    assert_eq!(tracker.hist.len(), 1);
    let hist = tracker.hist.get(&pair_key(a, 7, b, 8)).unwrap();
    assert_eq!((hist.count, hist.sum_micros, hist.buckets[3]), (1, 300, 1));
}

#[test]
fn sends_are_counted_per_destination() {
    let mut metrics = ShredMetrics::default();
    metrics.record_send(SendOutcome::Sent, 5);
    metrics.record_send(SendOutcome::Failed { num_failed: 3 }, 5);
    metrics.record_send(SendOutcome::Sent, 5);
    assert_eq!(metrics.success_forward, 12);
    assert_eq!(metrics.fail_forward, 3);
    metrics.record_send(SendOutcome::Failed { num_failed: 5 }, 5);
    assert_eq!(metrics.success_forward, 12);
    assert_eq!(metrics.fail_forward, 8);
    assert_eq!(metrics.duplicate, 0);
    metrics.success_forward = u64::MAX;
    metrics.record_send(SendOutcome::Sent, 5);
    assert_eq!(metrics.success_forward, 4);
}

#[test]
fn trace_shreds_show_their_age() {
    let received_at = WallTime { secs: 100, nanos: 500 };
    let traces = vec![
        TraceShred {
            region: "ny".to_string(),
            created_at: Some(WallTime { secs: 99, nanos: 999_000_000 }),
            seq_num: 17,
        },
        TraceShred { region: "tokyo".to_string(), created_at: None, seq_num: 18 },
        TraceShred {
            region: "slc".to_string(),
            created_at: Some(WallTime { secs: 101, nanos: 0 }),
            seq_num: u32::MAX,
        },
        TraceShred {
            region: "old".to_string(),
            created_at: Some(WallTime { secs: -1, nanos: 0 }),
            seq_num: 0,
        },
    ];
    let points = trace_points(received_at, &traces);
    let shown: Vec<(&str, i64, i64)> = points
        .iter()
        .map(|point| {
            assert_eq!(point.name, "shredstream_proxy-trace_shred_latency");
            let region = match &point.tags[0] {
                ("trace_region", TagValue::Text(text)) => text.as_str(),
                _ => panic!("no region"),
            };
            let int = |i: usize, name: &str| match &point.fields[i] {
                (field, FieldValue::Int(value)) if *field == name => *value,
                _ => panic!("no field"),
            };
            (region, int(0, "trace_seq_num"), int(1, "elapsed_micros"))
        })
        .collect();
    assert_eq!(shown, vec![("ny", 17, 1_000), ("slc", 4294967295, 0), ("old", 0, 101_000_000)]);
}
