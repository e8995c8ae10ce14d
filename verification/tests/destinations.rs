use shredstream_proxy::addr::{addr_of_key, source_key, IpAddr, SocketAddr};
use shredstream_proxy::destinations::{parse_discovered, union_destinations, DiscoveryError};

#[test]
fn replies_are_json_arrays_of_addresses() {
    let parsed = parse_discovered(b"[\"1.2.3.4\", \"::1\", \"1.2.3.4\"]").unwrap();
    assert_eq!(parsed, vec![IpAddr::v4(1, 2, 3, 4), IpAddr::V6(1), IpAddr::v4(1, 2, 3, 4)]);
    assert_eq!(parse_discovered(b"[]").unwrap(), vec![]);
}

#[test]
fn other_replies_are_refused() {
    for reply in ["", "{}", "[1]", "[\"1.2.3\"]", "[\"1.2.3.4\"", "[\"localhost\"]"] {
        assert!(matches!(parse_discovered(reply.as_bytes()), Err(DiscoveryError::Json(_))));
    }
}

#[test]
fn destinations_are_listed_once_in_order() {
    let discovered = vec![IpAddr::v4(9, 9, 9, 9), IpAddr::V6(3), IpAddr::v4(9, 9, 9, 9)];
    let configured = vec![
        Some(SocketAddr::V4 { ip: 5, port: 80 }),
        None,
        Some(SocketAddr::V4 { ip: 0x09090909, port: 7000 }),
        Some(SocketAddr::V4 { ip: 0x09090909, port: 7001 }),
        Some(SocketAddr::V6 { ip6: 3, port: 7000, flowinfo: 0, scope_id: 4 }),
        Some(SocketAddr::V4 { ip: 5, port: 80 }),
    ];
    assert_eq!(
        union_destinations(&discovered, 7000, &configured),
        vec![
            SocketAddr::V4 { ip: 0x09090909, port: 7000 },
            SocketAddr::V6 { ip6: 3, port: 7000, flowinfo: 0, scope_id: 0 },
            SocketAddr::V4 { ip: 5, port: 80 },
            SocketAddr::V4 { ip: 0x09090909, port: 7001 },
            SocketAddr::V6 { ip6: 3, port: 7000, flowinfo: 0, scope_id: 4 },
        ]
    );
}

#[test]
fn v4_and_v6_are_told_apart() {
    let v4 = IpAddr::v4(0, 0, 0, 7);
    let v6 = IpAddr::V6(7);
    assert_ne!(source_key(v4, 1), source_key(v6, 1));
    assert_eq!(addr_of_key(source_key(v4, 1)), v4);
    assert_eq!(addr_of_key(source_key(v6, 1)), v6);
    assert_eq!(
        union_destinations(&vec![v4, v6], 1, &vec![]),
        vec![SocketAddr::new(v4, 1), SocketAddr::new(v6, 1)]
    );
    for addr in [SocketAddr::new(v4, 1), SocketAddr::new(v6, 1)] {
        assert_eq!(SocketAddr::from_key(addr.key()), addr);
    }
}
