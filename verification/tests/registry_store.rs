use lddns::ip::IpAddress;
use lddns::protocol::Message;
use lddns::registry::Registry;

const SEC: u128 = 1_000_000_000;

#[test]
fn heartbeat_then_get() {
    let mut r = Registry::new();
    assert!(r.get("pc").is_none());
    r.record_heartbeat("pc".to_string(), IpAddress::V4([10, 0, 0, 2]), 5 * SEC);
    let rec = r.get("pc").unwrap();
    assert_eq!(rec.last_seen, 5 * SEC);
    match rec.ip {
        IpAddress::V4(o) => assert_eq!(o, [10, 0, 0, 2]),
        _ => panic!("expected v4"),
    }
    r.record_heartbeat("pc".to_string(), IpAddress::V4([10, 0, 0, 3]), 6 * SEC);
    match r.get("pc").unwrap().ip {
        IpAddress::V4(o) => assert_eq!(o, [10, 0, 0, 3]),
        _ => panic!("expected v4"),
    }
}

#[test]
fn stale_records_are_removed() {
    let mut r = Registry::new();
    r.record_heartbeat("old".to_string(), IpAddress::V4([1, 1, 1, 1]), 0);
    r.record_heartbeat("edge".to_string(), IpAddress::V4([2, 2, 2, 2]), 10 * SEC);
    r.record_heartbeat("new".to_string(), IpAddress::V4([3, 3, 3, 3]), 95 * SEC);
    r.record_heartbeat("future".to_string(), IpAddress::V4([4, 4, 4, 4]), 500 * SEC);
    let removed = r.remove_stale(100 * SEC);
    assert_eq!(removed, vec!["old".to_string()]);
    assert!(r.get("old").is_none());
    assert!(r.get("edge").is_some());
    assert!(r.get("new").is_some());
    assert!(r.get("future").is_some());
    let removed = r.remove_stale(100 * SEC + 1);
    assert_eq!(removed, vec!["edge".to_string()]);
}

#[test]
fn server_replies() {
    let mut r = Registry::new();
    match r.handle_message(Message::DiscoveryRequest, 0) {
        Some(Message::DiscoveryResponse) => {}
        other => panic!("unexpected {:?}", other),
    }
    match r.handle_message(
        Message::Heartbeat { hostname: "h".to_string(), ip: IpAddress::V4([9, 9, 9, 9]) },
        7,
    ) {
        Some(Message::HeartbeatAck) => {}
        other => panic!("unexpected {:?}", other),
    }
    assert_eq!(r.get("h").unwrap().last_seen, 7);
    assert!(r.handle_message(Message::HeartbeatAck, 8).is_none());
    assert!(r.handle_message(Message::DiscoveryResponse, 8).is_none());
}

#[test]
fn punctual_heartbeats_keep_the_record() {
    let mut r = Registry::new();
    r.record_heartbeat("pc".to_string(), IpAddress::V4([10, 0, 0, 9]), 0);
    let interval = lddns::protocol::HEARTBEAT_INTERVAL_SECS as u128 * SEC;
    assert!(r.remove_stale(interval).is_empty());
    r.record_heartbeat("pc".to_string(), IpAddress::V4([10, 0, 0, 9]), interval);
    assert!(r.remove_stale(2 * interval).is_empty());
    assert!(r.get("pc").is_some());
}

#[test]
fn scheduled_cleanup_drops_record_within_150_seconds() {
    let mut r = Registry::new();
    r.record_heartbeat("gone".to_string(), IpAddress::V4([10, 0, 0, 8]), 10 * SEC);
    let period = lddns::registry::CLEANUP_INTERVAL_SECS as u128 * SEC;
    let mut dropped_at = None;
    for k in 0..10u128 {
        let tick = k * period;
        if r.remove_stale(tick) == vec!["gone".to_string()] {
            dropped_at = Some(tick);
            break;
        }
    }
    assert_eq!(dropped_at, Some(120 * SEC));
    assert!(120 * SEC > 10 * SEC + 90 * SEC && 120 * SEC <= 10 * SEC + 150 * SEC);
}
