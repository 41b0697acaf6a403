use lddns::discovery::{scan_candidates, server_address, subnet_of};
use lddns::ip::IpAddress;

fn v4(a: &lddns::ip::SocketAddress) -> ([u8; 4], u16) {
    match a.ip {
        IpAddress::V4(o) => (o, a.port),
        IpAddress::V6(_) => panic!("v6 candidate"),
    }
}

#[test]
fn scan_of_a_subnet() {
    let c = scan_candidates("192.168.1");
    assert_eq!(c.len(), 254);
    for (i, a) in c.iter().enumerate() {
        assert_eq!(v4(a), ([192, 168, 1, (i + 1) as u8], 63200));
    }
}

#[test]
fn scan_of_odd_subnets() {
    assert!(scan_candidates("not a subnet").is_empty());
    assert!(scan_candidates("192.168").is_empty());
    assert!(scan_candidates("10.0.0.1").is_empty());
    assert!(scan_candidates("300.1.1").is_empty());
    assert!(scan_candidates("01.2.3").is_empty());
    assert!(scan_candidates("").is_empty());
    let c = scan_candidates("1.2.3");
    assert_eq!(c.len(), 254);
    assert_eq!(v4(&c[253]), ([1, 2, 3, 254], 63200));
}

#[test]
fn subnets_of_addresses() {
    assert_eq!(subnet_of(IpAddress::V4([192, 168, 5, 77])), "192.168.5");
    assert_eq!(subnet_of(IpAddress::V4([10, 0, 0, 1])), "10.0.0");
    assert_eq!(subnet_of(IpAddress::V6([0; 8])), "192.168.0");
}

#[test]
fn server_addresses() {
    let a = server_address("192.168.1.1").unwrap();
    assert_eq!(v4(&a), ([192, 168, 1, 1], 63200));
    let a = server_address("[::1]").unwrap();
    assert!(matches!(a.ip, IpAddress::V6([0, 0, 0, 0, 0, 0, 0, 1])));
    assert_eq!((a.port, a.scope_id), (63200, 0));
    let a = server_address("[fe80::1%3]").unwrap();
    assert!(matches!(a.ip, IpAddress::V6([0xfe80, 0, 0, 0, 0, 0, 0, 1])));
    assert_eq!(a.scope_id, 3);
    assert_eq!(server_address("[::1%007]").unwrap().scope_id, 7);
    for s in ["[fe80::1%]", "[::1]:80", "::1", "host", "1.2.3.4:5", "[1.2.3.4]", "[::1%4294967296]"] {
        assert!(server_address(s).is_none(), "on {:?}", s);
    }
}
