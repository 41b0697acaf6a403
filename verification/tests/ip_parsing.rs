use lddns::ip::{parse_ip_chars, parse_ipv4_chars, ipv4_chars, IpAddress};
use lddns::text::chars_of;
#[derive(Debug, PartialEq)]
enum Parsed {
    V4([u8; 4]),
    V6([u16; 8]),
}

fn ours(s: &str) -> Option<Parsed> {
    match parse_ip_chars(&chars_of(s)) {
        Some(IpAddress::V4(o)) => Some(Parsed::V4(o)),
        Some(IpAddress::V6(g)) => Some(Parsed::V6(g)),
        None => None,
    }
}

#[test]
fn ipv4_grammar() {
    let valid: &[(&str, [u8; 4])] = &[
        ("192.168.1.10", [192, 168, 1, 10]),
        ("0.0.0.0", [0, 0, 0, 0]),
        ("255.255.255.255", [255, 255, 255, 255]),
        ("10.0.0.1", [10, 0, 0, 1]),
    ];
    for (s, o) in valid {
        assert_eq!(ours(s), Some(Parsed::V4(*o)), "on {:?}", s);
    }
    let invalid = [
        "1.2.3", "1.2.3.4.5", "01.2.3.4", "1.02.3.4", "256.1.1.1", "1.1.1.256", "1..1.1", "",
        ".", "1.2.3.4 ", " 1.2.3.4", "+1.2.3.4", "1.2.3.04", "0.0.0.00", "1234.1.1.1", "a.b.c.d",
    ];
    for s in invalid {
        assert_eq!(ours(s), None, "on {:?}", s);
    }
}

#[test]
fn ipv6_grammar() {
    let valid: &[(&str, [u16; 8])] = &[
        ("::", [0; 8]),
        ("::1", [0, 0, 0, 0, 0, 0, 0, 1]),
        ("1::", [1, 0, 0, 0, 0, 0, 0, 0]),
        ("fe80::1", [0xfe80, 0, 0, 0, 0, 0, 0, 1]),
        ("FE80::ABCD:1", [0xfe80, 0, 0, 0, 0, 0, 0xabcd, 1]),
        ("1:2:3:4:5:6:7:8", [1, 2, 3, 4, 5, 6, 7, 8]),
        ("1:2:3:4:5:6:7::", [1, 2, 3, 4, 5, 6, 7, 0]),
        ("::2:3:4:5:6:7:8", [0, 2, 3, 4, 5, 6, 7, 8]),
        ("::ffff:1.2.3.4", [0, 0, 0, 0, 0, 0xffff, 0x0102, 0x0304]),
        ("1:2:3:4:5:6:1.2.3.4", [1, 2, 3, 4, 5, 6, 0x0102, 0x0304]),
        ("1:2:3:4:5::1.2.3.4", [1, 2, 3, 4, 5, 0, 0x0102, 0x0304]),
        ("::0000:1", [0, 0, 0, 0, 0, 0, 0, 1]),
        ("0:0:0:0:0:0:0:0", [0; 8]),
    ];
    for (s, g) in valid {
        assert_eq!(ours(s), Some(Parsed::V6(*g)), "on {:?}", s);
    }
    let invalid = [
        "1:2:3:4:5:6:7:8:9", "1::2::3", "12345::", ":1::", "1:::2", ":::", "1:2:3:4:5:6:7:1.2.3.4",
        "1.2.3.4::", "::1.2.3.4:5", "1:2:3:4:5:6::1.2.3.4", "::00000:1", "g::1", "1:2:3:4:5:6:7",
        "::1%eth0", "[::1]", "::1:", "1.2.3.4:1:2:3:4:5:6",
    ];
    for s in invalid {
        assert_eq!(ours(s), None, "on {:?}", s);
    }
}

#[test]
fn ipv4_parse_examples() {
    assert_eq!(parse_ipv4_chars(&chars_of("192.168.1.10")), Some([192, 168, 1, 10]));
    assert_eq!(parse_ipv4_chars(&chars_of("010.1.1.1")), None);
    assert_eq!(parse_ipv4_chars(&chars_of("::1")), None);
}

#[test]
fn ipv6_parse_examples() {
    match parse_ip_chars(&chars_of("fe80::1")) {
        Some(IpAddress::V6(g)) => assert_eq!(g, [0xfe80, 0, 0, 0, 0, 0, 0, 1]),
        other => panic!("unexpected {:?}", other),
    }
    match parse_ip_chars(&chars_of("::ffff:10.0.0.1")) {
        Some(IpAddress::V6(g)) => assert_eq!(g, [0, 0, 0, 0, 0, 0xffff, 0x0a00, 0x0001]),
        other => panic!("unexpected {:?}", other),
    }
}

#[test]
fn ipv4_text_roundtrip_examples() {
    let texts = ["0.0.0.0", "192.168.0.1", "255.255.255.255", "10.100.7.99"];
    for (o, t) in [[0u8, 0, 0, 0], [192, 168, 0, 1], [255, 255, 255, 255], [10, 100, 7, 99]].into_iter().zip(texts) {
        let text: String = ipv4_chars(o).into_iter().collect();
        assert_eq!(text, t);
        assert_eq!(parse_ipv4_chars(&chars_of(&text)), Some(o));
    }
}
