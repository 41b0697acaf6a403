use hickory_proto::op::{Message as DnsMessage, MessageType, Query, ResponseCode};
use hickory_proto::rr::{Name, RData, RecordType};
use lddns::dns::{
    answer_after_lookup, answer_from_registry, decode_request, encode_response, hostname_of_query,
    DnsStep, FORM_ERR, NO_ERROR, NX_DOMAIN,
};
use lddns::ip::IpAddress;
use lddns::registry::Registry;

fn query_bytes(id: u16, name: &str, rtype: RecordType) -> Vec<u8> {
    let mut m = DnsMessage::new();
    m.set_id(id);
    m.set_recursion_desired(true);
    m.add_query(Query::query(Name::from_ascii(name).unwrap(), rtype));
    m.to_vec().unwrap()
}

fn registry() -> Registry {
    let mut r = Registry::new();
    r.record_heartbeat("pc".to_string(), IpAddress::V4([192, 168, 1, 7]), 0);
    r.record_heartbeat("six".to_string(), IpAddress::V6([1, 0, 0, 0, 0, 0, 0, 1]), 0);
    r
}

#[test]
fn query_names_to_hostnames() {
    assert_eq!(hostname_of_query("pc.local.", "local"), "pc");
    assert_eq!(hostname_of_query("pc.", "local"), "pc");
    assert_eq!(hostname_of_query("pc.other.", "local"), "pc.other");
    assert_eq!(hostname_of_query("a.b.local.", "local"), "a.b");
    assert_eq!(hostname_of_query("pc..", "local"), "pc");
}

#[test]
fn decode_reads_request() {
    let req = decode_request(&query_bytes(4321, "pc.local.", RecordType::A)).unwrap();
    assert_eq!(req.id, 4321);
    assert!(req.recursion_desired);
    let q = req.question.unwrap();
    assert_eq!(q.labels, vec![b"pc".to_vec(), b"local".to_vec()]);
    assert_eq!(q.name_text, "pc.local.");
    assert_eq!(q.record_type, 1);
    assert_eq!(q.class, 1);
    assert!(decode_request(&[1, 2, 3]).is_none());
}

#[test]
fn registered_host_is_answered() {
    let req = decode_request(&query_bytes(7, "pc.local.", RecordType::A)).unwrap();
    let resp = match answer_from_registry(&registry(), &req, "local") {
        DnsStep::Reply(r) => r,
        DnsStep::Lookup(n) => panic!("looked up {}", n),
    };
    assert_eq!(resp.response_code, NO_ERROR);
    assert_eq!(resp.answers.len(), 1);
    assert_eq!(resp.answers[0].ttl, 30);
    assert_eq!(resp.answers[0].addr, [192, 168, 1, 7]);
    let bytes = encode_response(&resp).unwrap();
    let back = DnsMessage::from_vec(&bytes).unwrap();
    assert_eq!(back.id(), 7);
    assert_eq!(back.message_type(), MessageType::Response);
    assert_eq!(back.response_code(), ResponseCode::NoError);
    assert!(back.recursion_desired());
    assert!(!back.recursion_available());
    assert_eq!(back.queries().len(), 1);
    assert_eq!(back.queries()[0].name().to_ascii(), "pc.local.");
    assert_eq!(back.answers().len(), 1);
    assert_eq!(back.answers()[0].ttl(), 30);
    assert_eq!(back.answers()[0].name().to_ascii(), "pc.local.");
    match back.answers()[0].data() {
        Some(RData::A(a)) => assert_eq!(a.0.octets(), [192, 168, 1, 7]),
        other => panic!("unexpected {:?}", other),
    }
}

#[test]
fn other_names_are_forwarded() {
    let req = decode_request(&query_bytes(9, "example.com.", RecordType::A)).unwrap();
    match answer_from_registry(&registry(), &req, "local") {
        DnsStep::Lookup(n) => assert_eq!(n, "example.com."),
        DnsStep::Reply(_) => panic!("answered locally"),
    }
    let req6 = decode_request(&query_bytes(9, "six.local.", RecordType::A)).unwrap();
    assert!(matches!(answer_from_registry(&registry(), &req6, "local"), DnsStep::Lookup(_)));
    let resp = answer_after_lookup(&req, &vec![IpAddress::V6([0; 8]), IpAddress::V4([93, 184, 216, 34])]);
    assert_eq!(resp.response_code, NO_ERROR);
    assert_eq!(resp.answers.len(), 1);
    assert_eq!(resp.answers[0].ttl, 300);
    assert_eq!(resp.answers[0].addr, [93, 184, 216, 34]);
    let none = answer_after_lookup(&req, &vec![IpAddress::V6([0; 8])]);
    assert_eq!(none.response_code, NX_DOMAIN);
    assert!(none.answers.is_empty());
    let back = DnsMessage::from_vec(&encode_response(&none).unwrap()).unwrap();
    assert_eq!(back.response_code(), ResponseCode::NXDomain);
}

#[test]
fn non_address_questions_and_empty_requests() {
    let req = decode_request(&query_bytes(3, "pc.local.", RecordType::AAAA)).unwrap();
    match answer_from_registry(&registry(), &req, "local") {
        DnsStep::Reply(r) => {
            assert_eq!(r.response_code, NX_DOMAIN);
            assert!(r.answers.is_empty());
        }
        DnsStep::Lookup(_) => panic!("forwarded"),
    }
    let mut m = DnsMessage::new();
    m.set_id(11);
    let req = decode_request(&m.to_vec().unwrap()).unwrap();
    assert!(req.question.is_none());
    match answer_from_registry(&registry(), &req, "local") {
        DnsStep::Reply(r) => {
            assert_eq!(r.response_code, FORM_ERR);
            let back = DnsMessage::from_vec(&encode_response(&r).unwrap()).unwrap();
            assert_eq!(back.response_code(), ResponseCode::FormErr);
            assert_eq!(back.id(), 11);
        }
        DnsStep::Lookup(_) => panic!("forwarded"),
    }
}

#[test]
fn unusual_labels_are_echoed() {
    let mut m = DnsMessage::new();
    m.set_id(21);
    let name = Name::from_labels(vec![b"-odd".to_vec(), b"a*b".to_vec(), b"local".to_vec()]).unwrap();
    m.add_query(Query::query(name.clone(), RecordType::A));
    let req = decode_request(&m.to_vec().unwrap()).unwrap();
    let resp = answer_after_lookup(&req, &vec![IpAddress::V4([10, 0, 0, 1])]);
    let back = DnsMessage::from_vec(&encode_response(&resp).unwrap()).unwrap();
    assert_eq!(back.queries()[0].name(), &name);
    assert_eq!(back.answers()[0].name(), &name);
}

#[test]
fn upstream_order() {
    let v = lddns::dns::upstream_resolvers();
    let got: Vec<([u8; 4], u16)> = v
        .iter()
        .map(|a| match a.ip {
            IpAddress::V4(o) => (o, a.port),
            IpAddress::V6(_) => panic!("v6 upstream"),
        })
        .collect();
    assert_eq!(
        got,
        vec![([94, 140, 14, 15], 53), ([94, 140, 14, 16], 53), ([1, 1, 1, 1], 53), ([1, 0, 0, 1], 53)]
    );
}
