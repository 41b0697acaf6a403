use lddns::ip::IpAddress;
use lddns::protocol::{
    be32_bytes, check_discovery_reply, check_heartbeat_reply, decode_frame, encode_frame,
    frame_length, heartbeat, FrameError, Message, ProtocolError,
};

#[test]
fn frame_roundtrip() {
    let payload = vec![1u8, 2, 3, 4, 5];
    let framed = encode_frame(&payload);
    assert_eq!(framed, vec![0, 0, 0, 5, 1, 2, 3, 4, 5]);
    assert_eq!(decode_frame(&framed), Ok(payload.clone()));
    let mut longer = framed.clone();
    longer.extend_from_slice(&[9, 9]);
    assert_eq!(decode_frame(&longer), Ok(payload));
}

#[test]
fn frame_errors() {
    assert_eq!(decode_frame(&[0, 0, 1]), Err(FrameError::MissingLength));
    assert_eq!(decode_frame(&[0, 0, 0, 3, 1, 2]), Err(FrameError::Truncated));
    assert_eq!(decode_frame(&[0, 0, 0, 0]), Ok(vec![]));
}

#[test]
fn big_endian_length() {
    assert_eq!(be32_bytes(0x01020304), [1, 2, 3, 4]);
    assert_eq!(frame_length([0, 0, 1, 0]), 256);
    assert_eq!(frame_length(be32_bytes(63200)), 63200);
    assert_eq!(u32::from_be_bytes(be32_bytes(0xdeadbeef)), 0xdeadbeef);
}

#[test]
fn reply_checks() {
    assert_eq!(check_discovery_reply(&Message::DiscoveryResponse), Ok(()));
    assert_eq!(check_discovery_reply(&Message::HeartbeatAck), Err(ProtocolError::UnexpectedReply));
    assert_eq!(check_heartbeat_reply(&Message::HeartbeatAck), Ok(()));
    assert_eq!(check_heartbeat_reply(&Message::DiscoveryResponse), Err(ProtocolError::UnexpectedReply));
    match heartbeat("pc", IpAddress::V4([1, 2, 3, 4])) {
        Message::Heartbeat { hostname, ip: IpAddress::V4(o) } => {
            assert_eq!(hostname, "pc");
            assert_eq!(o, [1, 2, 3, 4]);
        }
        other => panic!("unexpected {:?}", other),
    }
}
