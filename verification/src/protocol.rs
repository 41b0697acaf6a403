//! The client-server protocol: the messages, how each is framed on a TCP
//! stream (a big-endian 32-bit length, then the encoded message), and what
//! each side answers.

use vstd::prelude::*;

use crate::ip::IpAddress;

verus! {

/// The TCP port on which the server takes discovery requests and heartbeats.
pub const DISCOVERY_PORT: u16 = 63200;

/// The port of the DNS service.
pub const DNS_PORT: u16 = 53;

/// Seconds between two heartbeats of a client.
pub const HEARTBEAT_INTERVAL_SECS: u64 = 30;

/// A message between client and server.
#[derive(Debug)]
pub enum Message {
    /// A client looks for the server.
    DiscoveryRequest,
    /// The server answers a discovery request.
    DiscoveryResponse,
    /// A client announces that `hostname` has the address `ip`.
    Heartbeat { hostname: String, ip: IpAddress },
    /// The server acknowledges a heartbeat.
    HeartbeatAck,
}

// ---------------------------------------------------------------- framing

/// The four big-endian bytes of `n`.
pub open spec fn be32(n: nat) -> Seq<u8> {
    seq![
        ((n / 0x1000000) % 0x100) as u8,
        ((n / 0x10000) % 0x100) as u8,
        ((n / 0x100) % 0x100) as u8,
        (n % 0x100) as u8,
    ]
}

/// The number that four big-endian bytes denote.
pub open spec fn be32_value(b: Seq<u8>) -> nat {
    (b[0] as nat) * 0x1000000 + (b[1] as nat) * 0x10000 + (b[2] as nat) * 0x100 + (b[3] as nat)
}

/// A frame: the payload's length modulo 2^32 in four big-endian bytes, then
/// the payload (the length is written as a `u32`, truncated).
pub open spec fn frame(payload: Seq<u8>) -> Seq<u8> {
    be32(payload.len() % 0x1_0000_0000) + payload
}

/// Why a frame could not be read.
#[derive(Clone, Copy, Debug, PartialEq, Eq)]
pub enum FrameError {
    /// The data ends before the four-byte length.
    MissingLength,
    /// The data ends before the length's worth of payload.
    Truncated,
}

/// The payload of the frame at the start of `data`; what follows it is not read.
pub open spec fn unframe(data: Seq<u8>) -> Result<Seq<u8>, FrameError> {
    if data.len() < 4 {
        Err(FrameError::MissingLength)
    } else if data.len() - 4 < be32_value(data.take(4)) {
        Err(FrameError::Truncated)
    } else {
        Ok(data.subrange(4, 4 + be32_value(data.take(4)) as int))
    }
}

/// The four big-endian bytes of `n` (what `write_u32` sends).
pub fn be32_bytes(n: u32) -> (b: [u8; 4])
    ensures
        b@ == be32(n as nat),
{
    let out = [
        ((n / 0x1000000) % 0x100) as u8,
        ((n / 0x10000) % 0x100) as u8,
        ((n / 0x100) % 0x100) as u8,
        (n % 0x100) as u8,
    ];
    assert(out@ =~= be32(n as nat));
    out
}

/// The length that a frame's four header bytes give (what `read_u32` reads).
pub fn frame_length(header: [u8; 4]) -> (n: u32)
    ensures
        n == be32_value(header@),
{
    (header[0] as u32) * 0x1000000 + (header[1] as u32) * 0x10000 + (header[2] as u32) * 0x100
        + (header[3] as u32)
}

/// The frame that carries `payload`.
pub fn encode_frame(payload: &[u8]) -> (out: Vec<u8>)
    ensures
        out@ == frame(payload@),
{
    let len = ((payload.len() as u64) % 0x1_0000_0000) as u32;
    let header = be32_bytes(len);
    let mut out: Vec<u8> = Vec::new();
    out.push(header[0]);
    out.push(header[1]);
    out.push(header[2]);
    out.push(header[3]);
    let mut i: usize = 0;
    while i < payload.len()
        invariant
            i <= payload.len(),
            out@ == header@ + payload@.take(i as int),
        decreases payload.len() - i,
    {
        out.push(payload[i]);
        i = i + 1;
        assert(out@ =~= header@ + payload@.take(i as int));
    }
    assert(payload@.take(payload.len() as int) =~= payload@);
    out
}

/// The payload of the frame at the start of `data`.
pub fn decode_frame(data: &[u8]) -> (r: Result<Vec<u8>, FrameError>)
    ensures
        match r {
            Ok(p) => unframe(data@) == Ok::<Seq<u8>, FrameError>(p@),
            Err(e) => unframe(data@) == Err::<Seq<u8>, FrameError>(e),
        },
{
    if data.len() < 4 {
        return Err(FrameError::MissingLength);
    }
    let header = [data[0], data[1], data[2], data[3]];
    assert(header@ =~= data@.take(4));
    let len = frame_length(header) as usize;
    if data.len() - 4 < len {
        return Err(FrameError::Truncated);
    }
    let mut out: Vec<u8> = Vec::new();
    let mut i: usize = 0;
    while i < len
        invariant
            i <= len,
            4 + len <= data.len(),
            out@ == data@.subrange(4, 4 + i),
        decreases len - i,
    {
        out.push(data[4 + i]);
        i = i + 1;
        assert(out@ =~= data@.subrange(4, 4 + i));
    }
    Ok(out)
}

/// The four bytes of `be32(n)` give back `n`.
pub proof fn lemma_be32_value(n: nat)
    requires
        n < 0x1_0000_0000,
    ensures
        be32(n).len() == 4,
        be32_value(be32(n)) == n,
{
    let b = be32(n);
    assert(b[0] as nat == (n / 0x1000000) % 0x100);
    assert(b[1] as nat == (n / 0x10000) % 0x100);
    assert(b[2] as nat == (n / 0x100) % 0x100);
    assert(b[3] as nat == n % 0x100);
    assert(be32_value(b) == n) by (nonlinear_arith)
        requires
            n < 0x1_0000_0000,
            b[0] as nat == (n / 0x1000000) % 0x100,
            b[1] as nat == (n / 0x10000) % 0x100,
            b[2] as nat == (n / 0x100) % 0x100,
            b[3] as nat == n % 0x100,
            be32_value(b) == (b[0] as nat) * 0x1000000 + (b[1] as nat) * 0x10000 + (b[2] as nat)
                * 0x100 + (b[3] as nat),
    {
    }
}

/// Reading a frame gives back the payload that was framed, whatever follows
/// it, for any payload shorter than 2^32 bytes.
pub proof fn lemma_frame_roundtrip(payload: Seq<u8>, rest: Seq<u8>)
    requires
        payload.len() < 0x1_0000_0000,
    ensures
        unframe(frame(payload) + rest) == Ok::<Seq<u8>, FrameError>(payload),
{
    lemma_be32_value(payload.len());
    let data = frame(payload) + rest;
    assert(data.take(4) =~= be32(payload.len()));
    assert(data.subrange(4, 4 + payload.len() as int) =~= payload);
}

// ---------------------------------------------------------------- exchanges

/// Why a reply was refused.
#[derive(Clone, Copy, Debug, PartialEq, Eq)]
pub enum ProtocolError {
    /// The server answered with another message than the one expected.
    UnexpectedReply,
}

/// Whether the server's reply answers a discovery request.
pub fn check_discovery_reply(reply: &Message) -> (r: Result<(), ProtocolError>)
    ensures
        r is Ok <==> reply is DiscoveryResponse,
        r is Err ==> r == Err::<(), ProtocolError>(ProtocolError::UnexpectedReply),
{
    match reply {
        Message::DiscoveryResponse => Ok(()),
        _ => Err(ProtocolError::UnexpectedReply),
    }
}

/// Whether the server's reply acknowledges a heartbeat.
pub fn check_heartbeat_reply(reply: &Message) -> (r: Result<(), ProtocolError>)
    ensures
        r is Ok <==> reply is HeartbeatAck,
        r is Err ==> r == Err::<(), ProtocolError>(ProtocolError::UnexpectedReply),
{
    match reply {
        Message::HeartbeatAck => Ok(()),
        _ => Err(ProtocolError::UnexpectedReply),
    }
}

/// The server's reply: a discovery response to a discovery request, an
/// acknowledgement to a heartbeat, nothing to anything else.
pub open spec fn reply_to(msg: Message) -> Option<Message> {
    match msg {
        Message::DiscoveryRequest => Some(Message::DiscoveryResponse),
        Message::Heartbeat { .. } => Some(Message::HeartbeatAck),
        _ => None,
    }
}

/// The heartbeat that announces `hostname` at `ip`.
pub fn heartbeat(hostname: &str, ip: IpAddress) -> (m: Message)
    ensures
        m matches Message::Heartbeat { hostname: h, ip: a } && h@ == hostname@ && a == ip,
{
    Message::Heartbeat { hostname: hostname.to_owned(), ip }
}

/// The server answers a discovery request with what the client's discovery
/// check accepts, a heartbeat with what its heartbeat check accepts, and a
/// response or acknowledgement with nothing.
pub proof fn lemma_replies_match_checks(hostname: String, ip: IpAddress)
    ensures
        reply_to(Message::DiscoveryRequest) matches Some(r) && r is DiscoveryResponse,
        reply_to(Message::Heartbeat { hostname, ip }) matches Some(r) && r is HeartbeatAck,
        reply_to(Message::DiscoveryResponse) is None,
        reply_to(Message::HeartbeatAck) is None,
{
}

} // verus!
