//! Finding the server: the addresses a subnet scan tries, the subnet an
//! address lies in, and the server address a configured server name gives.

use vstd::prelude::*;

use crate::decimal::{all_digits, decimal, decimal_chars, decimal_value, lemma_decimal};
use crate::ip::{ipv4_chars, ipv4_text, lemma_ipv4_roundtrip, parse_ipv4, parse_ipv4_chars, parse_ipv6, parse_ipv6_chars, AddressValue, IpAddress, SocketAddress};
use crate::protocol::DISCOVERY_PORT;
use crate::text::{chars_of, copy_range, find_char, index_of, string_of};

verus! {

/// The address `subnet.i` denotes, if it is a dotted quad.
pub open spec fn scan_address(subnet: Seq<char>, i: nat) -> Option<Seq<u8>> {
    parse_ipv4(subnet + seq!['.'] + decimal(i))
}

/// The addresses that scanning `subnet.1` to `subnet.n` tries, in order:
/// those of `subnet.i` that are dotted quads.
pub open spec fn scan_addresses(subnet: Seq<char>, n: nat) -> Seq<Seq<u8>>
    decreases n,
{
    if n == 0 {
        seq![]
    } else {
        let rest = scan_addresses(subnet, (n - 1) as nat);
        match scan_address(subnet, n) {
            Some(o) => rest.push(o),
            None => rest,
        }
    }
}

/// The octets of a list of IPv4 socket addresses, and that each is on the
/// discovery port.
pub open spec fn on_discovery_port(v: Seq<SocketAddress>) -> bool {
    forall|i: int| 0 <= i < v.len() ==> #[trigger] v[i].port == DISCOVERY_PORT && v[i].scope_id
        == 0 && v[i].ip is V4
}

/// The octets of a list of IPv4 socket addresses.
pub open spec fn socket_octets(v: Seq<SocketAddress>) -> Seq<Seq<u8>> {
    v.map_values(|a: SocketAddress| a.ip->V4_0@)
}

/// The addresses a scan of `subnet` tries: `subnet.1:63200` to
/// `subnet.254:63200`, skipping those that are no socket address.
pub fn scan_candidates(subnet: &str) -> (out: Vec<SocketAddress>)
    ensures
        on_discovery_port(out@),
        socket_octets(out@) == scan_addresses(subnet@, 254),
{
    let prefix = chars_of(subnet);
    let mut out: Vec<SocketAddress> = Vec::new();
    let mut i: u64 = 1;
    while i <= 254
        invariant
            1 <= i <= 255,
            prefix@ == subnet@,
            on_discovery_port(out@),
            socket_octets(out@) == scan_addresses(subnet@, (i - 1) as nat),
        decreases 255 - i,
    {
        let mut text = prefix.clone();
        text.push('.');
        let mut digits = decimal_chars(i);
        text.append(&mut digits);
        assert(text@ =~= subnet@ + seq!['.'] + decimal(i as nat));
        let ghost before = socket_octets(out@);
        match parse_ipv4_chars(&text) {
            Some(o) => {
                out.push(SocketAddress { ip: IpAddress::V4(o), port: DISCOVERY_PORT, scope_id: 0 });
                assert(socket_octets(out@) =~= before.push(o@));
            },
            None => {},
        }
        i = i + 1;
    }
    out
}

/// The subnet (first three octets) an address lies in, as text: `a.b.c` for
/// an IPv4 address, `192.168.0` for an IPv6 one.
pub open spec fn subnet_text(ip: AddressValue) -> Seq<char> {
    match ip {
        AddressValue::V4(o) => decimal(o[0] as nat) + seq!['.'] + decimal(o[1] as nat) + seq!['.']
            + decimal(o[2] as nat),
        AddressValue::V6(_) => "192.168.0"@,
    }
}

/// The subnet an address lies in (see `subnet_text`).
pub fn subnet_of(ip: IpAddress) -> (s: String)
    ensures
        s@ == subnet_text(ip@),
{
    match ip {
        IpAddress::V4(o) => {
            let mut out = decimal_chars(o[0] as u64);
            out.push('.');
            let mut part = decimal_chars(o[1] as u64);
            out.append(&mut part);
            out.push('.');
            let mut part = decimal_chars(o[2] as u64);
            out.append(&mut part);
            assert(out@ =~= subnet_text(ip@));
            string_of(&out)
        },
        IpAddress::V6(_) => "192.168.0".to_owned(),
    }
}

/// Scanning the subnet of an IPv4 address tries exactly the 254 hosts
/// `a.b.c.1` to `a.b.c.254` of that subnet, in order.
pub proof fn lemma_scan_own_subnet(o: Seq<u8>, n: nat)
    requires
        o.len() == 4,
        n <= 255,
    ensures
        scan_addresses(subnet_text(AddressValue::V4(o)), n) == Seq::new(
            n,
            |i: int| seq![o[0], o[1], o[2], (i + 1) as u8],
        ),
    decreases n,
{
    let sub = subnet_text(AddressValue::V4(o));
    if n > 0 {
        lemma_scan_own_subnet(o, (n - 1) as nat);
        let host = seq![o[0], o[1], o[2], n as u8];
        assert(ipv4_text(host) =~= sub + seq!['.'] + decimal(n));
        lemma_ipv4_roundtrip(host);
        assert(scan_addresses(sub, n) =~= Seq::new(
            n,
            |i: int| seq![o[0], o[1], o[2], (i + 1) as u8],
        ));
    } else {
        assert(scan_addresses(sub, 0) =~= Seq::new(0, |i: int| seq![o[0], o[1], o[2], (i + 1) as u8]));
    }
}

/// The scope id after `%` in a bracketed IPv6 address: one or more digits
/// denoting at most `u32::MAX`.
pub open spec fn scope_text(s: Seq<char>) -> bool {
    s.len() > 0 && all_digits(s) && decimal_value(s) <= u32::MAX
}

/// The server address that the configured server `s` gives, as parsing
/// `"{s}:63200"` as a `SocketAddr` reads it: a dotted quad, or an IPv6
/// address in brackets, with an optional `%` and scope id before the `]`.
/// The address and scope id.
pub open spec fn server_address_of(s: Seq<char>) -> Option<(AddressValue, u32)> {
    match parse_ipv4(s) {
        Some(o) => Some((AddressValue::V4(o), 0u32)),
        None => if s.len() >= 2 && s[0] == '[' && s.last() == ']' {
            let inner = s.subrange(1, s.len() - 1);
            let k = index_of(inner, '%');
            if k < inner.len() {
                if scope_text(inner.skip((k + 1) as int)) {
                    match parse_ipv6(inner.take(k as int)) {
                        Some(g) => Some((AddressValue::V6(g), decimal_value(inner.skip((k + 1) as int)) as u32)),
                        None => None,
                    }
                } else {
                    None
                }
            } else {
                match parse_ipv6(inner) {
                    Some(g) => Some((AddressValue::V6(g), 0u32)),
                    None => None,
                }
            }
        } else {
            None
        },
    }
}

/// The scope id that the digits `s` denote, if they are one.
fn scope_of(s: &Vec<char>) -> (r: Option<u32>)
    ensures
        match r {
            Some(v) => scope_text(s@) && v == decimal_value(s@),
            None => !scope_text(s@),
        },
{
    let mut i: usize = 0;
    while i < s.len()
        invariant
            i <= s.len(),
            forall|j: int| 0 <= j < i ==> crate::decimal::is_digit(#[trigger] s@[j]),
        decreases s.len() - i,
    {
        if !crate::decimal::char_is_digit(s[i]) {
            return None;
        }
        i = i + 1;
    }
    if s.len() == 0 {
        return None;
    }
    assert(!(s@.len() > 0 && s@[0] == '+'));
    match crate::decimal::parse_unsigned_chars(s, 0xffff_ffff) {
        Some(v) => Some(v as u32),
        None => None,
    }
}

/// The server's discovery address from the configured server (see
/// `server_address_of`), on port 63200.
pub fn server_address(server: &str) -> (r: Option<SocketAddress>)
    ensures
        match r {
            Some(a) => a.port == DISCOVERY_PORT && server_address_of(server@) == Some(
                (a.ip@, a.scope_id),
            ),
            None => server_address_of(server@) is None,
        },
{
    let s = chars_of(server);
    match parse_ipv4_chars(&s) {
        Some(o) => {
            return Some(SocketAddress { ip: IpAddress::V4(o), port: DISCOVERY_PORT, scope_id: 0 });
        },
        None => {},
    }
    if !(s.len() >= 2 && s[0] == '[' && s[s.len() - 1] == ']') {
        return None;
    }
    let inner = copy_range(&s, 1, s.len() - 1);
    let k = find_char(&inner, 0, '%');
    assert(inner@.skip(0) =~= inner@);
    if k < inner.len() {
        let scope = copy_range(&inner, k + 1, inner.len());
        let addr = copy_range(&inner, 0, k);
        assert(scope@ =~= inner@.skip(k + 1));
        assert(addr@ =~= inner@.take(k as int));
        let id = match scope_of(&scope) {
            Some(id) => id,
            None => return None,
        };
        match parse_ipv6_chars(&addr) {
            Some(g) => Some(SocketAddress { ip: IpAddress::V6(g), port: DISCOVERY_PORT, scope_id: id }),
            None => None,
        }
    } else {
        match parse_ipv6_chars(&inner) {
            Some(g) => Some(SocketAddress { ip: IpAddress::V6(g), port: DISCOVERY_PORT, scope_id: 0 }),
            None => None,
        }
    }
}

/// A server configured as a dotted quad is reached at that IPv4 address,
/// with no scope id.
pub proof fn lemma_dotted_server_address(o: Seq<u8>)
    requires
        o.len() == 4,
    ensures
        server_address_of(ipv4_text(o)) == Some((AddressValue::V4(o), 0u32)),
{
    lemma_ipv4_roundtrip(o);
}

} // verus!
