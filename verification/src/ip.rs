//! IP addresses: the library's own address type, reading addresses from text
//! by the grammar that `str::parse` accepts for `IpAddr`, `Ipv4Addr`,
//! `Ipv6Addr` and `SocketAddr`, and writing IPv4 addresses as text.

use vstd::prelude::*;

use crate::decimal::{
    all_digits, char_is_digit, decimal, decimal_chars, decimal_value, is_digit, lemma_decimal,
    parse_unsigned_chars,
};
use crate::text::{copy_range, fields, lemma_fields_cons, lemma_fields_single, split_fields, views};

verus! {

/// An IP address: four octets, or eight 16-bit groups.
#[derive(Clone, Copy, Debug)]
pub enum IpAddress {
    V4([u8; 4]),
    V6([u16; 8]),
}

/// The abstract value of an address: the octets or the groups, in order.
pub enum AddressValue {
    V4(Seq<u8>),
    V6(Seq<u16>),
}

impl View for IpAddress {
    type V = AddressValue;

    open spec fn view(&self) -> AddressValue {
        match self {
            IpAddress::V4(o) => AddressValue::V4(o@),
            IpAddress::V6(g) => AddressValue::V6(g@),
        }
    }
}

/// A socket address: an IP address, a port, and for IPv6 a scope id.
#[derive(Clone, Copy, Debug)]
pub struct SocketAddress {
    pub ip: IpAddress,
    pub port: u16,
    pub scope_id: u32,
}

// ---------------------------------------------------------------- IPv4

/// One octet of a dotted quad: one to three digits, no leading zero, at most 255.
pub open spec fn octet_text(s: Seq<char>) -> bool {
    &&& 1 <= s.len() <= 3
    &&& all_digits(s)
    &&& (s.len() > 1 ==> s[0] != '0')
    &&& decimal_value(s) <= 255
}

/// The IPv4 address that `s` denotes, as `Ipv4Addr::from_str` reads it:
/// exactly four octets separated by dots.
pub open spec fn parse_ipv4(s: Seq<char>) -> Option<Seq<u8>> {
    let f = fields(s, '.');
    if f.len() == 4 && octet_text(f[0]) && octet_text(f[1]) && octet_text(f[2]) && octet_text(
        f[3],
    ) {
        Some(
            seq![
                decimal_value(f[0]) as u8,
                decimal_value(f[1]) as u8,
                decimal_value(f[2]) as u8,
                decimal_value(f[3]) as u8,
            ],
        )
    } else {
        None
    }
}

/// The dotted-quad text of an IPv4 address, as `Display` writes it.
pub open spec fn ipv4_text(o: Seq<u8>) -> Seq<char> {
    decimal(o[0] as nat) + seq!['.'] + decimal(o[1] as nat) + seq!['.'] + decimal(o[2] as nat)
        + seq!['.'] + decimal(o[3] as nat)
}

/// The value of one octet written as text.
pub fn octet_of(s: &Vec<char>) -> (r: Option<u8>)
    ensures
        match r {
            Some(v) => octet_text(s@) && v == decimal_value(s@),
            None => !octet_text(s@),
        },
{
    if s.len() == 0 || s.len() > 3 {
        return None;
    }
    if s.len() > 1 && s[0] == '0' {
        return None;
    }
    let mut i: usize = 0;
    while i < s.len()
        invariant
            i <= s.len(),
            forall|j: int| 0 <= j < i ==> is_digit(#[trigger] s@[j]),
        decreases s.len() - i,
    {
        if !char_is_digit(s[i]) {
            return None;
        }
        i = i + 1;
    }
    assert(all_digits(s@));
    assert(!(s@.len() > 0 && s@[0] == '+'));
    match parse_unsigned_chars(s, 255) {
        Some(v) => Some(v as u8),
        None => None,
    }
}

/// The IPv4 address that `s` denotes (`Ipv4Addr::from_str`).
pub fn parse_ipv4_chars(s: &Vec<char>) -> (r: Option<[u8; 4]>)
    ensures
        match r {
            Some(a) => parse_ipv4(s@) == Some(a@),
            None => parse_ipv4(s@) is None,
        },
{
    let f = split_fields(s, '.');
    if f.len() != 4 {
        return None;
    }
    assert(f@[0]@ == fields(s@, '.')[0]);
    assert(f@[1]@ == fields(s@, '.')[1]);
    assert(f@[2]@ == fields(s@, '.')[2]);
    assert(f@[3]@ == fields(s@, '.')[3]);
    let a = match octet_of(&f[0]) {
        Some(v) => v,
        None => return None,
    };
    let b = match octet_of(&f[1]) {
        Some(v) => v,
        None => return None,
    };
    let c = match octet_of(&f[2]) {
        Some(v) => v,
        None => return None,
    };
    let d = match octet_of(&f[3]) {
        Some(v) => v,
        None => return None,
    };
    let out = [a, b, c, d];
    assert(out@ =~= seq![a, b, c, d]);
    Some(out)
}

/// The dotted-quad text of an IPv4 address (`Ipv4Addr` as `Display` writes it).
pub fn ipv4_chars(o: [u8; 4]) -> (out: Vec<char>)
    ensures
        out@ == ipv4_text(o@),
{
    let mut out = decimal_chars(o[0] as u64);
    out.push('.');
    let mut part = decimal_chars(o[1] as u64);
    out.append(&mut part);
    out.push('.');
    let mut part = decimal_chars(o[2] as u64);
    out.append(&mut part);
    out.push('.');
    let mut part = decimal_chars(o[3] as u64);
    out.append(&mut part);
    assert(out@ =~= ipv4_text(o@));
    out
}

/// Decimal text holds no separator.
proof fn lemma_decimal_has_no(n: nat, c: char)
    requires
        !is_digit(c),
    ensures
        !decimal(n).contains(c),
{
    lemma_decimal(n);
    if decimal(n).contains(c) {
        let i = choose|i: int| 0 <= i < decimal(n).len() && decimal(n)[i] == c;
        assert(is_digit(decimal(n)[i]));
    }
}

/// An octet's decimal text is a valid octet of a dotted quad.
proof fn lemma_octet_text(v: u8)
    ensures
        octet_text(decimal(v as nat)),
        decimal_value(decimal(v as nat)) == v,
{
    lemma_decimal(v as nat);
}

/// Writing an IPv4 address and reading it back gives the same address.
pub proof fn lemma_ipv4_roundtrip(o: Seq<u8>)
    requires
        o.len() == 4,
    ensures
        parse_ipv4(ipv4_text(o)) == Some(o),
{
    let d0 = decimal(o[0] as nat);
    let d1 = decimal(o[1] as nat);
    let d2 = decimal(o[2] as nat);
    let d3 = decimal(o[3] as nat);
    lemma_decimal_has_no(o[0] as nat, '.');
    lemma_decimal_has_no(o[1] as nat, '.');
    lemma_decimal_has_no(o[2] as nat, '.');
    lemma_decimal_has_no(o[3] as nat, '.');
    lemma_octet_text(o[0]);
    lemma_octet_text(o[1]);
    lemma_octet_text(o[2]);
    lemma_octet_text(o[3]);
    let r3 = d3;
    let r2 = d2 + seq!['.'] + r3;
    let r1 = d1 + seq!['.'] + r2;
    assert(ipv4_text(o) =~= d0 + seq!['.'] + r1);
    lemma_fields_single(d3, '.');
    lemma_fields_cons(d2, '.', r3);
    lemma_fields_cons(d1, '.', r2);
    lemma_fields_cons(d0, '.', r1);
    let f = fields(ipv4_text(o), '.');
    assert(f =~= seq![d0, d1, d2, d3]);
    assert(parse_ipv4(ipv4_text(o)).unwrap() =~= o);
}

// ---------------------------------------------------------------- IPv6

/// A hexadecimal digit, either case.
pub open spec fn is_hex(c: char) -> bool {
    ('0' <= c && c <= '9') || ('a' <= c && c <= 'f') || ('A' <= c && c <= 'F')
}

/// The value of a hexadecimal digit.
pub open spec fn hex_digit_value(c: char) -> nat {
    if '0' <= c && c <= '9' {
        ((c as u32) - ('0' as u32)) as nat
    } else if 'a' <= c && c <= 'f' {
        ((c as u32) - ('a' as u32) + 10) as nat
    } else {
        ((c as u32) - ('A' as u32) + 10) as nat
    }
}

/// The number that the hexadecimal digits `s` denote.
pub open spec fn hex_value(s: Seq<char>) -> nat
    decreases s.len(),
{
    if s.len() == 0 {
        0
    } else {
        hex_value(s.drop_last()) * 16 + hex_digit_value(s.last())
    }
}

/// One group of an IPv6 address: one to four hexadecimal digits.
pub open spec fn hex_group_text(s: Seq<char>) -> bool {
    1 <= s.len() <= 4 && forall|i: int| 0 <= i < s.len() ==> is_hex(#[trigger] s[i])
}

/// The values of `tokens` when each is a group; `None` when one is not.
pub open spec fn hex_groups(tokens: Seq<Seq<char>>) -> Option<Seq<u16>>
    decreases tokens.len(),
{
    if tokens.len() == 0 {
        Some(seq![])
    } else {
        match hex_groups(tokens.drop_last()) {
            Some(g) => if hex_group_text(tokens.last()) {
                Some(g.push(hex_value(tokens.last()) as u16))
            } else {
                None
            },
            None => None,
        }
    }
}

/// The two groups that an embedded IPv4 address stands for.
pub open spec fn v4_groups(o: Seq<u8>) -> Seq<u16> {
    seq![(o[0] * 256 + o[1]) as u16, (o[2] * 256 + o[3]) as u16]
}

/// The groups that `tokens` denote: groups, the last of which may instead be
/// an embedded IPv4 address.
pub open spec fn groups_of(tokens: Seq<Seq<char>>) -> Option<Seq<u16>> {
    if tokens.len() > 0 && parse_ipv4(tokens.last()) is Some {
        match hex_groups(tokens.drop_last()) {
            Some(g) => Some(g + v4_groups(parse_ipv4(tokens.last()).unwrap())),
            None => None,
        }
    } else {
        hex_groups(tokens)
    }
}

/// Position of the first two consecutive `c` in `s`, or `s.len()`.
pub open spec fn index_of_pair(s: Seq<char>, c: char) -> nat
    decreases s.len(),
{
    if s.len() < 2 {
        s.len()
    } else if s[0] == c && s[1] == c {
        0
    } else {
        1 + index_of_pair(s.drop_first(), c)
    }
}

/// An IPv6 address written without `"::"`: eight groups, the last two of
/// which may be written as an IPv4 address.
pub open spec fn ipv6_full(s: Seq<char>) -> Option<Seq<u16>> {
    match groups_of(fields(s, ':')) {
        Some(g) => if g.len() == 8 {
            Some(g)
        } else {
            None
        },
        None => None,
    }
}

/// An IPv6 address written as `head` `"::"` `tail`: groups before (no IPv4
/// address among them) and after, at most seven in all, the `"::"` standing
/// for the zero groups that make up eight.
pub open spec fn ipv6_compressed(head: Seq<char>, tail: Seq<char>) -> Option<Seq<u16>> {
    let h = if head.len() == 0 {
        Some(Seq::<u16>::empty())
    } else {
        hex_groups(fields(head, ':'))
    };
    let t = if tail.len() == 0 {
        Some(Seq::<u16>::empty())
    } else {
        groups_of(fields(tail, ':'))
    };
    match (h, t) {
        (Some(h), Some(t)) => if h.len() + t.len() <= 7 {
            Some(h + Seq::new((8 - h.len() - t.len()) as nat, |i: int| 0u16) + t)
        } else {
            None
        },
        _ => None,
    }
}

/// The IPv6 address that `s` denotes, as `Ipv6Addr::from_str` reads it:
/// compressed around the first `"::"` if there is one, else written in full.
pub open spec fn parse_ipv6(s: Seq<char>) -> Option<Seq<u16>> {
    let k = index_of_pair(s, ':');
    if k >= s.len() {
        ipv6_full(s)
    } else {
        ipv6_compressed(s.take(k as int), s.skip((k + 2) as int))
    }
}

/// The address that `s` denotes, as `IpAddr::from_str` reads it: IPv4 when
/// `s` is a dotted quad, else IPv6.
pub open spec fn parse_ip(s: Seq<char>) -> Option<AddressValue> {
    match parse_ipv4(s) {
        Some(o) => Some(AddressValue::V4(o)),
        None => match parse_ipv6(s) {
            Some(g) => Some(AddressValue::V6(g)),
            None => None,
        },
    }
}

/// The value of a hexadecimal digit, if `c` is one.
fn hex_digit_of(c: char) -> (r: Option<u32>)
    ensures
        match r {
            Some(v) => is_hex(c) && v == hex_digit_value(c) && v < 16,
            None => !is_hex(c),
        },
{
    if '0' <= c && c <= '9' {
        Some(c as u32 - '0' as u32)
    } else if 'a' <= c && c <= 'f' {
        Some(c as u32 - 'a' as u32 + 10)
    } else if 'A' <= c && c <= 'F' {
        Some(c as u32 - 'A' as u32 + 10)
    } else {
        None
    }
}

/// The value of one group of an IPv6 address written as text.
pub fn hex_group_of(s: &Vec<char>) -> (r: Option<u16>)
    ensures
        match r {
            Some(v) => hex_group_text(s@) && v == hex_value(s@),
            None => !hex_group_text(s@),
        },
{
    if s.len() == 0 || s.len() > 4 {
        return None;
    }
    let mut acc: u32 = 0;
    let mut bound: u32 = 1;
    let mut i: usize = 0;
    while i < s.len()
        invariant
            s.len() <= 4,
            i <= s.len(),
            forall|j: int| 0 <= j < i ==> is_hex(#[trigger] s@[j]),
            acc == hex_value(s@.take(i as int)),
            acc < bound,
            bound == (if i == 0 {
                1u32
            } else if i == 1 {
                16
            } else if i == 2 {
                256
            } else if i == 3 {
                4096
            } else {
                65536
            }),
        decreases s.len() - i,
    {
        let d = match hex_digit_of(s[i]) {
            Some(d) => d,
            None => return None,
        };
        let ghost prev = s@.take(i as int);
        acc = acc * 16 + d;
        bound = bound * 16;
        i = i + 1;
        proof {
            let cur = s@.take(i as int);
            assert(cur.drop_last() =~= prev);
            assert(cur.last() == s@[i - 1]);
        }
    }
    assert(s@.take(s@.len() as int) =~= s@);
    Some(acc as u16)
}

/// Once a token is not a group, no longer list of tokens is.
proof fn lemma_hex_groups_none_extends(ts: Seq<Seq<char>>, n: int)
    requires
        0 <= n <= ts.len(),
        hex_groups(ts.take(n)) is None,
    ensures
        hex_groups(ts) is None,
    decreases ts.len() - n,
{
    if n == ts.len() {
        assert(ts.take(n) =~= ts);
    } else {
        assert(ts.drop_last().take(n) =~= ts.take(n));
        lemma_hex_groups_none_extends(ts.drop_last(), n);
    }
}

/// The values of `tokens[..upto]` when each is a group.
fn hex_groups_of(tokens: &Vec<Vec<char>>, upto: usize) -> (r: Option<Vec<u16>>)
    requires
        upto <= tokens.len(),
    ensures
        match r {
            Some(g) => hex_groups(views(tokens@).take(upto as int)) == Some(g@),
            None => hex_groups(views(tokens@).take(upto as int)) is None,
        },
{
    let mut out: Vec<u16> = Vec::new();
    let mut i: usize = 0;
    assert(views(tokens@).take(0) =~= Seq::<Seq<char>>::empty());
    while i < upto
        invariant
            upto <= tokens.len(),
            i <= upto,
            hex_groups(views(tokens@).take(i as int)) == Some(out@),
        decreases upto - i,
    {
        let ghost prev = views(tokens@).take(i as int);
        let ghost cur = views(tokens@).take(i + 1);
        assert(cur.drop_last() =~= prev);
        assert(cur.last() == tokens@[i as int]@);
        match hex_group_of(&tokens[i]) {
            Some(v) => {
                out.push(v);
            },
            None => {
                proof {
                    let whole = views(tokens@).take(upto as int);
                    assert(whole.take(i + 1) =~= cur);
                    lemma_hex_groups_none_extends(whole, i + 1);
                }
                return None;
            },
        }
        i = i + 1;
    }
    Some(out)
}

/// The groups that `tokens` denote (see `groups_of`).
fn groups_from(tokens: &Vec<Vec<char>>) -> (r: Option<Vec<u16>>)
    ensures
        match r {
            Some(g) => groups_of(views(tokens@)) == Some(g@),
            None => groups_of(views(tokens@)) is None,
        },
{
    let ghost t = views(tokens@);
    assert(t.take(t.len() as int) =~= t);
    if tokens.len() > 0 {
        assert(t.last() == tokens@[tokens.len() - 1]@);
        assert(t.drop_last() =~= t.take(tokens.len() - 1));
        match parse_ipv4_chars(&tokens[tokens.len() - 1]) {
            Some(o) => {
                match hex_groups_of(tokens, tokens.len() - 1) {
                    Some(mut g) => {
                        let hi: u16 = (o[0] as u16) * 256 + (o[1] as u16);
                        let lo: u16 = (o[2] as u16) * 256 + (o[3] as u16);
                        let ghost before = g@;
                        g.push(hi);
                        g.push(lo);
                        assert(g@ =~= before + v4_groups(o@));
                        return Some(g);
                    },
                    None => {
                        return None;
                    },
                }
            },
            None => {},
        }
    }
    hex_groups_of(tokens, tokens.len())
}

/// Position of the first two consecutive `c` in `s`, or `s.len()`.
fn find_pair(s: &Vec<char>, c: char) -> (r: usize)
    ensures
        r == index_of_pair(s@, c),
        r <= s.len(),
        r < s.len() ==> r + 2 <= s.len(),
{
    if s.len() < 2 {
        return s.len();
    }
    let mut i: usize = 0;
    assert(s@.skip(0) =~= s@);
    while i < s.len() - 1 && !(s[i] == c && s[i + 1] == c)
        invariant
            s.len() >= 2,
            i <= s.len() - 1,
            index_of_pair(s@, c) == i + index_of_pair(s@.skip(i as int), c),
        decreases s.len() - i,
    {
        proof {
            let t = s@.skip(i as int);
            assert(t.drop_first() =~= s@.skip(i + 1));
            assert(t[0] == s@[i as int] && t[1] == s@[i + 1]);
        }
        i = i + 1;
    }
    if i < s.len() - 1 {
        proof {
            let t = s@.skip(i as int);
            assert(t[0] == s@[i as int] && t[1] == s@[i + 1]);
        }
        i
    } else {
        assert(s@.skip(i as int).len() == 1);
        s.len()
    }
}

/// The groups of an address written without `"::"` (see `ipv6_full`).
fn ipv6_full_of(s: &Vec<char>) -> (r: Option<Vec<u16>>)
    ensures
        match r {
            Some(g) => ipv6_full(s@) == Some(g@),
            None => ipv6_full(s@) is None,
        },
{
    let tokens = split_fields(s, ':');
    let g = match groups_from(&tokens) {
        Some(g) => g,
        None => return None,
    };
    if g.len() != 8 {
        return None;
    }
    Some(g)
}

/// The groups of an address written around `"::"` (see `ipv6_compressed`).
fn ipv6_compressed_of(head: &Vec<char>, tail: &Vec<char>) -> (r: Option<Vec<u16>>)
    ensures
        match r {
            Some(g) => ipv6_compressed(head@, tail@) == Some(g@),
            None => ipv6_compressed(head@, tail@) is None,
        },
{
    let h = if head.len() == 0 {
        Vec::new()
    } else {
        let tokens = split_fields(head, ':');
        assert(views(tokens@).take(tokens.len() as int) =~= views(tokens@));
        match hex_groups_of(&tokens, tokens.len()) {
            Some(h) => h,
            None => return None,
        }
    };
    let t = if tail.len() == 0 {
        Vec::new()
    } else {
        let tokens = split_fields(tail, ':');
        match groups_from(&tokens) {
            Some(t) => t,
            None => return None,
        }
    };
    if h.len() > 7 || t.len() > 7 - h.len() {
        return None;
    }
    let zeros = 8 - h.len() - t.len();
    let ghost hv = h@;
    let mut g = h;
    let mut z: usize = 0;
    while z < zeros
        invariant
            z <= zeros,
            g@ == hv + Seq::new(z as nat, |i: int| 0u16),
        decreases zeros - z,
    {
        g.push(0);
        z = z + 1;
        assert(g@ =~= hv + Seq::new(z as nat, |i: int| 0u16));
    }
    let mut j: usize = 0;
    let ghost mid = g@;
    while j < t.len()
        invariant
            j <= t.len(),
            g@ == mid + t@.take(j as int),
        decreases t.len() - j,
    {
        g.push(t[j]);
        j = j + 1;
        assert(g@ =~= mid + t@.take(j as int));
    }
    assert(t@.take(t.len() as int) =~= t@);
    Some(g)
}

/// The IPv6 address that `s` denotes (`Ipv6Addr::from_str`).
pub fn parse_ipv6_chars(s: &Vec<char>) -> (r: Option<[u16; 8]>)
    ensures
        match r {
            Some(a) => parse_ipv6(s@) == Some(a@),
            None => parse_ipv6(s@) is None,
        },
{
    let k = find_pair(s, ':');
    let g = if k == s.len() {
        match ipv6_full_of(s) {
            Some(g) => g,
            None => return None,
        }
    } else {
        let head = copy_range(s, 0, k);
        let tail = copy_range(s, k + 2, s.len());
        assert(head@ =~= s@.take(k as int));
        assert(tail@ =~= s@.skip(k + 2));
        match ipv6_compressed_of(&head, &tail) {
            Some(g) => g,
            None => return None,
        }
    };
    assert(g@.len() == 8);
    let out = [g[0], g[1], g[2], g[3], g[4], g[5], g[6], g[7]];
    assert(out@ =~= g@);
    Some(out)
}

/// The address that `s` denotes (`IpAddr::from_str`).
pub fn parse_ip_chars(s: &Vec<char>) -> (r: Option<IpAddress>)
    ensures
        match r {
            Some(a) => parse_ip(s@) == Some(a@),
            None => parse_ip(s@) is None,
        },
{
    match parse_ipv4_chars(s) {
        Some(o) => Some(IpAddress::V4(o)),
        None => match parse_ipv6_chars(s) {
            Some(g) => Some(IpAddress::V6(g)),
            None => None,
        },
    }
}

} // verus!
