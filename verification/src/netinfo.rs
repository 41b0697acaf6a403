//! Reading the machine's network configuration out of the text that
//! `ip -4 addr show` (Linux) and `ipconfig` (Windows) print, and the host
//! name out of what `hostnamectl hostname` prints or `/etc/hostname` holds.

use vstd::prelude::*;

use crate::decimal::{decimal, is_digit, lemma_decimal, parse_unsigned, parse_unsigned_chars};
use crate::discovery::{subnet_of, subnet_text};
use crate::ip::{parse_ip, parse_ip_chars, parse_ipv4, parse_ipv4_chars, AddressValue, IpAddress};
use crate::text::{
    before, before_chars, chars_of, contains, contains_chars, fields, is_space, lemma_trim_clean,
    lemma_trim_start, lemma_trim_unchanged, lines, same_chars,
    split_fields, split_lines, split_words, starts_with, starts_with_chars, string_of,
    strip_trailing, strip_trailing_chars, trim, trim_chars, trim_start, views, words,
};

verus! {

/// Whether an address text qualifies as the machine's address: it begins
/// with `subnet` when one is given; else it has four dot-separated parts and
/// the first reads as 10, 172 or 192 (a first part that is no number counts as 0).
pub open spec fn accepted_ip_text(ip: Seq<char>, subnet: Option<Seq<char>>) -> bool {
    match subnet {
        Some(sub) => starts_with(ip, sub),
        None => {
            let parts = fields(ip, '.');
            let first = match parse_unsigned(parts[0], 255) {
                Some(v) => v,
                None => 0,
            };
            parts.len() == 4 && (first == 10 || first == 192 || first == 172)
        },
    }
}

/// The address text on a line of `ip -4 addr show`: on a line that holds
/// `"inet "` and not `"127.0.0.1"`, the second word up to its `/`.
pub open spec fn ip_line_address(line: Seq<char>) -> Option<Seq<char>> {
    if contains(line, "inet "@) && !contains(line, "127.0.0.1"@) && words(line).len() > 1 {
        Some(before(words(line)[1], '/'))
    } else {
        None
    }
}

/// The address text on a line of `ipconfig`: on a line that holds `"IPv4"`,
/// the part between its first and second `:`, trimmed.
pub open spec fn ipconfig_line_address(line: Seq<char>) -> Option<Seq<char>> {
    if contains(line, "IPv4"@) && fields(line, ':').len() > 1 {
        Some(trim(fields(line, ':')[1]))
    } else {
        None
    }
}

/// The address that a candidate text yields, if it reads as an address and qualifies.
pub open spec fn accepted_address(
    text: Option<Seq<char>>,
    subnet: Option<Seq<char>>,
) -> Option<AddressValue> {
    match text {
        Some(t) => match parse_ip(t) {
            Some(a) => if accepted_ip_text(t, subnet) {
                Some(a)
            } else {
                None
            },
            None => None,
        },
        None => None,
    }
}

/// The first address that the lines of `ip -4 addr show` yield.
pub open spec fn local_ip_in_ip_lines(ls: Seq<Seq<char>>, subnet: Option<Seq<char>>) -> Option<
    AddressValue,
>
    decreases ls.len(),
{
    if ls.len() == 0 {
        None
    } else {
        match accepted_address(ip_line_address(ls[0]), subnet) {
            Some(a) => Some(a),
            None => local_ip_in_ip_lines(ls.drop_first(), subnet),
        }
    }
}

/// The first address that the lines of `ipconfig` yield.
pub open spec fn local_ip_in_ipconfig_lines(
    ls: Seq<Seq<char>>,
    subnet: Option<Seq<char>>,
) -> Option<AddressValue>
    decreases ls.len(),
{
    if ls.len() == 0 {
        None
    } else {
        match accepted_address(ipconfig_line_address(ls[0]), subnet) {
            Some(a) => Some(a),
            None => local_ip_in_ipconfig_lines(ls.drop_first(), subnet),
        }
    }
}

/// The text of an optional `&str`.
pub open spec fn opt_view(s: Option<&str>) -> Option<Seq<char>> {
    match s {
        Some(s) => Some(s@),
        None => None,
    }
}

/// Whether an address text qualifies (see `accepted_ip_text`).
fn accepts_ip_text(ip: &Vec<char>, subnet: &Option<Vec<char>>) -> (b: bool)
    ensures
        b == accepted_ip_text(
            ip@,
            match subnet {
                Some(s) => Some(s@),
                None => None,
            },
        ),
{
    match subnet {
        Some(sub) => starts_with_chars(ip, sub),
        None => {
            let parts = split_fields(ip, '.');
            assert(parts@[0]@ == fields(ip@, '.')[0]);
            let first = match parse_unsigned_chars(&parts[0], 255) {
                Some(v) => v,
                None => 0,
            };
            parts.len() == 4 && (first == 10 || first == 192 || first == 172)
        },
    }
}

/// The address that a candidate text yields (see `accepted_address`).
fn accepted_address_of(text: Option<Vec<char>>, subnet: &Option<Vec<char>>) -> (r: Option<
    IpAddress,
>)
    ensures
        match r {
            Some(a) => accepted_address(
                match text {
                    Some(t) => Some(t@),
                    None => None,
                },
                match subnet {
                    Some(s) => Some(s@),
                    None => None,
                },
            ) == Some(a@),
            None => accepted_address(
                match text {
                    Some(t) => Some(t@),
                    None => None,
                },
                match subnet {
                    Some(s) => Some(s@),
                    None => None,
                },
            ) is None,
        },
{
    match text {
        Some(t) => match parse_ip_chars(&t) {
            Some(a) => if accepts_ip_text(&t, subnet) {
                Some(a)
            } else {
                None
            },
            None => None,
        },
        None => None,
    }
}

/// The address text on a line of `ip -4 addr show` (see `ip_line_address`).
fn ip_line_address_of(line: &Vec<char>) -> (r: Option<Vec<char>>)
    ensures
        match r {
            Some(t) => ip_line_address(line@) == Some(t@),
            None => ip_line_address(line@) is None,
        },
{
    let inet = chars_of("inet ");
    let loopback = chars_of("127.0.0.1");
    if contains_chars(line, &inet) && !contains_chars(line, &loopback) {
        let ws = split_words(line);
        if ws.len() > 1 {
            assert(ws@[1]@ == words(line@)[1]);
            return Some(before_chars(&ws[1], '/'));
        }
    }
    None
}

/// The address text on a line of `ipconfig` (see `ipconfig_line_address`).
fn ipconfig_line_address_of(line: &Vec<char>) -> (r: Option<Vec<char>>)
    ensures
        match r {
            Some(t) => ipconfig_line_address(line@) == Some(t@),
            None => ipconfig_line_address(line@) is None,
        },
{
    let tag = chars_of("IPv4");
    if contains_chars(line, &tag) {
        let parts = split_fields(line, ':');
        if parts.len() > 1 {
            assert(parts@[1]@ == fields(line@, ':')[1]);
            return Some(trim_chars(&parts[1]));
        }
    }
    None
}

/// The subnet prefix as characters.
fn subnet_chars(subnet: Option<&str>) -> (r: Option<Vec<char>>)
    ensures
        match r {
            Some(s) => opt_view(subnet) == Some(s@),
            None => subnet is None,
        },
{
    match subnet {
        Some(s) => Some(chars_of(s)),
        None => None,
    }
}

/// The machine's address as the output of `ip -4 addr show` gives it: the
/// first address on an `inet` line (loopback lines aside) that begins with
/// `subnet`, or, without `subnet`, that lies in 10.x, 172.x or 192.x.
pub fn local_ip_from_ip_output(output: &str, subnet: Option<&str>) -> (r: Option<IpAddress>)
    ensures
        match r {
            Some(a) => local_ip_in_ip_lines(lines(output@), opt_view(subnet)) == Some(a@),
            None => local_ip_in_ip_lines(lines(output@), opt_view(subnet)) is None,
        },
{
    let text = chars_of(output);
    let ls = split_lines(&text);
    let sub = subnet_chars(subnet);
    let ghost all = views(ls@);
    let mut i: usize = 0;
    assert(all.skip(0) =~= all);
    while i < ls.len()
        invariant
            i <= ls.len(),
            all == views(ls@),
            all == lines(output@),
            match sub {
                Some(s) => opt_view(subnet) == Some(s@),
                None => subnet is None,
            },
            local_ip_in_ip_lines(all, opt_view(subnet)) == local_ip_in_ip_lines(
                all.skip(i as int),
                opt_view(subnet),
            ),
        decreases ls.len() - i,
    {
        let candidate = ip_line_address_of(&ls[i]);
        assert(all.skip(i as int)[0] == ls@[i as int]@);
        assert(all.skip(i as int).drop_first() =~= all.skip(i + 1));
        match accepted_address_of(candidate, &sub) {
            Some(a) => {
                return Some(a);
            },
            None => {},
        }
        i = i + 1;
    }
    None
}

/// The machine's address as the output of `ipconfig` gives it: the first
/// address on an `IPv4` line that begins with `subnet`, or, without
/// `subnet`, that lies in 10.x, 172.x or 192.x.
pub fn local_ip_from_ipconfig_output(output: &str, subnet: Option<&str>) -> (r: Option<
    IpAddress,
>)
    ensures
        match r {
            Some(a) => local_ip_in_ipconfig_lines(lines(output@), opt_view(subnet)) == Some(a@),
            None => local_ip_in_ipconfig_lines(lines(output@), opt_view(subnet)) is None,
        },
{
    let text = chars_of(output);
    let ls = split_lines(&text);
    let sub = subnet_chars(subnet);
    let ghost all = views(ls@);
    let mut i: usize = 0;
    assert(all.skip(0) =~= all);
    while i < ls.len()
        invariant
            i <= ls.len(),
            all == views(ls@),
            all == lines(output@),
            match sub {
                Some(s) => opt_view(subnet) == Some(s@),
                None => subnet is None,
            },
            local_ip_in_ipconfig_lines(all, opt_view(subnet)) == local_ip_in_ipconfig_lines(
                all.skip(i as int),
                opt_view(subnet),
            ),
        decreases ls.len() - i,
    {
        let candidate = ipconfig_line_address_of(&ls[i]);
        assert(all.skip(i as int)[0] == ls@[i as int]@);
        assert(all.skip(i as int).drop_first() =~= all.skip(i + 1));
        match accepted_address_of(candidate, &sub) {
            Some(a) => {
                return Some(a);
            },
            None => {},
        }
        i = i + 1;
    }
    None
}

/// A host name from what a command printed or a file holds: the text
/// trimmed, when something is left.
pub open spec fn hostname_in(text: Seq<char>) -> Option<Seq<char>> {
    if trim(text).len() > 0 {
        Some(trim(text))
    } else {
        None
    }
}

/// The host name that `text` gives (see `hostname_in`).
pub fn hostname_from_text(text: &str) -> (r: Option<String>)
    ensures
        match r {
            Some(h) => hostname_in(text@) == Some(h@),
            None => hostname_in(text@) is None,
        },
{
    let t = trim_chars(&chars_of(text));
    if t.len() > 0 {
        Some(string_of(&t))
    } else {
        None
    }
}

/// Progress through an interface listing: the interface whose lines are
/// being read, and the (interface, address) pairs found so far.
pub struct IfaceScan {
    pub current: Option<Seq<char>>,
    pub found: Seq<(Seq<char>, Seq<char>)>,
}

/// One line of `ip -4 addr show`: a line that does not begin with a space
/// and holds a `:` names an interface (the trimmed part after the first
/// `:`); an `inet` line (loopback aside) gives an address of the current
/// interface.
pub open spec fn ip_iface_step(st: IfaceScan, line: Seq<char>) -> IfaceScan {
    if !(line.len() > 0 && line[0] == ' ') && contains(line, ":"@) {
        if fields(line, ':').len() > 1 {
            IfaceScan { current: Some(trim(fields(line, ':')[1])), found: st.found }
        } else {
            st
        }
    } else if contains(line, "inet "@) && !contains(line, "127.0.0.1"@) {
        if words(line).len() > 1 {
            match st.current {
                Some(iface) => IfaceScan {
                    current: st.current,
                    found: st.found.push((iface, before(words(line)[1], '/'))),
                },
                None => st,
            }
        } else {
            st
        }
    } else {
        st
    }
}

/// One line of `ipconfig`: a non-blank line that does not begin with a space,
/// holds a `:` and no `IPv4` names an adapter (trimmed, trailing `:`
/// removed); a line holding `IPv4` gives an address of the current adapter
/// (the trimmed part between its first and second `:`).
pub open spec fn ipconfig_iface_step(st: IfaceScan, line: Seq<char>) -> IfaceScan {
    let t = trim(line);
    if t.len() > 0 && !(line.len() > 0 && line[0] == ' ') && contains(line, ":"@) && !contains(
        line,
        "IPv4"@,
    ) {
        IfaceScan { current: Some(strip_trailing(t, ':')), found: st.found }
    } else if contains(t, "IPv4"@) {
        if fields(t, ':').len() > 1 {
            match st.current {
                Some(iface) => IfaceScan {
                    current: st.current,
                    found: st.found.push((iface, trim(fields(t, ':')[1]))),
                },
                None => st,
            }
        } else {
            st
        }
    } else {
        st
    }
}

/// The scan state after reading the lines `ls` of `ip -4 addr show`.
pub open spec fn ip_iface_scan(ls: Seq<Seq<char>>) -> IfaceScan
    decreases ls.len(),
{
    if ls.len() == 0 {
        IfaceScan { current: None, found: seq![] }
    } else {
        ip_iface_step(ip_iface_scan(ls.drop_last()), ls.last())
    }
}

/// The scan state after reading the lines `ls` of `ipconfig`.
pub open spec fn ipconfig_iface_scan(ls: Seq<Seq<char>>) -> IfaceScan
    decreases ls.len(),
{
    if ls.len() == 0 {
        IfaceScan { current: None, found: seq![] }
    } else {
        ipconfig_iface_step(ipconfig_iface_scan(ls.drop_last()), ls.last())
    }
}

/// The texts of a list of (interface, address) pairs.
pub open spec fn pair_views(v: Seq<(String, String)>) -> Seq<(Seq<char>, Seq<char>)> {
    v.map_values(|p: (String, String)| p@)
}

/// The texts of a list of character-vector pairs.
pub open spec fn char_pair_views(v: Seq<(Vec<char>, Vec<char>)>) -> Seq<(Seq<char>, Seq<char>)> {
    v.map_values(|p: (Vec<char>, Vec<char>)| (p.0@, p.1@))
}

/// The optional text of an optional character vector.
pub open spec fn opt_chars(v: Option<Vec<char>>) -> Option<Seq<char>> {
    match v {
        Some(c) => Some(c@),
        None => None,
    }
}

/// The pairs as `String`s.
fn pairs_to_strings(v: Vec<(Vec<char>, Vec<char>)>) -> (out: Vec<(String, String)>)
    ensures
        pair_views(out@) == char_pair_views(v@),
{
    let mut out: Vec<(String, String)> = Vec::new();
    let mut i: usize = 0;
    while i < v.len()
        invariant
            i <= v.len(),
            pair_views(out@) == char_pair_views(v@).take(i as int),
        decreases v.len() - i,
    {
        let a = string_of(&v[i].0);
        let b = string_of(&v[i].1);
        let ghost before_push = pair_views(out@);
        out.push((a, b));
        assert(pair_views(out@) =~= before_push.push((v@[i as int].0@, v@[i as int].1@)));
        i = i + 1;
        assert(pair_views(out@) =~= char_pair_views(v@).take(i as int));
    }
    assert(char_pair_views(v@).take(v.len() as int) =~= char_pair_views(v@));
    out
}

/// The (interface, address) pairs that the output of `ip -4 addr show` lists.
pub fn interfaces_from_ip_output(output: &str) -> (out: Vec<(String, String)>)
    ensures
        pair_views(out@) == ip_iface_scan(lines(output@)).found,
{
    let text = chars_of(output);
    let ls = split_lines(&text);
    let ghost all = views(ls@);
    let colon = chars_of(":");
    let inet = chars_of("inet ");
    let loopback = chars_of("127.0.0.1");
    let mut current: Option<Vec<char>> = None;
    let mut found: Vec<(Vec<char>, Vec<char>)> = Vec::new();
    let mut i: usize = 0;
    assert(all.take(0) =~= Seq::<Seq<char>>::empty());
    assert(char_pair_views(found@) =~= Seq::<(Seq<char>, Seq<char>)>::empty());
    while i < ls.len()
        invariant
            i <= ls.len(),
            all == views(ls@),
            all == lines(output@),
            colon@ == ":"@,
            inet@ == "inet "@,
            loopback@ == "127.0.0.1"@,
            ip_iface_scan(all.take(i as int)) == (IfaceScan {
                current: opt_chars(current),
                found: char_pair_views(found@),
            }),
        decreases ls.len() - i,
    {
        let line = &ls[i];
        let ghost st = ip_iface_scan(all.take(i as int));
        proof {
            assert(all.take(i + 1).drop_last() =~= all.take(i as int));
            assert(all.take(i + 1).last() == line@);
        }
        let ghost found_before = char_pair_views(found@);
        if !(line.len() > 0 && line[0] == ' ') && contains_chars(line, &colon) {
            let parts = split_fields(line, ':');
            if parts.len() > 1 {
                assert(parts@[1]@ == fields(line@, ':')[1]);
                current = Some(trim_chars(&parts[1]));
            }
        } else if contains_chars(line, &inet) && !contains_chars(line, &loopback) {
            let ws = split_words(line);
            if ws.len() > 1 {
                assert(ws@[1]@ == words(line@)[1]);
                match &current {
                    Some(iface) => {
                        let addr = before_chars(&ws[1], '/');
                        found.push((iface.clone(), addr));
                        assert(char_pair_views(found@) =~= found_before.push(
                            (iface@, before(words(line@)[1], '/')),
                        ));
                    },
                    None => {},
                }
            }
        }
        i = i + 1;
    }
    assert(all.take(ls.len() as int) =~= all);
    pairs_to_strings(found)
}

/// The (adapter, address) pairs that the output of `ipconfig` lists.
pub fn interfaces_from_ipconfig_output(output: &str) -> (out: Vec<(String, String)>)
    ensures
        pair_views(out@) == ipconfig_iface_scan(lines(output@)).found,
{
    let text = chars_of(output);
    let ls = split_lines(&text);
    let ghost all = views(ls@);
    let colon = chars_of(":");
    let tag = chars_of("IPv4");
    let mut current: Option<Vec<char>> = None;
    let mut found: Vec<(Vec<char>, Vec<char>)> = Vec::new();
    let mut i: usize = 0;
    assert(all.take(0) =~= Seq::<Seq<char>>::empty());
    assert(char_pair_views(found@) =~= Seq::<(Seq<char>, Seq<char>)>::empty());
    while i < ls.len()
        invariant
            i <= ls.len(),
            all == views(ls@),
            all == lines(output@),
            colon@ == ":"@,
            tag@ == "IPv4"@,
            ipconfig_iface_scan(all.take(i as int)) == (IfaceScan {
                current: opt_chars(current),
                found: char_pair_views(found@),
            }),
        decreases ls.len() - i,
    {
        let line = &ls[i];
        proof {
            assert(all.take(i + 1).drop_last() =~= all.take(i as int));
            assert(all.take(i + 1).last() == line@);
        }
        let ghost found_before = char_pair_views(found@);
        let t = trim_chars(line);
        if t.len() > 0 && !(line.len() > 0 && line[0] == ' ') && contains_chars(line, &colon)
            && !contains_chars(line, &tag) {
            current = Some(strip_trailing_chars(&t, ':'));
        } else if contains_chars(&t, &tag) {
            let parts = split_fields(&t, ':');
            if parts.len() > 1 {
                assert(parts@[1]@ == fields(t@, ':')[1]);
                match &current {
                    Some(iface) => {
                        let addr = trim_chars(&parts[1]);
                        found.push((iface.clone(), addr));
                        assert(char_pair_views(found@) =~= found_before.push(
                            (iface@, trim(fields(t@, ':')[1])),
                        ));
                    },
                    None => {},
                }
            }
        }
        i = i + 1;
    }
    assert(all.take(ls.len() as int) =~= all);
    pairs_to_strings(found)
}

/// Why a choice among the listed interfaces was refused.
#[derive(Clone, Copy, Debug, PartialEq, Eq)]
pub enum ChoiceError {
    /// There was nothing to choose from.
    NoInterfaces,
    /// The answer is not a number.
    NotANumber,
    /// The number is not that of a listed interface.
    OutOfRange,
}

/// The address of the interface that the answer (a 1-based number,
/// surrounding white space aside) picks.
pub open spec fn chosen_interface(
    listed: Seq<(Seq<char>, Seq<char>)>,
    answer: Seq<char>,
) -> Result<Seq<char>, ChoiceError> {
    if listed.len() == 0 {
        Err(ChoiceError::NoInterfaces)
    } else {
        match parse_unsigned(trim(answer), usize::MAX as nat) {
            None => Err(ChoiceError::NotANumber),
            Some(n) => if n == 0 || n > listed.len() {
                Err(ChoiceError::OutOfRange)
            } else {
                Ok(listed[n - 1].1)
            },
        }
    }
}

/// Picks the interface whose number the user typed.
pub fn choose_interface(listed: &Vec<(String, String)>, answer: &str) -> (r: Result<
    String,
    ChoiceError,
>)
    ensures
        match r {
            Ok(ip) => chosen_interface(pair_views(listed@), answer@) == Ok::<
                Seq<char>,
                ChoiceError,
            >(ip@),
            Err(e) => chosen_interface(pair_views(listed@), answer@) == Err::<
                Seq<char>,
                ChoiceError,
            >(e),
        },
{
    if listed.len() == 0 {
        return Err(ChoiceError::NoInterfaces);
    }
    let t = trim_chars(&chars_of(answer));
    let n = match parse_unsigned_chars(&t, usize::MAX as u64) {
        Some(n) => n,
        None => return Err(ChoiceError::NotANumber),
    };
    if n == 0 || n > listed.len() as u64 {
        return Err(ChoiceError::OutOfRange);
    }
    let k = (n - 1) as usize;
    assert(pair_views(listed@)[k as int] == listed@[k as int]@);
    Ok(listed[k].1.clone())
}

/// The subnet that a line of `ip -4 addr show` yields: its address, if it
/// is a dotted quad outside 172.x and outside 10.x (10.x below 10.100 is
/// taken), as its first three octets.
pub open spec fn subnet_of_line(line: Seq<char>) -> Option<Seq<char>> {
    match ip_line_address(line) {
        Some(t) => match parse_ipv4(t) {
            Some(o) => if (o[0] != 172 && o[0] != 10) || (o[0] == 10 && o[1] < 100) {
                Some(subnet_text(AddressValue::V4(o)))
            } else {
                None
            },
            None => None,
        },
        None => None,
    }
}

/// The subnet the first suitable line of `ip -4 addr show` yields, or `192.168.0`.
pub open spec fn subnet_in_ip_lines(ls: Seq<Seq<char>>) -> Seq<char>
    decreases ls.len(),
{
    if ls.len() == 0 {
        "192.168.0"@
    } else {
        match subnet_of_line(ls[0]) {
            Some(s) => s,
            None => subnet_in_ip_lines(ls.drop_first()),
        }
    }
}

/// The subnet to scan for clients, from the output of `ip -4 addr show`
/// (see `subnet_in_ip_lines`).
pub fn local_subnet_from_ip_output(output: &str) -> (s: String)
    ensures
        s@ == subnet_in_ip_lines(lines(output@)),
{
    let text = chars_of(output);
    let ls = split_lines(&text);
    let ghost all = views(ls@);
    let mut i: usize = 0;
    assert(all.skip(0) =~= all);
    while i < ls.len()
        invariant
            i <= ls.len(),
            all == views(ls@),
            all == lines(output@),
            subnet_in_ip_lines(all) == subnet_in_ip_lines(all.skip(i as int)),
        decreases ls.len() - i,
    {
        assert(all.skip(i as int)[0] == ls@[i as int]@);
        assert(all.skip(i as int).drop_first() =~= all.skip(i + 1));
        match ip_line_address_of(&ls[i]) {
            Some(t) => match parse_ipv4_chars(&t) {
                Some(o) => {
                    if (o[0] != 172 && o[0] != 10) || (o[0] == 10 && o[1] < 100) {
                        return subnet_of(IpAddress::V4(o));
                    }
                },
                None => {},
            },
            None => {},
        }
        i = i + 1;
    }
    assert(all.skip(i as int) =~= Seq::<Seq<char>>::empty());
    "192.168.0".to_owned()
}

/// The candidate text is there, begins with `subnet`, and reads as `a`.
pub open spec fn yields_in_subnet(
    text: Option<Seq<char>>,
    subnet: Seq<char>,
    a: AddressValue,
) -> bool {
    match text {
        Some(t) => starts_with(t, subnet) && parse_ip(t) == Some(a),
        None => false,
    }
}

/// With a subnet given, the address found comes from an `inet` line, reads
/// as that address, and its text begins with the subnet.
pub proof fn lemma_local_ip_in_subnet(ls: Seq<Seq<char>>, subnet: Seq<char>)
    ensures
        local_ip_in_ip_lines(ls, Some(subnet)) is Some ==> exists|i: int|
            0 <= i < ls.len() && yields_in_subnet(
                #[trigger] ip_line_address(ls[i]),
                subnet,
                local_ip_in_ip_lines(ls, Some(subnet)).unwrap(),
            ),
    decreases ls.len(),
{
    if ls.len() > 0 {
        lemma_local_ip_in_subnet(ls.drop_first(), subnet);
        if let Some(a) = local_ip_in_ip_lines(ls, Some(subnet)) {
            if accepted_address(ip_line_address(ls[0]), Some(subnet)) is Some {
                assert(yields_in_subnet(ip_line_address(ls[0]), subnet, a));
            } else {
                let i = choose|i: int|
                    0 <= i < ls.drop_first().len() && yields_in_subnet(
                        #[trigger] ip_line_address(ls.drop_first()[i]),
                        subnet,
                        a,
                    );
                assert(ls.drop_first()[i] == ls[i + 1]);
                assert(yields_in_subnet(ip_line_address(ls[i + 1]), subnet, a));
            }
        }
    }
}

/// With a subnet given, the address found comes from an `IPv4` line, reads
/// as that address, and its text begins with the subnet.
pub proof fn lemma_ipconfig_ip_in_subnet(ls: Seq<Seq<char>>, subnet: Seq<char>)
    ensures
        local_ip_in_ipconfig_lines(ls, Some(subnet)) is Some ==> exists|i: int|
            0 <= i < ls.len() && yields_in_subnet(
                #[trigger] ipconfig_line_address(ls[i]),
                subnet,
                local_ip_in_ipconfig_lines(ls, Some(subnet)).unwrap(),
            ),
    decreases ls.len(),
{
    if ls.len() > 0 {
        lemma_ipconfig_ip_in_subnet(ls.drop_first(), subnet);
        if let Some(a) = local_ip_in_ipconfig_lines(ls, Some(subnet)) {
            if accepted_address(ipconfig_line_address(ls[0]), Some(subnet)) is Some {
                assert(yields_in_subnet(ipconfig_line_address(ls[0]), subnet, a));
            } else {
                let i = choose|i: int|
                    0 <= i < ls.drop_first().len() && yields_in_subnet(
                        #[trigger] ipconfig_line_address(ls.drop_first()[i]),
                        subnet,
                        a,
                    );
                assert(ls.drop_first()[i] == ls[i + 1]);
                assert(yields_in_subnet(ipconfig_line_address(ls[i + 1]), subnet, a));
            }
        }
    }
}

/// The address on a line of `ip -4 addr show` that holds `"inet "`: the
/// second word up to its `/`. Loopback lines count: `lo` is an interface.
pub open spec fn inet_line_address(line: Seq<char>) -> Option<Seq<char>> {
    if contains(line, "inet "@) && words(line).len() > 1 {
        Some(before(words(line)[1], '/'))
    } else {
        None
    }
}

/// The address on a line of `ipconfig` as the adapter listing reads it: on a
/// line whose trimmed text holds `"IPv4"`, the trimmed part between the
/// first and second `:` of that text.
pub open spec fn ipv4_line_address(line: Seq<char>) -> Option<Seq<char>> {
    let t = trim(line);
    if contains(t, "IPv4"@) && fields(t, ':').len() > 1 {
        Some(trim(fields(t, ':')[1]))
    } else {
        None
    }
}

/// `ip` is, as a whole, the address on one of the `inet` lines `ls`.
pub open spec fn on_inet_line(ls: Seq<Seq<char>>, ip: Seq<char>) -> bool {
    exists|i: int| 0 <= i < ls.len() && #[trigger] inet_line_address(ls[i]) == Some(ip)
}

/// `ip` is, as a whole, the address on one of the `IPv4` lines `ls`.
pub open spec fn on_ipv4_line(ls: Seq<Seq<char>>, ip: Seq<char>) -> bool {
    exists|i: int| 0 <= i < ls.len() && #[trigger] ipv4_line_address(ls[i]) == Some(ip)
}

/// The address on an `inet` line (see `inet_line_address`).
fn inet_line_address_of(line: &Vec<char>) -> (r: Option<Vec<char>>)
    ensures
        match r {
            Some(t) => inet_line_address(line@) == Some(t@),
            None => inet_line_address(line@) is None,
        },
{
    let inet = chars_of("inet ");
    if contains_chars(line, &inet) {
        let ws = split_words(line);
        if ws.len() > 1 {
            assert(ws@[1]@ == words(line@)[1]);
            return Some(before_chars(&ws[1], '/'));
        }
    }
    None
}

/// The address on an `IPv4` line (see `ipv4_line_address`).
fn ipv4_line_address_of(line: &Vec<char>) -> (r: Option<Vec<char>>)
    ensures
        match r {
            Some(t) => ipv4_line_address(line@) == Some(t@),
            None => ipv4_line_address(line@) is None,
        },
{
    let tag = chars_of("IPv4");
    let t = trim_chars(line);
    if contains_chars(&t, &tag) {
        let parts = split_fields(&t, ':');
        if parts.len() > 1 {
            assert(parts@[1]@ == fields(t@, ':')[1]);
            return Some(trim_chars(&parts[1]));
        }
    }
    None
}

/// Whether `ip` is, as a whole, the address on an `inet` line of the output
/// of `ip -4 addr show`: a prefix of an address does not count.
pub fn address_in_ip_output(output: &str, ip: &str) -> (b: bool)
    ensures
        b == on_inet_line(lines(output@), ip@),
{
    let text = chars_of(output);
    let ls = split_lines(&text);
    let wanted = chars_of(ip);
    let ghost all = views(ls@);
    let mut i: usize = 0;
    while i < ls.len()
        invariant
            i <= ls.len(),
            all == views(ls@),
            all == lines(output@),
            wanted@ == ip@,
            forall|j: int| 0 <= j < i ==> #[trigger] inet_line_address(all[j]) != Some(ip@),
        decreases ls.len() - i,
    {
        assert(all[i as int] == ls@[i as int]@);
        match inet_line_address_of(&ls[i]) {
            Some(t) => {
                if same_chars(&t, &wanted) {
                    return true;
                }
            },
            None => {},
        }
        i = i + 1;
    }
    false
}

/// Whether `ip` is, as a whole, the address on an `IPv4` line of the output
/// of `ipconfig`: a prefix of an address does not count.
pub fn address_in_ipconfig_output(output: &str, ip: &str) -> (b: bool)
    ensures
        b == on_ipv4_line(lines(output@), ip@),
{
    let text = chars_of(output);
    let ls = split_lines(&text);
    let wanted = chars_of(ip);
    let ghost all = views(ls@);
    let mut i: usize = 0;
    while i < ls.len()
        invariant
            i <= ls.len(),
            all == views(ls@),
            all == lines(output@),
            wanted@ == ip@,
            forall|j: int| 0 <= j < i ==> #[trigger] ipv4_line_address(all[j]) != Some(ip@),
        decreases ls.len() - i,
    {
        assert(all[i as int] == ls@[i as int]@);
        match ipv4_line_address_of(&ls[i]) {
            Some(t) => {
                if same_chars(&t, &wanted) {
                    return true;
                }
            },
            None => {},
        }
        i = i + 1;
    }
    false
}

/// Every address that the interface listing of `ip -4 addr show` gives is
/// accepted by the address check on the same output.
pub proof fn lemma_ip_listing_addresses_accepted(ls: Seq<Seq<char>>)
    ensures
        forall|j: int|
            0 <= j < ip_iface_scan(ls).found.len() ==> on_inet_line(
                ls,
                #[trigger] ip_iface_scan(ls).found[j].1,
            ),
    decreases ls.len(),
{
    if ls.len() > 0 {
        let p = ls.drop_last();
        lemma_ip_listing_addresses_accepted(p);
        let before = ip_iface_scan(p).found;
        let after = ip_iface_scan(ls).found;
        assert forall|j: int| 0 <= j < after.len() implies on_inet_line(ls, #[trigger] after[j].1) by {
            if j < before.len() {
                assert(after[j] == before[j]);
                assert(on_inet_line(p, before[j].1));
                let i = choose|i: int| 0 <= i < p.len() && #[trigger] inet_line_address(p[i]) == Some(before[j].1);
                assert(p[i] == ls[i]);
            } else {
                assert(inet_line_address(ls[ls.len() - 1]) == Some(after[j].1));
            }
        }
    }
}

/// Every address that the adapter listing of `ipconfig` gives is accepted
/// by the address check on the same output.
pub proof fn lemma_ipconfig_listing_addresses_accepted(ls: Seq<Seq<char>>)
    ensures
        forall|j: int|
            0 <= j < ipconfig_iface_scan(ls).found.len() ==> on_ipv4_line(
                ls,
                #[trigger] ipconfig_iface_scan(ls).found[j].1,
            ),
    decreases ls.len(),
{
    if ls.len() > 0 {
        let p = ls.drop_last();
        lemma_ipconfig_listing_addresses_accepted(p);
        let before = ipconfig_iface_scan(p).found;
        let after = ipconfig_iface_scan(ls).found;
        assert forall|j: int| 0 <= j < after.len() implies on_ipv4_line(ls, #[trigger] after[j].1) by {
            if j < before.len() {
                assert(after[j] == before[j]);
                assert(on_ipv4_line(p, before[j].1));
                let i = choose|i: int| 0 <= i < p.len() && #[trigger] ipv4_line_address(p[i]) == Some(before[j].1);
                assert(p[i] == ls[i]);
            } else {
                assert(ipv4_line_address(ls[ls.len() - 1]) == Some(after[j].1));
            }
        }
    }
}

/// The machine's address that `local_ip_from_ip_output` takes comes from an
/// `inet` line, so the address check accepts its text.
pub proof fn lemma_local_address_on_inet_line(line: Seq<char>)
    ensures
        ip_line_address(line) matches Some(t) ==> inet_line_address(line) == Some(t),
{
}

/// An address text of the kind taken when no subnet is given: it reads as
/// an address, has four dot-separated parts, and its first part reads as
/// 10, 172 or 192.
spec fn lan_text(u: Option<Seq<char>>) -> bool {
    match u {
        Some(t) => parse_ip(t) is Some && fields(t, '.').len() == 4 && (parse_unsigned(
            fields(t, '.')[0],
            255,
        ) == Some(10nat) || parse_unsigned(fields(t, '.')[0], 255) == Some(172nat)
            || parse_unsigned(fields(t, '.')[0], 255) == Some(192nat)),
        None => false,
    }
}

proof fn lemma_first_lan_inet(ls: Seq<Seq<char>>, i: int)
    requires
        0 <= i <= ls.len(),
        forall|j: int| 0 <= j < i ==> !lan_text(#[trigger] ip_line_address(ls[j])),
    ensures
        i < ls.len() && lan_text(ip_line_address(ls[i])) ==> local_ip_in_ip_lines(ls, None)
            == parse_ip(ip_line_address(ls[i]).unwrap()),
        i == ls.len() ==> local_ip_in_ip_lines(ls, None) is None,
    decreases i,
{
    if i > 0 {
        let rest = ls.drop_first();
        assert forall|j: int| 0 <= j < i - 1 implies !lan_text(#[trigger] ip_line_address(rest[j])) by {
            assert(rest[j] == ls[j + 1]);
        }
        lemma_first_lan_inet(rest, i - 1);
        assert(!lan_text(ip_line_address(ls[0])));
        if i < ls.len() {
            assert(rest[i - 1] == ls[i]);
        }
    }
}

proof fn lemma_first_lan_ipconfig(ls: Seq<Seq<char>>, i: int)
    requires
        0 <= i <= ls.len(),
        forall|j: int| 0 <= j < i ==> !lan_text(#[trigger] ipconfig_line_address(ls[j])),
    ensures
        i < ls.len() && lan_text(ipconfig_line_address(ls[i])) ==> local_ip_in_ipconfig_lines(
            ls,
            None,
        ) == parse_ip(ipconfig_line_address(ls[i]).unwrap()),
        i == ls.len() ==> local_ip_in_ipconfig_lines(ls, None) is None,
    decreases i,
{
    if i > 0 {
        let rest = ls.drop_first();
        assert forall|j: int| 0 <= j < i - 1 implies !lan_text(
            #[trigger] ipconfig_line_address(rest[j]),
        ) by {
            assert(rest[j] == ls[j + 1]);
        }
        lemma_first_lan_ipconfig(rest, i - 1);
        assert(!lan_text(ipconfig_line_address(ls[0])));
        if i < ls.len() {
            assert(rest[i - 1] == ls[i]);
        }
    }
}

/// Without a subnet, the machine's address in the output of `ip -4 addr
/// show` is that of the first `inet` line (loopback lines aside) whose
/// address text reads as an address, has four dot-separated parts, and
/// whose first part reads as 10, 172 or 192.
pub proof fn lemma_first_lan_address_inet(ls: Seq<Seq<char>>, i: int, t: Seq<char>)
    requires
        0 <= i < ls.len(),
        ip_line_address(ls[i]) == Some(t),
        parse_ip(t) is Some,
        fields(t, '.').len() == 4,
        parse_unsigned(fields(t, '.')[0], 255) == Some(10nat) || parse_unsigned(
            fields(t, '.')[0],
            255,
        ) == Some(172nat) || parse_unsigned(fields(t, '.')[0], 255) == Some(192nat),
        forall|j: int|
            0 <= j < i ==> match #[trigger] ip_line_address(ls[j]) {
                Some(u) => parse_ip(u) is None || fields(u, '.').len() != 4 || (parse_unsigned(
                    fields(u, '.')[0],
                    255,
                ) != Some(10nat) && parse_unsigned(fields(u, '.')[0], 255) != Some(172nat)
                    && parse_unsigned(fields(u, '.')[0], 255) != Some(192nat)),
                None => true,
            },
    ensures
        local_ip_in_ip_lines(ls, None) == parse_ip(t),
{
    lemma_first_lan_inet(ls, i);
}

/// Without a subnet, when no `inet` line (loopback lines aside) of the
/// output of `ip -4 addr show` has an address text that reads as an
/// address, has four dot-separated parts and whose first part reads as 10,
/// 172 or 192, no address is found.
pub proof fn lemma_no_lan_address_inet(ls: Seq<Seq<char>>)
    requires
        forall|j: int|
            0 <= j < ls.len() ==> match #[trigger] ip_line_address(ls[j]) {
                Some(u) => parse_ip(u) is None || fields(u, '.').len() != 4 || (parse_unsigned(
                    fields(u, '.')[0],
                    255,
                ) != Some(10nat) && parse_unsigned(fields(u, '.')[0], 255) != Some(172nat)
                    && parse_unsigned(fields(u, '.')[0], 255) != Some(192nat)),
                None => true,
            },
    ensures
        local_ip_in_ip_lines(ls, None) is None,
{
    lemma_first_lan_inet(ls, ls.len() as int);
}

/// Without a subnet, the machine's address in the output of `ipconfig` is
/// that of the first `IPv4` line whose address text reads as an address,
/// has four dot-separated parts, and whose first part reads as 10, 172 or 192.
pub proof fn lemma_first_lan_address_ipconfig(ls: Seq<Seq<char>>, i: int, t: Seq<char>)
    requires
        0 <= i < ls.len(),
        ipconfig_line_address(ls[i]) == Some(t),
        parse_ip(t) is Some,
        fields(t, '.').len() == 4,
        parse_unsigned(fields(t, '.')[0], 255) == Some(10nat) || parse_unsigned(
            fields(t, '.')[0],
            255,
        ) == Some(172nat) || parse_unsigned(fields(t, '.')[0], 255) == Some(192nat),
        forall|j: int|
            0 <= j < i ==> match #[trigger] ipconfig_line_address(ls[j]) {
                Some(u) => parse_ip(u) is None || fields(u, '.').len() != 4 || (parse_unsigned(
                    fields(u, '.')[0],
                    255,
                ) != Some(10nat) && parse_unsigned(fields(u, '.')[0], 255) != Some(172nat)
                    && parse_unsigned(fields(u, '.')[0], 255) != Some(192nat)),
                None => true,
            },
    ensures
        local_ip_in_ipconfig_lines(ls, None) == parse_ip(t),
{
    lemma_first_lan_ipconfig(ls, i);
}

/// Without a subnet, when no `IPv4` line of the output of `ipconfig` has an
/// address text that reads as an address, has four dot-separated parts and
/// whose first part reads as 10, 172 or 192, no address is found.
pub proof fn lemma_no_lan_address_ipconfig(ls: Seq<Seq<char>>)
    requires
        forall|j: int|
            0 <= j < ls.len() ==> match #[trigger] ipconfig_line_address(ls[j]) {
                Some(u) => parse_ip(u) is None || fields(u, '.').len() != 4 || (parse_unsigned(
                    fields(u, '.')[0],
                    255,
                ) != Some(10nat) && parse_unsigned(fields(u, '.')[0], 255) != Some(172nat)
                    && parse_unsigned(fields(u, '.')[0], 255) != Some(192nat)),
                None => true,
            },
    ensures
        local_ip_in_ipconfig_lines(ls, None) is None,
{
    lemma_first_lan_ipconfig(ls, ls.len() as int);
}

/// A line whose address is a dotted quad outside 172.x and outside 10.100
/// and above.
spec fn subnet_line(line: Seq<char>) -> bool {
    match ip_line_address(line) {
        Some(t) => match parse_ipv4(t) {
            Some(o) => (o[0] != 172 && o[0] != 10) || (o[0] == 10 && o[1] < 100),
            None => false,
        },
        None => false,
    }
}

proof fn lemma_first_subnet_line(ls: Seq<Seq<char>>, i: int)
    requires
        0 <= i <= ls.len(),
        forall|j: int| 0 <= j < i ==> !subnet_line(#[trigger] ls[j]),
    ensures
        i < ls.len() && subnet_line(ls[i]) ==> subnet_in_ip_lines(ls) == subnet_text(
            AddressValue::V4(parse_ipv4(ip_line_address(ls[i]).unwrap()).unwrap()),
        ),
        i == ls.len() ==> subnet_in_ip_lines(ls) == "192.168.0"@,
    decreases i,
{
    if i > 0 {
        let rest = ls.drop_first();
        assert forall|j: int| 0 <= j < i - 1 implies !subnet_line(#[trigger] rest[j]) by {
            assert(rest[j] == ls[j + 1]);
        }
        lemma_first_subnet_line(rest, i - 1);
        assert(!subnet_line(ls[0]));
        if i < ls.len() {
            assert(rest[i - 1] == ls[i]);
        }
    }
}

/// The subnet to scan comes from the first suitable line of `ip -4 addr
/// show`, in output order: when line `i` has a dotted-quad `inet` address
/// `a.b.c.d` outside 172.x and outside 10.100 and above, and no earlier line
/// has one, the subnet is `a.b.c`.
pub proof fn lemma_subnet_from_first_suitable_line(
    ls: Seq<Seq<char>>,
    i: int,
    t: Seq<char>,
    o: Seq<u8>,
)
    requires
        0 <= i < ls.len(),
        ip_line_address(ls[i]) == Some(t),
        parse_ipv4(t) == Some(o),
        (o[0] != 172 && o[0] != 10) || (o[0] == 10 && o[1] < 100),
        forall|j: int|
            0 <= j < i ==> match #[trigger] ip_line_address(ls[j]) {
                Some(u) => match parse_ipv4(u) {
                    Some(p) => !((p[0] != 172 && p[0] != 10) || (p[0] == 10 && p[1] < 100)),
                    None => true,
                },
                None => true,
            },
    ensures
        subnet_in_ip_lines(ls) == decimal(o[0] as nat) + seq!['.'] + decimal(o[1] as nat) + seq![
            '.',
        ] + decimal(o[2] as nat),
{
    assert forall|j: int| 0 <= j < i implies !subnet_line(#[trigger] ls[j]) by {
        assert(ip_line_address(ls[j]) == ip_line_address(ls[j]));
    }
    lemma_first_subnet_line(ls, i);
}

/// With no suitable line in the output of `ip -4 addr show` (a dotted-quad
/// `inet` address outside 172.x and outside 10.100 and above), the subnet
/// to scan is `192.168.0`.
pub proof fn lemma_subnet_default(ls: Seq<Seq<char>>)
    requires
        forall|j: int|
            0 <= j < ls.len() ==> match #[trigger] ip_line_address(ls[j]) {
                Some(u) => match parse_ipv4(u) {
                    Some(p) => !((p[0] != 172 && p[0] != 10) || (p[0] == 10 && p[1] < 100)),
                    None => true,
                },
                None => true,
            },
    ensures
        subnet_in_ip_lines(ls) == "192.168.0"@,
{
    assert forall|j: int| 0 <= j < ls.len() implies !subnet_line(#[trigger] ls[j]) by {
        assert(ip_line_address(ls[j]) == ip_line_address(ls[j]));
    }
    lemma_first_subnet_line(ls, ls.len() as int);
}

proof fn lemma_first_in_subnet_inet(ls: Seq<Seq<char>>, sub: Seq<char>, i: int)
    requires
        0 <= i <= ls.len(),
        forall|j: int|
            0 <= j < i ==> accepted_address(#[trigger] ip_line_address(ls[j]), Some(sub)) is None,
    ensures
        i < ls.len() && accepted_address(ip_line_address(ls[i]), Some(sub)) is Some
            ==> local_ip_in_ip_lines(ls, Some(sub)) == accepted_address(
            ip_line_address(ls[i]),
            Some(sub),
        ),
    decreases i,
{
    if i > 0 {
        let rest = ls.drop_first();
        assert forall|j: int| 0 <= j < i - 1 implies accepted_address(
            #[trigger] ip_line_address(rest[j]),
            Some(sub),
        ) is None by {
            assert(rest[j] == ls[j + 1]);
        }
        lemma_first_in_subnet_inet(rest, sub, i - 1);
        assert(accepted_address(ip_line_address(ls[0]), Some(sub)) is None);
        if i < ls.len() {
            assert(rest[i - 1] == ls[i]);
        }
    }
}

proof fn lemma_first_in_subnet_ipconfig(ls: Seq<Seq<char>>, sub: Seq<char>, i: int)
    requires
        0 <= i <= ls.len(),
        forall|j: int|
            0 <= j < i ==> accepted_address(#[trigger] ipconfig_line_address(ls[j]), Some(sub))
                is None,
    ensures
        i < ls.len() && accepted_address(ipconfig_line_address(ls[i]), Some(sub)) is Some
            ==> local_ip_in_ipconfig_lines(ls, Some(sub)) == accepted_address(
            ipconfig_line_address(ls[i]),
            Some(sub),
        ),
    decreases i,
{
    if i > 0 {
        let rest = ls.drop_first();
        assert forall|j: int| 0 <= j < i - 1 implies accepted_address(
            #[trigger] ipconfig_line_address(rest[j]),
            Some(sub),
        ) is None by {
            assert(rest[j] == ls[j + 1]);
        }
        lemma_first_in_subnet_ipconfig(rest, sub, i - 1);
        assert(accepted_address(ipconfig_line_address(ls[0]), Some(sub)) is None);
        if i < ls.len() {
            assert(rest[i - 1] == ls[i]);
        }
    }
}

/// With a subnet given, the machine's address in the output of `ip -4 addr
/// show` is that of the first `inet` line (loopback lines aside) whose
/// address text begins with the subnet and reads as an address.
pub proof fn lemma_first_address_in_subnet_inet(
    ls: Seq<Seq<char>>,
    sub: Seq<char>,
    i: int,
    t: Seq<char>,
)
    requires
        0 <= i < ls.len(),
        ip_line_address(ls[i]) == Some(t),
        parse_ip(t) is Some,
        sub.len() <= t.len() && t.take(sub.len() as int) == sub,
        forall|j: int|
            0 <= j < i ==> match #[trigger] ip_line_address(ls[j]) {
                Some(u) => parse_ip(u) is None || !(sub.len() <= u.len() && u.take(sub.len() as int)
                    == sub),
                None => true,
            },
    ensures
        local_ip_in_ip_lines(ls, Some(sub)) == parse_ip(t),
{
    lemma_first_in_subnet_inet(ls, sub, i);
}

/// With a subnet given, the machine's address in the output of `ipconfig`
/// is that of the first `IPv4` line whose address text begins with the
/// subnet and reads as an address.
pub proof fn lemma_first_address_in_subnet_ipconfig(
    ls: Seq<Seq<char>>,
    sub: Seq<char>,
    i: int,
    t: Seq<char>,
)
    requires
        0 <= i < ls.len(),
        ipconfig_line_address(ls[i]) == Some(t),
        parse_ip(t) is Some,
        sub.len() <= t.len() && t.take(sub.len() as int) == sub,
        forall|j: int|
            0 <= j < i ==> match #[trigger] ipconfig_line_address(ls[j]) {
                Some(u) => parse_ip(u) is None || !(sub.len() <= u.len() && u.take(sub.len() as int)
                    == sub),
                None => true,
            },
    ensures
        local_ip_in_ipconfig_lines(ls, Some(sub)) == parse_ip(t),
{
    lemma_first_in_subnet_ipconfig(ls, sub, i);
}

/// A host name read from text is not empty and has no white space at either
/// end; text that already is so is taken whole, and text of white space
/// alone gives none.
pub proof fn lemma_hostname_trimmed(text: Seq<char>)
    ensures
        hostname_in(text) matches Some(h) ==> h.len() > 0 && !is_space(h[0]) && !is_space(
            h.last(),
        ),
        text.len() > 0 && !is_space(text[0]) && !is_space(text.last()) ==> hostname_in(text)
            == Some(text),
        (forall|i: int| 0 <= i < text.len() ==> is_space(#[trigger] text[i])) ==> hostname_in(
            text,
        ) is None,
{
    lemma_trim_clean(text);
    if text.len() > 0 && !is_space(text[0]) && !is_space(text.last()) {
        lemma_trim_unchanged(text);
    }
    if forall|i: int| 0 <= i < text.len() ==> is_space(#[trigger] text[i]) {
        lemma_trim_start(text, text.len() as int);
        assert(trim_start(text).len() == 0);
    }
}

/// Typing the number `k` (1-based) of a listed interface picks that
/// interface's address; a number that is no listed interface's is refused.
pub proof fn lemma_choose_by_number(listed: Seq<(Seq<char>, Seq<char>)>, k: nat)
    requires
        k <= usize::MAX,
        listed.len() > 0,
    ensures
        1 <= k <= listed.len() ==> chosen_interface(listed, decimal(k)) == Ok::<
            Seq<char>,
            ChoiceError,
        >(listed[k - 1].1),
        k == 0 || k > listed.len() ==> chosen_interface(listed, decimal(k)) == Err::<
            Seq<char>,
            ChoiceError,
        >(ChoiceError::OutOfRange),
{
    lemma_decimal(k);
    let d = decimal(k);
    assert(is_digit(d[0]) && is_digit(d.last()));
    lemma_trim_unchanged(d);
    assert(parse_unsigned(d, usize::MAX as nat) == Some(k));
}

/// In the listing of `ip -4 addr show`, a further indented `inet` line
/// (loopback aside) under an interface adds exactly one pair at the end:
/// that interface and the line's address (second word, up to its `/`); the
/// pairs found before stay as they were, and so does the interface.
pub proof fn lemma_ip_listing_appends(ls: Seq<Seq<char>>, line: Seq<char>)
    requires
        ip_iface_scan(ls).current is Some,
        line.len() > 0 && line[0] == ' ',
        contains(line, "inet "@),
        !contains(line, "127.0.0.1"@),
        words(line).len() > 1,
    ensures
        ip_iface_scan(ls.push(line)).found == ip_iface_scan(ls).found.push(
            (ip_iface_scan(ls).current.unwrap(), before(words(line)[1], '/')),
        ),
        ip_iface_scan(ls.push(line)).current == ip_iface_scan(ls).current,
{
    assert(ls.push(line).drop_last() =~= ls);
}

/// In the listing of `ip -4 addr show`, a line that does not begin with a
/// space and has a second `:`-separated part starts a new interface, named
/// by that part trimmed; it adds no pair.
pub proof fn lemma_ip_listing_header(ls: Seq<Seq<char>>, line: Seq<char>)
    requires
        !(line.len() > 0 && line[0] == ' '),
        fields(line, ':').len() > 1,
    ensures
        ip_iface_scan(ls.push(line)).found == ip_iface_scan(ls).found,
        ip_iface_scan(ls.push(line)).current == Some(trim(fields(line, ':')[1])),
{
    assert(ls.push(line).drop_last() =~= ls);
    lemma_colon_in_fields(line);
}

/// Where `index_of` finds a position, `c` stands there.
proof fn lemma_index_found(s: Seq<char>, c: char)
    ensures
        crate::text::index_of(s, c) < s.len() ==> s[crate::text::index_of(s, c) as int] == c,
    decreases s.len(),
{
    if s.len() > 0 && s[0] != c {
        lemma_index_found(s.drop_first(), c);
    }
}

/// A text with more than one `:`-separated part holds a `:`.
proof fn lemma_colon_in_fields(line: Seq<char>)
    requires
        fields(line, ':').len() > 1,
    ensures
        contains(line, ":"@),
{
    let k = crate::text::index_of(line, ':');
    if k >= line.len() {
        assert(fields(line, ':') == seq![line]);
    }
    lemma_index_found(line, ':');
    reveal_strlit(":");
    assert(line.subrange(k as int, k as int + 1) =~= ":"@);
    assert(crate::text::occurs_at(line, ":"@, k as int));
}

/// In the listing of `ipconfig`, a further line whose trimmed text holds
/// `IPv4` and has a second `:`-separated part adds exactly one pair at the
/// end: the current adapter and that part trimmed; the pairs found before
/// stay as they were, and so does the adapter.
pub proof fn lemma_ipconfig_listing_appends(ls: Seq<Seq<char>>, line: Seq<char>)
    requires
        ipconfig_iface_scan(ls).current is Some,
        contains(line, "IPv4"@),
        fields(trim(line), ':').len() > 1,
        contains(trim(line), "IPv4"@),
    ensures
        ipconfig_iface_scan(ls.push(line)).found == ipconfig_iface_scan(ls).found.push(
            (ipconfig_iface_scan(ls).current.unwrap(), trim(fields(trim(line), ':')[1])),
        ),
        ipconfig_iface_scan(ls.push(line)).current == ipconfig_iface_scan(ls).current,
{
    assert(ls.push(line).drop_last() =~= ls);
}

/// In the listing of `ipconfig`, a non-blank line that does not begin with a
/// space, holds a `:` and no `IPv4` starts a new adapter, named by its
/// trimmed text without the trailing `:`; it adds no pair.
pub proof fn lemma_ipconfig_listing_header(ls: Seq<Seq<char>>, line: Seq<char>)
    requires
        trim(line).len() > 0,
        !(line.len() > 0 && line[0] == ' '),
        contains(line, ":"@),
        !contains(line, "IPv4"@),
    ensures
        ipconfig_iface_scan(ls.push(line)).found == ipconfig_iface_scan(ls).found,
        ipconfig_iface_scan(ls.push(line)).current == Some(strip_trailing(trim(line), ':')),
{
    assert(ls.push(line).drop_last() =~= ls);
}

} // verus!
