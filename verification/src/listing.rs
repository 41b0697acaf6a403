//! The report of registered domains that `--list` prints.

use vstd::prelude::*;

use crate::decimal::{decimal, decimal_chars};
use crate::text::{chars_of, string_of};

verus! {

/// One domain of the server's listing, each field absent when the listing
/// does not give it as the expected kind of value.
pub struct DomainEntry {
    pub hostname: Option<String>,
    pub domain: Option<String>,
    pub ip: Option<String>,
    pub last_seen: Option<u64>,
}

/// A field's text, or `unknown`.
pub open spec fn or_unknown(s: Option<String>) -> Seq<char> {
    match s {
        Some(s) => s@,
        None => "unknown"@,
    }
}

/// The four lines printed for one domain.
pub open spec fn entry_lines(e: DomainEntry) -> Seq<Seq<char>> {
    seq![
        "  "@ + or_unknown(e.domain) + " ("@ + or_unknown(e.hostname) + ")"@,
        "    IP: "@ + or_unknown(e.ip),
        "    Последний heartbeat: "@ + decimal(
            match e.last_seen {
                Some(n) => n as nat,
                None => 0,
            },
        ) + " сек назад"@,
        Seq::<char>::empty(),
    ]
}

/// The lines printed for the domains `ds`, in order.
pub open spec fn entries_lines(ds: Seq<DomainEntry>) -> Seq<Seq<char>>
    decreases ds.len(),
{
    if ds.len() == 0 {
        seq![]
    } else {
        entries_lines(ds.drop_last()) + entry_lines(ds.last())
    }
}

/// The report: a heading with the count (as the listing writes it) and the
/// lines of each domain; or, when the listing has no list of domains, a
/// line saying there are none.
pub open spec fn report_lines(count: Seq<char>, domains: Option<Seq<DomainEntry>>) -> Seq<
    Seq<char>,
> {
    match domains {
        Some(ds) => seq!["Зарегистрированные домены ("@ + count + "):"@, Seq::<char>::empty()]
            + entries_lines(ds),
        None => seq!["Нет зарегистрированных доменов"@],
    }
}

/// The texts of a list of strings.
pub open spec fn line_views(v: Seq<String>) -> Seq<Seq<char>> {
    v.map_values(|s: String| s@)
}

/// Appends the characters of `s` to `out`.
fn push_str(out: &mut Vec<char>, s: &str)
    ensures
        final(out)@ == old(out)@ + s@,
{
    let mut part = chars_of(s);
    out.append(&mut part);
}

/// Appends a field's text, or `unknown`.
fn push_or_unknown(out: &mut Vec<char>, s: &Option<String>)
    ensures
        final(out)@ == old(out)@ + or_unknown(*s),
{
    match s {
        Some(s) => push_str(out, s.as_str()),
        None => push_str(out, "unknown"),
    }
}

/// The lines to print for the listing (see `report_lines`).
pub fn domain_report(count: &str, domains: Option<&Vec<DomainEntry>>) -> (out: Vec<String>)
    ensures
        line_views(out@) == report_lines(
            count@,
            match domains {
                Some(d) => Some(d@),
                None => None,
            },
        ),
{
    let mut out: Vec<String> = Vec::new();
    match domains {
        None => {
            out.push("Нет зарегистрированных доменов".to_owned());
            assert(line_views(out@) =~= seq!["Нет зарегистрированных доменов"@]);
            out
        },
        Some(ds) => {
            let mut head: Vec<char> = Vec::new();
            push_str(&mut head, "Зарегистрированные домены (");
            push_str(&mut head, count);
            push_str(&mut head, "):");
            out.push(string_of(&head));
            out.push(String::new());
            assert(line_views(out@) =~= seq![
                "Зарегистрированные домены ("@ + count@ + "):"@,
                Seq::<char>::empty(),
            ]);
            let ghost top = line_views(out@);
            let mut i: usize = 0;
            assert(ds@.take(0) =~= Seq::<DomainEntry>::empty());
            assert(top + entries_lines(ds@.take(0)) =~= top);
            while i < ds.len()
                invariant
                    i <= ds.len(),
                    line_views(out@) == top + entries_lines(ds@.take(i as int)),
                decreases ds.len() - i,
            {
                let e = &ds[i];
                let ghost before = line_views(out@);
                let mut l1: Vec<char> = Vec::new();
                push_str(&mut l1, "  ");
                push_or_unknown(&mut l1, &e.domain);
                push_str(&mut l1, " (");
                push_or_unknown(&mut l1, &e.hostname);
                push_str(&mut l1, ")");
                let mut l2: Vec<char> = Vec::new();
                push_str(&mut l2, "    IP: ");
                push_or_unknown(&mut l2, &e.ip);
                let mut l3: Vec<char> = Vec::new();
                push_str(&mut l3, "    Последний heartbeat: ");
                let seen: u64 = match e.last_seen {
                    Some(n) => n,
                    None => 0,
                };
                let mut digits = decimal_chars(seen);
                l3.append(&mut digits);
                push_str(&mut l3, " сек назад");
                out.push(string_of(&l1));
                out.push(string_of(&l2));
                out.push(string_of(&l3));
                out.push(String::new());
                proof {
                    let cur = ds@.take(i + 1);
                    assert(cur.drop_last() =~= ds@.take(i as int));
                    assert(cur.last() == *e);
                    assert(line_views(out@) =~= before + entry_lines(*e));
                }
                i = i + 1;
            }
            assert(ds@.take(ds.len() as int) =~= ds@);
            out
        },
    }
}

/// The listing gives each domain four lines, in the order of the domains:
/// lines `4k` to `4k + 3` of the domain part are those of the `k`-th domain.
pub proof fn lemma_entries_in_order(ds: Seq<DomainEntry>, k: int)
    requires
        0 <= k < ds.len(),
    ensures
        entries_lines(ds).len() == 4 * ds.len(),
        entries_lines(ds).subrange(4 * k, 4 * k + 4) == entry_lines(ds[k]),
    decreases ds.len(),
{
    lemma_entries_len(ds);
    let p = ds.drop_last();
    lemma_entries_len(p);
    if k < p.len() {
        lemma_entries_in_order(p, k);
        assert(p[k] == ds[k]);
        assert(4 * k + 4 <= 4 * p.len()) by (nonlinear_arith)
            requires
                k < p.len(),
        ;
        assert(entries_lines(ds).subrange(4 * k, 4 * k + 4) =~= entries_lines(p).subrange(
            4 * k,
            4 * k + 4,
        ));
    } else {
        assert(entries_lines(ds).subrange(4 * k, 4 * k + 4) =~= entry_lines(ds.last()));
    }
}

/// Four lines per domain.
proof fn lemma_entries_len(ds: Seq<DomainEntry>)
    ensures
        entries_lines(ds).len() == 4 * ds.len(),
    decreases ds.len(),
{
    if ds.len() > 0 {
        lemma_entries_len(ds.drop_last());
    }
}

} // verus!
