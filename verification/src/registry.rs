//! The server's registry of host names: each heartbeat records the address
//! and time of a host; records not refreshed for 90 seconds are dropped.

use vstd::prelude::*;

use crate::ip::{AddressValue, IpAddress};
use crate::protocol::{reply_to, Message, HEARTBEAT_INTERVAL_SECS};
use crate::text::{chars_of, same_chars};

verus! {

/// How long, in nanoseconds, a record lives without a heartbeat: 90 seconds.
pub const STALE_AFTER_NANOS: u128 = 90_000_000_000;

/// Seconds between two cleanups of the registry; the first runs at start.
pub const CLEANUP_INTERVAL_SECS: u64 = 60;

/// The time, in nanoseconds, of cleanup number `k` of a server started at `start`.
pub open spec fn cleanup_time(start: int, k: nat) -> int {
    start + k * (CLEANUP_INTERVAL_SECS * 1_000_000_000)
}

/// The time, in nanoseconds, of heartbeat number `k` of a client that sent its first at `start`.
pub open spec fn heartbeat_time(start: int, k: nat) -> int {
    start + k * (HEARTBEAT_INTERVAL_SECS * 1_000_000_000)
}

/// Whether a record last refreshed at `last_seen` has expired at `now`
/// (times in nanoseconds since the Unix epoch). A record from the future is
/// never expired.
pub open spec fn is_stale(last_seen: u128, now: u128) -> bool {
    now >= last_seen && now - last_seen > STALE_AFTER_NANOS
}

/// What the registry holds of a host: its address and when it was last heard of.
#[derive(Clone, Copy, Debug)]
pub struct DnsRecord {
    pub ip: IpAddress,
    pub last_seen: u128,
}

/// The abstract value of a record.
pub struct RecordView {
    pub ip: AddressValue,
    pub last_seen: u128,
}

impl View for DnsRecord {
    type V = RecordView;

    open spec fn view(&self) -> RecordView {
        RecordView { ip: self.ip@, last_seen: self.last_seen }
    }
}

/// One host of the registry.
pub struct Entry {
    pub hostname: String,
    pub record: DnsRecord,
}

/// The records by host name that a list of entries holds, later entries
/// taking precedence.
pub open spec fn entries_map(s: Seq<Entry>) -> Map<Seq<char>, RecordView>
    decreases s.len(),
{
    if s.len() == 0 {
        Map::empty()
    } else {
        entries_map(s.drop_last()).insert(s.last().hostname@, s.last().record@)
    }
}

/// No host name occurs twice.
pub open spec fn distinct_names(s: Seq<Entry>) -> bool {
    forall|i: int, j: int|
        0 <= i < s.len() && 0 <= j < s.len() && i != j ==> #[trigger] s[i].hostname@
            != #[trigger] s[j].hostname@
}

/// The registry: host name to record.
pub struct Registry {
    entries: Vec<Entry>,
}

impl View for Registry {
    type V = Map<Seq<char>, RecordView>;

    closed spec fn view(&self) -> Map<Seq<char>, RecordView> {
        entries_map(self.entries@)
    }
}

/// The map holds exactly the entries' names, each with its entry's record.
proof fn lemma_entries_map(s: Seq<Entry>)
    requires
        distinct_names(s),
    ensures
        forall|k: Seq<char>|
            #[trigger] entries_map(s).dom().contains(k) <==> exists|i: int|
                0 <= i < s.len() && s[i].hostname@ == k,
        forall|i: int| 0 <= i < s.len() ==> #[trigger] entries_map(s)[s[i].hostname@] == s[i].record@,
        entries_map(s).dom().finite(),
    decreases s.len(),
{
    if s.len() > 0 {
        let p = s.drop_last();
        assert(distinct_names(p)) by {
            assert forall|i: int, j: int|
                0 <= i < p.len() && 0 <= j < p.len() && i != j implies #[trigger] p[i].hostname@
                != #[trigger] p[j].hostname@ by {
                assert(p[i] == s[i] && p[j] == s[j]);
            }
        }
        lemma_entries_map(p);
        assert forall|k: Seq<char>|
            #[trigger] entries_map(s).dom().contains(k) <==> exists|i: int|
                0 <= i < s.len() && s[i].hostname@ == k by {
            if entries_map(s).dom().contains(k) && k != s.last().hostname@ {
                let i = choose|i: int| 0 <= i < p.len() && p[i].hostname@ == k;
                assert(s[i] == p[i]);
            }
            if exists|i: int| 0 <= i < s.len() && s[i].hostname@ == k {
                let i = choose|i: int| 0 <= i < s.len() && s[i].hostname@ == k;
                if i < s.len() - 1 {
                    assert(p[i] == s[i]);
                }
            }
        }
        assert forall|i: int| 0 <= i < s.len() implies #[trigger] entries_map(s)[s[i].hostname@]
            == s[i].record@ by {
            if i < s.len() - 1 {
                assert(p[i] == s[i]);
                assert(s[i].hostname@ != s[s.len() - 1].hostname@);
            }
        }
    }
}

/// Replacing the entry of a name replaces its record.
proof fn lemma_entries_update(s: Seq<Entry>, i: int, e: Entry)
    requires
        distinct_names(s),
        0 <= i < s.len(),
        s[i].hostname@ == e.hostname@,
    ensures
        distinct_names(s.update(i, e)),
        entries_map(s.update(i, e)) == entries_map(s).insert(e.hostname@, e.record@),
{
    let t = s.update(i, e);
    assert(distinct_names(t)) by {
        assert forall|a: int, b: int|
            0 <= a < t.len() && 0 <= b < t.len() && a != b implies #[trigger] t[a].hostname@
            != #[trigger] t[b].hostname@ by {
            assert(t[a].hostname@ == s[a].hostname@);
            assert(t[b].hostname@ == s[b].hostname@);
        }
    }
    lemma_entries_map(s);
    lemma_entries_map(t);
    assert(entries_map(t) =~= entries_map(s).insert(e.hostname@, e.record@)) by {
        assert forall|k: Seq<char>| #[trigger]
            entries_map(t).dom().contains(k) <==> entries_map(s).insert(
                e.hostname@,
                e.record@,
            ).dom().contains(k) by {
            if exists|j: int| 0 <= j < t.len() && t[j].hostname@ == k {
                let j = choose|j: int| 0 <= j < t.len() && t[j].hostname@ == k;
                assert(t[j].hostname@ == s[j].hostname@);
            }
            if exists|j: int| 0 <= j < s.len() && s[j].hostname@ == k {
                let j = choose|j: int| 0 <= j < s.len() && s[j].hostname@ == k;
                assert(t[j].hostname@ == s[j].hostname@);
            }
        }
        assert forall|k: Seq<char>| #[trigger]
            entries_map(t).dom().contains(k) implies entries_map(t)[k] == entries_map(s).insert(
                e.hostname@,
                e.record@,
            )[k] by {
            let j = choose|j: int| 0 <= j < t.len() && t[j].hostname@ == k;
            assert(entries_map(t)[t[j].hostname@] == t[j].record@);
            if j != i {
                assert(t[j] == s[j]);
                assert(entries_map(s)[s[j].hostname@] == s[j].record@);
            }
        }
    }
}

/// The texts of a list of strings.
pub open spec fn string_views(v: Seq<String>) -> Seq<Seq<char>> {
    v.map_values(|x: String| x@)
}

/// The records of `m` that have not expired at `now`.
pub open spec fn fresh_records(m: Map<Seq<char>, RecordView>, now: u128) -> Map<
    Seq<char>,
    RecordView,
> {
    Map::new(|k: Seq<char>| m.contains_key(k) && !is_stale(m[k].last_seen, now), |k| m[k])
}

impl Registry {
    #[verifier::type_invariant]
    closed spec fn names_are_distinct(self) -> bool {
        distinct_names(self.entries@)
    }

    /// An empty registry.
    pub fn new() -> (r: Registry)
        ensures
            r@ == Map::<Seq<char>, RecordView>::empty(),
    {
        Registry { entries: Vec::new() }
    }

    /// Records that `hostname` was heard of at `now` with the address `ip`,
    /// replacing what the registry held of it.
    pub fn record_heartbeat(&mut self, hostname: String, ip: IpAddress, now: u128)
        ensures
            final(self)@ == old(self)@.insert(hostname@, RecordView { ip: ip@, last_seen: now }),
    {
        proof {
            use_type_invariant(&*self);
        }
        let mut i: usize = 0;
        while i < self.entries.len()
            invariant
                i <= self.entries.len(),
                self.entries@ == old(self).entries@,
                distinct_names(self.entries@),
                forall|j: int| 0 <= j < i ==> self.entries@[j].hostname@ != hostname@,
            decreases self.entries.len() - i,
        {
            if self.entries[i].hostname == hostname {
                let ghost s = self.entries@;
                let e = Entry { hostname, record: DnsRecord { ip, last_seen: now } };
                proof {
                    lemma_entries_update(s, i as int, e);
                }
                let mut entries: Vec<Entry> = Vec::new();
                std::mem::swap(&mut entries, &mut self.entries);
                entries.set(i, e);
                self.entries = entries;
                return ;
            }
            i = i + 1;
        }
        let ghost s = self.entries@;
        let e = Entry { hostname, record: DnsRecord { ip, last_seen: now } };
        let mut entries: Vec<Entry> = Vec::new();
        std::mem::swap(&mut entries, &mut self.entries);
        entries.push(e);
        proof {
            let t = entries@;
            assert(t.drop_last() =~= s);
            assert(distinct_names(t)) by {
                assert forall|a: int, b: int|
                    0 <= a < t.len() && 0 <= b < t.len() && a != b implies #[trigger] t[a].hostname@
                    != #[trigger] t[b].hostname@ by {
                    if a < s.len() {
                        assert(t[a] == s[a]);
                    } else {
                        assert(t[a] == e);
                    }
                    if b < s.len() {
                        assert(t[b] == s[b]);
                    } else {
                        assert(t[b] == e);
                    }
                }
            }
        }
        self.entries = entries;
    }

    /// The record of `hostname`, if the registry holds one.
    pub fn get(&self, hostname: &str) -> (r: Option<DnsRecord>)
        ensures
            match r {
                Some(rec) => self@.contains_key(hostname@) && self@[hostname@] == rec@,
                None => !self@.contains_key(hostname@),
            },
    {
        proof {
            use_type_invariant(self);
            lemma_entries_map(self.entries@);
        }
        let wanted = chars_of(hostname);
        let mut i: usize = 0;
        while i < self.entries.len()
            invariant
                i <= self.entries.len(),
                wanted@ == hostname@,
                distinct_names(self.entries@),
                forall|j: int| 0 <= j < i ==> self.entries@[j].hostname@ != hostname@,
            decreases self.entries.len() - i,
        {
            let name = chars_of(self.entries[i].hostname.as_str());
            if same_chars(&name, &wanted) {
                proof {
                    lemma_entries_map(self.entries@);
                    assert(self.entries@[i as int].hostname@ == hostname@);
                }
                return Some(self.entries[i].record);
            }
            i = i + 1;
        }
        proof {
            lemma_entries_map(self.entries@);
        }
        None
    }

    /// Drops every record that has expired at `now`, and gives the names
    /// dropped.
    pub fn remove_stale(&mut self, now: u128) -> (removed: Vec<String>)
        ensures
            final(self)@ == fresh_records(old(self)@, now),
            forall|k: Seq<char>|
                string_views(removed@).contains(k) <==> old(self)@.contains_key(k)
                    && is_stale(old(self)@[k].last_seen, now),
    {
        proof {
            use_type_invariant(&*self);
        }
        let mut entries: Vec<Entry> = Vec::new();
        std::mem::swap(&mut entries, &mut self.entries);
        let ghost s = entries@;
        proof {
            lemma_entries_map(s);
        }
        let mut kept: Vec<Entry> = Vec::new();
        let mut removed: Vec<String> = Vec::new();
        for e in it: entries
            invariant
                it.seq() == s,
                distinct_names(s),
                distinct_names(kept@),
                entries_map(kept@) == fresh_records(entries_map(s.take(it.index() as int)), now),
                forall|k: Seq<char>|
                    #[trigger] string_views(removed@).contains(k) <==> entries_map(
                        s.take(it.index() as int),
                    ).contains_key(k) && is_stale(
                        entries_map(s.take(it.index() as int))[k].last_seen,
                        now,
                    ),
                forall|j: int|
                    0 <= j < kept@.len() ==> exists|m: int|
                        0 <= m < it.index() && #[trigger] kept@[j].hostname@ == s[m].hostname@,
        {
            let ghost i = it.index();
            let ghost prev = s.take(i as int);
            let ghost cur = s.take(i + 1);
            proof {
                assert(cur.drop_last() =~= prev);
                assert(cur.last() == e);
                assert(distinct_names(prev)) by {
                    assert forall|a: int, b: int|
                        0 <= a < prev.len() && 0 <= b < prev.len() && a != b implies #[trigger] prev[a].hostname@
                        != #[trigger] prev[b].hostname@ by {
                        assert(prev[a] == s[a] && prev[b] == s[b]);
                    }
                }
                lemma_entries_map(prev);
                assert(!entries_map(prev).dom().contains(e.hostname@)) by {
                    if entries_map(prev).dom().contains(e.hostname@) {
                        let m = choose|m: int| 0 <= m < prev.len() && prev[m].hostname@ == e.hostname@;
                        assert(s[m].hostname@ == s[i as int].hostname@);
                    }
                }
            }
            let ghost old_removed = string_views(removed@);
            let ghost old_kept = kept@;
            if now >= e.record.last_seen && now - e.record.last_seen > STALE_AFTER_NANOS {
                removed.push(e.hostname);
                proof {
                    assert(string_views(removed@) =~= old_removed.push(s[i as int].hostname@));
                    assert(fresh_records(entries_map(cur), now) =~= fresh_records(entries_map(prev), now));
                    assert forall|k: Seq<char>|
                        #[trigger] string_views(removed@).contains(k) <==> entries_map(
                            cur,
                        ).contains_key(k) && is_stale(entries_map(cur)[k].last_seen, now) by {
                        if k == s[i as int].hostname@ {
                            assert(string_views(removed@)[old_removed.len() as int] == k);
                        } else if old_removed.contains(k) {
                            let q = choose|q: int| 0 <= q < old_removed.len() && #[trigger] old_removed[q] == k;
                            assert(string_views(removed@)[q] == k);
                        } else if string_views(removed@).contains(k) {
                            let q = choose|q: int| 0 <= q < removed@.len() && #[trigger] string_views(removed@)[q] == k;
                            if q < old_removed.len() {
                                assert(old_removed[q] == k);
                            }
                        }
                    }
                }
            } else {
                kept.push(e);
                proof {
                    let t = kept@;
                    assert(t.drop_last() =~= old_kept);
                    assert(distinct_names(t)) by {
                        assert forall|a: int, b: int|
                            0 <= a < t.len() && 0 <= b < t.len() && a != b implies #[trigger] t[a].hostname@
                            != #[trigger] t[b].hostname@ by {
                            if a < old_kept.len() && b < old_kept.len() {
                                assert(t[a] == old_kept[a] && t[b] == old_kept[b]);
                            } else if a < old_kept.len() {
                                assert(t[a] == old_kept[a]);
                                let m = choose|m: int| 0 <= m < i && #[trigger] old_kept[a].hostname@ == s[m].hostname@;
                                assert(s[m].hostname@ != s[i as int].hostname@);
                            } else if b < old_kept.len() {
                                assert(t[b] == old_kept[b]);
                                let m = choose|m: int| 0 <= m < i && #[trigger] old_kept[b].hostname@ == s[m].hostname@;
                                assert(s[m].hostname@ != s[i as int].hostname@);
                            }
                        }
                    }
                    assert(fresh_records(entries_map(cur), now) =~= fresh_records(entries_map(prev), now).insert(
                        e.hostname@,
                        e.record@,
                    ));
                    assert forall|j: int|
                        0 <= j < t.len() implies exists|m: int|
                            0 <= m < i + 1 && #[trigger] t[j].hostname@ == s[m].hostname@ by {
                        if j < old_kept.len() {
                            assert(t[j] == old_kept[j]);
                            let m = choose|m: int| 0 <= m < i && #[trigger] old_kept[j].hostname@ == s[m].hostname@;
                            assert(t[j].hostname@ == s[m].hostname@);
                        } else {
                            assert(t[j].hostname@ == s[i as int].hostname@);
                        }
                    }
                    assert(string_views(removed@) =~= old_removed);
                }
            }
        }
        proof {
            assert(s.take(s.len() as int) =~= s);
        }
        self.entries = kept;
        removed
    }

    /// Takes in a message from a client and gives the reply: a heartbeat
    /// records its host at `now`; a discovery request changes nothing.
    pub fn handle_message(&mut self, msg: Message, now: u128) -> (reply: Option<Message>)
        ensures
            reply == reply_to(msg),
            match msg {
                Message::Heartbeat { hostname, ip } => final(self)@ == old(self)@.insert(
                    hostname@,
                    RecordView { ip: ip@, last_seen: now },
                ),
                _ => final(self)@ == old(self)@,
            },
    {
        match msg {
            Message::DiscoveryRequest => Some(Message::DiscoveryResponse),
            Message::Heartbeat { hostname, ip } => {
                self.record_heartbeat(hostname, ip, now);
                Some(Message::HeartbeatAck)
            },
            _ => None,
        }
    }
}

/// A host whose heartbeat arrived at `t` keeps its record through every
/// cleanup up to 90 seconds later, and loses it at any cleanup after that.
pub proof fn lemma_heartbeat_lifetime(
    m: Map<Seq<char>, RecordView>,
    hostname: Seq<char>,
    ip: AddressValue,
    t: u128,
    now: u128,
)
    ensures
        now <= t + 90_000_000_000 ==> fresh_records(
            m.insert(hostname, RecordView { ip, last_seen: t }),
            now,
        ).contains_key(hostname) && fresh_records(
            m.insert(hostname, RecordView { ip, last_seen: t }),
            now,
        )[hostname] == (RecordView { ip, last_seen: t }),
        now > t + 90_000_000_000 ==> !fresh_records(
            m.insert(hostname, RecordView { ip, last_seen: t }),
            now,
        ).contains_key(hostname),
{
}

/// A cleanup keeps only records that have not expired, and keeps them unchanged.
pub proof fn lemma_cleanup_keeps_fresh(m: Map<Seq<char>, RecordView>, now: u128)
    ensures
        forall|k: Seq<char>| #[trigger]
            fresh_records(m, now).contains_key(k) ==> m.contains_key(k) && fresh_records(m, now)[k]
                == m[k] && !is_stale(m[k].last_seen, now),
        forall|k: Seq<char>|
            #[trigger] m.contains_key(k) && !is_stale(m[k].last_seen, now) ==> fresh_records(
                m,
                now,
            ).contains_key(k),
{
}

/// After a heartbeat, the registry holds the host's new record, and every
/// other host's record as it was.
pub proof fn lemma_heartbeat_then_get(
    m: Map<Seq<char>, RecordView>,
    hostname: Seq<char>,
    ip: AddressValue,
    now: u128,
    other: Seq<char>,
)
    ensures
        m.insert(hostname, RecordView { ip, last_seen: now }).contains_key(hostname),
        m.insert(hostname, RecordView { ip, last_seen: now })[hostname] == (RecordView {
            ip,
            last_seen: now,
        }),
        other != hostname ==> (m.insert(hostname, RecordView { ip, last_seen: now }).contains_key(
            other,
        ) == m.contains_key(other)),
        other != hostname && m.contains_key(other) ==> m.insert(
            hostname,
            RecordView { ip, last_seen: now },
        )[other] == m[other],
{
}

/// A record refreshed within one heartbeat interval has not expired: a
/// client that sends its heartbeats on time keeps its record.
pub proof fn lemma_heartbeats_keep_record(last_seen: u128, now: u128)
    requires
        now <= last_seen + HEARTBEAT_INTERVAL_SECS * 1_000_000_000,
    ensures
        !is_stale(last_seen, now),
{
}

/// A record that is not refreshed again after `last_seen` (no earlier than
/// the server's start) is dropped by a cleanup held on schedule, every 60
/// seconds from the start: the first cleanup more than 90 seconds after the
/// refresh, which comes at most 150 seconds after it.
pub proof fn lemma_stale_record_removed_in_time(
    m: Map<Seq<char>, RecordView>,
    hostname: Seq<char>,
    start: u128,
)
    requires
        m.contains_key(hostname),
        start <= m[hostname].last_seen,
        m[hostname].last_seen + STALE_AFTER_NANOS + CLEANUP_INTERVAL_SECS * 1_000_000_000
            <= u128::MAX,
    ensures
        exists|k: nat|
            #![trigger cleanup_time(start as int, k)]
            m[hostname].last_seen + STALE_AFTER_NANOS < cleanup_time(start as int, k)
                <= m[hostname].last_seen + STALE_AFTER_NANOS + CLEANUP_INTERVAL_SECS
                * 1_000_000_000 && !fresh_records(
                m,
                cleanup_time(start as int, k) as u128,
            ).contains_key(hostname),
{
    let t = m[hostname].last_seen as int;
    let p: int = CLEANUP_INTERVAL_SECS * 1_000_000_000;
    let d: int = t + STALE_AFTER_NANOS - start;
    let q: int = d / p;
    assert(q * p <= d && d < q * p + p && q >= 0) by (nonlinear_arith)
        requires
            p == 60_000_000_000,
            d >= 0,
            q == d / p,
    ;
    let k: nat = (q + 1) as nat;
    assert(cleanup_time(start as int, k) == start + q * p + p) by (nonlinear_arith)
        requires
            k == q + 1,
            p == CLEANUP_INTERVAL_SECS * 1_000_000_000,
            cleanup_time(start as int, k) == start + k * p,
    ;
    assert(!fresh_records(m, cleanup_time(start as int, k) as u128).contains_key(hostname));
}

/// A client whose heartbeats arrive on schedule, every 30 seconds from
/// `start`, never lets its record lapse: at any later time, the last
/// heartbeat before it is less than one interval old, so not expired.
pub proof fn lemma_scheduled_heartbeats_never_lapse(start: u128, now: u128)
    requires
        start <= now,
    ensures
        exists|k: nat|
            #![trigger heartbeat_time(start as int, k)]
            heartbeat_time(start as int, k) <= now < heartbeat_time(start as int, k + 1)
                && !is_stale(heartbeat_time(start as int, k) as u128, now),
{
    let p: int = HEARTBEAT_INTERVAL_SECS * 1_000_000_000;
    let d: int = now - start;
    let q: int = d / p;
    assert(q * p <= d && d < q * p + p && q >= 0) by (nonlinear_arith)
        requires
            p == 30_000_000_000,
            d >= 0,
            q == d / p,
    ;
    let k: nat = q as nat;
    assert(heartbeat_time(start as int, k) == start + q * p);
    assert(heartbeat_time(start as int, k + 1) == start + q * p + p) by (nonlinear_arith)
        requires
            k == q,
            p == HEARTBEAT_INTERVAL_SECS * 1_000_000_000,
            heartbeat_time(start as int, (k + 1) as nat) == start + (k + 1) * p,
    ;
    assert(!is_stale(heartbeat_time(start as int, k) as u128, now));
}

} // verus!
