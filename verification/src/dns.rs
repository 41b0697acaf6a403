//! The DNS service: which name a query asks for, whether the registry
//! answers it or an upstream resolver must, and the response that goes back.
//! DNS messages are read and written with `hickory-proto`.

use hickory_proto::op::{Message as DnsMessage, OpCode, Query};
use hickory_proto::rr::{rdata::A, Name, RData, Record};
use vstd::prelude::*;

use crate::ip::{AddressValue, IpAddress, SocketAddress};
use crate::protocol::DNS_PORT;
use crate::registry::Registry;
use crate::text::{chars_of, ends_with, ends_with_chars, copy_range, string_of, strip_trailing, strip_trailing_chars};

verus! {

/// The record type of an IPv4 address query (`A`).
pub const RECORD_TYPE_A: u16 = 1;

/// Time to live of an answer from the registry, in seconds.
pub const LOCAL_TTL: u32 = 30;

/// Time to live of an answer from the upstream resolver, in seconds.
pub const FORWARDED_TTL: u32 = 300;

/// Response code: no error.
pub const NO_ERROR: u16 = 0;

/// Response code: the request was malformed.
pub const FORM_ERR: u16 = 1;

/// Response code: the name does not exist.
pub const NX_DOMAIN: u16 = 3;

/// The operation code of a standard query.
pub const OP_QUERY: u8 = 0;

/// The question of a DNS request.
pub struct DnsQuestion {
    /// The labels of the name, as the request carries them.
    pub labels: Vec<Vec<u8>>,
    /// The name as `Name::to_utf8` writes it.
    pub name_text: String,
    pub record_type: u16,
    pub class: u16,
}

/// The abstract value of a question.
pub struct QuestionView {
    pub labels: Seq<Seq<u8>>,
    pub name_text: Seq<char>,
    pub record_type: u16,
    pub class: u16,
}

impl View for DnsQuestion {
    type V = QuestionView;

    open spec fn view(&self) -> QuestionView {
        QuestionView {
            labels: label_views(self.labels@),
            name_text: self.name_text@,
            record_type: self.record_type,
            class: self.class,
        }
    }
}

/// The bytes of each label.
pub open spec fn label_views(v: Seq<Vec<u8>>) -> Seq<Seq<u8>> {
    v.map_values(|l: Vec<u8>| l@)
}

/// What the server reads of a DNS request: its id, whether recursion is
/// desired, and its first question.
pub struct DnsRequest {
    pub id: u16,
    pub recursion_desired: bool,
    pub question: Option<DnsQuestion>,
}

/// The abstract value of a request.
pub struct RequestView {
    pub id: u16,
    pub recursion_desired: bool,
    pub question: Option<QuestionView>,
}

impl View for DnsRequest {
    type V = RequestView;

    open spec fn view(&self) -> RequestView {
        RequestView {
            id: self.id,
            recursion_desired: self.recursion_desired,
            question: match self.question {
                Some(q) => Some(q@),
                None => None,
            },
        }
    }
}

/// An `A` record of an answer: its time to live and address.
#[derive(Clone, Copy, Debug)]
pub struct AnswerRecord {
    pub ttl: u32,
    pub addr: [u8; 4],
}

impl View for AnswerRecord {
    type V = (u32, Seq<u8>);

    open spec fn view(&self) -> (u32, Seq<u8>) {
        (self.ttl, self.addr@)
    }
}

/// A DNS response, its answers named by its question.
pub struct DnsResponse {
    pub id: u16,
    pub recursion_desired: bool,
    pub recursion_available: bool,
    pub op_code: u8,
    pub response_code: u16,
    pub question: Option<DnsQuestion>,
    pub answers: Vec<AnswerRecord>,
}

/// The abstract value of a response.
pub struct ResponseView {
    pub id: u16,
    pub recursion_desired: bool,
    pub recursion_available: bool,
    pub op_code: u8,
    pub response_code: u16,
    pub question: Option<QuestionView>,
    pub answers: Seq<(u32, Seq<u8>)>,
}

/// The values of a list of answer records.
pub open spec fn answer_views(v: Seq<AnswerRecord>) -> Seq<(u32, Seq<u8>)> {
    v.map_values(|a: AnswerRecord| a@)
}

impl View for DnsResponse {
    type V = ResponseView;

    open spec fn view(&self) -> ResponseView {
        ResponseView {
            id: self.id,
            recursion_desired: self.recursion_desired,
            recursion_available: self.recursion_available,
            op_code: self.op_code,
            response_code: self.response_code,
            question: match self.question {
                Some(q) => Some(q@),
                None => None,
            },
            answers: answer_views(self.answers@),
        }
    }
}

// ---------------------------------------------------------------- wire format

/// What `hickory-proto` reads from the bytes of a DNS message: its id, its
/// recursion-desired flag and its first question, or nothing when the bytes
/// are no DNS message.
pub uninterp spec fn dns_request_of(bytes: Seq<u8>) -> Option<RequestView>;

/// The bytes `hickory-proto` writes for a response, or nothing when it
/// cannot write it.
pub uninterp spec fn dns_response_bytes(r: ResponseView) -> Option<Seq<u8>>;

/// `Message::from_vec` of `hickory-proto`, and the getters `id`,
/// `recursion_desired`, `queries`, the name's labels (`Name::iter`),
/// `Name::to_utf8` and the
/// `u16` values of the query's type and class: what it reads of a request.
/// Stated: the result is a function of the bytes alone (`dns_request_of`);
/// what that function is, the DNS wire format, is not stated.
#[verifier::external_body]
fn read_dns_request(bytes: &[u8]) -> (r: Option<DnsRequest>)
    ensures
        match r {
            Some(req) => dns_request_of(bytes@) == Some(req@),
            None => dns_request_of(bytes@) is None,
        },
{
    let m = DnsMessage::from_vec(bytes).ok()?;
    let question = match m.queries().first() {
        Some(q) => Some(DnsQuestion {
            labels: q.name().iter().map(<[u8]>::to_vec).collect(),
            name_text: q.name().to_utf8(),
            record_type: u16::from(q.query_type()),
            class: u16::from(q.query_class()),
        }),
        None => None,
    };
    Some(DnsRequest { id: m.id(), recursion_desired: m.recursion_desired(), question })
}

/// `Message::to_vec` of `hickory-proto` on the response message that holds
/// these fields (built by `Message::error_msg` and the setters): the question
/// (name rebuilt from its labels by `Name::from_labels`) and one `A` record
/// per answer, named by the question. A response without a question carries
/// no answers (the library builds none such: see `response_for`). Stated: the result is a
/// function of the response's value alone (`dns_response_bytes`); the wire
/// format is not stated.
#[verifier::external_body]
fn write_dns_response(r: &DnsResponse) -> (out: Option<Vec<u8>>)
    ensures
        match out {
            Some(b) => dns_response_bytes(r@) == Some(b@),
            None => dns_response_bytes(r@) is None,
        },
{
    let mut m = DnsMessage::error_msg(r.id, OpCode::from_u8(r.op_code).ok()?, r.response_code.into());
    m.set_recursion_desired(r.recursion_desired).set_recursion_available(r.recursion_available);
    if let Some(q) = &r.question {
        let name = Name::from_labels(q.labels.clone()).ok()?;
        m.add_query(Query::query(name.clone(), q.record_type.into()).set_query_class(q.class.into()).clone());
        for a in &r.answers {
            let [a0, a1, a2, a3] = a.addr;
            m.add_answer(Record::from_rdata(name.clone(), a.ttl, RData::A(A::new(a0, a1, a2, a3))));
        }
    }
    m.to_vec().ok()
}

/// Reads a DNS request from the bytes of a datagram.
pub fn decode_request(bytes: &[u8]) -> (r: Option<DnsRequest>)
    ensures
        match r {
            Some(req) => dns_request_of(bytes@) == Some(req@),
            None => dns_request_of(bytes@) is None,
        },
{
    read_dns_request(bytes)
}

/// Writes a DNS response as the bytes of a datagram.
pub fn encode_response(r: &DnsResponse) -> (out: Option<Vec<u8>>)
    ensures
        match out {
            Some(b) => dns_response_bytes(r@) == Some(b@),
            None => dns_response_bytes(r@) is None,
        },
{
    write_dns_response(r)
}

// ---------------------------------------------------------------- upstream

/// The upstream resolvers that names the registry does not hold are asked,
/// in order: AdGuard DNS (94.140.14.15, 94.140.14.16), then Cloudflare
/// (1.1.1.1, 1.0.0.1), each on the DNS port.
pub open spec fn upstream_addresses() -> Seq<Seq<u8>> {
    seq![seq![94u8, 140, 14, 15], seq![94u8, 140, 14, 16], seq![1u8, 1, 1, 1], seq![1u8, 0, 0, 1]]
}

/// The upstream resolvers (see `upstream_addresses`), as socket addresses on port 53.
pub fn upstream_resolvers() -> (v: Vec<SocketAddress>)
    ensures
        v@.len() == 4,
        forall|i: int|
            0 <= i < 4 ==> (#[trigger] v@[i]).ip@ == AddressValue::V4(upstream_addresses()[i])
                && v@[i].port == DNS_PORT && v@[i].scope_id == 0,
{
    let mut v: Vec<SocketAddress> = Vec::new();
    let a = [94u8, 140, 14, 15];
    let b = [94u8, 140, 14, 16];
    let c = [1u8, 1, 1, 1];
    let d = [1u8, 0, 0, 1];
    assert(a@ =~= upstream_addresses()[0]);
    assert(b@ =~= upstream_addresses()[1]);
    assert(c@ =~= upstream_addresses()[2]);
    assert(d@ =~= upstream_addresses()[3]);
    v.push(SocketAddress { ip: IpAddress::V4(a), port: DNS_PORT, scope_id: 0 });
    v.push(SocketAddress { ip: IpAddress::V4(b), port: DNS_PORT, scope_id: 0 });
    v.push(SocketAddress { ip: IpAddress::V4(c), port: DNS_PORT, scope_id: 0 });
    v.push(SocketAddress { ip: IpAddress::V4(d), port: DNS_PORT, scope_id: 0 });
    v
}

// ---------------------------------------------------------------- answering

/// The host name that a query name asks for: the name without the
/// `.domain.` ending when it has it, else without its trailing dots.
pub open spec fn query_hostname(name: Seq<char>, domain: Seq<char>) -> Seq<char> {
    let suffix = seq!['.'] + domain + seq!['.'];
    if ends_with(name, suffix) {
        name.take(name.len() - suffix.len())
    } else {
        strip_trailing(name, '.')
    }
}

/// The host name that a query name asks for (see `query_hostname`).
pub fn hostname_of_query(name: &str, domain: &str) -> (h: String)
    ensures
        h@ == query_hostname(name@, domain@),
{
    let n = chars_of(name);
    let mut suffix: Vec<char> = Vec::new();
    suffix.push('.');
    let mut d = chars_of(domain);
    suffix.append(&mut d);
    suffix.push('.');
    assert(suffix@ =~= seq!['.'] + domain@ + seq!['.']);
    if ends_with_chars(&n, &suffix) {
        let h = copy_range(&n, 0, n.len() - suffix.len());
        assert(h@ =~= n@.take(n@.len() - suffix@.len()));
        string_of(&h)
    } else {
        string_of(&strip_trailing_chars(&n, '.'))
    }
}

/// How a question is answered by the registry.
pub enum Resolution {
    /// The question asks for no IPv4 address; the name is reported missing.
    NotAddressQuery,
    /// The registry holds an IPv4 address for the name.
    Local(AnswerRecord),
    /// The upstream resolver must answer.
    Forward,
}

/// How a question is answered by a registry with records `reg`: only `A`
/// questions are answered; a registered host with an IPv4 address is
/// answered from the registry with a time to live of 30 seconds, any other
/// name is forwarded.
pub open spec fn resolution(
    reg: Map<Seq<char>, crate::registry::RecordView>,
    q: QuestionView,
    domain: Seq<char>,
) -> Option<Option<(u32, Seq<u8>)>> {
    if q.record_type != RECORD_TYPE_A {
        None
    } else {
        let h = query_hostname(q.name_text, domain);
        if reg.contains_key(h) && reg[h].ip is V4 {
            Some(Some((LOCAL_TTL, reg[h].ip->V4_0)))
        } else {
            Some(None)
        }
    }
}

/// The IPv4 addresses among `ips`, as answers with a time to live of 300 seconds.
pub open spec fn forwarded_answers(ips: Seq<AddressValue>) -> Seq<(u32, Seq<u8>)>
    decreases ips.len(),
{
    if ips.len() == 0 {
        seq![]
    } else {
        let rest = forwarded_answers(ips.drop_last());
        match ips.last() {
            AddressValue::V4(o) => rest.push((FORWARDED_TTL, o)),
            AddressValue::V6(_) => rest,
        }
    }
}

/// The addresses of a list of IP addresses.
pub open spec fn address_views(v: Seq<IpAddress>) -> Seq<AddressValue> {
    v.map_values(|a: IpAddress| a@)
}

/// The response to `req` when the answers are `answers` (`None`: the name
/// is missing): same id and recursion-desired flag, recursion not
/// available, the question echoed; with no question, a format error.
pub open spec fn response_for(
    req: RequestView,
    answers: Option<Seq<(u32, Seq<u8>)>>,
) -> ResponseView {
    let code = match req.question {
        None => FORM_ERR,
        Some(_) => match answers {
            Some(_) => NO_ERROR,
            None => NX_DOMAIN,
        },
    };
    let records = match req.question {
        None => seq![],
        Some(_) => match answers {
            Some(a) => a,
            None => seq![],
        },
    };
    ResponseView {
        id: req.id,
        recursion_desired: req.recursion_desired,
        recursion_available: false,
        op_code: OP_QUERY,
        response_code: code,
        question: req.question,
        answers: records,
    }
}

/// A copy of a list of labels.
fn copy_labels(v: &Vec<Vec<u8>>) -> (c: Vec<Vec<u8>>)
    ensures
        label_views(c@) == label_views(v@),
{
    let mut c: Vec<Vec<u8>> = Vec::new();
    let mut i: usize = 0;
    while i < v.len()
        invariant
            i <= v.len(),
            label_views(c@) == label_views(v@).take(i as int),
        decreases v.len() - i,
    {
        let mut l: Vec<u8> = Vec::new();
        let mut k: usize = 0;
        while k < v[i].len()
            invariant
                i < v.len(),
                k <= v@[i as int].len(),
                l@ == v@[i as int]@.take(k as int),
            decreases v@[i as int].len() - k,
        {
            l.push(v[i][k]);
            k = k + 1;
            assert(l@ =~= v@[i as int]@.take(k as int));
        }
        assert(v@[i as int]@.take(v@[i as int].len() as int) =~= v@[i as int]@);
        let ghost before = label_views(c@);
        c.push(l);
        assert(label_views(c@) =~= before.push(v@[i as int]@));
        i = i + 1;
        assert(label_views(c@) =~= label_views(v@).take(i as int));
    }
    assert(label_views(v@).take(v.len() as int) =~= label_views(v@));
    c
}

/// A copy of a question.
fn copy_question(q: &DnsQuestion) -> (c: DnsQuestion)
    ensures
        c@ == q@,
{
    DnsQuestion {
        labels: copy_labels(&q.labels),
        name_text: q.name_text.clone(),
        record_type: q.record_type,
        class: q.class,
    }
}

/// The response to `req` with these answers (see `response_for`).
pub fn build_response(req: &DnsRequest, answers: Option<Vec<AnswerRecord>>) -> (r: DnsResponse)
    ensures
        r@ == response_for(
            req@,
            match answers {
                Some(a) => Some(answer_views(a@)),
                None => None,
            },
        ),
{
    let question = match &req.question {
        Some(q) => Some(copy_question(q)),
        None => None,
    };
    let (code, records) = match &req.question {
        None => (FORM_ERR, Vec::new()),
        Some(_) => match answers {
            Some(a) => (NO_ERROR, a),
            None => (NX_DOMAIN, Vec::new()),
        },
    };
    let r = DnsResponse {
        id: req.id,
        recursion_desired: req.recursion_desired,
        recursion_available: false,
        op_code: OP_QUERY,
        response_code: code,
        question,
        answers: records,
    };
    assert(answer_views(Seq::<AnswerRecord>::empty()) =~= Seq::<(u32, Seq<u8>)>::empty());
    r
}

/// What the server does next with a request.
pub enum DnsStep {
    /// Send this response.
    Reply(DnsResponse),
    /// Ask the upstream resolver for the IP addresses of this name, then
    /// call `answer_after_lookup`.
    Lookup(String),
}

/// Answers `req` from the registry when it can (see `resolution`): a
/// request without question gets a format error, a question for other than
/// an IPv4 address a missing name, a registered host its address; any other
/// name must be looked up upstream.
pub fn answer_from_registry(registry: &Registry, req: &DnsRequest, domain: &str) -> (step: DnsStep)
    ensures
        match req@.question {
            None => step matches DnsStep::Reply(r) && r@ == response_for(req@, None),
            Some(q) => match resolution(registry@, q, domain@) {
                None => step matches DnsStep::Reply(r) && r@ == response_for(req@, None),
                Some(Some(a)) => step matches DnsStep::Reply(r) && r@ == response_for(
                    req@,
                    Some(seq![a]),
                ),
                Some(None) => step matches DnsStep::Lookup(name) && name@ == q.name_text,
            },
        },
{
    match &req.question {
        None => DnsStep::Reply(build_response(req, None)),
        Some(q) => {
            if q.record_type != RECORD_TYPE_A {
                return DnsStep::Reply(build_response(req, None));
            }
            let h = hostname_of_query(q.name_text.as_str(), domain);
            match registry.get(h.as_str()) {
                Some(rec) => match rec.ip {
                    IpAddress::V4(o) => {
                        let mut a: Vec<AnswerRecord> = Vec::new();
                        a.push(AnswerRecord { ttl: LOCAL_TTL, addr: o });
                        assert(answer_views(a@) =~= seq![(LOCAL_TTL, o@)]);
                        DnsStep::Reply(build_response(req, Some(a)))
                    },
                    IpAddress::V6(_) => DnsStep::Lookup(q.name_text.clone()),
                },
                None => DnsStep::Lookup(q.name_text.clone()),
            }
        },
    }
}

/// The IPv4 addresses among `ips`, as answers with a time to live of 300 seconds.
pub fn answers_from_lookup(ips: &Vec<IpAddress>) -> (out: Vec<AnswerRecord>)
    ensures
        answer_views(out@) == forwarded_answers(address_views(ips@)),
{
    let mut out: Vec<AnswerRecord> = Vec::new();
    let mut i: usize = 0;
    while i < ips.len()
        invariant
            i <= ips.len(),
            answer_views(out@) == forwarded_answers(address_views(ips@).take(i as int)),
        decreases ips.len() - i,
    {
        let ghost before = answer_views(out@);
        proof {
            let cur = address_views(ips@).take(i + 1);
            assert(cur.drop_last() =~= address_views(ips@).take(i as int));
            assert(cur.last() == ips@[i as int]@);
        }
        match ips[i] {
            IpAddress::V4(o) => {
                out.push(AnswerRecord { ttl: FORWARDED_TTL, addr: o });
                assert(answer_views(out@) =~= before.push((FORWARDED_TTL, o@)));
            },
            IpAddress::V6(_) => {},
        }
        i = i + 1;
    }
    assert(address_views(ips@).take(ips.len() as int) =~= address_views(ips@));
    out
}

/// The response once the upstream resolver gave `ips` (an empty list when
/// the lookup failed): the IPv4 addresses among them, or a missing name
/// when there is none.
pub fn answer_after_lookup(req: &DnsRequest, ips: &Vec<IpAddress>) -> (r: DnsResponse)
    ensures
        r@ == response_for(
            req@,
            if forwarded_answers(address_views(ips@)).len() > 0 {
                Some(forwarded_answers(address_views(ips@)))
            } else {
                None
            },
        ),
{
    let answers = answers_from_lookup(ips);
    if answers.len() > 0 {
        build_response(req, Some(answers))
    } else {
        build_response(req, None)
    }
}

/// Once a host has sent a heartbeat with an IPv4 address, an `A` question
/// for `host.domain.` is answered from the registry with that address.
pub proof fn lemma_registered_host_resolves(
    reg: Map<Seq<char>, crate::registry::RecordView>,
    hostname: Seq<char>,
    octets: Seq<u8>,
    now: u128,
    domain: Seq<char>,
    class: u16,
    labels: Seq<Seq<u8>>,
)
    ensures
        resolution(
            reg.insert(
                hostname,
                crate::registry::RecordView { ip: AddressValue::V4(octets), last_seen: now },
            ),
            QuestionView {
                labels,
                name_text: hostname + seq!['.'] + domain + seq!['.'],
                record_type: RECORD_TYPE_A,
                class,
            },
            domain,
        ) == Some(Some((LOCAL_TTL, octets))),
{
    let full = hostname + seq!['.'] + domain + seq!['.'];
    let suffix = seq!['.'] + domain + seq!['.'];
    assert(full.skip(full.len() - suffix.len()) =~= suffix);
    assert(full.take(full.len() - suffix.len()) =~= hostname);
}

/// A request with a question is answered with its id and question and
/// either its answers (no error) or a missing name; one without question
/// gets a format error and no answers.
pub proof fn lemma_response_shape(req: RequestView, answers: Option<Seq<(u32, Seq<u8>)>>)
    ensures
        response_for(req, answers).id == req.id,
        response_for(req, answers).question == req.question,
        response_for(req, answers).recursion_available == false,
        req.question is None ==> response_for(req, answers).response_code == FORM_ERR
            && response_for(req, answers).answers.len() == 0,
        req.question is Some && answers is Some ==> response_for(req, answers).response_code
            == NO_ERROR && response_for(req, answers).answers == answers.unwrap(),
        req.question is Some && answers is None ==> response_for(req, answers).response_code
            == NX_DOMAIN && response_for(req, answers).answers.len() == 0,
{
}

/// The forwarded answers hold one record per IPv4 address of the lookup
/// result, in the order of the result, each with a time to live of 300
/// seconds; IPv6 addresses give none.
pub proof fn lemma_forwarded_answers_every_v4(ips: Seq<AddressValue>)
    ensures
        forwarded_answers(ips) == ips.filter(|a: AddressValue| a is V4).map_values(
            |a: AddressValue| (300u32, a->V4_0),
        ),
    decreases ips.len(),
{
    reveal_with_fuel(Seq::<_>::filter, 1);
    if ips.len() == 0 {
        assert(ips.filter(|a: AddressValue| a is V4).map_values(|a: AddressValue| (300u32, a->V4_0))
            =~= Seq::<(u32, Seq<u8>)>::empty());
    } else {
        lemma_forwarded_answers_every_v4(ips.drop_last());
        let pre = ips.drop_last().filter(|a: AddressValue| a is V4);
        match ips.last() {
            AddressValue::V4(o) => {
                assert(ips.filter(|a: AddressValue| a is V4) == pre.push(ips.last()));
                assert(pre.push(ips.last()).map_values(|a: AddressValue| (300u32, a->V4_0))
                    =~= pre.map_values(|a: AddressValue| (300u32, a->V4_0)).push((300u32, o)));
            },
            AddressValue::V6(_) => {
                assert(ips.filter(|a: AddressValue| a is V4) == pre);
            },
        }
    }
}

/// The number of forwarded answers is the number of IPv4 addresses in the
/// lookup result, and the `k`-th answer is the `k`-th IPv4 address, with a
/// time to live of 300 seconds.
pub proof fn lemma_forwarded_answer_at(ips: Seq<AddressValue>, k: int)
    requires
        0 <= k < ips.filter(|a: AddressValue| a is V4).len(),
    ensures
        forwarded_answers(ips).len() == ips.filter(|a: AddressValue| a is V4).len(),
        forwarded_answers(ips)[k] == (300u32, ips.filter(|a: AddressValue| a is V4)[k]->V4_0),
{
    lemma_forwarded_answers_every_v4(ips);
}

/// An `A` question is answered from the registry whenever the registry
/// holds the host name that the query names (the name without its
/// `.domain.` ending, or else without its trailing dots) with an IPv4
/// address: the answer is that address with a time to live of 30 seconds,
/// whether or not the name ends in `.domain.`.
pub proof fn lemma_registered_name_answered(
    reg: Map<Seq<char>, crate::registry::RecordView>,
    q: QuestionView,
    domain: Seq<char>,
    octets: Seq<u8>,
)
    requires
        q.record_type == 1,
        reg.contains_key(query_hostname(q.name_text, domain)),
        reg[query_hostname(q.name_text, domain)].ip == AddressValue::V4(octets),
    ensures
        resolution(reg, q, domain) == Some(Some((30u32, octets))),
{
}

/// `h.` without the `.domain.` ending names the host `h`, when `h` does not
/// end in a dot.
pub proof fn lemma_bare_name_hostname(h: Seq<char>, domain: Seq<char>)
    requires
        h.len() > 0 ==> h.last() != '.',
        !ends_with(h + seq!['.'], seq!['.'] + domain + seq!['.']),
    ensures
        query_hostname(h + seq!['.'], domain) == h,
{
    let n = h + seq!['.'];
    assert(n.drop_last() =~= h);
    assert(n.len() > 0 && n.last() == '.');
    assert(strip_trailing(h, '.') == h);
    assert(strip_trailing(n, '.') == strip_trailing(h, '.'));
}

/// Once a host has sent a heartbeat with an IPv4 address, an `A` question
/// for the bare name `host.` (no `.domain.` ending) is answered from the
/// registry with that address and a time to live of 30 seconds.
pub proof fn lemma_registered_bare_name_resolves(
    reg: Map<Seq<char>, crate::registry::RecordView>,
    hostname: Seq<char>,
    octets: Seq<u8>,
    now: u128,
    domain: Seq<char>,
    class: u16,
    labels: Seq<Seq<u8>>,
)
    requires
        hostname.len() > 0 ==> hostname.last() != '.',
        !ends_with(hostname + seq!['.'], seq!['.'] + domain + seq!['.']),
    ensures
        resolution(
            reg.insert(
                hostname,
                crate::registry::RecordView { ip: AddressValue::V4(octets), last_seen: now },
            ),
            QuestionView {
                labels,
                name_text: hostname + seq!['.'],
                record_type: 1,
                class,
            },
            domain,
        ) == Some(Some((30u32, octets))),
{
    lemma_bare_name_hostname(hostname, domain);
}

/// A question for anything but an IPv4 address (`A`) is never answered
/// from the registry nor forwarded: the name is reported missing.
pub proof fn lemma_other_types_missing(
    reg: Map<Seq<char>, crate::registry::RecordView>,
    q: QuestionView,
    domain: Seq<char>,
)
    requires
        q.record_type != 1,
    ensures
        resolution(reg, q, domain) is None,
{
}

/// An `A` question for a host that the registry does not hold with an IPv4
/// address (the name without its `.domain.` ending, or else without its
/// trailing dots) goes to the upstream resolver.
pub proof fn lemma_unregistered_name_forwarded(
    reg: Map<Seq<char>, crate::registry::RecordView>,
    q: QuestionView,
    domain: Seq<char>,
)
    requires
        q.record_type == 1,
        !reg.contains_key(query_hostname(q.name_text, domain)) || reg[query_hostname(
            q.name_text,
            domain,
        )].ip is V6,
    ensures
        resolution(reg, q, domain) == Some(None::<(u32, Seq<u8>)>),
{
}

} // verus!
