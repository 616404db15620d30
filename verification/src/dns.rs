//! The per-query decision of the DNS sinkhole resolver.
//!
//! Per-query priority (normalized lowercase FQDN):
//!   1. health canary        -> fixed answer (watchdog liveness)
//!   2. DoH-disable canary    -> NXDOMAIN (`use-application-dns.net`)
//!   3. allowlist             -> forward
//!   4. blocklist             -> sink 0.0.0.0 / ::
//!   5. DoH endpoint sink     -> sink 0.0.0.0 / ::
//!   6. SafeSearch            -> CNAME (chained with the target's A/AAAA)
//!   7. else                  -> forward upstream
//!
//! The resolver's sockets and the DNS wire encoding live in the service; the
//! lists, the decision and the records each reply carries live here.

use vstd::prelude::*;
use vstd::hash_set::StringHashSet;
use crate::blocklist::Blocklist;
use crate::domain::{blocked_by, is_blocked_by};
use crate::safesearch::{get_spec, lookup_key, SafeSearchMap};
use crate::text::{
    ascii_lower, ascii_lower_vec, chars_of, is_char, string_of, trim_end_by, trim_end_char_vec,
};

verus! {

/// Short TTL so un-blocks / list edits propagate to clients quickly.
pub const TTL: u32 = 5;

/// The watchdog liveness canary name.
pub const HEALTH_CANARY: &'static str = "health.sanctum.invalid";

/// Firefox's auto-DoH probe. Answering NXDOMAIN disables its DoH upgrade.
pub const DOH_CANARY: &'static str = "use-application-dns.net";

/// Which list produced a sink. Only adult-block hits are treated as "urges"
/// for the intervention system; DoH-endpoint sinks are plumbing, not intent.
#[derive(Debug, Clone, Copy, PartialEq, Eq, Structural)]
pub enum SinkKind {
    Blocked,
    Doh,
}

/// What the resolver does with a query.
#[derive(Debug, Clone, PartialEq, Eq)]
pub enum Decision {
    HealthCanary,
    DohDisableCanary,
    Forward,
    Sink(SinkKind),
    SafeSearch(String),
}

/// A decision as a value.
pub enum DecisionView {
    HealthCanary,
    DohDisableCanary,
    Forward,
    Sink(SinkKind),
    SafeSearch(Seq<char>),
}

pub open spec fn decision_view(d: Decision) -> DecisionView {
    match d {
        Decision::HealthCanary => DecisionView::HealthCanary,
        Decision::DohDisableCanary => DecisionView::DohDisableCanary,
        Decision::Forward => DecisionView::Forward,
        Decision::Sink(k) => DecisionView::Sink(k),
        Decision::SafeSearch(t) => DecisionView::SafeSearch(t@),
    }
}

/// The hot-reloadable filter lists + toggles.
pub struct FilterState {
    pub blocklist: Blocklist,
    /// Suffix-matched allowlist (explicit exceptions).
    pub allowlist: StringHashSet,
    pub safesearch: SafeSearchMap,
    /// DoH provider hostnames, matched by suffix like the blocklist.
    pub doh: Blocklist,
    pub enforce_safesearch: bool,
    pub block_doh: bool,
}

/// The decision for `host` given the lists and toggles.
pub open spec fn classify_spec(
    host: Seq<char>,
    blocked: Set<Seq<char>>,
    allowed: Set<Seq<char>>,
    safesearch: Seq<(Seq<char>, Seq<char>)>,
    doh: Set<Seq<char>>,
    enforce_safesearch: bool,
    block_doh: bool,
) -> DecisionView {
    if host == HEALTH_CANARY@ {
        DecisionView::HealthCanary
    } else if host == DOH_CANARY@ {
        DecisionView::DohDisableCanary
    } else if !allowed.is_empty() && blocked_by(host, allowed) {
        DecisionView::Forward
    } else if blocked_by(host, blocked) {
        DecisionView::Sink(SinkKind::Blocked)
    } else if block_doh && blocked_by(host, doh) {
        DecisionView::Sink(SinkKind::Doh)
    } else if enforce_safesearch {
        match get_spec(safesearch, lookup_key(host)) {
            Some(t) => DecisionView::SafeSearch(t),
            None => DecisionView::Forward,
        }
    } else {
        DecisionView::Forward
    }
}

impl FilterState {
    /// The decision `classify` makes for `host`.
    pub open spec fn decide(&self, host: Seq<char>) -> DecisionView {
        classify_spec(
            host,
            self.blocklist@,
            self.allowlist@,
            self.safesearch@,
            self.doh@,
            self.enforce_safesearch,
            self.block_doh,
        )
    }

    pub fn new(blocklist: Blocklist, safesearch: SafeSearchMap, doh: Blocklist) -> (r: Self)
        ensures
            r.blocklist == blocklist,
            r.allowlist@ == Set::<Seq<char>>::empty(),
            r.safesearch == safesearch,
            r.doh == doh,
            r.enforce_safesearch,
            r.block_doh,
    {
        FilterState {
            blocklist,
            allowlist: StringHashSet::new(),
            safesearch,
            doh,
            enforce_safesearch: true,
            block_doh: true,
        }
    }

    /// Whether an explicit exception covers `host`.
    pub fn is_allowed(&self, host: &str) -> (r: bool)
        ensures
            r == (!self.allowlist@.is_empty() && blocked_by(host@, self.allowlist@)),
    {
        !self.allowlist.is_empty() && is_blocked_by(host, &self.allowlist)
    }

    /// Decide what to do with a query for `host` (already normalized).
    pub fn classify(&self, host: &str) -> (r: Decision)
        ensures
            decision_view(r) == self.decide(host@),
    {
        let h = chars_of(host);
        if crate::text::chars_eq_str(&h, HEALTH_CANARY) {
            Decision::HealthCanary
        } else if crate::text::chars_eq_str(&h, DOH_CANARY) {
            Decision::DohDisableCanary
        } else if self.is_allowed(host) {
            Decision::Forward
        } else if self.blocklist.is_blocked(host) {
            Decision::Sink(SinkKind::Blocked)
        } else if self.block_doh && self.doh.is_blocked(host) {
            Decision::Sink(SinkKind::Doh)
        } else if self.enforce_safesearch {
            match self.safesearch.lookup(host) {
                Some(target) => Decision::SafeSearch(target.to_string()),
                None => Decision::Forward,
            }
        } else {
            Decision::Forward
        }
    }
}

/// The host a query name is matched as: trailing dots removed, ASCII
/// letters lowercased.
pub open spec fn query_host_spec(name: Seq<char>) -> Seq<char> {
    ascii_lower(trim_end_by(name, is_char('.')))
}

/// The host a query name is matched as.
pub fn query_host(name: &str) -> (r: String)
    ensures
        r@ == query_host_spec(name@),
{
    string_of(&ascii_lower_vec(&trim_end_char_vec(&chars_of(name), '.')))
}

/// The record type of an IPv4 address query.
pub const TYPE_A: u16 = 1;

/// The record type of an IPv6 address query.
pub const TYPE_AAAA: u16 = 28;

/// Response code: no error.
pub const RCODE_NO_ERROR: u16 = 0;

/// Response code: no such domain.
pub const RCODE_NX_DOMAIN: u16 = 3;

/// An address record the resolver answers with (owner: the query name,
/// time to live: `TTL`).
#[derive(Debug, Clone, Copy, PartialEq, Eq)]
pub enum Record {
    A([u8; 4]),
    Aaaa([u8; 16]),
}

/// How the resolver answers a query.
#[derive(Debug, Clone, PartialEq, Eq)]
pub enum Plan {
    /// Relay the query to the upstream resolvers unchanged.
    Forward,
    /// Answer it here: a response code and the answer records.
    Respond { rcode: u16, answers: Vec<Record> },
    /// Answer with a CNAME to `target`; when `chase` is set (address
    /// queries), also with the target's own records, fetched upstream.
    SafeSearch { target: String, chase: bool },
}

/// A plan as a value.
pub enum PlanView {
    Forward,
    Respond(u16, Seq<Record>),
    SafeSearch(Seq<char>, bool),
}

pub open spec fn plan_view(p: Plan) -> PlanView {
    match p {
        Plan::Forward => PlanView::Forward,
        Plan::Respond { rcode, answers } => PlanView::Respond(rcode, answers@),
        Plan::SafeSearch { target, chase } => PlanView::SafeSearch(target@, chase),
    }
}

/// The sinkhole's answer to a query of type `qtype`: the sink address of the
/// matching family, nothing for other types.
pub open spec fn sink_answers_spec(qtype: u16, v4: [u8; 4], v6: [u8; 16]) -> Seq<Record> {
    if qtype == TYPE_A {
        seq![Record::A(v4)]
    } else if qtype == TYPE_AAAA {
        seq![Record::Aaaa(v6)]
    } else {
        Seq::empty()
    }
}

/// The reply each decision calls for, for a query of type `qtype`.
pub open spec fn plan_spec(d: DecisionView, qtype: u16, v4: [u8; 4], v6: [u8; 16]) -> PlanView {
    match d {
        DecisionView::HealthCanary => PlanView::Respond(
            RCODE_NO_ERROR,
            if qtype == TYPE_A {
                seq![Record::A([127u8, 0u8, 0u8, 2u8])]
            } else {
                Seq::empty()
            },
        ),
        DecisionView::DohDisableCanary => PlanView::Respond(RCODE_NX_DOMAIN, Seq::empty()),
        DecisionView::Forward => PlanView::Forward,
        DecisionView::Sink(_) => PlanView::Respond(RCODE_NO_ERROR, sink_answers_spec(qtype, v4, v6)),
        DecisionView::SafeSearch(t) => PlanView::SafeSearch(t, qtype == TYPE_A || qtype == TYPE_AAAA),
    }
}

/// The sinkhole's answer records for a query of type `qtype`.
pub fn sink_answers(qtype: u16, v4: [u8; 4], v6: [u8; 16]) -> (r: Vec<Record>)
    ensures
        r@ == sink_answers_spec(qtype, v4, v6),
{
    let mut r: Vec<Record> = Vec::new();
    if qtype == TYPE_A {
        r.push(Record::A(v4));
    } else if qtype == TYPE_AAAA {
        r.push(Record::Aaaa(v6));
    }
    assert(r@ =~= sink_answers_spec(qtype, v4, v6));
    r
}

impl FilterState {
    /// Plan the reply to a query for `name` (as the query carries it) of type
    /// `qtype`, with the given sink addresses. The flag is set when the query
    /// hit the adult block list, which the intervention system counts.
    pub fn plan(&self, name: &str, qtype: u16, v4: [u8; 4], v6: [u8; 16]) -> (r: (Plan, bool))
        ensures
            plan_view(r.0) == plan_spec(self.decide(query_host_spec(name@)), qtype, v4, v6),
            r.1 == (self.decide(query_host_spec(name@)) == DecisionView::Sink(SinkKind::Blocked)),
    {
        let host = query_host(name);
        let d = self.classify(host.as_str());
        match d {
            Decision::HealthCanary => {
                let mut answers: Vec<Record> = Vec::new();
                if qtype == TYPE_A {
                    answers.push(Record::A([127u8, 0u8, 0u8, 2u8]));
                }
                assert(answers@ =~= (if qtype == TYPE_A {
                    seq![Record::A([127u8, 0u8, 0u8, 2u8])]
                } else {
                    Seq::<Record>::empty()
                }));
                (Plan::Respond { rcode: RCODE_NO_ERROR, answers }, false)
            },
            Decision::DohDisableCanary => {
                let answers: Vec<Record> = Vec::new();
                assert(answers@ =~= Seq::<Record>::empty());
                (Plan::Respond { rcode: RCODE_NX_DOMAIN, answers }, false)
            },
            Decision::Forward => (Plan::Forward, false),
            Decision::Sink(k) => {
                let hit = match k {
                    SinkKind::Blocked => true,
                    SinkKind::Doh => false,
                };
                (Plan::Respond { rcode: RCODE_NO_ERROR, answers: sink_answers(qtype, v4, v6) }, hit)
            },
            Decision::SafeSearch(t) => (
                Plan::SafeSearch { target: t, chase: qtype == TYPE_A || qtype == TYPE_AAAA },
                false,
            ),
        }
    }
}

/// Over TCP each DNS message is preceded by its length in two big-endian
/// bytes (the length taken modulo 2^16, as the cast to `u16` does).
pub open spec fn tcp_frame_spec(msg: Seq<u8>) -> Seq<u8> {
    let n = (msg.len() as int) % 65536;
    seq![(n / 256) as u8, (n % 256) as u8] + msg
}

/// Frame a DNS message for a TCP stream.
pub fn tcp_frame(msg: &Vec<u8>) -> (r: Vec<u8>)
    ensures
        r@ == tcp_frame_spec(msg@),
{
    let n: u64 = (msg.len() as u64) % 65536;
    let mut out: Vec<u8> = Vec::new();
    out.push((n / 256) as u8);
    out.push((n % 256) as u8);
    let mut i: usize = 0;
    while i < msg.len()
        invariant
            i <= msg.len(),
            n == (msg@.len() as int) % 65536,
            out@ == seq![(n / 256) as u8, (n % 256) as u8] + msg@.subrange(0, i as int),
        decreases msg.len() - i,
    {
        out.push(msg[i]);
        assert(msg@.subrange(0, i + 1) =~= msg@.subrange(0, i as int).push(msg@[i as int]));
        i += 1;
    }
    assert(msg@.subrange(0, msg.len() as int) =~= msg@);
    out
}

/// The length a TCP DNS length prefix announces.
pub fn tcp_len(header: &[u8; 2]) -> (r: usize)
    ensures
        r == (header@[0] as int) * 256 + (header@[1] as int),
{
    (header[0] as usize) * 256 + (header[1] as usize)
}

/// A sinkholed host is sunk in both address families, so an IPv6 lookup
/// cannot leak past a block: its A query gets the IPv4 sink and its AAAA
/// query the IPv6 sink.
pub proof fn lemma_sink_covers_both_families(k: SinkKind, v4: [u8; 4], v6: [u8; 16])
    ensures
        plan_spec(DecisionView::Sink(k), TYPE_A, v4, v6) == PlanView::Respond(
            RCODE_NO_ERROR,
            seq![Record::A(v4)],
        ),
        plan_spec(DecisionView::Sink(k), TYPE_AAAA, v4, v6) == PlanView::Respond(
            RCODE_NO_ERROR,
            seq![Record::Aaaa(v6)],
        ),
{
}

/// The TCP length prefix reads back as the message's length for every
/// message a DNS TCP stream can carry.
pub proof fn lemma_tcp_frame_roundtrip(msg: Seq<u8>)
    requires
        msg.len() < 65536,
    ensures
        tcp_frame_spec(msg).subrange(2, tcp_frame_spec(msg).len() as int) == msg,
        (tcp_frame_spec(msg)[0] as int) * 256 + (tcp_frame_spec(msg)[1] as int) == msg.len(),
{
    let f = tcp_frame_spec(msg);
    assert(f.subrange(2, f.len() as int) =~= msg);
}

/// An explicit allowlist exception beats every list: a host the allowlist
/// covers is always forwarded, unless it is one of the two canaries.
pub proof fn lemma_allowlist_wins(
    host: Seq<char>,
    blocked: Set<Seq<char>>,
    allowed: Set<Seq<char>>,
    safesearch: Seq<(Seq<char>, Seq<char>)>,
    doh: Set<Seq<char>>,
    enforce_safesearch: bool,
    block_doh: bool,
)
    requires
        !allowed.is_empty(),
        blocked_by(host, allowed),
        host != HEALTH_CANARY@,
        host != DOH_CANARY@,
    ensures
        classify_spec(host, blocked, allowed, safesearch, doh, enforce_safesearch, block_doh)
            is Forward,
{
}

/// A blocked host that no exception covers is always sinkholed as a block
/// hit, whatever the DoH and SafeSearch settings.
pub proof fn lemma_blocked_is_sunk(
    host: Seq<char>,
    blocked: Set<Seq<char>>,
    allowed: Set<Seq<char>>,
    safesearch: Seq<(Seq<char>, Seq<char>)>,
    doh: Set<Seq<char>>,
    enforce_safesearch: bool,
    block_doh: bool,
)
    requires
        blocked_by(host, blocked),
        !blocked_by(host, allowed),
        host != HEALTH_CANARY@,
        host != DOH_CANARY@,
    ensures
        classify_spec(host, blocked, allowed, safesearch, doh, enforce_safesearch, block_doh)
            == DecisionView::Sink(SinkKind::Blocked),
{
}

} // verus!
