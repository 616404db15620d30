//! The resolver on the wire: from a query's bytes to what is sent back.
//!
//! A query is decoded with `hickory_proto`, its first question is planned by
//! `FilterState::plan`, and a reply the resolver answers itself is encoded
//! with `hickory_proto` again. Relaying a query upstream, and fetching a
//! SafeSearch target's own addresses, are the service's (sockets, await).

use vstd::prelude::*;
use hickory_proto::op::{Message, MessageType, OpCode, Query};
use hickory_proto::rr::rdata::{A, AAAA};
use hickory_proto::rr::{Name, RData, Record as Rr};
use crate::dns::{
    decision_view, plan_spec, plan_view, query_host, query_host_spec, DecisionView, FilterState,
    Plan, PlanView, Record, SinkKind, TTL,
};

verus! {

/// One question of a DNS message: the name as `hickory_proto` displays it,
/// the record type and the class.
#[derive(Debug, Clone, PartialEq, Eq)]
pub struct Question {
    pub name: String,
    pub qtype: u16,
    pub qclass: u16,
}

/// What the resolver reads of a query: its id, opcode, recursion-desired
/// flag and questions, and the query's own bytes (a reply echoes its
/// question section).
#[derive(Debug, Clone, PartialEq, Eq)]
pub struct DnsQuery {
    pub id: u16,
    pub op_code: u8,
    pub recursion_desired: bool,
    pub questions: Vec<Question>,
    pub request: Vec<u8>,
}

/// A reply to encode: header fields, the request whose questions it echoes,
/// and answer records as (owner name, time to live, address).
#[derive(Debug, Clone)]
pub struct DnsReply {
    pub id: u16,
    pub op_code: u8,
    pub recursion_desired: bool,
    pub recursion_available: bool,
    pub rcode: u16,
    pub request: Vec<u8>,
    pub answers: Vec<(String, u32, Record)>,
}

pub open spec fn question_view(q: Question) -> (Seq<char>, u16, u16) {
    (q.name@, q.qtype, q.qclass)
}

pub open spec fn questions_view(qs: Seq<Question>) -> Seq<(Seq<char>, u16, u16)> {
    qs.map_values(|q: Question| question_view(q))
}

pub open spec fn query_view(q: DnsQuery) -> (u16, u8, bool, Seq<(Seq<char>, u16, u16)>) {
    (q.id, q.op_code, q.recursion_desired, questions_view(q.questions@))
}

pub open spec fn answers_view(a: Seq<(String, u32, Record)>) -> Seq<(Seq<char>, u32, Record)> {
    a.map_values(|x: (String, u32, Record)| (x.0@, x.1, x.2))
}

/// What `Message::from_vec` makes of `bytes`, read as (id, opcode,
/// recursion desired, questions as (displayed name, type, class));
/// `None` when the bytes are not a DNS message.
pub uninterp spec fn dns_query(bytes: Seq<u8>) -> Option<(u16, u8, bool, Seq<(Seq<char>, u16, u16)>)>;

/// The bytes `Message::to_vec` gives for a response (not authoritative, as
/// `Message::new` starts it) with these header fields, the question section
/// of the message `request` (as `Message::from_vec` reads it), and these
/// answers; `None` when the request, a name or the opcode is not accepted or
/// the message cannot be written.
pub uninterp spec fn dns_reply(
    id: u16,
    op_code: u8,
    recursion_desired: bool,
    recursion_available: bool,
    rcode: u16,
    request: Seq<u8>,
    answers: Seq<(Seq<char>, u32, Record)>,
) -> Option<Seq<u8>>;

/// `Message::from_vec`, read into plain values.
#[verifier::external_body]
fn decode_query(bytes: &[u8]) -> (r: Option<DnsQuery>)
    ensures
        match r {
            Some(q) => dns_query(bytes@) == Some(query_view(q)) && q.request@ == bytes@,
            None => dns_query(bytes@) is None,
        },
{
    let m = Message::from_vec(bytes).ok()?;
    let questions = m.queries().iter().map(|q| Question {
        name: q.name().to_string(),
        qtype: q.query_type().into(),
        qclass: q.query_class().into(),
    }).collect();
    Some(DnsQuery { id: m.id(), op_code: m.op_code().into(), recursion_desired: m.recursion_desired(), questions, request: bytes.to_vec() })
}

/// A response `Message` built from plain values, then `Message::to_vec`.
#[verifier::external_body]
fn encode_reply(r: &DnsReply) -> (b: Option<Vec<u8>>)
    ensures
        match b {
            Some(v) => dns_reply(r.id, r.op_code, r.recursion_desired, r.recursion_available, r.rcode, r.request@, answers_view(r.answers@)) == Some(v@),
            None => dns_reply(r.id, r.op_code, r.recursion_desired, r.recursion_available, r.rcode, r.request@, answers_view(r.answers@)) is None,
        },
{
    let mut m = Message::new();
    m.set_id(r.id).set_message_type(MessageType::Response).set_op_code(OpCode::from_u8(r.op_code).ok()?);
    m.set_recursion_desired(r.recursion_desired).set_recursion_available(r.recursion_available).set_response_code(r.rcode.into());
    m.add_queries(Message::from_vec(&r.request).ok()?.take_queries());
    for a in &r.answers {
        let d = match a.2 { Record::A(o) => RData::A(A(o.into())), Record::Aaaa(o) => RData::AAAA(AAAA(o.into())) };
        m.add_answer(Rr::from_rdata(Name::from_utf8(&a.0).ok()?, a.1, d));
    }
    m.to_vec().ok()
}

/// The answers to a question named `owner`, each with the resolver's TTL.
pub open spec fn owned(owner: Seq<char>, recs: Seq<Record>) -> Seq<(Seq<char>, u32, Record)> {
    recs.map_values(|x: Record| (owner, TTL, x))
}

/// The bytes of the resolver's own reply to query `q` (read from `request`):
/// its id, opcode and recursion-desired flag echoed, recursion available,
/// the request's question section echoed, and `recs` owned by the first
/// question's name.
pub open spec fn reply_spec(
    request: Seq<u8>,
    q: (u16, u8, bool, Seq<(Seq<char>, u16, u16)>),
    rcode: u16,
    recs: Seq<Record>,
) -> Option<Seq<u8>> {
    dns_reply(q.0, q.1, q.2, true, rcode, request, owned(q.3[0].0, recs))
}

/// Encode the resolver's own reply to `q` (which has a question).
pub fn respond(q: &DnsQuery, rcode: u16, recs: &Vec<Record>) -> (b: Option<Vec<u8>>)
    requires
        q.questions@.len() > 0,
    ensures
        match b {
            Some(v) => reply_spec(q.request@, query_view(*q), rcode, recs@) == Some(v@),
            None => reply_spec(q.request@, query_view(*q), rcode, recs@) is None,
        },
{
    let owner = &q.questions[0].name;
    let mut answers: Vec<(String, u32, Record)> = Vec::new();
    let mut i: usize = 0;
    while i < recs.len()
        invariant
            i <= recs.len(),
            q.questions@.len() > 0,
            owner@ == q.questions@[0].name@,
            answers_view(answers@) == owned(owner@, recs@.take(i as int)),
        decreases recs.len() - i,
    {
        let ghost before = answers_view(answers@);
        answers.push((owner.clone(), TTL, recs[i]));
        assert(recs@.take(i + 1) =~= recs@.take(i as int).push(recs@[i as int]));
        assert(answers_view(answers@) =~= before.push((owner@, TTL, recs@[i as int])));
        assert(answers_view(answers@) =~= owned(owner@, recs@.take(i + 1)));
        i += 1;
    }
    assert(recs@.take(recs.len() as int) =~= recs@);
    assert(questions_view(q.questions@)[0].0 == owner@);
    let reply = DnsReply {
        id: q.id,
        op_code: q.op_code,
        recursion_desired: q.recursion_desired,
        recursion_available: true,
        rcode,
        request: q.request.clone(),
        answers,
    };
    encode_reply(&reply)
}

/// What the resolver does with one packet.
#[derive(Debug, Clone)]
pub enum Step {
    /// Send nothing back (not a DNS message, or the reply cannot be written).
    NoReply,
    /// Relay the packet to the upstream resolvers unchanged.
    Forward,
    /// Send these bytes back.
    Reply(Vec<u8>),
    /// Answer with a CNAME to `target` (chased for address queries); the
    /// decoded query comes along for building that reply.
    SafeSearch { target: String, chase: bool, query: DnsQuery },
}

/// A step as a value.
pub enum StepView {
    NoReply,
    Forward,
    Reply(Seq<u8>),
    SafeSearch(Seq<char>, bool),
}

pub open spec fn step_view(s: Step) -> StepView {
    match s {
        Step::NoReply => StepView::NoReply,
        Step::Forward => StepView::Forward,
        Step::Reply(b) => StepView::Reply(b@),
        Step::SafeSearch { target, chase, .. } => StepView::SafeSearch(target@, chase),
    }
}

/// The step for the packet `bytes`: no reply to what is not a DNS message,
/// relay a message without a question, and otherwise the plan for the first
/// question's name and type, a reply the resolver writes itself encoded as
/// `reply_spec` gives it.
pub open spec fn packet_spec(st: FilterState, bytes: Seq<u8>, v4: [u8; 4], v6: [u8; 16]) -> StepView {
    match dns_query(bytes) {
        None => StepView::NoReply,
        Some(q) => if q.3.len() == 0 {
            StepView::Forward
        } else {
            match plan_spec(st.decide(query_host_spec(q.3[0].0)), q.3[0].1, v4, v6) {
                PlanView::Forward => StepView::Forward,
                PlanView::SafeSearch(t, c) => StepView::SafeSearch(t, c),
                PlanView::Respond(rcode, recs) => match reply_spec(bytes, q, rcode, recs) {
                    Some(b) => StepView::Reply(b),
                    None => StepView::NoReply,
                },
            }
        },
    }
}

/// The host an adult-block hit in `bytes` is reported as, if it is one.
pub open spec fn hit_spec(st: FilterState, bytes: Seq<u8>) -> Option<Seq<char>> {
    match dns_query(bytes) {
        Some(q) => if q.3.len() > 0 && st.decide(query_host_spec(q.3[0].0))
            == DecisionView::Sink(SinkKind::Blocked) {
            Some(query_host_spec(q.3[0].0))
        } else {
            None
        },
        None => None,
    }
}

/// Answer one packet: the step to take, and the host to count as an
/// adult-block hit, if the query is one.
pub fn answer_packet(state: &FilterState, query: &[u8], v4: [u8; 4], v6: [u8; 16]) -> (r: (
    Step,
    Option<String>,
))
    ensures
        step_view(r.0) == packet_spec(*state, query@, v4, v6),
        match r.1 {
            Some(h) => hit_spec(*state, query@) == Some(h@),
            None => hit_spec(*state, query@) is None,
        },
        r.0 matches Step::SafeSearch { query: q, .. } ==> dns_query(query@) == Some(query_view(q))
            && q.request@ == query@ && q.questions@.len() > 0,
{
    let q = match decode_query(query) {
        None => return (Step::NoReply, None),
        Some(q) => q,
    };
    if q.questions.len() == 0 {
        return (Step::Forward, None);
    }
    let ghost qv = query_view(q);
    assert(qv.3[0] == question_view(q.questions@[0]));
    let name = q.questions[0].name.clone();
    let qtype = q.questions[0].qtype;
    let (plan, blocked) = state.plan(name.as_str(), qtype, v4, v6);
    let hit = if blocked {
        Some(query_host(name.as_str()))
    } else {
        None
    };
    let step = match plan {
        Plan::Forward => Step::Forward,
        Plan::Respond { rcode, answers } => match respond(&q, rcode, &answers) {
            Some(b) => Step::Reply(b),
            None => Step::NoReply,
        },
        Plan::SafeSearch { target, chase } => Step::SafeSearch { target, chase, query: q },
    };
    (step, hit)
}

} // verus!
