//! The enforcement engine: composes the resolver's filter state, the HOSTS
//! floor, and adapter DNS into the desired filtering state. The service
//! carries out each piece (files, sockets, `netsh`); this module decides
//! what the pieces are.
//!
//! Startup ordering is load-bearing: capture prior DNS, build + bind the
//! resolver, and only repoint adapters once it answers (see `lifecycle`).

use vstd::prelude::*;
use vstd::hash_set::StringHashSet;
use crate::blocklist::Blocklist;
use crate::config::AppConfig;
use crate::dns::FilterState;
use crate::domain::normalize_spec;
use crate::error::Error;
use crate::hosts::{
    newline_spec, remove_section, remove_spec, render_spec, section_error, section_ok,
    upsert_section, upsert_spec,
};
use crate::lists::{floor_domains, is_floor, FLOOR_SIZE};
use crate::netcfg::{cmd_views, set_loopback, set_static_spec, Adapter, AdapterRestore, IpFamily, LOOPBACK_V4, LOOPBACK_V6};
use crate::safesearch::SafeSearchMap;
use crate::sorting::str_views;
use crate::text::{chars_of, ends_with, ends_with_exec, slice_chars, string_of};
use crate::{SINK_IPV4, SINK_IPV6};

verus! {

/// An IP address as plain values: four octets, or eight 16-bit groups.
#[derive(Debug, Clone, Copy, PartialEq, Eq, Structural)]
pub enum Ip {
    V4(u8, u8, u8, u8),
    V6(u16, u16, u16, u16, u16, u16, u16, u16),
}

/// `IpAddr::is_loopback`: `127.0.0.0/8`, or `::1`.
pub open spec fn ip_is_loopback(ip: Ip) -> bool {
    match ip {
        Ip::V4(a, _, _, _) => a == 127,
        Ip::V6(a, b, c, d, e, f, g, h) => a == 0 && b == 0 && c == 0 && d == 0 && e == 0 && f == 0
            && g == 0 && h == 1,
    }
}

pub fn is_loopback(ip: Ip) -> (r: bool)
    ensures
        r == ip_is_loopback(ip),
{
    match ip {
        Ip::V4(a, _, _, _) => a == 127,
        Ip::V6(a, b, c, d, e, f, g, h) => a == 0 && b == 0 && c == 0 && d == 0 && e == 0 && f == 0
            && g == 0 && h == 1,
    }
}

/// Public DNS fallbacks used when a machine's prior DNS was DHCP-only and no
/// specific upstream can be recovered.
pub const FALLBACK_PRIMARY: &'static str = "1.1.1.1:53";

pub const FALLBACK_SECONDARY: &'static str = "9.9.9.9:53";

/// `s` with every trailing `p` removed (`str::trim_end_matches(p)`).
pub open spec fn trim_end_str(s: Seq<char>, p: Seq<char>) -> Seq<char>
    decreases s.len(),
{
    if p.len() > 0 && ends_with(s, p) {
        trim_end_str(s.take(s.len() - p.len()), p)
    } else {
        s
    }
}

fn trim_end_str_exec(s: &str, p: &str) -> (r: String)
    ensures
        r@ == trim_end_str(s@, p@),
{
    let mut v = chars_of(s);
    let pv = chars_of(p);
    while pv.len() > 0 && ends_with_exec(&v, &pv)
        invariant
            pv@ == p@,
            trim_end_str(v@, p@) == trim_end_str(s@, p@),
        decreases v.len(),
    {
        let n = v.len() - pv.len();
        v = slice_chars(&v, 0, n);
        assert(v@ =~= v@.take(n as int));
    }
    string_of(&v)
}

/// The servers journaled for every adapter, IPv4 then IPv6, adapter by adapter.
pub open spec fn journal_servers(j: Seq<AdapterRestore>) -> Seq<Seq<char>>
    decreases j.len(),
{
    if j.len() == 0 {
        Seq::empty()
    } else {
        journal_servers(j.drop_last()) + str_views(j.last().v4@) + str_views(j.last().v6@)
    }
}

/// The candidate upstream addresses, in order: the captured prior servers,
/// then the public fallbacks.
pub open spec fn candidates_spec(j: Seq<AdapterRestore>) -> Seq<Seq<char>> {
    journal_servers(j) + seq![
        trim_end_str(FALLBACK_PRIMARY@, ":53"@),
        trim_end_str(FALLBACK_SECONDARY@, ":53"@),
    ]
}

/// The upstreams from the parsed candidates: unparsable and loopback
/// addresses dropped, each address kept once, first occurrence first.
pub open spec fn upstreams_spec(ps: Seq<Option<Ip>>) -> Seq<Ip>
    decreases ps.len(),
{
    if ps.len() == 0 {
        Seq::empty()
    } else {
        let prev = upstreams_spec(ps.drop_last());
        match ps.last() {
            Some(ip) => if !ip_is_loopback(ip) && !prev.contains(ip) {
                prev.push(ip)
            } else {
                prev
            },
            None => prev,
        }
    }
}

fn push_strings(out: &mut Vec<String>, more: &Vec<String>)
    ensures
        str_views(final(out)@) == str_views(old(out)@) + str_views(more@),
{
    let ghost start = str_views(out@);
    let mut i: usize = 0;
    while i < more.len()
        invariant
            i <= more.len(),
            str_views(out@) == start + str_views(more@).take(i as int),
        decreases more.len() - i,
    {
        let ghost prev = out@;
        out.push(more[i].clone());
        assert(str_views(out@) =~= str_views(prev).push(more@[i as int]@));
        assert(str_views(out@) =~= start + str_views(more@).take(i + 1));
        i += 1;
    }
    assert(str_views(more@).take(more.len() as int) =~= str_views(more@));
}

/// The HOSTS floor file body, its domains, and the loopback DNS batch, as
/// the engine computes them.
pub struct EnforcementEngine {
    pub db_path: String,
    pub hosts_path: String,
}

impl EnforcementEngine {
    pub fn new(db_path: &str, hosts_path: &str) -> (r: Self)
        ensures
            r.db_path@ == db_path@,
            r.hosts_path@ == hosts_path@,
    {
        EnforcementEngine { db_path: db_path.to_string(), hosts_path: hosts_path.to_string() }
    }

    /// The addresses to try as upstreams, in order: every journaled prior
    /// server, then the public fallbacks (without their port).
    pub fn upstream_candidates(&self, journal: &Vec<AdapterRestore>) -> (r: Vec<String>)
        ensures
            str_views(r@) == candidates_spec(journal@),
    {
        let mut out: Vec<String> = Vec::new();
        let mut i: usize = 0;
        while i < journal.len()
            invariant
                i <= journal.len(),
                str_views(out@) == journal_servers(journal@.take(i as int)),
            decreases journal.len() - i,
        {
            proof {
                assert(journal@.take(i + 1).drop_last() =~= journal@.take(i as int));
            }
            push_strings(&mut out, &journal[i].v4);
            push_strings(&mut out, &journal[i].v6);
            i += 1;
        }
        assert(journal@.take(journal.len() as int) =~= journal@);
        let ghost js = str_views(out@);
        out.push(trim_end_str_exec(FALLBACK_PRIMARY, ":53"));
        out.push(trim_end_str_exec(FALLBACK_SECONDARY, ":53"));
        assert(str_views(out@) =~= candidates_spec(journal@));
        out
    }

    /// Upstreams to forward to: the parsed candidates (`None` where a
    /// candidate is not an address), never loopback, de-duplicated, in
    /// order. Every upstream is queried on port 53.
    pub fn compute_upstreams(&self, parsed: &Vec<Option<Ip>>) -> (r: Vec<Ip>)
        ensures
            r@ == upstreams_spec(parsed@),
            forall|i: int| 0 <= i < r@.len() ==> !ip_is_loopback(#[trigger] r@[i]),
            r@.no_duplicates(),
    {
        let mut out: Vec<Ip> = Vec::new();
        let mut i: usize = 0;
        while i < parsed.len()
            invariant
                i <= parsed.len(),
                out@ == upstreams_spec(parsed@.take(i as int)),
                forall|k: int| 0 <= k < out@.len() ==> !ip_is_loopback(#[trigger] out@[k]),
                out@.no_duplicates(),
            decreases parsed.len() - i,
        {
            proof {
                assert(parsed@.take(i + 1).drop_last() =~= parsed@.take(i as int));
            }
            match parsed[i] {
                Some(ip) => {
                    if !is_loopback(ip) {
                        let mut seen = false;
                        let mut k: usize = 0;
                        while k < out.len()
                            invariant
                                k <= out.len(),
                                seen == exists|j: int| 0 <= j < k && out@[j] == ip,
                            decreases out.len() - k,
                        {
                            if out[k] == ip {
                                seen = true;
                            }
                            k += 1;
                        }
                        if !seen {
                            let ghost prev = out@;
                            out.push(ip);
                            proof {
                                assert forall|a: int, b: int|
                                    0 <= a < out@.len() && 0 <= b < out@.len() && a != b implies out@[a]
                                    != out@[b] by {
                                    if a < prev.len() && b < prev.len() {
                                    } else if a < prev.len() {
                                        assert(out@[b] == ip);
                                    } else {
                                        assert(out@[a] == ip);
                                    }
                                }
                            }
                        }
                    }
                },
                None => {},
            }
            i += 1;
        }
        assert(parsed@.take(parsed.len() as int) =~= parsed@);
        out
    }

    /// The hosts file body with the always-on HOSTS floor written into it.
    pub fn apply_floor(&self, curated: &Blocklist, block: &Blocklist, content: &str) -> (r: Result<
        String,
        Error,
    >)
        ensures
            exists|floor: Seq<Seq<char>>|
                #[trigger] is_floor(curated@, block@, FLOOR_SIZE as nat, floor) && (section_ok(
                    content@,
                ) ==> (r matches Ok(s) && s@ == upsert_spec(
                    content@,
                    render_spec(floor, SINK_IPV4@, SINK_IPV6@, newline_spec(content@)),
                    newline_spec(content@),
                ))),
            !section_ok(content@) ==> (r matches Err(Error::Hosts(m)) && m@ == section_error(
                content@,
            )),
    {
        let floor = floor_domains(curated, block, FLOOR_SIZE);
        let r = upsert_section(content, floor.as_slice(), SINK_IPV4, SINK_IPV6);
        assert(floor@.map_values(|d: String| d@) =~= str_views(floor@));
        r
    }

    /// The hosts file body with the HOSTS floor removed.
    pub fn remove_hosts_floor(&self, content: &str) -> (r: Result<String, Error>)
        ensures
            section_ok(content@) ==> (r matches Ok(s) && s@ == remove_spec(content@)),
            !section_ok(content@) ==> (r matches Err(Error::Hosts(m)) && m@ == section_error(
                content@,
            )),
    {
        remove_section(content)
    }

    /// The loopback DNS batch for each manageable adapter, in order. (A
    /// failing batch is reported and the next adapter is still tried.)
    pub fn reassert_loopback(&self, adapters: &Vec<Adapter>) -> (r: Vec<(String, Vec<Vec<String>>)>)
        ensures
            forall|i: int|
                0 <= i < r@.len() ==> cmd_views((#[trigger] r@[i]).1@) == set_static_spec(
                    IpFamily::V4,
                    r@[i].0@,
                    seq![LOOPBACK_V4@],
                ) + set_static_spec(IpFamily::V6, r@[i].0@, seq![LOOPBACK_V6@]),
            r@.map_values(|p: (String, Vec<Vec<String>>)| p.0@) == manageable_names(adapters@),
    {
        let mut out: Vec<(String, Vec<Vec<String>>)> = Vec::new();
        let mut i: usize = 0;
        while i < adapters.len()
            invariant
                i <= adapters.len(),
                forall|k: int|
                    0 <= k < out@.len() ==> cmd_views((#[trigger] out@[k]).1@) == set_static_spec(
                        IpFamily::V4,
                        out@[k].0@,
                        seq![LOOPBACK_V4@],
                    ) + set_static_spec(IpFamily::V6, out@[k].0@, seq![LOOPBACK_V6@]),
                out@.map_values(|p: (String, Vec<Vec<String>>)| p.0@) == manageable_names(
                    adapters@.take(i as int),
                ),
            decreases adapters.len() - i,
        {
            proof {
                assert(adapters@.take(i + 1).drop_last() =~= adapters@.take(i as int));
            }
            let a = &adapters[i];
            if a.is_manageable() {
                let cmds = set_loopback(a.name.as_str());
                let ghost prev = out@;
                out.push((a.name.clone(), cmds));
                assert(out@.map_values(|p: (String, Vec<Vec<String>>)| p.0@) =~= prev.map_values(
                    |p: (String, Vec<Vec<String>>)| p.0@,
                ).push(a.name@));
            }
            i += 1;
        }
        assert(adapters@.take(adapters.len() as int) =~= adapters@);
        out
    }
}

/// The connection names of the manageable adapters, in order.
pub open spec fn manageable_names(adapters: Seq<Adapter>) -> Seq<Seq<char>>
    decreases adapters.len(),
{
    if adapters.len() == 0 {
        Seq::empty()
    } else {
        let prev = manageable_names(adapters.drop_last());
        let a = adapters.last();
        if a.is_up && a.if_type != crate::netcfg::IF_TYPE_SOFTWARE_LOOPBACK {
            prev.push(a.name@)
        } else {
            prev
        }
    }
}

/// The effective filter state: the starter list plus the user's custom
/// blocks, plus the bypass-tool list (DoH resolvers, VPN/proxy services,
/// Tor) while bypass blocking is on; the allowlist, the SafeSearch map and
/// DoH list, and the SafeSearch and DoH switches from the configuration.
/// Also returns the effective block set (for the HOSTS floor).
pub fn filter_state(
    starter: Blocklist,
    custom: &Vec<String>,
    allow: &Vec<String>,
    safesearch: SafeSearchMap,
    doh: Blocklist,
    bypass: &Blocklist,
    cfg: &AppConfig,
) -> (r: (FilterState, Blocklist))
    ensures
        r.0.blocklist@ == r.1@,
        forall|d: Seq<char>| #[trigger]
            r.1@.contains(d) <==> (starter@.contains(d) || exists|i: int|
                0 <= i < custom@.len() && normalize_spec(custom@[i]@) == Some(d)) || (
            cfg.block_bypass && bypass@.contains(d)),
        r.0.allowlist@ == str_views(allow@).to_set(),
        r.0.safesearch@ == safesearch@,
        r.0.doh@ == doh@,
        r.0.enforce_safesearch == cfg.enforce_safesearch,
        r.0.block_doh == cfg.block_doh,
{
    let mut block = starter;
    let ghost s0 = block@;
    let mut i: usize = 0;
    while i < custom.len()
        invariant
            i <= custom.len(),
            forall|d: Seq<char>| #[trigger]
                block@.contains(d) <==> (s0.contains(d) || exists|k: int|
                    0 <= k < i && normalize_spec(custom@[k]@) == Some(d)),
        decreases custom.len() - i,
    {
        block.add(custom[i].as_str());
        proof {
            assert forall|d: Seq<char>| #[trigger]
                block@.contains(d) <==> (s0.contains(d) || exists|k: int|
                    0 <= k < i + 1 && normalize_spec(custom@[k]@) == Some(d)) by {
                if normalize_spec(custom@[i as int]@) == Some(d) {
                    assert(block@.contains(d));
                }
            }
        }
        i += 1;
    }
    let ghost s1 = block@;
    if cfg.block_bypass {
        block.merge(bypass);
    }
    assert(block@ == if cfg.block_bypass { s1.union(bypass@) } else { s1 });
    let mut allowlist = StringHashSet::new();
    let mut k: usize = 0;
    while k < allow.len()
        invariant
            k <= allow.len(),
            allowlist@ == str_views(allow@.take(k as int)).to_set(),
        decreases allow.len() - k,
    {
        allowlist.insert(allow[k].clone());
        proof {
            assert(str_views(allow@.take(k + 1)) =~= str_views(allow@.take(k as int)).push(
                allow@[k as int]@,
            ));
            str_views(allow@.take(k as int)).lemma_push_to_set_commute(allow@[k as int]@);
        }
        k += 1;
    }
    assert(allow@.take(allow.len() as int) =~= allow@);
    let copy = block.clone();
    let mut state = FilterState::new(copy, safesearch, doh);
    state.allowlist = allowlist;
    state.enforce_safesearch = cfg.enforce_safesearch;
    state.block_doh = cfg.block_doh;
    (state, block)
}

/// The health-canary query: a DNS A query for `health.sanctum.invalid`
/// (id 0x5741, recursion desired).
pub open spec fn canary_query_spec() -> Seq<u8> {
    seq![0x57u8, 0x41, 0x01, 0x00, 0x00, 0x01, 0x00, 0x00, 0x00, 0x00, 0x00, 0x00]
        + seq![6u8] + crate::text::utf8_bytes("health"@)
        + seq![7u8] + crate::text::utf8_bytes("sanctum"@)
        + seq![7u8] + crate::text::utf8_bytes("invalid"@)
        + seq![0u8, 0x00, 0x01, 0x00, 0x01]
}

fn push_bytes(q: &mut Vec<u8>, s: &str)
    ensures
        final(q)@ == old(q)@ + crate::text::utf8_bytes(s@),
{
    let b = s.as_bytes();
    let mut i: usize = 0;
    let ghost start = q@;
    while i < b.len()
        invariant
            i <= b.len(),
            b@ == crate::text::utf8_bytes(s@),
            q@ == start + b@.take(i as int),
        decreases b.len() - i,
    {
        q.push(b[i]);
        assert(q@ =~= start + b@.take(i + 1));
        i += 1;
    }
    assert(b@.take(b.len() as int) =~= b@);
}

/// A minimal DNS A query for `health.sanctum.invalid`.
pub fn build_canary_query() -> (r: Vec<u8>)
    ensures
        r@ == canary_query_spec(),
{
    let mut q: Vec<u8> = Vec::new();
    q.push(0x57);
    q.push(0x41);
    q.push(0x01);
    q.push(0x00);
    q.push(0x00);
    q.push(0x01);
    q.push(0x00);
    q.push(0x00);
    q.push(0x00);
    q.push(0x00);
    q.push(0x00);
    q.push(0x00);
    q.push(6);
    push_bytes(&mut q, "health");
    q.push(7);
    push_bytes(&mut q, "sanctum");
    q.push(7);
    push_bytes(&mut q, "invalid");
    q.push(0);
    q.push(0x00);
    q.push(0x01);
    q.push(0x00);
    q.push(0x01);
    assert(q@ =~= canary_query_spec());
    q
}

/// The canary's fixed answer, 127.0.0.2, occurs somewhere in the reply.
pub open spec fn canary_answered_spec(reply: Seq<u8>) -> bool {
    exists|i: int|
        0 <= i && i + 4 <= reply.len() && reply[i] == 127 && reply[i + 1] == 0 && reply[i + 2] == 0
            && #[trigger] reply[i + 3] == 2
}

/// Whether a reply to the canary query carries the fixed answer.
pub fn canary_answered(reply: &[u8]) -> (r: bool)
    ensures
        r == canary_answered_spec(reply@),
{
    let mut i: usize = 0;
    while i < reply.len() && reply.len() - i >= 4
        invariant
            i <= reply.len(),
            forall|j: int|
                0 <= j < i && j + 4 <= reply@.len() ==> !(reply@[j] == 127 && reply@[j + 1] == 0
                    && reply@[j + 2] == 0 && #[trigger] reply@[j + 3] == 2),
        decreases reply.len() - i,
    {
        if reply[i] == 127 && reply[i + 1] == 0 && reply[i + 2] == 0 && reply[i + 3] == 2 {
            return true;
        }
        i += 1;
    }
    false
}

} // verus!
