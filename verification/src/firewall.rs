//! Egress hardening: the persistent Windows Firewall rules that block the
//! well-known DoH resolver IPs on port 443, over TCP and UDP (QUIC/HTTP-3).
//! Blocking :443 to these addresses does not affect the plaintext DNS the
//! resolver forwards to them on :53, so the rules cannot break name
//! resolution. They are visible in `wf.msc` under names prefixed
//! "Sanctum:" (friction, not stealth).
//!
//! This module builds the `netsh advfirewall` argument vectors; the service
//! runs them. (The optional plaintext-DNS lockdown is kernel packet
//! filtering, done by the service directly.)

use vstd::prelude::*;
use crate::netcfg::cmd_views;
use crate::sorting::str_views;
use crate::text::{push_str, string_of};

verus! {

/// Name of the TCP rule.
pub const RULE_TCP: &'static str = "Sanctum: block DoH IPs (TCP 443)";

/// Name of the UDP rule.
pub const RULE_UDP: &'static str = "Sanctum: block DoH IPs (UDP 443)";

/// The well-known DoH resolver addresses: Cloudflare, Google, Quad9,
/// OpenDNS, AdGuard and CleanBrowsing.
pub open spec fn doh_ips_spec() -> Seq<Seq<char>> {
    seq![
        "1.1.1.1"@,
        "1.0.0.1"@,
        "2606:4700:4700::1111"@,
        "2606:4700:4700::1001"@,
        "8.8.8.8"@,
        "8.8.4.4"@,
        "2001:4860:4860::8888"@,
        "2001:4860:4860::8844"@,
        "9.9.9.9"@,
        "149.112.112.112"@,
        "2620:fe::fe"@,
        "2620:fe::9"@,
        "208.67.222.222"@,
        "208.67.220.220"@,
        "94.140.14.14"@,
        "94.140.15.15"@,
        "185.228.168.9"@,
        "185.228.169.9"@,
    ]
}

/// The addresses, in order.
pub fn doh_ips() -> (r: Vec<String>)
    ensures
        str_views(r@) == doh_ips_spec(),
{
    let mut v: Vec<String> = Vec::new();
    v.push("1.1.1.1".to_string());
    v.push("1.0.0.1".to_string());
    v.push("2606:4700:4700::1111".to_string());
    v.push("2606:4700:4700::1001".to_string());
    v.push("8.8.8.8".to_string());
    v.push("8.8.4.4".to_string());
    v.push("2001:4860:4860::8888".to_string());
    v.push("2001:4860:4860::8844".to_string());
    v.push("9.9.9.9".to_string());
    v.push("149.112.112.112".to_string());
    v.push("2620:fe::fe".to_string());
    v.push("2620:fe::9".to_string());
    v.push("208.67.222.222".to_string());
    v.push("208.67.220.220".to_string());
    v.push("94.140.14.14".to_string());
    v.push("94.140.15.15".to_string());
    v.push("185.228.168.9".to_string());
    v.push("185.228.169.9".to_string());
    assert(str_views(v@) =~= doh_ips_spec());
    v
}

/// The items of `s` separated by commas.
pub open spec fn join_commas(s: Seq<Seq<char>>) -> Seq<char>
    decreases s.len(),
{
    if s.len() == 0 {
        Seq::empty()
    } else if s.len() == 1 {
        s[0]
    } else {
        join_commas(s.drop_last()) + ","@ + s.last()
    }
}

/// `items.join(",")`.
pub fn join_with_commas(items: &Vec<String>) -> (r: String)
    ensures
        r@ == join_commas(str_views(items@)),
{
    let mut out: Vec<char> = Vec::new();
    let mut i: usize = 0;
    while i < items.len()
        invariant
            i <= items.len(),
            out@ == join_commas(str_views(items@.take(i as int))),
        decreases items.len() - i,
    {
        let ghost before = str_views(items@.take(i as int));
        if i > 0 {
            push_str(&mut out, ",");
        }
        push_str(&mut out, items[i].as_str());
        proof {
            let after = str_views(items@.take(i + 1));
            assert(after.drop_last() =~= before);
            assert(after.last() == items@[i as int]@);
            if i == 0 {
                assert(after.len() == 1);
            }
        }
        i += 1;
    }
    assert(items@.take(items.len() as int) =~= items@);
    string_of(&out)
}

/// The command deleting the rule called `name`.
pub open spec fn delete_rule_cmd(name: Seq<char>) -> Seq<Seq<char>> {
    seq!["advfirewall"@, "firewall"@, "delete"@, "rule"@, "name="@ + name]
}

/// The command adding the outbound block rule `name` for `proto`.
pub open spec fn add_rule_cmd(name: Seq<char>, proto: Seq<char>) -> Seq<Seq<char>> {
    seq![
        "advfirewall"@,
        "firewall"@,
        "add"@,
        "rule"@,
        "name="@ + name,
        "dir=out"@,
        "action=block"@,
        "protocol="@ + proto,
        "remoteport=443"@,
        "remoteip="@ + join_commas(doh_ips_spec()),
    ]
}

fn prefixed(p: &str, s: &str) -> (r: String)
    ensures
        r@ == p@ + s@,
{
    let mut v: Vec<char> = Vec::new();
    push_str(&mut v, p);
    push_str(&mut v, s);
    string_of(&v)
}

fn delete_cmd(name: &str) -> (r: Vec<String>)
    ensures
        str_views(r@) == delete_rule_cmd(name@),
{
    let mut c: Vec<String> = Vec::new();
    c.push("advfirewall".to_string());
    c.push("firewall".to_string());
    c.push("delete".to_string());
    c.push("rule".to_string());
    c.push(prefixed("name=", name));
    assert(str_views(c@) =~= delete_rule_cmd(name@));
    c
}

fn add_cmd(name: &str, proto: &str, ips: &str) -> (r: Vec<String>)
    requires
        ips@ == join_commas(doh_ips_spec()),
    ensures
        str_views(r@) == add_rule_cmd(name@, proto@),
{
    let mut c: Vec<String> = Vec::new();
    c.push("advfirewall".to_string());
    c.push("firewall".to_string());
    c.push("add".to_string());
    c.push("rule".to_string());
    c.push(prefixed("name=", name));
    c.push("dir=out".to_string());
    c.push("action=block".to_string());
    c.push(prefixed("protocol=", proto));
    c.push("remoteport=443".to_string());
    c.push(prefixed("remoteip=", ips));
    assert(str_views(c@) =~= add_rule_cmd(name@, proto@));
    c
}

/// The commands removing both rules (run on an authorized stop or
/// uninstall, and before re-adding them so no stale copy lingers).
pub fn delete_rule_commands() -> (r: Vec<Vec<String>>)
    ensures
        cmd_views(r@) == seq![delete_rule_cmd(RULE_TCP@), delete_rule_cmd(RULE_UDP@)],
{
    let mut r: Vec<Vec<String>> = Vec::new();
    r.push(delete_cmd(RULE_TCP));
    r.push(delete_cmd(RULE_UDP));
    assert(cmd_views(r@) =~= seq![delete_rule_cmd(RULE_TCP@), delete_rule_cmd(RULE_UDP@)]);
    r
}

/// The commands adding both rules.
pub fn add_rule_commands() -> (r: Vec<Vec<String>>)
    ensures
        cmd_views(r@) == seq![add_rule_cmd(RULE_TCP@, "TCP"@), add_rule_cmd(RULE_UDP@, "UDP"@)],
{
    let ips = join_with_commas(&doh_ips());
    let mut r: Vec<Vec<String>> = Vec::new();
    r.push(add_cmd(RULE_TCP, "TCP", ips.as_str()));
    r.push(add_cmd(RULE_UDP, "UDP", ips.as_str()));
    assert(cmd_views(r@) =~= seq![
        add_rule_cmd(RULE_TCP@, "TCP"@),
        add_rule_cmd(RULE_UDP@, "UDP"@),
    ]);
    r
}

} // verus!
