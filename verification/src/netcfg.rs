//! Adapter DNS management.
//!
//! - **Capture** each adapter's prior DNS + DHCP-vs-static origin from the
//!   registry `NameServer` values (empty means the family was DHCP-assigned);
//!   our own loopback sinkhole addresses are never captured.
//! - **Apply / restore** via `netsh`, keyed by the adapter's *current*
//!   connection name and separately for IPv4 (`127.0.0.1`) and IPv6 (`::1`);
//!   the IPv6 leg is the AAAA-leak fix.
//!
//! This module builds the `netsh` argument vectors; the service runs them,
//! in order, stopping at the first that fails.

use vstd::prelude::*;
use crate::fmt::{decimal, push_decimal};
use crate::sorting::str_views;
use crate::text::{
    chars_eq_str, chars_of, one_of, push_str, split_by, split_on, string_of, trim,
    trim_vec, views,
};

verus! {

pub const LOOPBACK_V4: &'static str = "127.0.0.1";

pub const LOOPBACK_V6: &'static str = "::1";

/// The interface type of the loopback pseudo-adapter.
pub const IF_TYPE_SOFTWARE_LOOPBACK: u32 = 24;

#[derive(Debug, Clone, Copy, PartialEq, Eq, Structural)]
pub enum IpFamily {
    V4,
    V6,
}

/// netsh's name for a family.
pub open spec fn family_name(f: IpFamily) -> Seq<char> {
    match f {
        IpFamily::V4 => "ipv4"@,
        IpFamily::V6 => "ipv6"@,
    }
}

/// The loopback sinkhole of a family.
pub open spec fn family_loopback(f: IpFamily) -> Seq<char> {
    match f {
        IpFamily::V4 => LOOPBACK_V4@,
        IpFamily::V6 => LOOPBACK_V6@,
    }
}

impl IpFamily {
    pub fn netsh(self) -> (r: &'static str)
        ensures
            r@ == family_name(self),
    {
        match self {
            IpFamily::V4 => "ipv4",
            IpFamily::V6 => "ipv6",
        }
    }

    pub fn loopback(self) -> (r: &'static str)
        ensures
            r@ == family_loopback(self),
    {
        match self {
            IpFamily::V4 => LOOPBACK_V4,
            IpFamily::V6 => LOOPBACK_V6,
        }
    }
}

/// An active network adapter we may repoint.
#[derive(Debug, Clone)]
pub struct Adapter {
    pub index: u32,
    /// Registry GUID, e.g. `{AABBCCDD-...}`.
    pub guid: String,
    /// Connection name (what netsh's `name=` wants), e.g. `Ethernet`.
    pub name: String,
    pub if_type: u32,
    pub is_up: bool,
}

impl Adapter {
    /// Adapters we manage: operationally up and not the loopback pseudo-NIC.
    /// VPN/tunnel/tethering adapters are intentionally kept.
    pub fn is_manageable(&self) -> (r: bool)
        ensures
            r == (self.is_up && self.if_type != IF_TYPE_SOFTWARE_LOOPBACK),
    {
        self.is_up && self.if_type != IF_TYPE_SOFTWARE_LOOPBACK
    }
}

/// The prior DNS configuration for one adapter, journaled so it can be
/// restored exactly. An empty family list means that family was DHCP-assigned.
#[derive(Debug, Clone)]
pub struct AdapterRestore {
    pub name: String,
    pub guid: String,
    pub v4: Vec<String>,
    pub v6: Vec<String>,
}

impl AdapterRestore {
    pub fn was_dhcp(list: &[String]) -> (r: bool)
        ensures
            r == (list@.len() == 0),
    {
        list.len() == 0
    }
}

/// The separators of a registry `NameServer` value.
pub open spec fn nameserver_seps() -> Seq<char> {
    seq![',', ' ', '\t']
}

/// The pieces of a value, each trimmed.
pub open spec fn trimmed_pieces(ps: Seq<Seq<char>>) -> Seq<Seq<char>> {
    ps.map_values(|p: Seq<char>| trim(p))
}

/// A captured server: non-empty and not one of our loopback sinkholes.
pub open spec fn is_prior_server() -> spec_fn(Seq<char>) -> bool {
    |s: Seq<char>| s.len() > 0 && s != LOOPBACK_V4@ && s != LOOPBACK_V6@
}

/// The servers a `NameServer` value lists, in order, without our sinkholes.
pub open spec fn nameserver_spec(raw: Seq<char>) -> Seq<Seq<char>> {
    trimmed_pieces(split_by(raw, one_of(nameserver_seps()))).filter(is_prior_server())
}

/// Split a registry `NameServer` value and drop our loopback sinkholes.
pub fn parse_nameserver(raw: &str) -> (r: Vec<String>)
    ensures
        str_views(r@) == nameserver_spec(raw@),
        forall|i: int|
            0 <= i < r@.len() ==> (#[trigger] r@[i])@ != LOOPBACK_V4@ && r@[i]@ != LOOPBACK_V6@
                && r@[i]@.len() > 0,
{
    let mut seps: Vec<char> = Vec::new();
    seps.push(',');
    seps.push(' ');
    seps.push('\t');
    assert(seps@ =~= nameserver_seps());
    let pieces = split_on(&chars_of(raw), &seps);
    let ghost ts = trimmed_pieces(views(pieces@));
    let ghost p = is_prior_server();
    let mut out: Vec<String> = Vec::new();
    let mut i: usize = 0;
    assert(ts.take(0).filter(p) =~= Seq::<Seq<char>>::empty()) by {
        reveal(Seq::filter);
    }
    while i < pieces.len()
        invariant
            i <= pieces.len(),
            ts == trimmed_pieces(views(pieces@)),
            p == is_prior_server(),
            str_views(out@) == ts.take(i as int).filter(p),
        decreases pieces.len() - i,
    {
        proof {
            assert(ts.take(i + 1) =~= ts.take(i as int).push(ts[i as int]));
            ts.take(i as int).lemma_filter_push(ts[i as int], p);
        }
        let t = trim_vec(&pieces[i]);
        assert(t@ == ts[i as int]);
        if t.len() > 0 && !chars_eq_str(&t, LOOPBACK_V4) && !chars_eq_str(&t, LOOPBACK_V6) {
            let ghost prev = out@;
            out.push(string_of(&t));
            assert(str_views(out@) =~= str_views(prev).push(t@));
        }
        i += 1;
    }
    assert(ts.take(pieces.len() as int) =~= ts);
    proof {
        ts.filter_lemma(p);
        assert forall|i: int| 0 <= i < out@.len() implies (#[trigger] out@[i])@ != LOOPBACK_V4@
            && out@[i]@ != LOOPBACK_V6@ && out@[i]@.len() > 0 by {
            assert(str_views(out@)[i] == out@[i]@);
            assert(p(ts.filter(p)[i]));
        }
    }
    out
}

/// An adapter's journal entry, from the raw registry `NameServer` values of
/// its IPv4 and IPv6 stacks (empty where the value is absent).
pub fn capture_restore(adapter: &Adapter, v4_raw: &str, v6_raw: &str) -> (r: AdapterRestore)
    ensures
        r.name@ == adapter.name@,
        r.guid@ == adapter.guid@,
        str_views(r.v4@) == nameserver_spec(v4_raw@),
        str_views(r.v6@) == nameserver_spec(v6_raw@),
{
    AdapterRestore {
        name: adapter.name.clone(),
        guid: adapter.guid.clone(),
        v4: parse_nameserver(v4_raw),
        v6: parse_nameserver(v6_raw),
    }
}

/// A batch of argument vectors as values.
pub open spec fn cmd_views(c: Seq<Vec<String>>) -> Seq<Seq<Seq<char>>> {
    c.map_values(|a: Vec<String>| str_views(a@))
}

/// The `set ... static` command for the primary server.
pub open spec fn set_cmd(f: IpFamily, name: Seq<char>, server: Seq<char>) -> Seq<Seq<char>> {
    seq![
        "interface"@,
        family_name(f),
        "set"@,
        "dnsservers"@,
        "name="@ + name,
        "static"@,
        server,
        "primary"@,
        "validate=no"@,
    ]
}

/// The `add` command for the server at (1-based) position `index`.
pub open spec fn add_cmd(f: IpFamily, name: Seq<char>, server: Seq<char>, index: nat) -> Seq<
    Seq<char>,
> {
    seq![
        "interface"@,
        family_name(f),
        "add"@,
        "dnsservers"@,
        "name="@ + name,
        "address="@ + server,
        "index="@ + decimal(index),
        "validate=no"@,
    ]
}

/// The commands setting a static server list: one `set` for the first
/// server, then one `add` per further server; nothing for an empty list.
pub open spec fn set_static_spec(f: IpFamily, name: Seq<char>, servers: Seq<Seq<char>>) -> Seq<
    Seq<Seq<char>>,
> {
    if servers.len() == 0 {
        Seq::empty()
    } else {
        seq![set_cmd(f, name, servers[0])] + Seq::new(
            (servers.len() - 1) as nat,
            |i: int| add_cmd(f, name, servers[i + 1], (i + 2) as nat),
        )
    }
}

/// The command reverting a family to DHCP-assigned DNS.
pub open spec fn dhcp_cmd(f: IpFamily, name: Seq<char>) -> Seq<Seq<char>> {
    seq!["interface"@, family_name(f), "set"@, "dnsservers"@, "name="@ + name, "dhcp"@]
}

fn lit(s: &str) -> (r: String)
    ensures
        r@ == s@,
{
    s.to_string()
}

fn prefixed(p: &str, s: &str) -> (r: String)
    ensures
        r@ == p@ + s@,
{
    let mut v: Vec<char> = Vec::new();
    push_str(&mut v, p);
    push_str(&mut v, s);
    string_of(&v)
}

/// Build the netsh argument vectors to set a static DNS server list.
pub fn netsh_set_static(fam: IpFamily, name: &str, servers: &[String]) -> (r: Vec<Vec<String>>)
    ensures
        cmd_views(r@) == set_static_spec(fam, name@, str_views(servers@)),
{
    let ghost sv = str_views(servers@);
    let mut cmds: Vec<Vec<String>> = Vec::new();
    if servers.len() == 0 {
        assert(cmd_views(cmds@) =~= set_static_spec(fam, name@, sv));
        return cmds;
    }
    let f = fam.netsh();
    let mut first: Vec<String> = Vec::new();
    first.push(lit("interface"));
    first.push(lit(f));
    first.push(lit("set"));
    first.push(lit("dnsservers"));
    first.push(prefixed("name=", name));
    first.push(lit("static"));
    first.push(servers[0].clone());
    first.push(lit("primary"));
    first.push(lit("validate=no"));
    assert(str_views(first@) =~= set_cmd(fam, name@, sv[0]));
    cmds.push(first);
    let mut i: usize = 1;
    while i < servers.len()
        invariant
            1 <= i <= servers.len(),
            sv == str_views(servers@),
            f@ == family_name(fam),
            cmd_views(cmds@) == set_static_spec(fam, name@, sv.take(i as int)),
        decreases servers.len() - i,
    {
        let mut idx: Vec<char> = Vec::new();
        push_str(&mut idx, "index=");
        push_decimal(&mut idx, (i + 1) as u64);
        let mut c: Vec<String> = Vec::new();
        c.push(lit("interface"));
        c.push(lit(f));
        c.push(lit("add"));
        c.push(lit("dnsservers"));
        c.push(prefixed("name=", name));
        c.push(prefixed("address=", servers[i].as_str()));
        c.push(string_of(&idx));
        c.push(lit("validate=no"));
        assert(str_views(c@) =~= add_cmd(fam, name@, sv[i as int], (i + 1) as nat));
        let ghost prev = cmds@;
        cmds.push(c);
        proof {
            assert(cmd_views(cmds@) =~= cmd_views(prev).push(
                add_cmd(fam, name@, sv[i as int], (i + 1) as nat),
            ));
            assert(sv.take(i + 1)[0] == sv[0]);
            assert(set_static_spec(fam, name@, sv.take(i + 1)) =~= set_static_spec(
                fam,
                name@,
                sv.take(i as int),
            ).push(add_cmd(fam, name@, sv[i as int], (i + 1) as nat)));
        }
        i += 1;
    }
    assert(sv.take(servers.len() as int) =~= sv);
    cmds
}

/// Build the netsh argument vector to revert a family to DHCP-assigned DNS.
pub fn netsh_set_dhcp(fam: IpFamily, name: &str) -> (r: Vec<String>)
    ensures
        str_views(r@) == dhcp_cmd(fam, name@),
{
    let mut c: Vec<String> = Vec::new();
    c.push(lit("interface"));
    c.push(lit(fam.netsh()));
    c.push(lit("set"));
    c.push(lit("dnsservers"));
    c.push(prefixed("name=", name));
    c.push(lit("dhcp"));
    assert(str_views(c@) =~= dhcp_cmd(fam, name@));
    c
}

/// The commands pointing one adapter's IPv4 and IPv6 DNS at the loopback
/// sinkhole, IPv4 first.
pub fn set_loopback(name: &str) -> (r: Vec<Vec<String>>)
    ensures
        cmd_views(r@) == set_static_spec(IpFamily::V4, name@, seq![LOOPBACK_V4@])
            + set_static_spec(IpFamily::V6, name@, seq![LOOPBACK_V6@]),
{
    let mut out: Vec<Vec<String>> = Vec::new();
    let mut v4: Vec<String> = Vec::new();
    v4.push(lit(IpFamily::V4.loopback()));
    let mut v6: Vec<String> = Vec::new();
    v6.push(lit(IpFamily::V6.loopback()));
    assert(str_views(v4@) =~= seq![LOOPBACK_V4@]);
    assert(str_views(v6@) =~= seq![LOOPBACK_V6@]);
    let a = netsh_set_static(IpFamily::V4, name, v4.as_slice());
    let b = netsh_set_static(IpFamily::V6, name, v6.as_slice());
    append_cmds(&mut out, a);
    append_cmds(&mut out, b);
    assert(cmd_views(out@) =~= set_static_spec(IpFamily::V4, name@, seq![LOOPBACK_V4@])
        + set_static_spec(IpFamily::V6, name@, seq![LOOPBACK_V6@]));
    out
}

fn append_cmds(out: &mut Vec<Vec<String>>, more: Vec<Vec<String>>)
    ensures
        cmd_views(final(out)@) == cmd_views(old(out)@) + cmd_views(more@),
{
    let mut more = more;
    let ghost a = out@;
    let ghost b = more@;
    out.append(&mut more);
    assert(cmd_views(out@) =~= cmd_views(a) + cmd_views(b));
}

/// The commands for one family of a restore: DHCP when nothing was captured,
/// else the captured static list.
pub open spec fn restore_family(f: IpFamily, name: Seq<char>, list: Seq<Seq<char>>) -> Seq<
    Seq<Seq<char>>,
> {
    if list.len() == 0 {
        seq![dhcp_cmd(f, name)]
    } else {
        set_static_spec(f, name, list)
    }
}

/// Repointing an adapter sets each family to the loopback resolver alone:
/// `127.0.0.1` as the only IPv4 server, then `::1` as the only IPv6 one.
pub proof fn lemma_loopback_commands(name: Seq<char>)
    ensures
        set_static_spec(IpFamily::V4, name, seq![LOOPBACK_V4@]) + set_static_spec(
            IpFamily::V6,
            name,
            seq![LOOPBACK_V6@],
        ) == seq![set_cmd(IpFamily::V4, name, "127.0.0.1"@), set_cmd(IpFamily::V6, name, "::1"@)],
{
    let a = set_static_spec(IpFamily::V4, name, seq![LOOPBACK_V4@]);
    let b = set_static_spec(IpFamily::V6, name, seq![LOOPBACK_V6@]);
    assert(a =~= seq![set_cmd(IpFamily::V4, name, LOOPBACK_V4@)]);
    assert(b =~= seq![set_cmd(IpFamily::V6, name, LOOPBACK_V6@)]);
    assert(a + b =~= seq![set_cmd(IpFamily::V4, name, "127.0.0.1"@), set_cmd(IpFamily::V6, name, "::1"@)]);
}

/// Restoring a family puts back exactly what was journaled: with no server
/// captured, one command returning it to DHCP; otherwise one command per
/// captured server, in order: a `set` of the first as primary, then an
/// `add` of each further one at its own 1-based position.
pub proof fn lemma_restore_puts_back_every_server(f: IpFamily, name: Seq<char>, list: Seq<Seq<char>>)
    ensures
        list.len() == 0 ==> restore_family(f, name, list) == seq![dhcp_cmd(f, name)],
        list.len() > 0 ==> restore_family(f, name, list).len() == list.len(),
        list.len() > 0 ==> restore_family(f, name, list)[0] == set_cmd(f, name, list[0]),
        forall|i: int|
            1 <= i < list.len() ==> #[trigger] restore_family(f, name, list)[i] == add_cmd(
                f,
                name,
                list[i],
                (i + 1) as nat,
            ),
{
    if list.len() > 0 {
        let r = restore_family(f, name, list);
        assert forall|i: int| 1 <= i < list.len() implies #[trigger] r[i] == add_cmd(
            f,
            name,
            list[i],
            (i + 1) as nat,
        ) by {
            assert(r[i] == add_cmd(f, name, list[(i - 1) + 1], ((i - 1) + 2) as nat));
        }
    }
}

/// The commands restoring one adapter to its journaled prior DNS (DHCP or
/// static, per family), IPv4 first.
pub fn restore(r: &AdapterRestore) -> (c: Vec<Vec<String>>)
    ensures
        cmd_views(c@) == restore_family(IpFamily::V4, r.name@, str_views(r.v4@)) + restore_family(
            IpFamily::V6,
            r.name@,
            str_views(r.v6@),
        ),
{
    let mut cmds: Vec<Vec<String>> = Vec::new();
    if AdapterRestore::was_dhcp(r.v4.as_slice()) {
        cmds.push(netsh_set_dhcp(IpFamily::V4, r.name.as_str()));
    } else {
        let a = netsh_set_static(IpFamily::V4, r.name.as_str(), r.v4.as_slice());
        append_cmds(&mut cmds, a);
    }
    let ghost mid = cmd_views(cmds@);
    assert(mid =~= restore_family(IpFamily::V4, r.name@, str_views(r.v4@)));
    if AdapterRestore::was_dhcp(r.v6.as_slice()) {
        cmds.push(netsh_set_dhcp(IpFamily::V6, r.name.as_str()));
    } else {
        let b = netsh_set_static(IpFamily::V6, r.name.as_str(), r.v6.as_slice());
        append_cmds(&mut cmds, b);
    }
    assert(cmd_views(cmds@) =~= restore_family(IpFamily::V4, r.name@, str_views(r.v4@))
        + restore_family(IpFamily::V6, r.name@, str_views(r.v6@)));
    cmds
}

// ---------------------------------------------------------------------------
// Running a batch
// ---------------------------------------------------------------------------

/// What a batch runner does next.
#[derive(Debug, Clone, Copy, PartialEq, Eq, Structural)]
pub enum BatchStep {
    /// Run the command at this position.
    Run(usize),
    /// Every command ran and succeeded.
    Done,
    /// The last command failed: stop here.
    Abort,
}

/// The next step for a batch of `len` commands run in order, after `ran` of
/// them, the last of which failed or not.
pub open spec fn batch_step_spec(len: nat, ran: nat, last_failed: bool) -> BatchStep {
    if ran > 0 && last_failed {
        BatchStep::Abort
    } else if ran < len {
        BatchStep::Run(ran as usize)
    } else {
        BatchStep::Done
    }
}

/// Decide the next step of running a batch (the runner reports whether the
/// command it last ran failed).
pub fn batch_step(len: usize, ran: usize, last_failed: bool) -> (r: BatchStep)
    requires
        ran <= len,
    ensures
        r == batch_step_spec(len as nat, ran as nat, last_failed),
{
    if ran > 0 && last_failed {
        BatchStep::Abort
    } else if ran < len {
        BatchStep::Run(ran)
    } else {
        BatchStep::Done
    }
}

/// Where following `batch_step` leads, when command `i` succeeds exactly
/// when `ok[i]`, from `ran` commands run: how many commands ran, and
/// whether the batch succeeded.
pub open spec fn batch_outcome(ok: Seq<bool>, ran: nat) -> (nat, bool)
    decreases ok.len() - ran,
{
    match batch_step_spec(ok.len(), ran, ran > 0 && !ok[ran - 1]) {
        BatchStep::Abort => (ran, false),
        BatchStep::Done => (ran, true),
        BatchStep::Run(_) => if ran < ok.len() {
            batch_outcome(ok, ran + 1)
        } else {
            (ran, true)
        },
    }
}

proof fn lemma_batch_from(ok: Seq<bool>, ran: nat)
    requires
        ran <= ok.len(),
        forall|j: int| 0 <= j && j + 1 < ran ==> #[trigger] ok[j],
    ensures
        batch_outcome(ok, ran).1 <==> (forall|j: int| 0 <= j < ok.len() ==> #[trigger] ok[j]),
        batch_outcome(ok, ran).1 ==> batch_outcome(ok, ran).0 == ok.len(),
        !batch_outcome(ok, ran).1 ==> {
            let n = batch_outcome(ok, ran).0;
            &&& 1 <= n <= ok.len()
            &&& !ok[n - 1]
            &&& forall|j: int| 0 <= j < n - 1 ==> #[trigger] ok[j]
        },
    decreases ok.len() - ran,
{
    if ran > 0 && !ok[ran - 1] {
    } else if ran < ok.len() {
        lemma_batch_from(ok, ran + 1);
    } else {
        assert forall|j: int| 0 <= j < ok.len() implies #[trigger] ok[j] by {
            if j + 1 < ran {
            } else {
                assert(j == ran - 1);
            }
        }
    }
}

/// A batch run by `batch_step` runs its commands in order and stops at the
/// first failure: it succeeds exactly when every command succeeds (and then
/// all ran); otherwise the commands that ran are those up to and including
/// the first failing one.
pub proof fn lemma_batch_stops_at_first_failure(ok: Seq<bool>)
    ensures
        batch_outcome(ok, 0).1 <==> (forall|j: int| 0 <= j < ok.len() ==> #[trigger] ok[j]),
        batch_outcome(ok, 0).1 ==> batch_outcome(ok, 0).0 == ok.len(),
        !batch_outcome(ok, 0).1 ==> {
            let n = batch_outcome(ok, 0).0;
            &&& 1 <= n <= ok.len()
            &&& !ok[n - 1]
            &&& forall|j: int| 0 <= j < n - 1 ==> #[trigger] ok[j]
        },
{
    lemma_batch_from(ok, 0);
}

} // verus!
