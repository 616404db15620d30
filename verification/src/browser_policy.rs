//! Browser DoH lockdown via enterprise policy keys.
//!
//! Chromium and Firefox can tunnel lookups around the local resolver with
//! built-in DNS-over-HTTPS. The supported way to keep browser lookups on
//! system DNS is the browsers' own enterprise policies under
//! `HKLM\SOFTWARE\Policies`: honest and visible, the browsers display
//! "managed by your organization".
//!
//! Anything changed is journaled first (exact prior values, and which keys
//! were created), so removal restores precisely the pre-Sanctum state and
//! never clobbers a real organization's policy. The registry itself is read
//! and written by the service; this module holds the targets, the journal,
//! and every decision about them.

use vstd::prelude::*;
use crate::sorting::str_views;
use crate::text::{chars_eq_str, chars_of, push_str, string_of};

verus! {

/// The registry type code of a string value.
pub const REG_SZ: u32 = 1;

/// The registry type code of a 32-bit value.
pub const REG_DWORD: u32 = 4;

/// One registry value to enforce.
#[derive(Clone, Copy, Debug, PartialEq, Eq, Structural)]
pub enum Desired {
    /// The string `"off"`.
    Off,
    /// A 32-bit number.
    Dword(u32),
}

/// Journal of what a single value looked like before it was touched.
#[derive(Clone, Debug)]
pub struct PriorValue {
    pub key: String,
    pub name: String,
    /// Raw bytes + type of the pre-existing value, or None if it didn't exist.
    pub prior: Option<(u32, Vec<u8>)>,
}

/// Journal for a full apply: every value set, plus every key created
/// (deepest last, so removal can delete them in reverse when left empty).
#[derive(Clone, Debug)]
pub struct Journal {
    pub values: Vec<PriorValue>,
    pub created_keys: Vec<String>,
}

impl Journal {
    pub fn new() -> (r: Self)
        ensures
            r.values@.len() == 0,
            r.created_keys@.len() == 0,
    {
        Journal { values: Vec::new(), created_keys: Vec::new() }
    }
}

/// The (key, name) pairs a journal records.
pub open spec fn journaled(values: Seq<PriorValue>) -> Seq<(Seq<char>, Seq<char>)> {
    values.map_values(|p: PriorValue| (p.key@, p.name@))
}

/// Each value and each created key is recorded at most once.
pub open spec fn journal_wf(j: Journal) -> bool {
    journaled(j.values@).no_duplicates() && str_views(j.created_keys@).no_duplicates()
}

/// The UTF-16 code units of little-endian byte pairs (a trailing odd byte
/// is ignored).
pub open spec fn le_units(b: Seq<u8>) -> Seq<u16> {
    Seq::new(b.len() / 2, |i: int| (b[2 * i] as int + 256 * (b[2 * i + 1] as int)) as u16)
}

/// `units` without trailing zero units.
pub open spec fn strip_nuls(units: Seq<u16>) -> Seq<u16>
    decreases units.len(),
{
    if units.len() > 0 && units.last() == 0 {
        strip_nuls(units.drop_last())
    } else {
        units
    }
}

/// The string `"off"` as UTF-16 code units.
pub open spec fn off_units() -> Seq<u16> {
    seq![0x6fu16, 0x66, 0x66]
}

/// Whether an existing value (type code and raw bytes) is exactly the one
/// Sanctum sets: `REG_SZ` text reading `off` (trailing NULs ignored), or a
/// four-byte little-endian `REG_DWORD` equal to the number.
pub open spec fn matches_spec(vtype: u32, bytes: Seq<u8>, want: Desired) -> bool {
    match want {
        Desired::Off => vtype == REG_SZ && strip_nuls(le_units(bytes)) == off_units(),
        Desired::Dword(d) => vtype == REG_DWORD && bytes.len() == 4 && bytes[0] as int + 256
            * (bytes[1] as int) + 65536 * (bytes[2] as int) + 16777216 * (bytes[3] as int) == d,
    }
}

/// Whether an existing value is exactly the one Sanctum sets.
pub fn desired_matches(vtype: u32, bytes: &Vec<u8>, want: Desired) -> (r: bool)
    ensures
        r == matches_spec(vtype, bytes@, want),
{
    match want {
        Desired::Off => {
            if vtype != REG_SZ {
                return false;
            }
            let n = bytes.len() / 2;
            let ghost us = le_units(bytes@);
            let mut k: usize = n;
            assert(us.take(n as int) =~= us);
            while k > 0 && bytes[2 * (k - 1)] == 0 && bytes[2 * (k - 1) + 1] == 0
                invariant
                    k <= n,
                    n == bytes.len() / 2,
                    us == le_units(bytes@),
                    strip_nuls(us) == strip_nuls(us.take(k as int)),
                decreases k,
            {
                proof {
                    let t = us.take(k as int);
                    assert(t.last() == us[k - 1]);
                    assert(t.drop_last() =~= us.take(k - 1));
                }
                k -= 1;
            }
            proof {
                let t = us.take(k as int);
                if k > 0 {
                    assert(t.last() == us[k - 1]);
                    assert(us[k - 1] != 0) by {
                        let a = bytes@[2 * (k - 1)] as int;
                        let b = bytes@[2 * (k - 1) + 1] as int;
                        assert(a + 256 * b != 0);
                    }
                }
                assert(us.take(n as int) =~= us);
            }
            if k != 3 {
                proof {
                    assert(strip_nuls(us.take(k as int)) == us.take(k as int));
                }
                return false;
            }
            let u0: u32 = bytes[0] as u32 + 256 * (bytes[1] as u32);
            let u1: u32 = bytes[2] as u32 + 256 * (bytes[3] as u32);
            let u2: u32 = bytes[4] as u32 + 256 * (bytes[5] as u32);
            proof {
                let t = us.take(3);
                assert(strip_nuls(t) == t);
                assert(t[0] == u0 && t[1] == u1 && t[2] == u2);
                if u0 == 0x6f && u1 == 0x66 && u2 == 0x66 {
                    assert(t =~= off_units());
                } else {
                    assert(t != off_units()) by {
                        if t == off_units() {
                            assert(t[0] == off_units()[0]);
                            assert(t[1] == off_units()[1]);
                            assert(t[2] == off_units()[2]);
                        }
                    }
                }
            }
            u0 == 0x6f && u1 == 0x66 && u2 == 0x66
        },
        Desired::Dword(d) => {
            if vtype != REG_DWORD || bytes.len() != 4 {
                return false;
            }
            let v: u64 = bytes[0] as u64 + 256 * (bytes[1] as u64) + 65536 * (bytes[2] as u64)
                + 16777216 * (bytes[3] as u64);
            v == d as u64
        },
    }
}

/// A policy target: a key path (relative to the hive root) plus the values
/// that disable DoH for that browser.
pub open spec fn targets_spec() -> Seq<(Seq<char>, Seq<(Seq<char>, Desired)>)> {
    let chromium = seq![("DnsOverHttpsMode"@, Desired::Off)];
    let firefox = seq![("Enabled"@, Desired::Dword(0)), ("Locked"@, Desired::Dword(1))];
    seq![
        ("SOFTWARE\\Policies\\Google\\Chrome"@, chromium),
        ("SOFTWARE\\Policies\\Microsoft\\Edge"@, chromium),
        ("SOFTWARE\\Policies\\BraveSoftware\\Brave"@, chromium),
        ("SOFTWARE\\Policies\\Vivaldi"@, chromium),
        ("SOFTWARE\\Policies\\Mozilla\\Firefox\\DNSOverHTTPS"@, firefox),
    ]
}

/// A target as values.
pub open spec fn target_view(t: (String, Vec<(String, Desired)>)) -> (
    Seq<char>,
    Seq<(Seq<char>, Desired)>,
) {
    (t.0@, t.1@.map_values(|v: (String, Desired)| (v.0@, v.1)))
}

fn chromium_values() -> (r: Vec<(String, Desired)>)
    ensures
        r@.map_values(|v: (String, Desired)| (v.0@, v.1)) == seq![("DnsOverHttpsMode"@, Desired::Off)],
{
    let mut v: Vec<(String, Desired)> = Vec::new();
    v.push(("DnsOverHttpsMode".to_string(), Desired::Off));
    assert(v@.map_values(|v: (String, Desired)| (v.0@, v.1)) =~= seq![
        ("DnsOverHttpsMode"@, Desired::Off),
    ]);
    v
}

/// The browsers whose DoH is turned off: Chrome, Edge, Brave, Vivaldi (all
/// on the Chromium policy schema) and Firefox.
pub fn targets() -> (r: Vec<(String, Vec<(String, Desired)>)>)
    ensures
        r@.map_values(|t: (String, Vec<(String, Desired)>)| target_view(t)) == targets_spec(),
{
    let mut out: Vec<(String, Vec<(String, Desired)>)> = Vec::new();
    out.push(("SOFTWARE\\Policies\\Google\\Chrome".to_string(), chromium_values()));
    out.push(("SOFTWARE\\Policies\\Microsoft\\Edge".to_string(), chromium_values()));
    out.push(("SOFTWARE\\Policies\\BraveSoftware\\Brave".to_string(), chromium_values()));
    out.push(("SOFTWARE\\Policies\\Vivaldi".to_string(), chromium_values()));
    let mut ff: Vec<(String, Desired)> = Vec::new();
    ff.push(("Enabled".to_string(), Desired::Dword(0)));
    ff.push(("Locked".to_string(), Desired::Dword(1)));
    assert(ff@.map_values(|v: (String, Desired)| (v.0@, v.1)) =~= seq![
        ("Enabled"@, Desired::Dword(0)),
        ("Locked"@, Desired::Dword(1)),
    ]);
    out.push(("SOFTWARE\\Policies\\Mozilla\\Firefox\\DNSOverHTTPS".to_string(), ff));
    assert(out@.map_values(|t: (String, Vec<(String, Desired)>)| target_view(t)) =~= targets_spec());
    out
}

/// `key` under `prefix` (a prefix of the hive root; empty for the root).
pub open spec fn join_key_spec(prefix: Seq<char>, key: Seq<char>) -> Seq<char> {
    if prefix.len() == 0 {
        key
    } else {
        prefix + seq!['\\'] + key
    }
}

pub fn join_key(prefix: &str, key: &str) -> (r: String)
    ensures
        r@ == join_key_spec(prefix@, key@),
{
    if prefix.is_empty() {
        key.to_string()
    } else {
        let mut v: Vec<char> = Vec::new();
        push_str(&mut v, prefix);
        v.push('\\');
        push_str(&mut v, key);
        string_of(&v)
    }
}

/// Record that `probe` did not exist before it was created, unless it is
/// already recorded; an existing key is left out.
pub fn note_created(journal: &mut Journal, probe: &str, existed: bool)
    requires
        journal_wf(*old(journal)),
    ensures
        journal_wf(*final(journal)),
        final(journal).values@ == old(journal).values@,
        str_views(final(journal).created_keys@) == if existed || str_views(
            old(journal).created_keys@,
        ).contains(probe@) {
            str_views(old(journal).created_keys@)
        } else {
            str_views(old(journal).created_keys@).push(probe@)
        },
{
    if existed {
        return ;
    }
    let ghost ks = str_views(journal.created_keys@);
    let mut i: usize = 0;
    while i < journal.created_keys.len()
        invariant
            i <= journal.created_keys.len(),
            ks == str_views(journal.created_keys@),
            journal.created_keys@ == old(journal).created_keys@,
            journal.values@ == old(journal).values@,
            journal_wf(*old(journal)),
            forall|k: int| 0 <= k < i ==> ks[k] != probe@,
        decreases journal.created_keys.len() - i,
    {
        if chars_eq_str(&chars_of(journal.created_keys[i].as_str()), probe) {
            assert(ks[i as int] == probe@);
            return ;
        }
        i += 1;
    }
    journal.created_keys.push(probe.to_string());
    assert(str_views(journal.created_keys@) =~= ks.push(probe@));
}

/// Record the prior state of value `name` under `key` before it is set,
/// unless it already holds exactly the value Sanctum sets or is already
/// recorded (so a re-apply never overwrites the original entry).
pub fn note_value(
    journal: &mut Journal,
    key: &str,
    name: &str,
    existing: Option<(u32, Vec<u8>)>,
    want: Desired,
)
    requires
        journal_wf(*old(journal)),
    ensures
        journal_wf(*final(journal)),
        final(journal).created_keys@ == old(journal).created_keys@,
        ({
            let ours = match existing {
                Some(v) => matches_spec(v.0, v.1@, want),
                None => false,
            };
            let seen = journaled(old(journal).values@).contains((key@, name@));
            if ours || seen {
                final(journal).values@ == old(journal).values@
            } else {
                &&& final(journal).values@.len() == old(journal).values@.len() + 1
                &&& final(journal).values@.take(old(journal).values@.len() as int)
                    == old(journal).values@
                &&& final(journal).values@.last().key@ == key@
                &&& final(journal).values@.last().name@ == name@
                &&& match (final(journal).values@.last().prior, existing) {
                    (Some(p), Some(e)) => p.0 == e.0 && p.1@ == e.1@,
                    (None, None) => true,
                    _ => false,
                }
            }
        }),
{
    let ours = match &existing {
        Some(v) => desired_matches(v.0, &v.1, want),
        None => false,
    };
    if ours {
        return ;
    }
    let ghost js = journaled(journal.values@);
    let mut i: usize = 0;
    while i < journal.values.len()
        invariant
            i <= journal.values.len(),
            js == journaled(journal.values@),
            journal.created_keys@ == old(journal).created_keys@,
            journal.values@ == old(journal).values@,
            journal_wf(*old(journal)),
            forall|k: int| 0 <= k < i ==> js[k] != (key@, name@),
        decreases journal.values.len() - i,
    {
        let p = &journal.values[i];
        if chars_eq_str(&chars_of(p.key.as_str()), key) && chars_eq_str(
            &chars_of(p.name.as_str()),
            name,
        ) {
            assert(js[i as int] == (key@, name@));
            return ;
        }
        i += 1;
    }
    let ghost before = journal.values@;
    journal.values.push(PriorValue { key: key.to_string(), name: name.to_string(), prior: existing });
    proof {
        assert(journaled(journal.values@) =~= js.push((key@, name@)));
        assert(journal.values@.take(before.len() as int) =~= before);
    }
}

/// How deep a key path is: the number of `\` in it.
pub open spec fn depth(k: Seq<char>) -> nat
    decreases k.len(),
{
    if k.len() == 0 {
        0
    } else {
        depth(k.drop_last()) + if k.last() == '\\' {
            1nat
        } else {
            0nat
        }
    }
}

fn depth_exec(k: &str) -> (r: usize)
    ensures
        r == depth(k@),
{
    let v = chars_of(k);
    let mut n: usize = 0;
    let mut i: usize = 0;
    while i < v.len()
        invariant
            i <= v.len(),
            v@ == k@,
            n == depth(v@.take(i as int)),
            n <= i,
        decreases v.len() - i,
    {
        assert(v@.take(i + 1).drop_last() =~= v@.take(i as int));
        if v[i] == '\\' {
            n += 1;
        }
        i += 1;
    }
    assert(v@.take(v.len() as int) =~= v@);
    n
}

/// The predicate "is a key at depth `d`".
pub open spec fn at_depth(d: nat) -> spec_fn(Seq<char>) -> bool {
    |k: Seq<char>| depth(k) == d
}

/// Inserting `x` before a tail of shallower keys adds it to its own depth
/// level, at the end, and changes no other level.
proof fn lemma_level_insert(sv: Seq<Seq<char>>, p: int, x: Seq<char>, e: nat)
    requires
        0 <= p <= sv.len(),
        forall|j: int| p <= j < sv.len() ==> depth(#[trigger] sv[j]) < depth(x),
    ensures
        sv.insert(p, x).filter(at_depth(e)) == if depth(x) == e {
            sv.filter(at_depth(e)).push(x)
        } else {
            sv.filter(at_depth(e))
        },
{
    let f = at_depth(e);
    let a = sv.take(p);
    let b = sv.skip(p);
    assert(sv.insert(p, x) =~= a.push(x) + b);
    assert(sv =~= a + b);
    Seq::filter_distributes_over_add(a.push(x), b, f);
    Seq::filter_distributes_over_add(a, b, f);
    a.lemma_filter_push(x, f);
    if depth(x) == e {
        b.filter_lemma(f);
        assert(b.filter(f).len() == 0) by {
            if b.filter(f).len() > 0 {
                let y = b.filter(f)[0];
                assert(f(y));
                lemma_filtered_from(b, f, 0);
            }
        }
        assert(b.filter(f) =~= Seq::<Seq<char>>::empty());
    }
}

/// Every element a filter keeps comes from the filtered sequence.
proof fn lemma_filtered_from(b: Seq<Seq<char>>, f: spec_fn(Seq<char>) -> bool, i: int)
    requires
        0 <= i < b.filter(f).len(),
    ensures
        b.contains(b.filter(f)[i]),
    decreases b.len(),
{
    reveal(Seq::filter);
    if b.len() > 0 {
        let t = b.drop_last();
        if f(b.last()) {
            assert(b.filter(f) == t.filter(f).push(b.last()));
            if i < t.filter(f).len() {
                lemma_filtered_from(t, f, i);
                let k = choose|k: int| 0 <= k < t.len() && t[k] == t.filter(f)[i];
                assert(b[k] == t[k]);
            } else {
                assert(b[b.len() - 1] == b.last());
            }
        } else {
            assert(b.filter(f) == t.filter(f));
            lemma_filtered_from(t, f, i);
            let k = choose|k: int| 0 <= k < t.len() && t[k] == t.filter(f)[i];
            assert(b[k] == t[k]);
        }
    }
}

/// The created keys in the order removal tries them: deepest first, keys of
/// equal depth in journal order (so children always go before parents).
pub fn removal_order(keys: &Vec<String>) -> (r: Vec<String>)
    ensures
        str_views(r@).to_multiset() == str_views(keys@).to_multiset(),
        forall|i: int, j: int|
            0 <= i < j < r@.len() ==> depth((#[trigger] r@[i])@) >= depth((#[trigger] r@[j])@),
        forall|e: nat| #[trigger]
            str_views(r@).filter(at_depth(e)) == str_views(keys@).filter(at_depth(e)),
{
    let mut out: Vec<String> = Vec::new();
    let mut ds: Vec<usize> = Vec::new();
    let mut i: usize = 0;
    broadcast use vstd::seq_lib::group_to_multiset_ensures;

    while i < keys.len()
        invariant
            i <= keys.len(),
            out@.len() == ds@.len(),
            forall|k: int| 0 <= k < ds@.len() ==> ds@[k] == depth((#[trigger] out@[k])@),
            str_views(out@).to_multiset() == str_views(keys@.take(i as int)).to_multiset(),
            forall|a: int, b: int|
                0 <= a < b < out@.len() ==> depth((#[trigger] out@[a])@) >= depth(
                    (#[trigger] out@[b])@,
                ),
            forall|e: nat| #[trigger]
                str_views(out@).filter(at_depth(e)) == str_views(keys@.take(i as int)).filter(
                    at_depth(e),
                ),
        decreases keys.len() - i,
    {
        let d = depth_exec(keys[i].as_str());
        // Insert after every key at least as deep (stable).
        let mut p: usize = 0;
        while p < ds.len() && ds[p] >= d
            invariant
                p <= ds@.len(),
                out@.len() == ds@.len(),
                forall|k: int| 0 <= k < ds@.len() ==> ds@[k] == depth((#[trigger] out@[k])@),
                forall|k: int| 0 <= k < p ==> ds@[k] >= d,
            decreases ds.len() - p,
        {
            p += 1;
        }
        let ghost before = out@;
        let ghost dsb = ds@;
        let ghost sv = str_views(before);
        let s = keys[i].clone();
        out.insert(p, s);
        ds.insert(p, d);
        proof {
            assert(str_views(out@) =~= sv.insert(p as int, keys@[i as int]@));
            vstd::seq_lib::to_multiset_insert(sv, p as int, keys@[i as int]@);
            let tk = str_views(keys@.take(i as int));
            vstd::seq_lib::to_multiset_build(tk, keys@[i as int]@);
            assert(str_views(keys@.take(i + 1)) =~= str_views(keys@.take(i as int)).push(
                keys@[i as int]@,
            ));
            assert(str_views(out@).to_multiset() =~= str_views(keys@.take(i + 1)).to_multiset());
            let x = keys@[i as int]@;
            assert(d == depth(x));
            assert forall|j: int| p <= j < sv.len() implies depth(#[trigger] sv[j]) < depth(x) by {
                assert(sv[j] == before[j]@);
                assert(dsb[p as int] < d);
                if j > p {
                    assert(depth(before[p as int]@) >= depth(before[j]@));
                }
            }
            assert forall|e: nat| #[trigger]
                str_views(out@).filter(at_depth(e)) == str_views(keys@.take(i + 1)).filter(
                    at_depth(e),
                ) by {
                lemma_level_insert(sv, p as int, x, e);
                str_views(keys@.take(i as int)).lemma_filter_push(x, at_depth(e));
            }
            assert forall|a: int, b: int| 0 <= a < b < out@.len() implies depth(
                (#[trigger] out@[a])@,
            ) >= depth((#[trigger] out@[b])@) by {
                if b < p {
                    assert(out@[a] == before[a] && out@[b] == before[b]);
                } else if b == p {
                    assert(out@[a] == before[a]);
                    assert(dsb[a] >= d);
                } else if a < p {
                    assert(out@[a] == before[a] && out@[b] == before[b - 1]);
                } else if a == p {
                    assert(out@[b] == before[b - 1]);
                    assert(dsb[p as int] < d);
                    assert(depth(before[p as int]@) >= depth(before[b - 1]@));
                } else {
                    assert(out@[a] == before[a - 1] && out@[b] == before[b - 1]);
                }
            }
        }
        i += 1;
    }
    assert(keys@.take(keys.len() as int) =~= keys@);
    out
}

/// The keys from the top of `path` down to `path` itself: the prefix ending
/// before each backslash, then the whole path (`A`, `A\B`, `A\B\C`).
pub open spec fn key_prefixes_spec(path: Seq<char>) -> Seq<Seq<char>>
    decreases path.len(),
{
    if path.len() == 0 {
        seq![path]
    } else {
        let before = key_prefixes_spec(path.drop_last());
        if path.last() == '\\' {
            before.push(path)
        } else {
            before.drop_last().push(path)
        }
    }
}

proof fn lemma_key_prefixes_last(path: Seq<char>)
    ensures
        key_prefixes_spec(path).len() >= 1,
        key_prefixes_spec(path).last() == path,
    decreases path.len(),
{
    if path.len() > 0 {
        lemma_key_prefixes_last(path.drop_last());
    }
}

/// The keys from the top of `path` down to it, as `apply` probes them.
pub fn key_prefixes(path: &str) -> (r: Vec<String>)
    ensures
        str_views(r@) == key_prefixes_spec(path@),
{
    let v = chars_of(path);
    let mut out: Vec<String> = Vec::new();
    let mut i: usize = 0;
    proof {
        assert(v@.take(0) =~= Seq::<char>::empty());
        assert(str_views(out@) =~= key_prefixes_spec(v@.take(0)).drop_last());
    }
    while i < v.len()
        invariant
            i <= v.len(),
            v@ == path@,
            str_views(out@) == key_prefixes_spec(v@.take(i as int)).drop_last(),
        decreases v.len() - i,
    {
        let ghost t = v@.take(i as int);
        let ghost s = v@.take(i + 1);
        proof {
            assert(s.drop_last() =~= t);
            assert(s.last() == v@[i as int]);
            lemma_key_prefixes_last(t);
        }
        if v[i] == '\\' {
            out.push(string_of(&crate::text::slice_chars(&v, 0, i)));
            proof {
                assert(v@.subrange(0, i as int) =~= t);
                assert(key_prefixes_spec(s) == key_prefixes_spec(t).push(s));
                assert(key_prefixes_spec(t).drop_last().push(t) =~= key_prefixes_spec(t));
                assert(str_views(out@) =~= key_prefixes_spec(s).drop_last());
            }
        } else {
            proof {
                assert(key_prefixes_spec(s) == key_prefixes_spec(t).drop_last().push(s));
                assert(key_prefixes_spec(s).drop_last() =~= key_prefixes_spec(t).drop_last());
            }
        }
        i += 1;
    }
    let ghost whole = v@.take(v.len() as int);
    proof {
        assert(whole =~= path@);
        lemma_key_prefixes_last(whole);
    }
    out.push(path.to_string());
    proof {
        assert(str_views(out@) =~= key_prefixes_spec(whole).drop_last().push(path@));
        assert(key_prefixes_spec(whole).drop_last().push(path@) =~= key_prefixes_spec(whole));
    }
    out
}

fn same_str(a: &String, b: &String) -> (r: bool)
    ensures
        r == (a@ == b@),
{
    chars_eq_str(&chars_of(a.as_str()), b.as_str())
}

/// Whether a journal (as read back from storage) records each value and
/// each created key at most once, as `note_created` and `note_value` need.
pub fn journal_view_ok(j: &Journal) -> (r: bool)
    ensures
        r == journal_wf(*j),
{
    let ghost jv = journaled(j.values@);
    let mut i: usize = 0;
    while i < j.values.len()
        invariant
            i <= j.values.len(),
            jv == journaled(j.values@),
            forall|a: int, b: int| 0 <= a < b < jv.len() && a < i ==> jv[a] != jv[b],
        decreases j.values.len() - i,
    {
        let mut k: usize = i + 1;
        while k < j.values.len()
            invariant
                i < j.values.len(),
                i + 1 <= k <= j.values.len(),
                jv == journaled(j.values@),
                forall|a: int, b: int| 0 <= a < b < jv.len() && a < i ==> jv[a] != jv[b],
                forall|b: int| i < b < k ==> jv[i as int] != jv[b],
            decreases j.values.len() - k,
        {
            if same_str(&j.values[i].key, &j.values[k].key) && same_str(
                &j.values[i].name,
                &j.values[k].name,
            ) {
                assert(jv[i as int] == jv[k as int]);
                return false;
            }
            k += 1;
        }
        i += 1;
    }
    let ghost kv = str_views(j.created_keys@);
    let mut i: usize = 0;
    while i < j.created_keys.len()
        invariant
            i <= j.created_keys.len(),
            kv == str_views(j.created_keys@),
            jv.no_duplicates(),
            forall|a: int, b: int| 0 <= a < b < kv.len() && a < i ==> kv[a] != kv[b],
        decreases j.created_keys.len() - i,
    {
        let mut k: usize = i + 1;
        while k < j.created_keys.len()
            invariant
                i < j.created_keys.len(),
                i + 1 <= k <= j.created_keys.len(),
                kv == str_views(j.created_keys@),
                forall|a: int, b: int| 0 <= a < b < kv.len() && a < i ==> kv[a] != kv[b],
                forall|b: int| i < b < k ==> kv[i as int] != kv[b],
            decreases j.created_keys.len() - k,
        {
            if same_str(&j.created_keys[i], &j.created_keys[k]) {
                assert(kv[i as int] == kv[k as int]);
                return false;
            }
            k += 1;
        }
        i += 1;
    }
    true
}

} // verus!
