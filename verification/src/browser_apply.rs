//! Applying the browser policies over what the registry holds.
//!
//! The service reads the registry once (which of the probed keys exist,
//! which of the policy values are present), hands that snapshot here, and
//! gets back the updated journal and the values to write. Every key a
//! target path runs through is probed and journaled when it did not exist;
//! every value is journaled before it is first overwritten. Because the
//! journal only ever grows by entries for things not yet recorded, applying
//! again over a registry already set up records nothing new.

use vstd::prelude::*;
use crate::browser_policy::{
    journal_wf, journaled, key_prefixes, key_prefixes_spec, join_key, join_key_spec, le_units,
    matches_spec, note_created, note_value, off_units, strip_nuls, target_view, targets,
    targets_spec, Desired, Journal, PriorValue, REG_DWORD, REG_SZ,
};
use crate::sorting::str_views;
use crate::text::{chars_eq_str, chars_of};

verus! {

/// A value found in the registry: where, and its type code and raw bytes.
#[derive(Clone, Debug)]
pub struct SeenValue {
    pub key: String,
    pub name: String,
    pub vtype: u32,
    pub bytes: Vec<u8>,
}

/// What the registry holds, as far as applying looks at it: the keys that
/// exist, and the values present.
#[derive(Clone, Debug)]
pub struct RegSnapshot {
    pub keys: Vec<String>,
    pub values: Vec<SeenValue>,
}

/// Whether `k` exists in the snapshot.
pub open spec fn has_key(s: RegSnapshot, k: Seq<char>) -> bool {
    str_views(s.keys@).contains(k)
}

/// The value recorded first for `(key, name)`, if any.
pub open spec fn seen_value(vs: Seq<SeenValue>, key: Seq<char>, name: Seq<char>) -> Option<
    (u32, Seq<u8>),
>
    decreases vs.len(),
{
    if vs.len() == 0 {
        None
    } else if vs[0].key@ == key && vs[0].name@ == name {
        Some((vs[0].vtype, vs[0].bytes@))
    } else {
        seen_value(vs.skip(1), key, name)
    }
}

/// Whether key `k` exists.
pub fn snap_has_key(s: &RegSnapshot, k: &str) -> (r: bool)
    ensures
        r == has_key(*s, k@),
{
    let ghost ks = str_views(s.keys@);
    let mut i: usize = 0;
    while i < s.keys.len()
        invariant
            i <= s.keys.len(),
            ks == str_views(s.keys@),
            forall|j: int| 0 <= j < i ==> ks[j] != k@,
        decreases s.keys.len() - i,
    {
        if chars_eq_str(&chars_of(s.keys[i].as_str()), k) {
            assert(ks[i as int] == k@);
            return true;
        }
        i += 1;
    }
    false
}

fn copy_bytes(v: &Vec<u8>) -> (r: Vec<u8>)
    ensures
        r@ == v@,
{
    let mut r: Vec<u8> = Vec::new();
    let mut i: usize = 0;
    while i < v.len()
        invariant
            i <= v.len(),
            r@ == v@.take(i as int),
        decreases v.len() - i,
    {
        r.push(v[i]);
        i += 1;
        assert(r@ =~= v@.take(i as int));
    }
    assert(v@.take(v.len() as int) =~= v@);
    r
}

/// The value at `(key, name)`, with its type code and bytes.
pub fn snap_value(s: &RegSnapshot, key: &str, name: &str) -> (r: Option<(u32, Vec<u8>)>)
    ensures
        match r {
            Some(v) => seen_value(s.values@, key@, name@) == Some((v.0, v.1@)),
            None => seen_value(s.values@, key@, name@) is None,
        },
{
    let mut i: usize = 0;
    assert(s.values@.skip(0) =~= s.values@);
    while i < s.values.len()
        invariant
            i <= s.values.len(),
            seen_value(s.values@, key@, name@) == seen_value(s.values@.skip(i as int), key@, name@),
        decreases s.values.len() - i,
    {
        let e = &s.values[i];
        let ghost rest = s.values@.skip(i as int);
        assert(rest[0] == s.values@[i as int]);
        if chars_eq_str(&chars_of(e.key.as_str()), key) && chars_eq_str(
            &chars_of(e.name.as_str()),
            name,
        ) {
            return Some((e.vtype, copy_bytes(&e.bytes)));
        }
        assert(rest.skip(1) =~= s.values@.skip(i + 1));
        i += 1;
    }
    None
}


// ---------------------------------------------------------------------------
// What applying does
// ---------------------------------------------------------------------------

/// The path of target `i` under `prefix`.
pub open spec fn target_path(prefix: Seq<char>, i: int) -> Seq<char> {
    join_key_spec(prefix, targets_spec()[i].0)
}

/// The keys probed for the first `n` targets, in order: for each, every key
/// from the top of its path down to the path itself.
pub open spec fn probes_upto(prefix: Seq<char>, n: int) -> Seq<Seq<char>>
    decreases n,
{
    if n <= 0 {
        Seq::empty()
    } else {
        probes_upto(prefix, n - 1) + key_prefixes_spec(target_path(prefix, n - 1))
    }
}

/// The values set for target `i`: its path, each value's name, and what
/// the value is set to.
pub open spec fn target_writes(prefix: Seq<char>, i: int) -> Seq<(Seq<char>, Seq<char>, Desired)> {
    targets_spec()[i].1.map_values(|v: (Seq<char>, Desired)| (target_path(prefix, i), v.0, v.1))
}

/// The values set for the first `n` targets, in order.
pub open spec fn writes_upto(prefix: Seq<char>, n: int) -> Seq<(Seq<char>, Seq<char>, Desired)>
    decreases n,
{
    if n <= 0 {
        Seq::empty()
    } else {
        writes_upto(prefix, n - 1) + target_writes(prefix, n - 1)
    }
}

/// Every key probed when applying under `prefix`.
pub open spec fn probes(prefix: Seq<char>) -> Seq<Seq<char>> {
    probes_upto(prefix, targets_spec().len() as int)
}

/// Every value set when applying under `prefix`.
pub open spec fn writes(prefix: Seq<char>) -> Seq<(Seq<char>, Seq<char>, Desired)> {
    writes_upto(prefix, targets_spec().len() as int)
}

/// Values to write, as values.
pub open spec fn write_views(ws: Seq<(String, String, Desired)>) -> Seq<(Seq<char>, Seq<char>, Desired)> {
    ws.map_values(|w: (String, String, Desired)| (w.0@, w.1@, w.2))
}

/// The created keys after probing `ps` in order: a key is added when it did
/// not exist and is not recorded yet.
pub open spec fn created_after(ks: Seq<Seq<char>>, ps: Seq<Seq<char>>, s: RegSnapshot) -> Seq<
    Seq<char>,
>
    decreases ps.len(),
{
    if ps.len() == 0 {
        ks
    } else {
        let prev = created_after(ks, ps.drop_last(), s);
        if has_key(s, ps.last()) || prev.contains(ps.last()) {
            prev
        } else {
            prev.push(ps.last())
        }
    }
}

/// A journal entry as values.
pub open spec fn prior_view(p: PriorValue) -> (Seq<char>, Seq<char>, Option<(u32, Seq<u8>)>) {
    (
        p.key@,
        p.name@,
        match p.prior {
            Some(v) => Some((v.0, v.1@)),
            None => None,
        },
    )
}

/// Journal entries as values.
pub open spec fn prior_views(ps: Seq<PriorValue>) -> Seq<
    (Seq<char>, Seq<char>, Option<(u32, Seq<u8>)>),
> {
    ps.map_values(|p: PriorValue| prior_view(p))
}

/// Whether the value a write sets is already there, exactly as set.
pub open spec fn settled(s: RegSnapshot, w: (Seq<char>, Seq<char>, Desired)) -> bool {
    match seen_value(s.values@, w.0, w.1) {
        Some(v) => matches_spec(v.0, v.1, w.2),
        None => false,
    }
}

/// The journal entries after writing `ws` in order: an entry (with what was
/// there, if anything) is added for a value not already set and not yet
/// recorded.
pub open spec fn values_after(
    vs: Seq<(Seq<char>, Seq<char>, Option<(u32, Seq<u8>)>)>,
    ws: Seq<(Seq<char>, Seq<char>, Desired)>,
    s: RegSnapshot,
) -> Seq<(Seq<char>, Seq<char>, Option<(u32, Seq<u8>)>)>
    decreases ws.len(),
{
    if ws.len() == 0 {
        vs
    } else {
        let prev = values_after(vs, ws.drop_last(), s);
        let w = ws.last();
        let recorded = prev.map_values(
            |e: (Seq<char>, Seq<char>, Option<(u32, Seq<u8>)>)| (e.0, e.1),
        ).contains((w.0, w.1));
        if settled(s, w) || recorded {
            prev
        } else {
            prev.push((w.0, w.1, seen_value(s.values@, w.0, w.1)))
        }
    }
}

/// Apply the policies under `prefix` over the registry as `snap` shows it:
/// journal every probed key that did not exist and every value before it is
/// first overwritten, and return the values to set, in order (each target's
/// key is created, with its ancestors, before its values are set).
pub fn apply_plan(prefix: &str, journal: &mut Journal, snap: &RegSnapshot) -> (r: Vec<
    (String, String, Desired),
>)
    requires
        journal_wf(*old(journal)),
    ensures
        journal_wf(*final(journal)),
        str_views(final(journal).created_keys@) == created_after(
            str_views(old(journal).created_keys@),
            probes(prefix@),
            *snap,
        ),
        prior_views(final(journal).values@) == values_after(
            prior_views(old(journal).values@),
            writes(prefix@),
            *snap,
        ),
        write_views(r@) == writes(prefix@),
{
    let ts = targets();
    let ghost ks0 = str_views(journal.created_keys@);
    let ghost vs0 = prior_views(journal.values@);
    let mut out: Vec<(String, String, Desired)> = Vec::new();
    let mut i: usize = 0;
    assert(str_views(journal.created_keys@) == created_after(ks0, probes_upto(prefix@, 0), *snap));
    assert(prior_views(journal.values@) == values_after(vs0, writes_upto(prefix@, 0), *snap));
    assert(write_views(out@) =~= writes_upto(prefix@, 0));
    while i < ts.len()
        invariant
            ts@.map_values(|t: (String, Vec<(String, Desired)>)| target_view(t)) == targets_spec(),
            i <= ts.len(),
            journal_wf(*journal),
            str_views(journal.created_keys@) == created_after(
                ks0,
                probes_upto(prefix@, i as int),
                *snap,
            ),
            prior_views(journal.values@) == values_after(vs0, writes_upto(prefix@, i as int), *snap),
            write_views(out@) == writes_upto(prefix@, i as int),
        decreases ts.len() - i,
    {
        proof {
            assert(target_view(ts@[i as int]) == targets_spec()[i as int]);
        }
        let path = join_key(prefix, ts[i].0.as_str());
        assert(path@ == target_path(prefix@, i as int));
        let ps = key_prefixes(path.as_str());
        let ghost base = probes_upto(prefix@, i as int);
        let ghost kp = key_prefixes_spec(path@);
        let mut k: usize = 0;
        assert(base + kp.take(0) =~= base);
        while k < ps.len()
            invariant
                k <= ps.len(),
                str_views(ps@) == kp,
                journal_wf(*journal),
                str_views(journal.created_keys@) == created_after(ks0, base + kp.take(k as int), *snap),
                prior_views(journal.values@) == values_after(
                    vs0,
                    writes_upto(prefix@, i as int),
                    *snap,
                ),
            decreases ps.len() - k,
        {
            let existed = snap_has_key(snap, ps[k].as_str());
            note_created(journal, ps[k].as_str(), existed);
            proof {
                assert(str_views(ps@)[k as int] == ps@[k as int]@);
                assert((base + kp.take(k + 1)).drop_last() =~= base + kp.take(k as int));
                assert((base + kp.take(k + 1)).last() == kp[k as int]);
            }
            k += 1;
        }
        assert(base + kp.take(ps.len() as int) =~= probes_upto(prefix@, i + 1));
        let vals = &ts[i].1;
        let ghost wbase = writes_upto(prefix@, i as int);
        let ghost tw = target_writes(prefix@, i as int);
        assert(vals@.map_values(|v: (String, Desired)| (v.0@, v.1)) == targets_spec()[i as int].1);
        assert(tw.len() == vals.len());
        let mut m: usize = 0;
        assert(wbase + tw.take(0) =~= wbase);
        while m < vals.len()
            invariant
                m <= vals.len(),
                tw.len() == vals.len(),
                forall|j: int| 0 <= j < vals.len() ==> #[trigger] tw[j] == (path@, vals@[j].0@, vals@[j].1),
                journal_wf(*journal),
                str_views(journal.created_keys@) == created_after(
                    ks0,
                    probes_upto(prefix@, i + 1),
                    *snap,
                ),
                prior_views(journal.values@) == values_after(vs0, wbase + tw.take(m as int), *snap),
                write_views(out@) == wbase + tw.take(m as int),
            decreases vals.len() - m,
        {
            let name = &vals[m].0;
            let want = vals[m].1;
            let existing = snap_value(snap, path.as_str(), name.as_str());
            let ghost old_vals = journal.values@;
            let ghost w = tw[m as int];
            proof {
                assert(w == (path@, name@, want));
                let pv = prior_views(old_vals);
                assert(journaled(old_vals) =~= pv.map_values(
                    |e: (Seq<char>, Seq<char>, Option<(u32, Seq<u8>)>)| (e.0, e.1),
                ));
            }
            note_value(journal, path.as_str(), name.as_str(), existing, want);
            let ghost ws_before = write_views(out@);
            out.push((path.clone(), name.clone(), want));
            proof {
                let nw = wbase + tw.take(m + 1);
                assert(nw.drop_last() =~= wbase + tw.take(m as int));
                assert(nw.last() == w);
                assert(write_views(out@) =~= ws_before.push(w));
                if journal.values@ != old_vals {
                    assert(journal.values@ =~= old_vals.push(journal.values@.last()));
                    assert(prior_views(journal.values@) =~= prior_views(old_vals).push(
                        prior_view(journal.values@.last()),
                    ));
                }
            }
            m += 1;
        }
        assert(wbase + tw.take(vals.len() as int) =~= writes_upto(prefix@, i + 1));
        i += 1;
    }
    out
}

// ---------------------------------------------------------------------------
// Applying again
// ---------------------------------------------------------------------------

proof fn lemma_created_settled(ks: Seq<Seq<char>>, ps: Seq<Seq<char>>, s: RegSnapshot)
    requires
        forall|j: int| 0 <= j < ps.len() ==> has_key(s, #[trigger] ps[j]),
    ensures
        created_after(ks, ps, s) == ks,
    decreases ps.len(),
{
    if ps.len() > 0 {
        let dl = ps.drop_last();
        assert forall|j: int| 0 <= j < dl.len() implies has_key(s, #[trigger] dl[j]) by {
            assert(dl[j] == ps[j]);
        }
        lemma_created_settled(ks, dl, s);
        assert(has_key(s, ps[ps.len() - 1]));
    }
}

proof fn lemma_values_settled(
    vs: Seq<(Seq<char>, Seq<char>, Option<(u32, Seq<u8>)>)>,
    ws: Seq<(Seq<char>, Seq<char>, Desired)>,
    s: RegSnapshot,
)
    requires
        forall|j: int| 0 <= j < ws.len() ==> settled(s, #[trigger] ws[j]),
    ensures
        values_after(vs, ws, s) == vs,
    decreases ws.len(),
{
    if ws.len() > 0 {
        let dl = ws.drop_last();
        assert forall|j: int| 0 <= j < dl.len() implies settled(s, #[trigger] dl[j]) by {
            assert(dl[j] == ws[j]);
        }
        lemma_values_settled(vs, dl, s);
        assert(settled(s, ws[ws.len() - 1]));
    }
}

/// Applying again over a registry the first apply has set up (every probed
/// key there, every value as Sanctum sets it) records nothing: whatever the
/// journal holds, its created keys and its entries, original prior values
/// included, come back unchanged. The values written depend on the prefix
/// alone (`apply_plan`), so the second apply writes exactly what the first
/// one did.
pub proof fn lemma_reapply_records_nothing(
    prefix: Seq<char>,
    ks: Seq<Seq<char>>,
    vs: Seq<(Seq<char>, Seq<char>, Option<(u32, Seq<u8>)>)>,
    s: RegSnapshot,
)
    requires
        forall|j: int| 0 <= j < probes(prefix).len() ==> has_key(s, #[trigger] probes(prefix)[j]),
        forall|j: int| 0 <= j < writes(prefix).len() ==> settled(s, #[trigger] writes(prefix)[j]),
    ensures
        created_after(ks, probes(prefix), s) == ks,
        values_after(vs, writes(prefix), s) == vs,
{
    lemma_created_settled(ks, probes(prefix), s);
    lemma_values_settled(vs, writes(prefix), s);
}

// ---------------------------------------------------------------------------
// What the writes leave behind
// ---------------------------------------------------------------------------

/// A registry as values: the keys that exist, and each value by (key, name)
/// as its type code and bytes.
pub struct RegModel {
    pub keys: Set<Seq<char>>,
    pub values: Map<(Seq<char>, Seq<char>), (u32, Seq<u8>)>,
}

/// What is stored for a value the service sets: `"off"` as a `REG_SZ` of
/// UTF-16 code units ending in a NUL (as `RegKey::set_value` stores a
/// `&str`), a number as a four-byte little-endian `REG_DWORD` (as it stores
/// a `u32`).
pub open spec fn stored(want: Desired) -> (u32, Seq<u8>) {
    match want {
        Desired::Off => (REG_SZ, seq![0x6fu8, 0u8, 0x66u8, 0u8, 0x66u8, 0u8, 0u8, 0u8]),
        Desired::Dword(d) => (
            REG_DWORD,
            seq![
                (d & 0xff) as u8,
                ((d >> 8u32) & 0xff) as u8,
                ((d >> 16u32) & 0xff) as u8,
                ((d >> 24u32) & 0xff) as u8,
            ],
        ),
    }
}

/// The registry after the service writes `w`: the value's key exists with
/// every key above it (`create_subkey`), and the value holds what is stored.
pub open spec fn after_write(m: RegModel, w: (Seq<char>, Seq<char>, Desired)) -> RegModel {
    RegModel {
        keys: m.keys.union(key_prefixes_spec(w.0).to_set()),
        values: m.values.insert((w.0, w.1), stored(w.2)),
    }
}

/// The registry after the writes `ws`, in order.
pub open spec fn after_writes(m: RegModel, ws: Seq<(Seq<char>, Seq<char>, Desired)>) -> RegModel
    decreases ws.len(),
{
    if ws.len() == 0 {
        m
    } else {
        after_write(after_writes(m, ws.drop_last()), ws.last())
    }
}

/// The registry holds every write's key (and those above it) and its value,
/// as stored.
pub open spec fn holds_writes(m: RegModel, ws: Seq<(Seq<char>, Seq<char>, Desired)>) -> bool {
    forall|j: int|
        0 <= j < ws.len() ==> {
            &&& m.values.contains_key((#[trigger] ws[j].0, ws[j].1))
            &&& m.values[(ws[j].0, ws[j].1)] == stored(ws[j].2)
            &&& key_prefixes_spec(ws[j].0).to_set().subset_of(m.keys)
        }
}

/// Two writes of one value always set it to the same thing.
pub open spec fn writes_agree(ws: Seq<(Seq<char>, Seq<char>, Desired)>) -> bool {
    forall|j: int, k: int|
        0 <= j < ws.len() && 0 <= k < ws.len() && (#[trigger] ws[j]).0 == (#[trigger] ws[k]).0
            && ws[j].1 == ws[k].1 ==> ws[j].2 == ws[k].2
}

/// A snapshot shows registry `m` along the policy paths under `prefix`: the
/// same probed keys exist, and the same policy values are present.
pub open spec fn shows(s: RegSnapshot, m: RegModel, prefix: Seq<char>) -> bool {
    &&& forall|j: int|
        0 <= j < probes(prefix).len() ==> (has_key(s, #[trigger] probes(prefix)[j])
            <==> m.keys.contains(probes(prefix)[j]))
    &&& forall|j: int|
        0 <= j < writes(prefix).len() ==> seen_value(
            s.values@,
            (#[trigger] writes(prefix)[j]).0,
            writes(prefix)[j].1,
        ) == if m.values.contains_key((writes(prefix)[j].0, writes(prefix)[j].1)) {
            Some(m.values[(writes(prefix)[j].0, writes(prefix)[j].1)])
        } else {
            None
        }
}

/// What is stored for a value reads back as exactly that value.
proof fn lemma_stored_matches(want: Desired)
    ensures
        matches_spec(stored(want).0, stored(want).1, want),
{
    match want {
        Desired::Off => {
            let b = stored(want).1;
            let u = le_units(b);
            assert(u =~= seq![0x6fu16, 0x66u16, 0x66u16, 0u16]);
            assert(u.drop_last() =~= off_units());
            assert(strip_nuls(u) == strip_nuls(u.drop_last()));
            assert(strip_nuls(off_units()) == off_units());
        },
        Desired::Dword(d) => {
            let b = stored(want).1;
            assert((d & 0xff) < 256 && ((d >> 8u32) & 0xff) < 256 && ((d >> 16u32) & 0xff) < 256
                && ((d >> 24u32) & 0xff) < 256) by (bit_vector);
            assert((d & 0xff) + 256 * ((d >> 8u32) & 0xff) + 65536 * ((d >> 16u32) & 0xff)
                + 16777216 * ((d >> 24u32) & 0xff) == d) by (bit_vector);
            assert(b[0] as int == (d & 0xff) as int);
            assert(b[1] as int == ((d >> 8u32) & 0xff) as int);
            assert(b[2] as int == ((d >> 16u32) & 0xff) as int);
            assert(b[3] as int == ((d >> 24u32) & 0xff) as int);
        },
    }
}

/// The writes under any prefix: four chromium `DnsOverHttpsMode` values set
/// to `off`, then Firefox's `Enabled` (0) and `Locked` (1).
proof fn lemma_writes_shape(prefix: Seq<char>)
    ensures
        writes(prefix).len() == 6,
        forall|j: int| 0 <= j < 4 ==> (#[trigger] writes(prefix)[j]).1 == "DnsOverHttpsMode"@
            && writes(prefix)[j].2 == Desired::Off,
        writes(prefix)[4].1 == "Enabled"@ && writes(prefix)[4].2 == Desired::Dword(0),
        writes(prefix)[5].1 == "Locked"@ && writes(prefix)[5].2 == Desired::Dword(1),
{
    let t = targets_spec();
    assert(writes_upto(prefix, 0) =~= Seq::<(Seq<char>, Seq<char>, Desired)>::empty());
    assert(writes_upto(prefix, 1) =~= target_writes(prefix, 0));
    assert(writes_upto(prefix, 2) =~= target_writes(prefix, 0) + target_writes(prefix, 1));
    assert(writes_upto(prefix, 3) == writes_upto(prefix, 2) + target_writes(prefix, 2));
    assert(writes_upto(prefix, 4) == writes_upto(prefix, 3) + target_writes(prefix, 3));
    assert(writes_upto(prefix, 5) == writes_upto(prefix, 4) + target_writes(prefix, 4));
    assert(t.len() == 5);
    let ws = writes(prefix);
    assert forall|j: int| 0 <= j < 4 implies (#[trigger] ws[j]).1 == "DnsOverHttpsMode"@
        && ws[j].2 == Desired::Off by {
        assert(ws[j] == target_writes(prefix, j)[0]);
    }
    assert(ws[4] == target_writes(prefix, 4)[0]);
    assert(ws[5] == target_writes(prefix, 4)[1]);
}

proof fn lemma_writes_agree(prefix: Seq<char>)
    ensures
        writes_agree(writes(prefix)),
{
    lemma_writes_shape(prefix);
    reveal_strlit("DnsOverHttpsMode");
    reveal_strlit("Enabled");
    reveal_strlit("Locked");
    let ws = writes(prefix);
    assert forall|j: int, k: int|
        0 <= j < ws.len() && 0 <= k < ws.len() && (#[trigger] ws[j]).0 == (#[trigger] ws[k]).0
            && ws[j].1 == ws[k].1 implies ws[j].2 == ws[k].2 by {
        assert(ws[j].1.len() == ws[k].1.len());
    }
}

/// After the writes, the registry holds each of them, later writes of a
/// value agreeing with earlier ones.
proof fn lemma_after_writes_holds(m: RegModel, ws: Seq<(Seq<char>, Seq<char>, Desired)>)
    requires
        writes_agree(ws),
    ensures
        holds_writes(after_writes(m, ws), ws),
        m.keys.subset_of(after_writes(m, ws).keys),
    decreases ws.len(),
{
    if ws.len() > 0 {
        let dl = ws.drop_last();
        assert forall|j: int, k: int|
            0 <= j < dl.len() && 0 <= k < dl.len() && (#[trigger] dl[j]).0 == (#[trigger] dl[k]).0
                && dl[j].1 == dl[k].1 implies dl[j].2 == dl[k].2 by {
            assert(dl[j] == ws[j] && dl[k] == ws[k]);
        }
        lemma_after_writes_holds(m, dl);
        let prev = after_writes(m, dl);
        let w = ws.last();
        let r = after_writes(m, ws);
        assert forall|j: int| 0 <= j < ws.len() implies {
            &&& r.values.contains_key((#[trigger] ws[j].0, ws[j].1))
            &&& r.values[(ws[j].0, ws[j].1)] == stored(ws[j].2)
            &&& key_prefixes_spec(ws[j].0).to_set().subset_of(r.keys)
        } by {
            if j < dl.len() {
                assert(dl[j] == ws[j]);
                if (ws[j].0, ws[j].1) == (w.0, w.1) {
                    assert(ws[ws.len() - 1] == w);
                }
            }
        }
    }
}

/// A registry that already holds the writes is left as it is by them.
proof fn lemma_after_writes_fixed(m: RegModel, ws: Seq<(Seq<char>, Seq<char>, Desired)>)
    requires
        holds_writes(m, ws),
    ensures
        after_writes(m, ws) == m,
    decreases ws.len(),
{
    if ws.len() > 0 {
        let dl = ws.drop_last();
        assert forall|j: int| 0 <= j < dl.len() implies {
            &&& m.values.contains_key((#[trigger] dl[j].0, dl[j].1))
            &&& m.values[(dl[j].0, dl[j].1)] == stored(dl[j].2)
            &&& key_prefixes_spec(dl[j].0).to_set().subset_of(m.keys)
        } by {
            assert(dl[j] == ws[j]);
        }
        lemma_after_writes_fixed(m, dl);
        let w = ws.last();
        assert(ws[ws.len() - 1] == w);
        assert(m.values.insert((w.0, w.1), stored(w.2)) =~= m.values);
        assert(m.keys.union(key_prefixes_spec(w.0).to_set()) =~= m.keys);
    }
}

/// Key `p` lies above (or is) the key of one of the writes `ws`.
pub open spec fn under_a_write(p: Seq<char>, ws: Seq<(Seq<char>, Seq<char>, Desired)>) -> bool {
    exists|k: int| 0 <= k < ws.len() && key_prefixes_spec((#[trigger] ws[k]).0).contains(p)
}

/// Every key probed for a target lies above (or is) the key of one of its
/// writes.
proof fn lemma_probes_covered(prefix: Seq<char>, n: int)
    requires
        0 <= n <= targets_spec().len(),
    ensures
        forall|j: int|
            0 <= j < probes_upto(prefix, n).len() ==> under_a_write(
                #[trigger] probes_upto(prefix, n)[j],
                writes_upto(prefix, n),
            ),
    decreases n,
{
    if n > 0 {
        lemma_probes_covered(prefix, n - 1);
        let pp = probes_upto(prefix, n - 1);
        let pw = writes_upto(prefix, n - 1);
        let kp = key_prefixes_spec(target_path(prefix, n - 1));
        let tw = target_writes(prefix, n - 1);
        assert(targets_spec()[n - 1].1.len() > 0);
        assert(tw[0].0 == target_path(prefix, n - 1));
        let ps = probes_upto(prefix, n);
        let ws = writes_upto(prefix, n);
        assert(ps == pp + kp);
        assert(ws == pw + tw);
        assert forall|j: int| 0 <= j < ps.len() implies under_a_write(#[trigger] ps[j], ws) by {
            if j < pp.len() {
                assert(ps[j] == pp[j]);
                assert(under_a_write(pp[j], pw));
                let k = choose|k: int|
                    0 <= k < pw.len() && key_prefixes_spec((#[trigger] pw[k]).0).contains(pp[j]);
                assert(ws[k] == pw[k]);
                assert(key_prefixes_spec(ws[k].0).contains(ps[j]));
            } else {
                assert(ps[j] == kp[j - pp.len()]);
                assert(kp.contains(ps[j]));
                let k = pw.len() as int;
                assert(ws[k] == tw[0]);
                assert(key_prefixes_spec(ws[k].0).contains(ps[j]));
            }
        }
    }
}

/// A first apply leaves the registry settled: whatever the registry held
/// before, after the writes `apply_plan` returns every key it probes exists,
/// every value reads back as exactly what Sanctum sets, and making the same
/// writes again leaves the registry as it is.
pub proof fn lemma_first_apply_settles(prefix: Seq<char>, m: RegModel)
    ensures
        ({
            let r = after_writes(m, writes(prefix));
            &&& forall|j: int|
                0 <= j < probes(prefix).len() ==> r.keys.contains(#[trigger] probes(prefix)[j])
            &&& forall|j: int|
                0 <= j < writes(prefix).len() ==> {
                    &&& r.values.contains_key(
                        ((#[trigger] writes(prefix)[j]).0, writes(prefix)[j].1),
                    )
                    &&& matches_spec(
                        r.values[(writes(prefix)[j].0, writes(prefix)[j].1)].0,
                        r.values[(writes(prefix)[j].0, writes(prefix)[j].1)].1,
                        writes(prefix)[j].2,
                    )
                }
            &&& after_writes(r, writes(prefix)) == r
        }),
{
    let ws = writes(prefix);
    let ps = probes(prefix);
    lemma_writes_agree(prefix);
    lemma_after_writes_holds(m, ws);
    let r = after_writes(m, ws);
    lemma_after_writes_fixed(r, ws);
    lemma_probes_covered(prefix, targets_spec().len() as int);
    assert forall|j: int| 0 <= j < ps.len() implies r.keys.contains(#[trigger] ps[j]) by {
        assert(under_a_write(ps[j], ws));
        let k = choose|k: int| 0 <= k < ws.len() && key_prefixes_spec((#[trigger] ws[k]).0).contains(ps[j]);
        assert(key_prefixes_spec(ws[k].0).to_set().contains(ps[j]));
    }
    assert forall|j: int| 0 <= j < ws.len() implies matches_spec(
        r.values[(ws[j].0, ws[j].1)].0,
        r.values[(ws[j].0, ws[j].1)].1,
        (#[trigger] ws[j]).2,
    ) by {
        lemma_stored_matches(ws[j].2);
    }
}

/// The re-apply law end to end: after a first apply over any registry, a
/// snapshot of the registry it leaves makes applying again record nothing,
/// so the journal the first apply returned comes back unchanged.
pub proof fn lemma_reapply_after_first_apply(
    prefix: Seq<char>,
    m: RegModel,
    s: RegSnapshot,
    ks: Seq<Seq<char>>,
    vs: Seq<(Seq<char>, Seq<char>, Option<(u32, Seq<u8>)>)>,
)
    requires
        shows(s, after_writes(m, writes(prefix)), prefix),
    ensures
        created_after(ks, probes(prefix), s) == ks,
        values_after(vs, writes(prefix), s) == vs,
{
    lemma_first_apply_settles(prefix, m);
    let r = after_writes(m, writes(prefix));
    let ws = writes(prefix);
    let ps = probes(prefix);
    assert forall|j: int| 0 <= j < ps.len() implies has_key(s, #[trigger] ps[j]) by {
        assert(r.keys.contains(ps[j]));
    }
    assert forall|j: int| 0 <= j < ws.len() implies settled(s, #[trigger] ws[j]) by {
        assert(r.values.contains_key((ws[j].0, ws[j].1)));
        assert(seen_value(s.values@, ws[j].0, ws[j].1) == Some(r.values[(ws[j].0, ws[j].1)]));
    }
    lemma_reapply_records_nothing(prefix, ks, vs, s);
}

} // verus!
