//! SafeSearch / Restricted-Mode CNAME map.
//!
//! The DNS resolver answers each mapped host with a CNAME to the "safe"
//! target; the client then re-queries the target, which is forwarded
//! upstream normally. Matching is by exact host (only the specific search
//! hostnames are rewritten, never their whole domains).

use vstd::prelude::*;
use vstd::hash_map::StringHashMap;
use vstd::hash_set::StringHashSet;
use crate::domain::{normalize, normalize_spec};
use crate::fmt::{decimal, push_decimal};
use crate::text::{
    ascii_lower, ascii_lower_vec, chars_of, drop_empty, lines, lines_of_str,
    nonempty, push_str, split_by, split_ws, string_of, trim, trim_char, trim_char_vec, trim_vec,
    views, ws,
};

verus! {

/// Host to safe-target pairs, each host once.
pub struct SafeSearchMap {
    /// Host to target, for lookups.
    map: StringHashMap<String>,
    /// The same pairs, in the order their hosts were first mapped.
    entries: Vec<(String, String)>,
}

/// A list of pairs as values.
pub open spec fn pair_views(e: Seq<(String, String)>) -> Seq<(Seq<char>, Seq<char>)> {
    e.map_values(|p: (String, String)| (p.0@, p.1@))
}

/// No host occurs twice.
pub open spec fn keys_unique(ps: Seq<(Seq<char>, Seq<char>)>) -> bool {
    forall|i: int, j: int|
        0 <= i < ps.len() && 0 <= j < ps.len() && i != j ==> (#[trigger] ps[i]).0 != (
        #[trigger] ps[j]).0
}

/// Some pair maps host `k`.
pub open spec fn has_key(ps: Seq<(Seq<char>, Seq<char>)>, k: Seq<char>) -> bool {
    exists|i: int| 0 <= i < ps.len() && (#[trigger] ps[i]).0 == k
}

/// The target host `k` maps to.
pub open spec fn get_spec(ps: Seq<(Seq<char>, Seq<char>)>, k: Seq<char>) -> Option<Seq<char>> {
    if has_key(ps, k) {
        Some(ps[choose|i: int| 0 <= i < ps.len() && (#[trigger] ps[i]).0 == k].1)
    } else {
        None
    }
}

/// The pairs with `k` mapped to `v`: an existing pair for `k` is replaced in
/// place, otherwise the pair is appended.
pub open spec fn insert_spec(ps: Seq<(Seq<char>, Seq<char>)>, k: Seq<char>, v: Seq<char>) -> Seq<
    (Seq<char>, Seq<char>),
> {
    if has_key(ps, k) {
        ps.update(choose|i: int| 0 <= i < ps.len() && (#[trigger] ps[i]).0 == k, (k, v))
    } else {
        ps.push((k, v))
    }
}

/// What one line of a map file says.
pub enum MapLine {
    /// Blank or a comment.
    Skip,
    /// A valid host and target, normalized.
    Pair(Seq<char>, Seq<char>),
    /// Fewer than two words.
    Malformed,
    /// Two words, but one of them is not a valid host.
    Invalid,
}

/// The whitespace-separated words of a line.
pub open spec fn words(line: Seq<char>) -> Seq<Seq<char>> {
    split_by(line, ws()).filter(nonempty())
}

pub open spec fn map_line(raw: Seq<char>) -> MapLine {
    let line = trim(raw);
    if line.len() == 0 || line[0] == '#' {
        MapLine::Skip
    } else if words(line).len() < 2 {
        MapLine::Malformed
    } else {
        match (normalize_spec(words(line)[0]), normalize_spec(words(line)[1])) {
            (Some(h), Some(t)) => MapLine::Pair(h, t),
            _ => MapLine::Invalid,
        }
    }
}

/// The warning for line number `n` (1-based) that has fewer than two words.
pub open spec fn malformed_warning(n: nat) -> Seq<char> {
    "line "@ + decimal(n) + ": expected '<host> <target>'"@
}

/// The warning for line number `n` (1-based) with an invalid host or target.
pub open spec fn invalid_warning(n: nat) -> Seq<char> {
    "line "@ + decimal(n) + ": invalid host or target"@
}

/// The pairs and warnings of the first `n` lines.
pub open spec fn parse_upto(ls: Seq<Seq<char>>, n: int) -> (
    Seq<(Seq<char>, Seq<char>)>,
    Seq<Seq<char>>,
)
    decreases n,
{
    if n <= 0 {
        (Seq::empty(), Seq::empty())
    } else {
        let (ps, ws) = parse_upto(ls, n - 1);
        match map_line(ls[n - 1]) {
            MapLine::Skip => (ps, ws),
            MapLine::Pair(h, t) => (insert_spec(ps, h, t), ws),
            MapLine::Malformed => (ps, ws.push(malformed_warning(n as nat))),
            MapLine::Invalid => (ps, ws.push(invalid_warning(n as nat))),
        }
    }
}

/// The key a queried host is looked up under: dots trimmed from both ends,
/// ASCII letters lowercased.
pub open spec fn lookup_key(host: Seq<char>) -> Seq<char> {
    ascii_lower(trim_char(host, '.'))
}

/// The lookup map holds exactly the pairs.
pub open spec fn map_agrees(m: Map<Seq<char>, String>, ps: Seq<(Seq<char>, Seq<char>)>) -> bool {
    &&& forall|k: Seq<char>| #[trigger] m.contains_key(k) <==> has_key(ps, k)
    &&& forall|k: Seq<char>| #[trigger] m.contains_key(k) ==> get_spec(ps, k) == Some(m[k]@)
}

/// Mapping `k` leaves every other host's mapping as it was.
proof fn lemma_insert_other(ps: Seq<(Seq<char>, Seq<char>)>, k: Seq<char>, v: Seq<char>, o: Seq<char>)
    requires
        keys_unique(ps),
        o != k,
    ensures
        has_key(insert_spec(ps, k, v), o) == has_key(ps, o),
        get_spec(insert_spec(ps, k, v), o) == get_spec(ps, o),
{
    lemma_insert_unique(ps, k, v);
    let r = insert_spec(ps, k, v);
    if has_key(ps, o) {
        let i = choose|i: int| 0 <= i < ps.len() && (#[trigger] ps[i]).0 == o;
        if has_key(ps, k) {
            let c = choose|c: int| 0 <= c < ps.len() && (#[trigger] ps[c]).0 == k;
            assert(c != i);
        }
        assert(r[i] == ps[i]);
        assert(has_key(r, o));
        let j = choose|j: int| 0 <= j < r.len() && (#[trigger] r[j]).0 == o;
        assert(j == i);
    } else if has_key(r, o) {
        let j = choose|j: int| 0 <= j < r.len() && (#[trigger] r[j]).0 == o;
        if has_key(ps, k) {
            assert(r[j] == ps[j] || r[j].0 == k);
        } else if j < ps.len() {
            assert(r[j] == ps[j]);
        }
        assert(false);
    }
}

proof fn lemma_insert_unique(ps: Seq<(Seq<char>, Seq<char>)>, k: Seq<char>, v: Seq<char>)
    requires
        keys_unique(ps),
    ensures
        keys_unique(insert_spec(ps, k, v)),
        get_spec(insert_spec(ps, k, v), k) == Some(v),
{
    let r = insert_spec(ps, k, v);
    if has_key(ps, k) {
        let i = choose|i: int| 0 <= i < ps.len() && (#[trigger] ps[i]).0 == k;
        assert forall|a: int, b: int|
            0 <= a < r.len() && 0 <= b < r.len() && a != b implies (#[trigger] r[a]).0 != (
            #[trigger] r[b]).0 by {
            if a != i && b != i {
                assert(r[a] == ps[a] && r[b] == ps[b]);
            } else if a == i {
                assert(r[b] == ps[b]);
                assert(ps[i].0 != ps[b].0);
            } else {
                assert(r[a] == ps[a]);
                assert(ps[a].0 != ps[i].0);
            }
        }
        assert(r[i].0 == k);
        assert(has_key(r, k));
        let j = choose|j: int| 0 <= j < r.len() && (#[trigger] r[j]).0 == k;
        assert(j == i);
    } else {
        assert forall|a: int, b: int|
            0 <= a < r.len() && 0 <= b < r.len() && a != b implies (#[trigger] r[a]).0 != (
            #[trigger] r[b]).0 by {
            if a < ps.len() && b < ps.len() {
                assert(r[a] == ps[a] && r[b] == ps[b]);
            } else if a < ps.len() {
                assert(r[a] == ps[a]);
            } else {
                assert(r[b] == ps[b]);
            }
        }
        assert(r[ps.len() as int].0 == k);
        assert(has_key(r, k));
        let j = choose|j: int| 0 <= j < r.len() && (#[trigger] r[j]).0 == k;
        assert(j == ps.len());
    }
}

impl View for SafeSearchMap {
    type V = Seq<(Seq<char>, Seq<char>)>;

    closed spec fn view(&self) -> Seq<(Seq<char>, Seq<char>)> {
        pair_views(self.entries@)
    }
}

/// Map host `h` to target `t`, replacing an existing mapping of `h`.
fn insert_entry(map: &mut StringHashMap<String>, entries: &mut Vec<(String, String)>, h: String, t: String)
    requires
        keys_unique(pair_views(old(entries)@)),
        map_agrees(old(map)@, pair_views(old(entries)@)),
    ensures
        keys_unique(pair_views(final(entries)@)),
        map_agrees(final(map)@, pair_views(final(entries)@)),
        pair_views(final(entries)@) == insert_spec(pair_views(old(entries)@), h@, t@),
{
    let ghost before = pair_views(entries@);
    proof {
        lemma_insert_unique(before, h@, t@);
    }
    let present = map.contains_key(h.as_str());
    map.insert(h.clone(), t.clone());
    if present {
        let ghost c = choose|c: int| 0 <= c < before.len() && (#[trigger] before[c]).0 == h@;
        let mut i: usize = 0;
        while i < entries.len() && entries[i].0 != h
            invariant
                i <= entries.len(),
                pair_views(entries@) == before,
                0 <= c < before.len(),
                before[c].0 == h@,
                keys_unique(before),
                forall|j: int| 0 <= j < i ==> (#[trigger] before[j]).0 != h@,
            decreases entries.len() - i,
        {
            assert(before[i as int].0 == entries@[i as int].0@);
            i += 1;
        }
        assert(i < entries.len()) by {
            assert(before[c].0 == h@);
        }
        assert(before[i as int].0 == h@);
        assert(i == c);
        entries.set(i, (h, t));
        assert(pair_views(entries@) =~= insert_spec(before, h@, t@));
    } else {
        entries.push((h, t));
        assert(pair_views(entries@) =~= insert_spec(before, h@, t@));
    }
    proof {
        let after = pair_views(entries@);
        assert forall|k: Seq<char>| #[trigger] map@.contains_key(k) <==> has_key(after, k) by {
            if k != h@ {
                lemma_insert_other(before, h@, t@, k);
            }
        }
        assert forall|k: Seq<char>| #[trigger] map@.contains_key(k) implies get_spec(after, k)
            == Some(map@[k]@) by {
            if k != h@ {
                lemma_insert_other(before, h@, t@, k);
            }
        }
    }
}

impl SafeSearchMap {
    /// Each host is mapped once.
    #[verifier::type_invariant]
    spec fn hosts_unique(self) -> bool {
        keys_unique(pair_views(self.entries@)) && map_agrees(self.map@, pair_views(self.entries@))
    }

    pub fn new() -> (r: Self)
        ensures
            r@ == Seq::<(Seq<char>, Seq<char>)>::empty(),
    {
        let r = SafeSearchMap { map: StringHashMap::new(), entries: Vec::new() };
        assert(r@ =~= Seq::<(Seq<char>, Seq<char>)>::empty());
        r
    }

    /// Parse a `safesearch.map` body: `"<host> <cname-target>"` per line.
    /// Returns the map plus a warning for every line that is neither blank,
    /// a comment, nor a valid pair.
    pub fn parse(text: &str) -> (r: (Self, Vec<String>))
        ensures
            r.0@ == parse_upto(lines(text@), lines(text@).len() as int).0,
            r.1@.map_values(|w: String| w@) == parse_upto(
                lines(text@),
                lines(text@).len() as int,
            ).1,
    {
        let mut m: Vec<(String, String)> = Vec::new();
        let mut map: StringHashMap<String> = StringHashMap::new();
        let mut warnings: Vec<String> = Vec::new();
        let ls = lines_of_str(text);
        let ghost lv = lines(text@);
        let mut i: usize = 0;
        while i < ls.len()
            invariant
                i <= ls.len(),
                views(ls@) == lv,
                lv == lines(text@),
                keys_unique(pair_views(m@)),
                map_agrees(map@, pair_views(m@)),
                pair_views(m@) == parse_upto(lv, i as int).0,
                warnings@.map_values(|w: String| w@) == parse_upto(lv, i as int).1,
            decreases ls.len() - i,
        {
            assert(ls@[i as int]@ == lv[i as int]);
            let ghost prev_w = warnings@;
            let line = trim_vec(&ls[i]);
            if line.len() == 0 || line[0] == '#' {
                i += 1;
                continue;
            }
            let parts = drop_empty(&split_ws(&line));
            assert(views(parts@) == words(line@));
            if parts.len() < 2 {
                let mut w: Vec<char> = Vec::new();
                push_str(&mut w, "line ");
                push_decimal(&mut w, (i + 1) as u64);
                push_str(&mut w, ": expected '<host> <target>'");
                assert(w@ =~= malformed_warning((i + 1) as nat));
                warnings.push(string_of(&w));
                assert(warnings@.map_values(|w: String| w@) =~= prev_w.map_values(|w: String| w@).push(
                    malformed_warning((i + 1) as nat),
                ));
                i += 1;
                continue;
            }
            assert(parts@[0]@ == words(line@)[0]);
            assert(parts@[1]@ == words(line@)[1]);
            let host = string_of(&parts[0]);
            let target = string_of(&parts[1]);
            match (normalize(host.as_str()), normalize(target.as_str())) {
                (Some(h), Some(t)) => {
                    insert_entry(&mut map, &mut m, h, t);
                },
                _ => {
                    let mut w: Vec<char> = Vec::new();
                    push_str(&mut w, "line ");
                    push_decimal(&mut w, (i + 1) as u64);
                    push_str(&mut w, ": invalid host or target");
                    assert(w@ =~= invalid_warning((i + 1) as nat));
                    warnings.push(string_of(&w));
                    assert(warnings@.map_values(|w: String| w@) =~= prev_w.map_values(
                        |w: String| w@,
                    ).push(invalid_warning((i + 1) as nat)));
                },
            }
            i += 1;
        }
        (SafeSearchMap { map, entries: m }, warnings)
    }

    /// The safe CNAME target for `host`, if it is a mapped search host.
    pub fn lookup(&self, host: &str) -> (r: Option<&str>)
        ensures
            match get_spec(self@, lookup_key(host@)) {
                Some(t) => r matches Some(s) && s@ == t,
                None => r is None,
            },
    {
        proof {
            use_type_invariant(self);
        }
        let key = string_of(&ascii_lower_vec(&trim_char_vec(&chars_of(host), '.')));
        match self.map.get(key.as_str()) {
            Some(t) => Some(t.as_str()),
            None => None,
        }
    }

    /// All CNAME targets (the "safe" hosts). The resolver must never sinkhole
    /// or rewrite these, so they resolve normally.
    pub fn targets(&self) -> (r: StringHashSet)
        ensures
            forall|t: Seq<char>| #[trigger]
                r@.contains(t) <==> exists|i: int| 0 <= i < self@.len() && (#[trigger] self@[i]).1
                    == t,
    {
        let mut out = StringHashSet::new();
        let mut i: usize = 0;
        while i < self.entries.len()
            invariant
                i <= self.entries.len(),
                forall|t: Seq<char>| #[trigger]
                    out@.contains(t) <==> exists|j: int| 0 <= j < i && (#[trigger] self@[j]).1 == t,
            decreases self.entries.len() - i,
        {
            assert(self@[i as int].1 == self.entries@[i as int].1@);
            out.insert(self.entries[i].1.clone());
            proof {
                assert forall|t: Seq<char>| #[trigger]
                    out@.contains(t) <==> exists|j: int| 0 <= j < i + 1 && (#[trigger] self@[j]).1
                        == t by {
                    if t == self@[i as int].1 {
                        assert(self@[i as int].1 == t);
                    }
                }
            }
            i += 1;
        }
        out
    }

    /// The number of mapped hosts.
    pub fn len(&self) -> (r: usize)
        ensures
            r == self@.len(),
    {
        self.entries.len()
    }

    pub fn is_empty(&self) -> (r: bool)
        ensures
            r == (self@.len() == 0),
    {
        self.entries.len() == 0
    }

    /// A copy of this map.
    pub fn duplicate(&self) -> (r: Self)
        ensures
            r@ == self@,
    {
        proof {
            use_type_invariant(self);
        }
        let mut out: Vec<(String, String)> = Vec::new();
        let mut map: StringHashMap<String> = StringHashMap::new();
        let mut i: usize = 0;
        assert(self@.take(0) =~= Seq::<(Seq<char>, Seq<char>)>::empty());
        while i < self.entries.len()
            invariant
                i <= self.entries.len(),
                keys_unique(self@),
                pair_views(out@) == self@.take(i as int),
                keys_unique(pair_views(out@)),
                map_agrees(map@, pair_views(out@)),
            decreases self.entries.len() - i,
        {
            let h = self.entries[i].0.clone();
            let t = self.entries[i].1.clone();
            assert(self@[i as int] == (h@, t@));
            proof {
                let pre = self@.take(i as int);
                if has_key(pre, h@) {
                    let c = choose|c: int| 0 <= c < pre.len() && (#[trigger] pre[c]).0 == h@;
                    assert(self@[c].0 == self@[i as int].0);
                }
                assert(self@.take(i + 1) =~= pre.push((h@, t@)));
            }
            insert_entry(&mut map, &mut out, h, t);
            i += 1;
        }
        assert(self@.take(self.entries.len() as int) =~= self@);
        SafeSearchMap { map, entries: out }
    }
}

} // verus!
