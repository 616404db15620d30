//! Parsing and evaluation of the blocked-domain set.

use vstd::prelude::*;
use vstd::hash_set::StringHashSet;
use crate::domain::{blocked_by, is_blocked_by, normalize, normalize_spec};
use crate::sorting::{lemma_same_multiset_contains, lemma_sorted_no_dup_strict, sort_strings, sorted_strictly, str_views};
use crate::text::{lines, lines_of_str, string_of, trim, trim_vec, views};

verus! {

/// A set of blocked registrable domains. Matching is by suffix, so an
/// entry blocks the domain and all of its subdomains.
pub struct Blocklist {
    blocked: StringHashSet,
    /// The same domains as `blocked`, each once, in insertion order.
    entries: Vec<String>,
}

/// A non-fatal problem encountered while parsing a list.
pub struct ParseWarning {
    pub line: usize,
    pub content: String,
    pub reason: String,
}

/// The domain a list line contributes, if any: blank and `#` lines
/// contribute nothing, every other line its normalized form.
pub open spec fn line_entry(line: Seq<char>) -> Option<Seq<char>> {
    let t = trim(line);
    if t.len() == 0 || t[0] == '#' {
        None
    } else {
        normalize_spec(t)
    }
}

/// The line is neither blank nor a comment, yet names no valid domain.
pub open spec fn line_is_invalid(line: Seq<char>) -> bool {
    let t = trim(line);
    t.len() > 0 && t[0] != '#' && normalize_spec(t) is None
}

/// The domains contributed by the first `n` lines.
pub open spec fn entries_upto(ls: Seq<Seq<char>>, n: int) -> Set<Seq<char>>
    decreases n,
{
    if n <= 0 {
        Set::empty()
    } else {
        let prev = entries_upto(ls, n - 1);
        match line_entry(ls[n - 1]) {
            Some(d) => prev.insert(d),
            None => prev,
        }
    }
}

/// The (1-based line number, trimmed content) of every invalid line among
/// the first `n`, in order.
pub open spec fn warnings_upto(ls: Seq<Seq<char>>, n: int) -> Seq<(int, Seq<char>)>
    decreases n,
{
    if n <= 0 {
        Seq::empty()
    } else {
        let prev = warnings_upto(ls, n - 1);
        if line_is_invalid(ls[n - 1]) {
            prev.push((n, trim(ls[n - 1])))
        } else {
            prev
        }
    }
}

/// The domain set a list text parses to.
pub open spec fn parsed_set(text: Seq<char>) -> Set<Seq<char>> {
    entries_upto(lines(text), lines(text).len() as int)
}

/// The warnings a list text parses to.
pub open spec fn parsed_warnings(text: Seq<char>) -> Seq<(int, Seq<char>)> {
    warnings_upto(lines(text), lines(text).len() as int)
}

/// The (line, content) view of a warning list.
pub open spec fn warning_views(w: Seq<ParseWarning>) -> Seq<(int, Seq<char>)> {
    w.map_values(|x: ParseWarning| (x.line as int, x.content@))
}

impl View for Blocklist {
    type V = Set<Seq<char>>;

    closed spec fn view(&self) -> Set<Seq<char>> {
        self.blocked@
    }
}

/// The reason text given for a line that names no valid domain.
pub const INVALID_DOMAIN_REASON: &'static str = "not a valid domain";

/// The entry sequence holds each domain of the set exactly once.
spec fn parts_agree(blocked: Set<Seq<char>>, entries: Seq<Seq<char>>) -> bool {
    &&& entries.no_duplicates()
    &&& forall|d: Seq<char>| #[trigger] blocked.contains(d) <==> entries.contains(d)
}

impl Blocklist {
    /// The entry vector and the set agree, and the vector holds each domain once.
    #[verifier::type_invariant]
    spec fn entries_match(self) -> bool {
        parts_agree(self.blocked@, str_views(self.entries@))
    }

    pub fn new() -> (r: Self)
        ensures
            r@ == Set::<Seq<char>>::empty(),
    {
        let r = Blocklist { blocked: StringHashSet::new(), entries: Vec::new() };
        assert(str_views(r.entries@) =~= Seq::<Seq<char>>::empty());
        r
    }

    /// Insert an already-normalized domain.
    fn insert_normalized(&mut self, d: String) -> (r: bool)
        ensures
            final(self)@ == old(self)@.insert(d@),
            r == !old(self)@.contains(d@),
    {
        proof {
            use_type_invariant(&*self);
        }
        if self.blocked.contains(d.as_str()) {
            return false;
        }
        let mut whole = Blocklist::new();
        std::mem::swap(&mut whole, self);
        let Blocklist { mut blocked, mut entries } = whole;
        let ghost old_entries = str_views(entries@);
        let copy = d.clone();
        blocked.insert(d);
        entries.push(copy);
        proof {
            let nv = str_views(entries@);
            assert(nv =~= old_entries.push(copy@));
            assert(!old_entries.contains(copy@));
            assert forall|i: int, j: int| 0 <= i < nv.len() && 0 <= j < nv.len() && i != j
                implies nv[i] != nv[j] by {
                if i < old_entries.len() && j < old_entries.len() {
                    assert(old_entries[i] != old_entries[j]);
                } else if i < old_entries.len() {
                    assert(old_entries.contains(nv[i]));
                } else if j < old_entries.len() {
                    assert(old_entries.contains(nv[j]));
                }
            }
            assert forall|x: Seq<char>| #[trigger] blocked@.contains(x) <==> nv.contains(x) by {
                if nv.contains(x) {
                    let k = choose|k: int| 0 <= k < nv.len() && nv[k] == x;
                    if k < old_entries.len() {
                        assert(old_entries.contains(x));
                    }
                }
                if old_entries.contains(x) {
                    let k = choose|k: int| 0 <= k < old_entries.len() && old_entries[k] == x;
                    assert(nv[k] == x);
                }
                if x == copy@ {
                    assert(nv[nv.len() - 1] == x);
                }
            }
        }
        *self = Blocklist { blocked, entries };
        true
    }

    /// Parse a blocklist file body. Returns the list plus any per-line
    /// warnings (invalid domains are skipped, never silently accepted).
    pub fn parse(text: &str) -> (r: (Self, Vec<ParseWarning>))
        ensures
            r.0@ == parsed_set(text@),
            warning_views(r.1@) == parsed_warnings(text@),
            forall|i: int| 0 <= i < r.1.len() ==> (#[trigger] r.1@[i]).reason@
                == INVALID_DOMAIN_REASON@,
    {
        let mut list = Blocklist::new();
        let mut warnings: Vec<ParseWarning> = Vec::new();
        let ls = lines_of_str(text);
        let ghost lv = lines(text@);
        let mut i: usize = 0;
        while i < ls.len()
            invariant
                i <= ls.len(),
                views(ls@) == lv,
                lv == lines(text@),
                list@ == entries_upto(lv, i as int),
                warning_views(warnings@) == warnings_upto(lv, i as int),
                forall|k: int| 0 <= k < warnings.len() ==> (#[trigger] warnings@[k]).reason@
                    == INVALID_DOMAIN_REASON@,
            decreases ls.len() - i,
        {
            assert(ls@[i as int]@ == lv[i as int]);
            let trimmed = trim_vec(&ls[i]);
            if trimmed.len() == 0 || trimmed[0] == '#' {
                i += 1;
                continue;
            }
            let t = string_of(&trimmed);
            match normalize(t.as_str()) {
                Some(d) => {
                    list.insert_normalized(d);
                },
                None => {
                    let ghost prev = warnings@;
                    warnings.push(
                        ParseWarning {
                            line: i + 1,
                            content: t,
                            reason: INVALID_DOMAIN_REASON.to_string(),
                        },
                    );
                    proof {
                        assert(warning_views(warnings@) =~= warning_views(prev).push(
                            ((i + 1) as int, trim(lv[i as int])),
                        ));
                    }
                },
            }
            i += 1;
        }
        (list, warnings)
    }

    /// Add a domain (already-normalized or raw). Returns true if newly added.
    pub fn add(&mut self, domain: &str) -> (r: bool)
        ensures
            match normalize_spec(domain@) {
                Some(d) => final(self)@ == old(self)@.insert(d) && r == !old(self)@.contains(d),
                None => final(self)@ == old(self)@ && !r,
            },
    {
        match normalize(domain) {
            Some(d) => self.insert_normalized(d),
            None => false,
        }
    }

    /// Remove a domain. Returns true if it was present.
    pub fn remove(&mut self, domain: &str) -> (r: bool)
        ensures
            match normalize_spec(domain@) {
                Some(d) => final(self)@ == old(self)@.remove(d) && r == old(self)@.contains(d),
                None => final(self)@ == old(self)@ && !r,
            },
    {
        proof {
            use_type_invariant(&*self);
        }
        match normalize(domain) {
            Some(d) => {
                if !self.blocked.contains(d.as_str()) {
                    proof {
                        assert(self.blocked@.remove(d@) =~= self.blocked@);
                    }
                    return false;
                }
                let mut whole = Blocklist::new();
                std::mem::swap(&mut whole, self);
                let Blocklist { mut blocked, mut entries } = whole;
                let ghost old_entries = str_views(entries@);
                let ghost old_blocked = blocked@;
                blocked.remove(d.as_str());
                let mut k: usize = 0;
                while k < entries.len() && entries[k] != d
                    invariant
                        k <= entries.len(),
                        str_views(entries@) == old_entries,
                        old_entries.contains(d@),
                        forall|j: int| 0 <= j < k ==> old_entries[j] != d@,
                    decreases entries.len() - k,
                {
                    k += 1;
                }
                if k == entries.len() {
                    proof {
                        let w = choose|w: int| 0 <= w < old_entries.len() && old_entries[w] == d@;
                        assert(old_entries[w] != d@);
                    }
                    return true;
                }
                assert(old_entries[k as int] == d@);
                entries.remove(k);
                proof {
                    let nv = str_views(entries@);
                    assert(nv =~= old_entries.remove(k as int));
                    assert forall|a: int, b: int| 0 <= a < nv.len() && 0 <= b < nv.len() && a
                        != b implies nv[a] != nv[b] by {
                        let a2 = if a < k { a } else { a + 1 };
                        let b2 = if b < k { b } else { b + 1 };
                        assert(nv[a] == old_entries[a2]);
                        assert(nv[b] == old_entries[b2]);
                    }
                    assert forall|x: Seq<char>| #[trigger] blocked@.contains(x) <==> nv.contains(
                        x,
                    ) by {
                        if nv.contains(x) {
                            let w = choose|w: int| 0 <= w < nv.len() && nv[w] == x;
                            let w2 = if w < k { w } else { w + 1 };
                            assert(old_entries[w2] == x);
                            assert(w2 != k);
                            assert(old_entries.contains(x));
                        }
                        if old_entries.contains(x) && x != d@ {
                            let w = choose|w: int| 0 <= w < old_entries.len() && old_entries[w]
                                == x;
                            assert(w != k);
                            if w < k {
                                assert(nv[w] == x);
                            } else {
                                assert(nv[w - 1] == x);
                            }
                        }
                    }
                }
                *self = Blocklist { blocked, entries };
                true
            },
            None => false,
        }
    }

    /// True if `host` (or a parent domain) is blocked.
    pub fn is_blocked(&self, host: &str) -> (r: bool)
        ensures
            r == blocked_by(host@, self@),
    {
        is_blocked_by(host, &self.blocked)
    }

    /// True if this exact normalized domain is an entry (not suffix match).
    pub fn contains_exact(&self, domain: &str) -> (r: bool)
        ensures
            r == match normalize_spec(domain@) {
                Some(d) => self@.contains(d),
                None => false,
            },
    {
        match normalize(domain) {
            Some(d) => self.blocked.contains(d.as_str()),
            None => false,
        }
    }

    pub fn len(&self) -> (r: usize)
        ensures
            r == self@.len(),
    {
        self.blocked.len()
    }

    pub fn is_empty(&self) -> (r: bool)
        ensures
            r == (self@.len() == 0),
    {
        proof {
            use_type_invariant(self);
        }
        let r = self.blocked.is_empty();
        proof {
            let ev = str_views(self.entries@);
            assert(self.blocked@ =~= ev.to_set());
            vstd::seq_lib::seq_to_set_is_finite(ev);
            if !r {
                let x = self.blocked@.choose();
                vstd::set::axiom_set_contains_len(self.blocked@, x);
            } else {
                broadcast use vstd::set::axiom_set_empty_len;
                assert(self.blocked@ =~= Set::<Seq<char>>::empty());
            }
        }
        r
    }

    /// Merge another list into this one (union). Used to combine the
    /// starter list + custom list + imported list.
    pub fn merge(&mut self, other: &Blocklist)
        ensures
            final(self)@ == old(self)@.union(other@),
    {
        proof {
            use_type_invariant(other);
        }
        let ghost start = self@;
        let ghost ov = str_views(other.entries@);
        let mut i: usize = 0;
        while i < other.entries.len()
            invariant
                i <= other.entries.len(),
                ov == str_views(other.entries@),
                parts_agree(other@, ov),
                self@ == start.union(ov.take(i as int).to_set()),
            decreases other.entries.len() - i,
        {
            let d = other.entries[i].clone();
            self.insert_normalized(d);
            proof {
                assert(ov.take(i + 1) =~= ov.take(i as int).push(ov[i as int]));
                ov.take(i as int).lemma_push_to_set_commute(ov[i as int]);
            }
            i += 1;
        }
        proof {
            assert(ov.take(i as int) =~= ov);
            assert forall|x: Seq<char>| #[trigger] ov.to_set().contains(x) <==> other@.contains(
                x,
            ) by {}
            assert(ov.to_set() =~= other@);
        }
    }

    /// Sorted view, suitable for rendering the hosts section deterministically.
    pub fn sorted(&self) -> (r: Vec<String>)
        ensures
            sorted_strictly(str_views(r@)),
            str_views(r@).to_set() == self@,
    {
        proof {
            use_type_invariant(self);
        }
        let mut v = self.entries.clone();
        proof {
            assert(str_views(v@) =~= str_views(self.entries@));
        }
        sort_strings(&mut v);
        proof {
            lemma_sorted_no_dup_strict(str_views(v@), str_views(self.entries@));
            assert forall|x: Seq<char>| #[trigger] str_views(v@).to_set().contains(x)
                <==> self@.contains(x) by {
                lemma_same_multiset_contains(
                    str_views(v@),
                    str_views(self.entries@),
                    x,
                );
            }
            assert(str_views(v@).to_set() =~= self@);
        }
        v
    }

    /// The entries, each once.
    pub fn iter(&self) -> (r: &Vec<String>)
        ensures
            str_views(r@).no_duplicates(),
            str_views(r@).to_set() == self@,
    {
        proof {
            use_type_invariant(self);
        }
        proof {
            assert forall|x: Seq<char>| #[trigger] str_views(self.entries@).to_set().contains(x)
                <==> self@.contains(x) by {}
            assert(str_views(self.entries@).to_set() =~= self@);
        }
        &self.entries
    }

    /// A copy of this list.
    pub fn clone(&self) -> (r: Self)
        ensures
            r@ == self@,
    {
        let mut r = Blocklist::new();
        r.merge(self);
        assert(Set::<Seq<char>>::empty().union(self@) =~= self@);
        r
    }
}

} // verus!
