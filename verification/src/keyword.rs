//! Keyword rules matched against the DOMAIN NAME.
//!
//! Sanctum filters at the DNS layer, so the only text it ever sees is the
//! hostname being resolved. That is enough to catch the long tail of sites whose
//! names describe themselves, which a fixed blocklist can never keep up with.
//! It is NOT page-content filtering.
//!
//! # Avoiding the Scunthorpe problem
//!
//! Naive substring matching is actively harmful: `sex` would block
//! `essex.ac.uk`, and `anal` would block `analytics.google.com`. So every
//! keyword carries a match mode:
//!
//! * [`MatchMode::Substring`] — for long, distinctive terms that are safe
//!   anywhere inside a label (`porn` in `freeporn`).
//! * [`MatchMode::Token`] — for short or ambiguous terms, which must appear as a
//!   COMPLETE token. `sex` then matches `sex.com` but not `essex`.
//!
//! Labels are split into tokens on any non-letter (hyphens, digits, underscore),
//! so `free-porn-4-you` yields `free`, `porn`, `you`.

use vstd::prelude::*;
use crate::text::{
    lemma_split_layout, piece_fits, piece_separated, piece_start,
    before_first_char, chars_of, drop_empty, nonempty, contains_seq, contains_seq_exec, is_ascii_alpha, is_char, lines,
    lines_of_str, slice_chars, split_by, split_char, split_on_char, string_of, trim, trim_end_by,
    trim_vec, views,
};

verus! {

/// User-added keywords at least this long are safe enough to match as a
/// substring; anything shorter is restricted to whole-token matching.
pub const MIN_USER_SUBSTRING_LEN: usize = 5;

/// How a keyword must appear in a domain label to count as a match.
#[derive(Clone, Copy, Debug, PartialEq, Eq, Structural)]
pub enum MatchMode {
    /// Must be a complete token within a label (safe for short/ambiguous words).
    Token,
    /// May appear anywhere inside a label (only for distinctive words).
    Substring,
}

#[derive(Clone, Debug, PartialEq, Eq)]
pub struct Keyword {
    pub word: String,
    pub mode: MatchMode,
}

/// What `str::to_lowercase` returns for a string: its full Unicode
/// lowercase mapping.
pub uninterp spec fn unicode_lowercase(s: Seq<char>) -> Seq<char>;

/// `str::to_lowercase`: the Unicode lowercase mapping of `s`.
#[verifier::external_body]
pub(crate) fn to_lowercase(s: &str) -> (r: String)
    ensures
        r@ == unicode_lowercase(s@),
{
    s.to_lowercase()
}

/// The form a keyword's word is stored in: trimmed and lowercased.
pub open spec fn word_form(w: Seq<char>) -> Seq<char> {
    unicode_lowercase(trim(w))
}

fn word_form_exec(w: &str) -> (r: String)
    ensures
        r@ == word_form(w@),
{
    let v = chars_of(w);
    let t = string_of(&trim_vec(&v));
    to_lowercase(t.as_str())
}

impl Keyword {
    /// A copy of this keyword.
    pub fn duplicate(&self) -> (r: Self)
        ensures
            kw_view(r) == kw_view(*self),
    {
        Keyword { word: self.word.clone(), mode: self.mode }
    }

    pub fn token(word: &str) -> (r: Self)
        ensures
            r.word@ == word_form(word@),
            r.mode == MatchMode::Token,
    {
        Self { word: word_form_exec(word), mode: MatchMode::Token }
    }

    pub fn substring(word: &str) -> (r: Self)
        ensures
            r.word@ == word_form(word@),
            r.mode == MatchMode::Substring,
    {
        Self { word: word_form_exec(word), mode: MatchMode::Substring }
    }

    /// A keyword the user typed. Short words are pinned to token matching so a
    /// three-letter entry can't quietly take out half the web.
    pub fn user(word: &str) -> (r: Self)
        ensures
            r.word@ == word_form(word@),
            r.mode == (if word_form(word@).len() >= MIN_USER_SUBSTRING_LEN {
                MatchMode::Substring
            } else {
                MatchMode::Token
            }),
    {
        let w = word_form_exec(word);
        let n = chars_of(w.as_str()).len();
        if n >= MIN_USER_SUBSTRING_LEN {
            Self { word: w, mode: MatchMode::Substring }
        } else {
            Self { word: w, mode: MatchMode::Token }
        }
    }
}

/// The token separator: any character that is not an ASCII letter.
pub open spec fn non_alpha() -> spec_fn(char) -> bool {
    |c: char| !is_ascii_alpha(c)
}

/// The letter-only tokens of a label: the pieces between non-letters.
pub open spec fn token_pieces(label: Seq<char>) -> Seq<Seq<char>> {
    split_by(label, non_alpha())
}

/// Split `label` at every non-letter (empty pieces kept).
fn split_non_alpha(v: &Vec<char>) -> (r: Vec<Vec<char>>)
    ensures
        views(r@) == token_pieces(v@),
{
    let ghost sep = non_alpha();
    let mut done: Vec<Vec<char>> = Vec::new();
    let mut cur: Vec<char> = Vec::new();
    let mut i: usize = 0;
    while i < v.len()
        invariant
            i <= v.len(),
            sep == non_alpha(),
            views(done@).push(cur@) == split_by(v@.take(i as int), sep),
        decreases v.len() - i,
    {
        let c = v[i];
        let ghost before = v@.take(i as int);
        let ghost after = v@.take(i + 1);
        proof {
            assert(after.drop_last() =~= before);
            assert(after.last() == c);
        }
        if !(('a' <= c && c <= 'z') || ('A' <= c && c <= 'Z')) {
            let finished = cur;
            let ghost prev = done@;
            done.push(finished);
            cur = Vec::new();
            proof {
                assert(views(done@) =~= views(prev).push(finished@));
                assert(views(done@).push(cur@) =~= split_by(before, sep).push(Seq::empty()));
            }
        } else {
            cur.push(c);
            proof {
                let rest = split_by(before, sep);
                assert(views(done@).push(cur@) =~= rest.update(rest.len() - 1, rest.last().push(c)));
            }
        }
        i += 1;
    }
    assert(v@.take(v.len() as int) =~= v@);
    let ghost prev = done@;
    let ghost last = cur@;
    done.push(cur);
    proof {
        assert(views(done@) =~= views(prev).push(last));
    }
    done
}

/// Whether keyword `(word, mode)` matches `label`.
pub open spec fn keyword_hits(label: Seq<char>, word: Seq<char>, mode: MatchMode) -> bool {
    match mode {
        MatchMode::Substring => contains_seq(label, word),
        MatchMode::Token => word.len() > 0 && token_pieces(label).contains(word),
    }
}

/// The view of a keyword: its word and mode.
pub open spec fn kw_view(k: Keyword) -> (Seq<char>, MatchMode) {
    (k.word@, k.mode)
}

/// The first keyword at or after `j` that hits `label`.
pub open spec fn first_kw_from(label: Seq<char>, kws: Seq<(Seq<char>, MatchMode)>, j: int) -> Option<
    int,
>
    decreases kws.len() - j,
{
    if j < 0 || j >= kws.len() {
        None
    } else if keyword_hits(label, kws[j].0, kws[j].1) {
        Some(j)
    } else {
        first_kw_from(label, kws, j + 1)
    }
}

/// The keyword hit by the first non-empty label at or after `i` that any keyword hits.
pub open spec fn first_hit_from(ls: Seq<Seq<char>>, kws: Seq<(Seq<char>, MatchMode)>, i: int) -> Option<
    int,
>
    decreases ls.len() - i,
{
    if i < 0 || i >= ls.len() {
        None
    } else if ls[i].len() > 0 && first_kw_from(ls[i], kws, 0) is Some {
        first_kw_from(ls[i], kws, 0)
    } else {
        first_hit_from(ls, kws, i + 1)
    }
}

/// The host a domain is matched as: trimmed, trailing dots removed, lowercased.
pub open spec fn match_host(domain: Seq<char>) -> Seq<char> {
    unicode_lowercase(trim_end_by(trim(domain), is_char('.')))
}

/// The index of the keyword that matches `domain`, if any: labels are tried
/// left to right, and within a label the keywords in set order.
pub open spec fn match_index(kws: Seq<(Seq<char>, MatchMode)>, domain: Seq<char>) -> Option<int> {
    let host = match_host(domain);
    if kws.len() == 0 || host.len() == 0 {
        None
    } else {
        first_hit_from(split_char(host, '.'), kws, 0)
    }
}

/// A compiled set of keyword rules.
pub struct KeywordSet {
    keywords: Vec<Keyword>,
}

/// The keywords a rule file contributes, in order (before de-duplication).
pub open spec fn rule_of_line(raw: Seq<char>) -> Option<(Seq<char>, MatchMode)> {
    let line = trim(before_first_char(raw, '#'));
    if line.len() == 0 {
        None
    } else if line[0] == '~' {
        Some((word_form(line.drop_first()), MatchMode::Substring))
    } else {
        Some((word_form(line), MatchMode::Token))
    }
}

/// Inserting keyword `k` into the rule list `kws`: ignored when its word is
/// empty or already present (whatever the mode), else appended.
pub open spec fn insert_spec(kws: Seq<(Seq<char>, MatchMode)>, k: (Seq<char>, MatchMode)) -> Seq<
    (Seq<char>, MatchMode),
> {
    if k.0.len() == 0 || exists|i: int| 0 <= i < kws.len() && kws[i].0 == k.0 {
        kws
    } else {
        kws.push(k)
    }
}

/// The rule list after inserting each of `ks` in turn.
pub open spec fn insert_all(kws: Seq<(Seq<char>, MatchMode)>, ks: Seq<(Seq<char>, MatchMode)>) -> Seq<
    (Seq<char>, MatchMode),
>
    decreases ks.len(),
{
    if ks.len() == 0 {
        kws
    } else {
        insert_spec(insert_all(kws, ks.drop_last()), ks.last())
    }
}

/// The rule list after inserting the rules of the first `n` lines.
pub open spec fn parse_upto(ls: Seq<Seq<char>>, n: int) -> Seq<(Seq<char>, MatchMode)>
    decreases n,
{
    if n <= 0 {
        Seq::empty()
    } else {
        let prev = parse_upto(ls, n - 1);
        match rule_of_line(ls[n - 1]) {
            Some(k) => insert_spec(prev, k),
            None => prev,
        }
    }
}

impl View for KeywordSet {
    type V = Seq<(Seq<char>, MatchMode)>;

    closed spec fn view(&self) -> Seq<(Seq<char>, MatchMode)> {
        self.keywords@.map_values(|k: Keyword| kw_view(k))
    }
}

/// Every word is non-empty and no word occurs twice.
pub open spec fn rules_wf(kws: Seq<(Seq<char>, MatchMode)>) -> bool {
    &&& forall|i: int| 0 <= i < kws.len() ==> (#[trigger] kws[i]).0.len() > 0
    &&& forall|i: int, j: int|
        0 <= i < kws.len() && 0 <= j < kws.len() && i != j ==> (#[trigger] kws[i]).0 != (
        #[trigger] kws[j]).0
}

pub proof fn lemma_insert_wf(kws: Seq<(Seq<char>, MatchMode)>, k: (Seq<char>, MatchMode))
    requires
        rules_wf(kws),
    ensures
        rules_wf(insert_spec(kws, k)),
{
    let r = insert_spec(kws, k);
    if !(k.0.len() == 0 || exists|i: int| 0 <= i < kws.len() && kws[i].0 == k.0) {
        assert forall|i: int, j: int| 0 <= i < r.len() && 0 <= j < r.len() && i != j implies (
        #[trigger] r[i]).0 != (#[trigger] r[j]).0 by {
            if i < kws.len() && j < kws.len() {
                assert(r[i] == kws[i] && r[j] == kws[j]);
            } else if i < kws.len() {
                assert(r[i] == kws[i]);
            } else {
                assert(r[j] == kws[j]);
            }
        }
    }
}

/// Split a label into letter-only tokens: `free-porn-4-you` -> free, porn, you.
pub fn tokens(label: &Vec<char>) -> (r: Vec<Vec<char>>)
    ensures
        views(r@) == token_pieces(label@).filter(nonempty()),
{
    let pieces = split_non_alpha(label);
    drop_empty(&pieces)
}

fn keyword_hits_exec(label: &Vec<char>, k: &Keyword) -> (r: bool)
    ensures
        r == keyword_hits(label@, k.word@, k.mode),
{
    let w = chars_of(k.word.as_str());
    match k.mode {
        MatchMode::Substring => contains_seq_exec(label, &w),
        MatchMode::Token => {
            if w.len() == 0 {
                return false;
            }
            let ps = split_non_alpha(label);
            let mut i: usize = 0;
            while i < ps.len()
                invariant
                    i <= ps.len(),
                    views(ps@) == token_pieces(label@),
                    w@ == k.word@,
                    k.mode == MatchMode::Token,
                    w@.len() > 0,
                    forall|j: int| 0 <= j < i ==> views(ps@)[j] != w@,
                decreases ps.len() - i,
            {
                if crate::text::chars_eq(&ps[i], &w) {
                    assert(views(ps@)[i as int] == w@);
                    assert(token_pieces(label@)[i as int] == w@);
                    return true;
                }
                i += 1;
            }
            false
        },
    }
}

/// Add `k` to `kws` unless its word is empty or already there.
fn insert_keyword(kws: &mut Vec<Keyword>, k: Keyword)
    requires
        rules_wf(old(kws)@.map_values(|k: Keyword| kw_view(k))),
    ensures
        rules_wf(final(kws)@.map_values(|k: Keyword| kw_view(k))),
        final(kws)@.map_values(|k: Keyword| kw_view(k)) == insert_spec(
            old(kws)@.map_values(|k: Keyword| kw_view(k)),
            kw_view(k),
        ),
{
    let ghost before = kws@.map_values(|k: Keyword| kw_view(k));
    proof {
        lemma_insert_wf(before, kw_view(k));
    }
    if k.word.as_str().is_empty() {
        assert(k.word@.len() == 0);
        assert(insert_spec(before, kw_view(k)) == before);
        return ;
    }
    let mut i: usize = 0;
    while i < kws.len()
        invariant
            i <= kws.len(),
            kws@.map_values(|k: Keyword| kw_view(k)) == before,
            rules_wf(before),
            forall|j: int| 0 <= j < i ==> before[j].0 != k.word@,
        decreases kws.len() - i,
    {
        assert(before[i as int] == kw_view(kws@[i as int]));
        if kws[i].word == k.word {
            assert(before[i as int].0 == k.word@);
            assert(insert_spec(before, kw_view(k)) == before);
            return ;
        }
        i += 1;
    }
    let ghost kv = kw_view(k);
    kws.push(k);
    assert(kws@.map_values(|k: Keyword| kw_view(k)) =~= before.push(kv));
}

impl KeywordSet {
    /// Every word is non-empty and no word occurs twice.
    #[verifier::type_invariant]
    spec fn words_unique(self) -> bool {
        rules_wf(self@)
    }

    pub fn new() -> (r: Self)
        ensures
            r@ == Seq::<(Seq<char>, MatchMode)>::empty(),
    {
        let r = KeywordSet { keywords: Vec::new() };
        assert(r@ =~= Seq::<(Seq<char>, MatchMode)>::empty());
        r
    }

    pub fn len(&self) -> (r: usize)
        ensures
            r == self@.len(),
    {
        self.keywords.len()
    }

    pub fn is_empty(&self) -> (r: bool)
        ensures
            r == (self@.len() == 0),
    {
        self.keywords.len() == 0
    }

    pub fn insert(&mut self, k: Keyword)
        ensures
            final(self)@ == insert_spec(old(self)@, kw_view(k)),
    {
        proof {
            use_type_invariant(&*self);
        }
        let mut kws: Vec<Keyword> = Vec::new();
        std::mem::swap(&mut kws, &mut self.keywords);
        insert_keyword(&mut kws, k);
        self.keywords = kws;
    }

    pub fn extend(&mut self, it: Vec<Keyword>)
        ensures
            final(self)@ == insert_all(old(self)@, it@.map_values(|k: Keyword| kw_view(k))),
    {
        let ghost start = self@;
        let ghost ks = it@.map_values(|k: Keyword| kw_view(k));
        let mut i: usize = 0;
        while i < it.len()
            invariant
                i <= it.len(),
                ks == it@.map_values(|k: Keyword| kw_view(k)),
                self@ == insert_all(start, ks.take(i as int)),
            decreases it.len() - i,
        {
            let k = it[i].duplicate();
            assert(kw_view(k) == ks[i as int]);
            let ghost acc = self@;
            self.insert(k);
            proof {
                assert(ks.take(i + 1).drop_last() =~= ks.take(i as int));
                assert(ks.take(i + 1).last() == ks[i as int]);
                assert(self@ == insert_all(start, ks.take(i + 1)));
            }
            i += 1;
        }
        assert(ks.take(it.len() as int) =~= ks);
    }

    /// Parse the built-in rule file. `~word` is a substring rule, a bare `word`
    /// is a token rule; `#` starts a comment and blank lines are ignored.
    pub fn parse(text: &str) -> (r: Self)
        ensures
            r@ == parse_upto(lines(text@), lines(text@).len() as int),
    {
        let mut set = Self::new();
        let ls = lines_of_str(text);
        let ghost lv = lines(text@);
        let mut i: usize = 0;
        while i < ls.len()
            invariant
                i <= ls.len(),
                views(ls@) == lv,
                set@ == parse_upto(lv, i as int),
            decreases ls.len() - i,
        {
            assert(ls@[i as int]@ == lv[i as int]);
            let before = crate::text::before_first_char_exec(&ls[i], '#');
            let line = trim_vec(&before);
            if line.len() > 0 {
                if line[0] == '~' {
                    let rest = slice_chars(&line, 1, line.len());
                    assert(rest@ =~= line@.drop_first());
                    let rs = string_of(&rest);
                    set.insert(Keyword::substring(rs.as_str()));
                } else {
                    let ls2 = string_of(&line);
                    set.insert(Keyword::token(ls2.as_str()));
                }
            }
            i += 1;
        }
        set
    }

    /// The keyword that matches `domain`, if any. Case-insensitive.
    pub fn match_of(&self, domain: &str) -> (r: Option<&Keyword>)
        ensures
            match match_index(self@, domain@) {
                Some(j) => r matches Some(k) && 0 <= j < self@.len() && kw_view(*k) == self@[j],
                None => r is None,
            },
    {
        if self.keywords.len() == 0 {
            return None;
        }
        let v = chars_of(domain);
        let t = trim_vec(&v);
        let mut end = t.len();
        assert(t@.take(end as int) =~= t@);
        while end > 0 && t[end - 1] == '.'
            invariant
                end <= t.len(),
                trim_end_by(t@, is_char('.')) == trim_end_by(t@.take(end as int), is_char('.')),
            decreases end,
        {
            proof {
                let u = t@.take(end as int);
                assert(u.drop_last() =~= t@.take(end - 1));
            }
            end -= 1;
        }
        proof {
            let u = t@.take(end as int);
            if end > 0 {
                assert(u.last() == t@[end - 1]);
            }
            assert(trim_end_by(u, is_char('.')) == u);
        }
        let stripped = string_of(&slice_chars(&t, 0, end));
        assert(stripped@ =~= t@.take(end as int));
        let host_s = to_lowercase(stripped.as_str());
        let host = chars_of(host_s.as_str());
        if host.len() == 0 {
            return None;
        }
        let labels = split_on_char(&host, '.');
        let ghost ls = split_char(host@, '.');
        let ghost kws = self@;
        assert(host@ == match_host(domain@));
        let mut i: usize = 0;
        while i < labels.len()
            invariant
                i <= labels.len(),
                views(labels@) == ls,
                ls.len() == labels.len(),
                kws == self@,
                match_index(kws, domain@) == first_hit_from(ls, kws, i as int),
            decreases labels.len() - i,
        {
            let label = &labels[i];
            assert(label@ == ls[i as int]);
            if label.len() > 0 {
                let mut j: usize = 0;
                while j < self.keywords.len()
                    invariant
                        j <= self.keywords.len(),
                        kws == self@,
                        label@ == ls[i as int],
                        label@.len() > 0,
                        i < ls.len(),
                        match_index(kws, domain@) == first_hit_from(ls, kws, i as int),
                        first_kw_from(ls[i as int], kws, 0) == first_kw_from(
                            ls[i as int],
                            kws,
                            j as int,
                        ),
                    decreases self.keywords.len() - j,
                {
                    assert(kws[j as int] == kw_view(self.keywords@[j as int]));
                    if keyword_hits_exec(label, &self.keywords[j]) {
                        assert(first_kw_from(ls[i as int], kws, j as int) == Some(j as int));
                        assert(first_hit_from(ls, kws, i as int) == Some(j as int));
                        return Some(&self.keywords[j]);
                    }
                    j += 1;
                }
                assert(first_kw_from(ls[i as int], kws, j as int) is None);
            }
            assert(first_hit_from(ls, kws, i as int) == first_hit_from(ls, kws, i + 1));
            i += 1;
        }
        None
    }

    pub fn is_blocked(&self, domain: &str) -> (r: bool)
        ensures
            r == (match_index(self@, domain@) is Some),
    {
        self.match_of(domain).is_some()
    }
}

/// A token rule only ever matches a whole token, never part of a longer
/// word: its word occurs in the label with a non-letter, or the label's
/// edge, on each side (so `sex` never matches inside `essex`).
pub proof fn lemma_token_match_is_whole(label: Seq<char>, w: Seq<char>)
    requires
        keyword_hits(label, w, MatchMode::Token),
    ensures
        exists|i: int|
            0 <= i && i + w.len() <= label.len() && #[trigger] label.subrange(i, i + w.len()) == w
                && (i == 0 || !is_ascii_alpha(label[i - 1])) && (i + w.len() == label.len()
                || !is_ascii_alpha(label[i + w.len()])),
{
    let sep = non_alpha();
    let ps = token_pieces(label);
    let k = choose|k: int| 0 <= k < ps.len() && ps[k] == w;
    lemma_split_layout(label, sep);
    assert(piece_fits(label, sep, ps, k));
    let i = piece_start(ps, k);
    if k > 0 {
        assert(piece_separated(label, sep, ps, k - 1));
        assert(i == piece_start(ps, k - 1) + ps[k - 1].len() + 1);
    }
    if k < ps.len() - 1 {
        assert(piece_separated(label, sep, ps, k));
    }
    assert(label.subrange(i, i + w.len()) == w);
}

} // verus!
