//! Domain normalization and suffix matching.
//!
//! Matching rule: a query host is blocked if the host itself, or any of
//! its parent domains, is present in the block set. So blocking
//! `example.com` also blocks `www.example.com` and `cdn.a.example.com`.

use vstd::prelude::*;
use vstd::hash_set::StringHashSet;
use crate::text::{
    ascii_lower, ascii_lower_vec, chars_of, find_char, find_char_exec, find_seq, find_seq_exec,
    is_ascii_alnum, is_ascii_digit, rfind_char, rfind_char_exec, slice_chars, split_char,
    split_on_char, string_of, trim, trim_char, trim_char_vec, trim_vec, views,
};

verus! {

// ---------------------------------------------------------------------------
// Host validation
// ---------------------------------------------------------------------------

/// Every character of `s` is an ASCII digit.
pub open spec fn all_digits(s: Seq<char>) -> bool {
    forall|i: int| 0 <= i < s.len() ==> is_ascii_digit(#[trigger] s[i])
}

/// One DNS label: 1..=63 ASCII letters, digits or hyphens, not starting or
/// ending with a hyphen.
pub open spec fn valid_label(l: Seq<char>) -> bool {
    &&& 1 <= l.len() <= 63
    &&& l[0] != '-'
    &&& l.last() != '-'
    &&& forall|i: int| 0 <= i < l.len() ==> is_ascii_alnum(#[trigger] l[i]) || l[i] == '-'
}

/// The dot-separated labels of a host.
pub open spec fn labels(h: Seq<char>) -> Seq<Seq<char>> {
    split_char(h, '.')
}

/// A plausible hostname: at most 253 characters, at least two labels, every
/// label valid, and a top-level label that is not all digits (so a bare IPv4
/// address is rejected).
pub open spec fn valid_host(h: Seq<char>) -> bool {
    let ls = labels(h);
    &&& 1 <= h.len() <= 253
    &&& ls.len() >= 2
    &&& forall|i: int| 0 <= i < ls.len() ==> valid_label(#[trigger] ls[i])
    &&& !all_digits(ls.last())
}

fn all_digits_exec(v: &Vec<char>) -> (r: bool)
    ensures
        r == all_digits(v@),
{
    let mut i: usize = 0;
    while i < v.len()
        invariant
            i <= v.len(),
            forall|j: int| 0 <= j < i ==> is_ascii_digit(#[trigger] v@[j]),
        decreases v.len() - i,
    {
        if !('0' <= v[i] && v[i] <= '9') {
            return false;
        }
        i += 1;
    }
    true
}

fn valid_label_exec(l: &Vec<char>) -> (r: bool)
    ensures
        r == valid_label(l@),
{
    if l.len() == 0 || l.len() > 63 {
        return false;
    }
    if l[0] == '-' || l[l.len() - 1] == '-' {
        return false;
    }
    let mut i: usize = 0;
    while i < l.len()
        invariant
            i <= l.len(),
            forall|j: int| 0 <= j < i ==> is_ascii_alnum(#[trigger] l@[j]) || l@[j] == '-',
        decreases l.len() - i,
    {
        let c = l[i];
        if !(('a' <= c && c <= 'z') || ('A' <= c && c <= 'Z') || ('0' <= c && c <= '9') || c
            == '-') {
            return false;
        }
        i += 1;
    }
    true
}

/// `valid_host` on a character vector.
pub fn valid_host_chars(v: &Vec<char>) -> (r: bool)
    ensures
        r == valid_host(v@),
{
    if v.len() == 0 || v.len() > 253 {
        return false;
    }
    let ls = split_on_char(v, '.');
    if ls.len() < 2 {
        return false;
    }
    let mut i: usize = 0;
    while i < ls.len()
        invariant
            i <= ls.len(),
            views(ls@) == labels(v@),
            forall|j: int| 0 <= j < i ==> valid_label(#[trigger] labels(v@)[j]),
        decreases ls.len() - i,
    {
        assert(ls@[i as int]@ == labels(v@)[i as int]);
        if !valid_label_exec(&ls[i]) {
            return false;
        }
        i += 1;
    }
    let last = ls.len() - 1;
    assert(ls@[last as int]@ == labels(v@).last());
    !all_digits_exec(&ls[last])
}

/// Loose hostname validation: ASCII letters/digits/hyphen labels, at least
/// two labels, each label 1..=63 chars, no leading/trailing hyphen.
pub fn is_valid_host(host: &str) -> (r: bool)
    ensures
        r == valid_host(host@),
{
    let v = chars_of(host);
    valid_host_chars(&v)
}

// ---------------------------------------------------------------------------
// Normalization
// ---------------------------------------------------------------------------

/// Keep what precedes the first `c` (all of `s` if there is none).
pub open spec fn before_first(s: Seq<char>, c: char) -> Seq<char> {
    match find_char(s, c) {
        Some(i) => s.take(i),
        None => s,
    }
}

/// Keep what follows the first `c` (all of `s` if there is none).
pub open spec fn after_first(s: Seq<char>, c: char) -> Seq<char> {
    match find_char(s, c) {
        Some(i) => s.skip(i + 1),
        None => s,
    }
}

/// The scheme separator `://`.
pub open spec fn scheme_sep() -> Seq<char> {
    seq![':', '/', '/']
}

/// Keep what follows the first `://` (all of `s` if there is none).
pub open spec fn after_scheme(s: Seq<char>) -> Seq<char> {
    match find_seq(s, scheme_sep()) {
        Some(i) => s.skip(i + 3),
        None => s,
    }
}

/// Drop a trailing `:<digits>` port (the last colon followed by at least
/// one digit and nothing else).
pub open spec fn strip_port(s: Seq<char>) -> Seq<char> {
    match rfind_char(s, ':') {
        Some(i) => if i + 1 < s.len() && all_digits(s.skip(i + 1)) {
            s.take(i)
        } else {
            s
        },
        None => s,
    }
}

/// Drop every leading `*.` (`str::trim_start_matches("*.")`).
pub open spec fn strip_wildcards(s: Seq<char>) -> Seq<char>
    decreases s.len(),
{
    if s.len() >= 2 && s[0] == '*' && s[1] == '.' {
        strip_wildcards(s.skip(2))
    } else {
        s
    }
}

/// Drop an inline comment: what precedes the first `#`, trimmed.
pub open spec fn strip_comment(s: Seq<char>) -> Seq<char> {
    match find_char(s, '#') {
        Some(i) => trim(s.take(i)),
        None => s,
    }
}

/// The host part of an already comment-free, lowercased entry: scheme,
/// userinfo, path/query/fragment and port removed, then leading wildcards
/// and stray dots.
pub open spec fn host_part(h: Seq<char>) -> Seq<char> {
    let h = after_scheme(h);
    let h = after_first(h, '@');
    let h = before_first(before_first(before_first(h, '/'), '?'), '#');
    let h = strip_port(h);
    trim_char(strip_wildcards(h), '.')
}

/// The canonical host of a user- or list-supplied entry, if it has one.
pub open spec fn normalize_spec(input: Seq<char>) -> Option<Seq<char>> {
    let s = trim(input);
    if s.len() == 0 || s[0] == '#' {
        None
    } else {
        let h = host_part(ascii_lower(strip_comment(s)));
        if valid_host(h) {
            Some(h)
        } else {
            None
        }
    }
}

fn before_first_exec(v: Vec<char>, c: char) -> (r: Vec<char>)
    ensures
        r@ == before_first(v@, c),
{
    match find_char_exec(&v, c) {
        Some(i) => slice_chars(&v, 0, i),
        None => v,
    }
}

fn after_first_exec(v: Vec<char>, c: char) -> (r: Vec<char>)
    ensures
        r@ == after_first(v@, c),
{
    match find_char_exec(&v, c) {
        Some(i) => slice_chars(&v, i + 1, v.len()),
        None => v,
    }
}

fn after_scheme_exec(v: Vec<char>) -> (r: Vec<char>)
    ensures
        r@ == after_scheme(v@),
{
    let mut sep: Vec<char> = Vec::new();
    sep.push(':');
    sep.push('/');
    sep.push('/');
    assert(sep@ =~= scheme_sep());
    match find_seq_exec(&v, &sep) {
        Some(i) => slice_chars(&v, i + 3, v.len()),
        None => v,
    }
}

fn strip_port_exec(v: Vec<char>) -> (r: Vec<char>)
    ensures
        r@ == strip_port(v@),
{
    match rfind_char_exec(&v, ':') {
        Some(i) => {
            let tail = slice_chars(&v, i + 1, v.len());
            assert(tail@ =~= v@.skip(i + 1));
            if i + 1 < v.len() && all_digits_exec(&tail) {
                slice_chars(&v, 0, i)
            } else {
                v
            }
        },
        None => v,
    }
}

fn strip_wildcards_exec(v: &Vec<char>) -> (r: Vec<char>)
    ensures
        r@ == strip_wildcards(v@),
{
    let mut i: usize = 0;
    assert(v@.skip(0) =~= v@);
    while v.len() - i >= 2 && v[i] == '*' && v[i + 1] == '.'
        invariant
            i <= v.len(),
            strip_wildcards(v@) == strip_wildcards(v@.skip(i as int)),
        decreases v.len() - i,
    {
        proof {
            let t = v@.skip(i as int);
            assert(t[0] == '*' && t[1] == '.');
            assert(t.skip(2) =~= v@.skip(i + 2));
        }
        i += 2;
    }
    proof {
        let t = v@.skip(i as int);
        if t.len() >= 2 {
            assert(t[0] == v@[i as int] && t[1] == v@[i + 1]);
        }
    }
    let r = slice_chars(v, i, v.len());
    assert(r@ =~= v@.skip(i as int));
    r
}

fn strip_comment_exec(v: Vec<char>) -> (r: Vec<char>)
    ensures
        r@ == strip_comment(v@),
{
    match find_char_exec(&v, '#') {
        Some(i) => {
            let head = slice_chars(&v, 0, i);
            assert(head@ =~= v@.take(i as int));
            trim_vec(&head)
        },
        None => v,
    }
}

/// `normalize` on a character vector.
pub fn normalize_chars(input: &Vec<char>) -> (r: Option<Vec<char>>)
    ensures
        match normalize_spec(input@) {
            Some(h) => r matches Some(v) && v@ == h,
            None => r is None,
        },
{
    let s = trim_vec(input);
    if s.len() == 0 || s[0] == '#' {
        return None;
    }
    let s = strip_comment_exec(s);
    let h = ascii_lower_vec(&s);
    let h = after_scheme_exec(h);
    let h = after_first_exec(h, '@');
    let h = before_first_exec(h, '/');
    let h = before_first_exec(h, '?');
    let h = before_first_exec(h, '#');
    let h = strip_port_exec(h);
    let h = strip_wildcards_exec(&h);
    let h = trim_char_vec(&h, '.');
    if valid_host_chars(&h) {
        Some(h)
    } else {
        None
    }
}

/// Normalize a user- or list-supplied domain string into a canonical
/// lowercase host with no scheme, path, port, wildcard, or trailing dot.
///
/// Returns `None` if the input is empty, a comment, or not a plausible
/// hostname. This is intentionally strict-ish but tolerant of pasted URLs.
pub fn normalize(input: &str) -> (r: Option<String>)
    ensures
        match normalize_spec(input@) {
            Some(h) => r matches Some(s) && s@ == h,
            None => r is None,
        },
{
    let v = chars_of(input);
    match normalize_chars(&v) {
        Some(h) => Some(string_of(&h)),
        None => None,
    }
}

// ---------------------------------------------------------------------------
// Suffix matching
// ---------------------------------------------------------------------------

/// `t` is `s` itself or what follows one of the dots of `s`.
pub open spec fn is_parent_suffix(s: Seq<char>, t: Seq<char>) -> bool {
    t == s || exists|i: int| 0 <= i < s.len() && s[i] == '.' && t == s.skip(i + 1)
}

/// The suffixes following the dots at positions `i` and later, in order.
pub open spec fn suffixes_from(s: Seq<char>, i: int) -> Seq<Seq<char>>
    decreases s.len() - i,
{
    if i < 0 || i >= s.len() {
        Seq::empty()
    } else if s[i] == '.' {
        seq![s.skip(i + 1)] + suffixes_from(s, i + 1)
    } else {
        suffixes_from(s, i + 1)
    }
}

/// `host` and each of its parent suffixes, longest first:
/// `a.b.example.com`, `b.example.com`, `example.com`, `com`.
pub open spec fn parent_suffixes_spec(s: Seq<char>) -> Seq<Seq<char>> {
    seq![s] + suffixes_from(s, 0)
}

/// Membership in `suffixes_from` is exactly "follows a dot at or after `i`".
pub proof fn lemma_suffixes_from_contains(s: Seq<char>, i: int, t: Seq<char>)
    requires
        0 <= i,
    ensures
        suffixes_from(s, i).contains(t) <==> exists|j: int|
            i <= j < s.len() && s[j] == '.' && t == s.skip(j + 1),
    decreases s.len() - i,
{
    if i >= s.len() {
    } else {
        lemma_suffixes_from_contains(s, i + 1, t);
        let rest = suffixes_from(s, i + 1);
        if s[i] == '.' {
            let whole = seq![s.skip(i + 1)] + rest;
            if whole.contains(t) {
                let k = choose|k: int| 0 <= k < whole.len() && whole[k] == t;
                if k > 0 {
                    assert(rest[k - 1] == t);
                }
            }
            if exists|j: int| i <= j < s.len() && s[j] == '.' && t == s.skip(j + 1) {
                let j = choose|j: int| i <= j < s.len() && s[j] == '.' && t == s.skip(j + 1);
                if j == i {
                    assert(whole[0] == t);
                } else {
                    let k = choose|k: int| 0 <= k < rest.len() && rest[k] == t;
                    assert(whole[k + 1] == t);
                }
            }
        } else {
            if exists|j: int| i <= j < s.len() && s[j] == '.' && t == s.skip(j + 1) {
                let j = choose|j: int| i <= j < s.len() && s[j] == '.' && t == s.skip(j + 1);
                assert(j != i);
            }
        }
    }
}

/// The listed parent suffixes are exactly the parent suffixes.
pub proof fn lemma_parent_suffixes_contains(s: Seq<char>, t: Seq<char>)
    ensures
        parent_suffixes_spec(s).contains(t) <==> is_parent_suffix(s, t),
{
    lemma_suffixes_from_contains(s, 0, t);
    let all = parent_suffixes_spec(s);
    let rest = suffixes_from(s, 0);
    if all.contains(t) {
        let k = choose|k: int| 0 <= k < all.len() && all[k] == t;
        if k > 0 {
            assert(rest[k - 1] == t);
        }
    }
    if is_parent_suffix(s, t) {
        if t == s {
            assert(all[0] == t);
        } else {
            let k = choose|k: int| 0 <= k < rest.len() && rest[k] == t;
            assert(all[k + 1] == t);
        }
    }
}

/// Yield `host` and each of its parent suffixes, longest first.
/// `a.b.example.com` -> `a.b.example.com`, `b.example.com`, `example.com`, `com`.
pub fn parent_suffixes(host: &str) -> (r: Vec<String>)
    ensures
        r@.map_values(|x: String| x@) == parent_suffixes_spec(host@),
{
    let v = chars_of(host);
    let mut out: Vec<String> = Vec::new();
    out.push(string_of(&v));
    let mut i: usize = 0;
    proof {
        assert(out@.map_values(|x: String| x@) + suffixes_from(v@, 0) =~= parent_suffixes_spec(
            v@,
        ));
    }
    while i < v.len()
        invariant
            i <= v.len(),
            v@ == host@,
            out@.map_values(|x: String| x@) + suffixes_from(v@, i as int) == parent_suffixes_spec(
                v@,
            ),
        decreases v.len() - i,
    {
        let ghost prev = out@;
        if v[i] == '.' {
            let tail = slice_chars(&v, i + 1, v.len());
            assert(tail@ =~= v@.skip(i + 1));
            out.push(string_of(&tail));
            proof {
                assert(out@.map_values(|x: String| x@) + suffixes_from(v@, i + 1) =~= prev.map_values(
                    |x: String| x@,
                ) + suffixes_from(v@, i as int));
            }
        }
        i += 1;
    }
    out
}

/// `host` (dots trimmed, ASCII-lowercased), or one of its parent suffixes,
/// is in `set`.
pub open spec fn blocked_by(host: Seq<char>, set: Set<Seq<char>>) -> bool {
    let h = ascii_lower(trim_char(host, '.'));
    exists|t: Seq<char>| is_parent_suffix(h, t) && set.contains(t)
}

/// True if `host` (or any parent suffix) is contained in `set`.
pub fn is_blocked_by(host: &str, set: &StringHashSet) -> (r: bool)
    ensures
        r == blocked_by(host@, set@),
{
    let raw = chars_of(host);
    let trimmed = trim_char_vec(&raw, '.');
    let h = ascii_lower_vec(&trimmed);
    let ghost hs = h@;
    let whole = string_of(&h);
    if set.contains(whole.as_str()) {
        assert(is_parent_suffix(hs, hs));
        return true;
    }
    let mut i: usize = 0;
    while i < h.len()
        invariant
            i <= h.len(),
            h@ == hs,
            hs == ascii_lower(trim_char(host@, '.')),
            !set@.contains(hs),
            forall|j: int| 0 <= j < i && hs[j] == '.' ==> !set@.contains(#[trigger] hs.skip(j + 1)),
        decreases h.len() - i,
    {
        if h[i] == '.' {
            let tail = slice_chars(&h, i + 1, h.len());
            let ts = string_of(&tail);
            assert(ts@ =~= hs.skip(i + 1));
            if set.contains(ts.as_str()) {
                assert(set@.contains(hs.skip(i + 1)));
                assert(hs[i as int] == '.');
                assert(is_parent_suffix(hs, hs.skip(i + 1)));
                assert(hs == ascii_lower(trim_char(host@, '.')));
                let ghost w = hs.skip(i + 1);
                assert(is_parent_suffix(hs, w) && set@.contains(w));
                return true;
            }
        }
        i += 1;
    }
    assert forall|t: Seq<char>| is_parent_suffix(hs, t) implies !set@.contains(t) by {
        if t != hs {
            let j = choose|j: int| 0 <= j < hs.len() && hs[j] == '.' && t == hs.skip(j + 1);
            assert(!set@.contains(hs.skip(j + 1)));
        }
    }
    false
}

/// An entry blocks its own domain and every subdomain of it: a host (in
/// canonical form) that is the entry, or ends with a dot and the entry, is
/// blocked.
pub proof fn lemma_entry_blocks_subdomains(set: Set<Seq<char>>, d: Seq<char>, x: Seq<char>)
    requires
        set.contains(d),
        ascii_lower(trim_char(x + seq!['.'] + d, '.')) == x + seq!['.'] + d,
        ascii_lower(trim_char(d, '.')) == d,
    ensures
        blocked_by(d, set),
        blocked_by(x + seq!['.'] + d, set),
{
    let h = x + seq!['.'] + d;
    assert(is_parent_suffix(d, d));
    let i = x.len() as int;
    assert(h[i] == '.');
    assert(h.skip(i + 1) =~= d);
    assert(is_parent_suffix(h, d));
}

} // verus!
