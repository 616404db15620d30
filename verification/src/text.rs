//! Character-level text primitives shared by the parsers: whitespace
//! trimming, ASCII case folding, searching, and splitting, each given a
//! mathematical definition over `Seq<char>` and an executable counterpart
//! proved against it.

use vstd::prelude::*;

verus! {

// ---------------------------------------------------------------------------
// Character classes
// ---------------------------------------------------------------------------

/// Unicode `White_Space` (what `char::is_whitespace` and `str::trim` use).
pub open spec fn is_ws(c: char) -> bool {
    ||| ('\u{9}' <= c && c <= '\u{d}')
    ||| c == ' '
    ||| c == '\u{85}'
    ||| c == '\u{a0}'
    ||| c == '\u{1680}'
    ||| ('\u{2000}' <= c && c <= '\u{200a}')
    ||| c == '\u{2028}'
    ||| c == '\u{2029}'
    ||| c == '\u{202f}'
    ||| c == '\u{205f}'
    ||| c == '\u{3000}'
}

pub fn is_ws_char(c: char) -> (r: bool)
    ensures
        r == is_ws(c),
{
    ('\u{9}' <= c && c <= '\u{d}') || c == ' ' || c == '\u{85}' || c == '\u{a0}' || c
        == '\u{1680}' || ('\u{2000}' <= c && c <= '\u{200a}') || c == '\u{2028}' || c
        == '\u{2029}' || c == '\u{202f}' || c == '\u{205f}' || c == '\u{3000}'
}

pub open spec fn is_ascii_digit(c: char) -> bool {
    '0' <= c && c <= '9'
}

pub open spec fn is_ascii_alpha(c: char) -> bool {
    ('a' <= c && c <= 'z') || ('A' <= c && c <= 'Z')
}

pub open spec fn is_ascii_alnum(c: char) -> bool {
    is_ascii_alpha(c) || is_ascii_digit(c)
}

/// `char::to_ascii_lowercase`.
pub open spec fn lower_char(c: char) -> char {
    if 'A' <= c && c <= 'Z' {
        ((c as u32) + 32) as char
    } else {
        c
    }
}

pub fn lower_char_exec(c: char) -> (r: char)
    ensures
        r == lower_char(c),
{
    if 'A' <= c && c <= 'Z' {
        let u: u32 = (c as u32) + 32;
        let r = char_from_ascii(u);
        r
    } else {
        c
    }
}

/// The character with code point `u`, for `u` below the surrogate range.
fn char_from_ascii(u: u32) -> (r: char)
    requires
        u < 128,
    ensures
        r == u as char,
{
    let b: u8 = u as u8;
    assert(b == u);
    b as char
}

/// `str::to_ascii_lowercase` on a character sequence.
pub open spec fn ascii_lower(s: Seq<char>) -> Seq<char> {
    s.map_values(|c: char| lower_char(c))
}

// ---------------------------------------------------------------------------
// Conversions between `str`/`String` and character vectors
// ---------------------------------------------------------------------------

/// The characters of `s`, in order.
pub fn chars_of(s: &str) -> (r: Vec<char>)
    ensures
        r@ == s@,
{
    let mut r: Vec<char> = Vec::new();
    for c in it: s.chars()
        invariant
            r@ == it.seq().take(it.index() as int),
            it.seq() == s@,
    {
        r.push(c);
    }
    r
}

/// Appends one character to a `String` (`String::push`).
#[verifier::external_body]
pub(crate) fn push_char(s: &mut String, c: char)
    ensures
        final(s)@ == old(s)@.push(c),
{
    s.push(c);
}

/// A `String` holding exactly the characters of `v`.
pub fn string_of(v: &Vec<char>) -> (r: String)
    ensures
        r@ == v@,
{
    let mut r = String::new();
    let mut i: usize = 0;
    while i < v.len()
        invariant
            i <= v.len(),
            r@ == v@.take(i as int),
        decreases v.len() - i,
    {
        push_char(&mut r, v[i]);
        assert(v@.take(i as int).push(v@[i as int]) =~= v@.take(i + 1));
        i += 1;
    }
    assert(v@.take(v.len() as int) =~= v@);
    r
}

/// Appends every character of `v` to `out`.
pub fn push_all(out: &mut Vec<char>, v: &Vec<char>)
    ensures
        final(out)@ == old(out)@ + v@,
{
    let mut i: usize = 0;
    while i < v.len()
        invariant
            i <= v.len(),
            out@ == old(out)@ + v@.take(i as int),
        decreases v.len() - i,
    {
        out.push(v[i]);
        assert(old(out)@ + v@.take(i + 1) =~= old(out)@ + v@.take(i as int) + seq![v@[i as int]]);
        i += 1;
    }
    assert(v@.take(v.len() as int) =~= v@);
}

/// Appends every character of the string `s` to `out`.
pub fn push_str(out: &mut Vec<char>, s: &str)
    ensures
        final(out)@ == old(out)@ + s@,
{
    let v = chars_of(s);
    push_all(out, &v);
}

/// The characters `v[lo..hi]`.
pub fn slice_chars(v: &Vec<char>, lo: usize, hi: usize) -> (r: Vec<char>)
    requires
        lo <= hi <= v.len(),
    ensures
        r@ == v@.subrange(lo as int, hi as int),
{
    let mut r: Vec<char> = Vec::new();
    let mut i: usize = lo;
    while i < hi
        invariant
            lo <= i <= hi <= v.len(),
            r@ == v@.subrange(lo as int, i as int),
        decreases hi - i,
    {
        r.push(v[i]);
        assert(v@.subrange(lo as int, i as int).push(v@[i as int]) =~= v@.subrange(
            lo as int,
            i + 1,
        ));
        i += 1;
    }
    r
}

/// Character-sequence equality.
pub fn chars_eq(a: &Vec<char>, b: &Vec<char>) -> (r: bool)
    ensures
        r == (a@ == b@),
{
    if a.len() != b.len() {
        return false;
    }
    let mut i: usize = 0;
    while i < a.len()
        invariant
            a.len() == b.len(),
            i <= a.len(),
            forall|j: int| 0 <= j < i ==> a@[j] == b@[j],
        decreases a.len() - i,
    {
        if a[i] != b[i] {
            return false;
        }
        i += 1;
    }
    assert(a@ =~= b@);
    true
}

/// Equality of a character vector with a string.
pub fn chars_eq_str(a: &Vec<char>, s: &str) -> (r: bool)
    ensures
        r == (a@ == s@),
{
    let b = chars_of(s);
    chars_eq(a, &b)
}

// ---------------------------------------------------------------------------
// Case folding
// ---------------------------------------------------------------------------

pub fn ascii_lower_vec(v: &Vec<char>) -> (r: Vec<char>)
    ensures
        r@ == ascii_lower(v@),
{
    let mut r: Vec<char> = Vec::new();
    let mut i: usize = 0;
    while i < v.len()
        invariant
            i <= v.len(),
            r@ == ascii_lower(v@.take(i as int)),
        decreases v.len() - i,
    {
        r.push(lower_char_exec(v[i]));
        assert(ascii_lower(v@.take(i + 1)) =~= ascii_lower(v@.take(i as int)).push(
            lower_char(v@[i as int]),
        ));
        i += 1;
    }
    assert(v@.take(v.len() as int) =~= v@);
    r
}

// ---------------------------------------------------------------------------
// Trimming
// ---------------------------------------------------------------------------

/// `s` without its leading characters satisfying `p`.
pub open spec fn trim_start_by(s: Seq<char>, p: spec_fn(char) -> bool) -> Seq<char>
    decreases s.len(),
{
    if s.len() > 0 && p(s[0]) {
        trim_start_by(s.drop_first(), p)
    } else {
        s
    }
}

/// `s` without its trailing characters satisfying `p`.
pub open spec fn trim_end_by(s: Seq<char>, p: spec_fn(char) -> bool) -> Seq<char>
    decreases s.len(),
{
    if s.len() > 0 && p(s.last()) {
        trim_end_by(s.drop_last(), p)
    } else {
        s
    }
}

/// `str::trim`: without leading and trailing Unicode whitespace.
pub open spec fn trim(s: Seq<char>) -> Seq<char> {
    trim_start_by(trim_end_by(s, ws()), ws())
}

/// Removing a prefix of characters that all satisfy `p` does not change
/// the trimmed result.
pub proof fn lemma_trim_start_skip(s: Seq<char>, p: spec_fn(char) -> bool, i: int)
    requires
        0 <= i <= s.len(),
        forall|j: int| 0 <= j < i ==> p(#[trigger] s[j]),
    ensures
        trim_start_by(s, p) == trim_start_by(s.skip(i), p),
    decreases i,
{
    if i > 0 {
        assert(s.drop_first().skip(i - 1) =~= s.skip(i));
        assert forall|j: int| 0 <= j < i - 1 implies p(#[trigger] s.drop_first()[j]) by {
            assert(s.drop_first()[j] == s[j + 1]);
        }
        lemma_trim_start_skip(s.drop_first(), p, i - 1);
    } else {
        assert(s.skip(0) =~= s);
    }
}

/// Removing a suffix of characters that all satisfy `p` does not change
/// the trimmed result.
pub proof fn lemma_trim_end_take(s: Seq<char>, p: spec_fn(char) -> bool, k: int)
    requires
        0 <= k <= s.len(),
        forall|j: int| k <= j < s.len() ==> p(#[trigger] s[j]),
    ensures
        trim_end_by(s, p) == trim_end_by(s.take(k), p),
    decreases s.len() - k,
{
    if k < s.len() {
        assert(s.drop_last().take(k) =~= s.take(k));
        assert forall|j: int| k <= j < s.drop_last().len() implies p(
            #[trigger] s.drop_last()[j],
        ) by {
            assert(s.drop_last()[j] == s[j]);
        }
        lemma_trim_end_take(s.drop_last(), p, k);
    } else {
        assert(s.take(k) =~= s);
    }
}

/// Index of the first character of `v[lo..hi]` that is not whitespace (or `hi`).
fn ws_prefix_end(v: &Vec<char>, lo: usize, hi: usize) -> (i: usize)
    requires
        lo <= hi <= v.len(),
    ensures
        lo <= i <= hi,
        forall|j: int| lo <= j < i ==> is_ws(#[trigger] v@[j]),
        i < hi ==> !is_ws(v@[i as int]),
{
    let mut i = lo;
    while i < hi && is_ws_char(v[i])
        invariant
            lo <= i <= hi <= v.len(),
            forall|j: int| lo <= j < i ==> is_ws(#[trigger] v@[j]),
        decreases hi - i,
    {
        i += 1;
    }
    i
}

/// Index one past the last non-whitespace character of `v[lo..hi]` (or `lo`).
fn ws_suffix_start(v: &Vec<char>, lo: usize, hi: usize) -> (k: usize)
    requires
        lo <= hi <= v.len(),
    ensures
        lo <= k <= hi,
        forall|j: int| k <= j < hi ==> is_ws(#[trigger] v@[j]),
        k > lo ==> !is_ws(v@[k - 1]),
{
    let mut k = hi;
    while k > lo && is_ws_char(v[k - 1])
        invariant
            lo <= k <= hi <= v.len(),
            forall|j: int| k <= j < hi ==> is_ws(#[trigger] v@[j]),
        decreases k - lo,
    {
        k -= 1;
    }
    k
}

/// The bounds `[lo, hi)` of `trim(v)` inside `v`.
pub fn trim_bounds(v: &Vec<char>) -> (r: (usize, usize))
    ensures
        r.0 <= r.1 <= v.len(),
        v@.subrange(r.0 as int, r.1 as int) == trim(v@),
{
    let ghost s = v@;
    let ghost p = ws();
    let k = ws_suffix_start(v, 0, v.len());
    proof {
        lemma_trim_end_take(s, p, k as int);
        if k > 0 {
            assert(s.take(k as int).last() == s[k - 1]);
            assert(s.take(k as int).drop_last() =~= s.take(k - 1));
        }
        assert(trim_end_by(s.take(k as int), p) == s.take(k as int));
    }
    let i = ws_prefix_end(v, 0, k);
    proof {
        let t = s.take(k as int);
        assert forall|j: int| 0 <= j < i implies p(#[trigger] t[j]) by {
            assert(t[j] == s[j]);
        }
        lemma_trim_start_skip(t, p, i as int);
        let u = t.skip(i as int);
        if i < k {
            assert(u[0] == s[i as int]);
        }
        assert(trim_start_by(u, p) == u);
        assert(u =~= s.subrange(i as int, k as int));
    }
    (i, k)
}

/// `trim(v)` as a new vector.
pub fn trim_vec(v: &Vec<char>) -> (r: Vec<char>)
    ensures
        r@ == trim(v@),
{
    let (lo, hi) = trim_bounds(v);
    slice_chars(v, lo, hi)
}

// ---------------------------------------------------------------------------
// Searching
// ---------------------------------------------------------------------------

/// `i` is the first position of `c` in `s`.
pub open spec fn is_first_of(s: Seq<char>, c: char, i: int) -> bool {
    0 <= i < s.len() && s[i] == c && forall|j: int| 0 <= j < i ==> s[j] != c
}

/// `i` is the last position of `c` in `s`.
pub open spec fn is_last_of(s: Seq<char>, c: char, i: int) -> bool {
    0 <= i < s.len() && s[i] == c && forall|j: int| i < j < s.len() ==> s[j] != c
}

/// `str::find(c)`: the first position of `c`.
pub open spec fn find_char(s: Seq<char>, c: char) -> Option<int> {
    if s.contains(c) {
        Some(choose|i: int| is_first_of(s, c, i))
    } else {
        None
    }
}

/// `str::rfind(c)`: the last position of `c`.
pub open spec fn rfind_char(s: Seq<char>, c: char) -> Option<int> {
    if s.contains(c) {
        Some(choose|i: int| is_last_of(s, c, i))
    } else {
        None
    }
}

pub fn find_char_exec(v: &Vec<char>, c: char) -> (r: Option<usize>)
    ensures
        r matches Some(i) ==> i < v.len() && find_char(v@, c) == Some(i as int) && is_first_of(
            v@,
            c,
            i as int,
        ),
        r is None ==> find_char(v@, c) is None && !v@.contains(c),
{
    let mut i: usize = 0;
    while i < v.len()
        invariant
            i <= v.len(),
            forall|j: int| 0 <= j < i ==> v@[j] != c,
        decreases v.len() - i,
    {
        if v[i] == c {
            proof {
                assert(is_first_of(v@, c, i as int));
                assert(v@.contains(c));
                let k = choose|k: int| is_first_of(v@, c, k);
                assert(k == i);
            }
            return Some(i);
        }
        i += 1;
    }
    None
}

pub fn rfind_char_exec(v: &Vec<char>, c: char) -> (r: Option<usize>)
    ensures
        r matches Some(i) ==> i < v.len() && rfind_char(v@, c) == Some(i as int) && is_last_of(
            v@,
            c,
            i as int,
        ),
        r is None ==> rfind_char(v@, c) is None && !v@.contains(c),
{
    let mut k: usize = v.len();
    while k > 0
        invariant
            k <= v.len(),
            forall|j: int| k <= j < v.len() ==> v@[j] != c,
        decreases k,
    {
        if v[k - 1] == c {
            let i = k - 1;
            proof {
                assert(is_last_of(v@, c, i as int));
                assert(v@.contains(c));
                let m = choose|m: int| is_last_of(v@, c, m);
                assert(m == i);
            }
            return Some(i);
        }
        k -= 1;
    }
    None
}

/// `p` occurs in `s` starting at position `i`.
pub open spec fn occurs_at(s: Seq<char>, p: Seq<char>, i: int) -> bool {
    0 <= i && i + p.len() <= s.len() && s.subrange(i, i + p.len()) == p
}

/// `i` is the first position at which `p` occurs in `s`.
pub open spec fn is_first_occurrence(s: Seq<char>, p: Seq<char>, i: int) -> bool {
    occurs_at(s, p, i) && forall|j: int| 0 <= j < i ==> !occurs_at(s, p, j)
}

/// `str::find(pattern)`: the first position at which `p` occurs.
pub open spec fn find_seq(s: Seq<char>, p: Seq<char>) -> Option<int> {
    if exists|i: int| occurs_at(s, p, i) {
        Some(choose|i: int| is_first_occurrence(s, p, i))
    } else {
        None
    }
}

/// Whether `p` occurs in `v` at position `i`.
pub fn occurs_at_exec(v: &Vec<char>, p: &Vec<char>, i: usize) -> (r: bool)
    ensures
        r == occurs_at(v@, p@, i as int),
{
    if i > v.len() || p.len() > v.len() - i {
        return false;
    }
    let mut k: usize = 0;
    while k < p.len()
        invariant
            i + p.len() <= v.len(),
            k <= p.len(),
            forall|j: int| 0 <= j < k ==> v@[i + j] == p@[j],
        decreases p.len() - k,
    {
        if v[i + k] != p[k] {
            assert(v@.subrange(i as int, i + p.len())[k as int] != p@[k as int]);
            return false;
        }
        k += 1;
    }
    assert(v@.subrange(i as int, i + p.len()) =~= p@);
    true
}

pub fn find_seq_exec(v: &Vec<char>, p: &Vec<char>) -> (r: Option<usize>)
    ensures
        r matches Some(i) ==> i + p.len() <= v.len() && find_seq(v@, p@) == Some(i as int)
            && is_first_occurrence(
            v@,
            p@,
            i as int,
        ),
        r is None ==> find_seq(v@, p@) is None && forall|j: int| !occurs_at(v@, p@, j),
{
    let mut i: usize = 0;
    while i < v.len()
        invariant
            i <= v.len(),
            forall|j: int| 0 <= j < i ==> !occurs_at(v@, p@, j),
        decreases v.len() - i,
    {
        if occurs_at_exec(v, p, i) {
            proof {
                assert(is_first_occurrence(v@, p@, i as int));
                let k = choose|k: int| is_first_occurrence(v@, p@, k);
                assert(k == i);
            }
            return Some(i);
        }
        i += 1;
    }
    if occurs_at_exec(v, p, i) {
        proof {
            assert(is_first_occurrence(v@, p@, i as int));
            let k = choose|k: int| is_first_occurrence(v@, p@, k);
            assert(k == i);
        }
        return Some(i);
    }
    assert forall|j: int| !occurs_at(v@, p@, j) by {
        if 0 <= j < i {
        } else if j == i {
        } else {
        }
    }
    None
}

/// `s` starts with `p`.
pub open spec fn starts_with(s: Seq<char>, p: Seq<char>) -> bool {
    p.len() <= s.len() && s.take(p.len() as int) == p
}

/// `s` ends with `p`.
pub open spec fn ends_with(s: Seq<char>, p: Seq<char>) -> bool {
    p.len() <= s.len() && s.skip(s.len() - p.len()) == p
}

pub fn starts_with_exec(v: &Vec<char>, p: &Vec<char>) -> (r: bool)
    ensures
        r == starts_with(v@, p@),
{
    let r = occurs_at_exec(v, p, 0);
    proof {
        if p@.len() <= v@.len() {
            assert(v@.subrange(0, p@.len() as int) =~= v@.take(p@.len() as int));
        }
    }
    r
}

pub fn ends_with_exec(v: &Vec<char>, p: &Vec<char>) -> (r: bool)
    ensures
        r == ends_with(v@, p@),
{
    if p.len() > v.len() {
        return false;
    }
    let r = occurs_at_exec(v, p, v.len() - p.len());
    proof {
        assert(v@.subrange(v@.len() - p@.len(), v@.len() as int) =~= v@.skip(
            v@.len() - p@.len(),
        ));
    }
    r
}

/// `p` occurs somewhere in `s` (`str::contains`).
pub open spec fn contains_seq(s: Seq<char>, p: Seq<char>) -> bool {
    exists|i: int| occurs_at(s, p, i)
}

pub fn contains_seq_exec(v: &Vec<char>, p: &Vec<char>) -> (r: bool)
    ensures
        r == contains_seq(v@, p@),
{
    match find_seq_exec(v, p) {
        Some(_) => true,
        None => false,
    }
}

// ---------------------------------------------------------------------------
// Splitting
// ---------------------------------------------------------------------------

/// `str::split(pred)`: the pieces of `s` between characters satisfying
/// `sep` (always at least one piece; empty pieces are kept).
pub open spec fn split_by(s: Seq<char>, sep: spec_fn(char) -> bool) -> Seq<Seq<char>>
    decreases s.len(),
{
    if s.len() == 0 {
        seq![Seq::<char>::empty()]
    } else {
        let rest = split_by(s.drop_last(), sep);
        if sep(s.last()) {
            rest.push(Seq::<char>::empty())
        } else {
            rest.update(rest.len() - 1, rest.last().push(s.last()))
        }
    }
}

pub proof fn lemma_split_by_nonempty(s: Seq<char>, sep: spec_fn(char) -> bool)
    ensures
        split_by(s, sep).len() >= 1,
    decreases s.len(),
{
    if s.len() > 0 {
        lemma_split_by_nonempty(s.drop_last(), sep);
    }
}

/// The view of a vector of character vectors.
pub open spec fn views(v: Seq<Vec<char>>) -> Seq<Seq<char>> {
    v.map_values(|x: Vec<char>| x@)
}

/// A string separator predicate given by a list of characters.
pub open spec fn one_of(seps: Seq<char>) -> spec_fn(char) -> bool {
    |c: char| seps.contains(c)
}

fn is_one_of(seps: &Vec<char>, c: char) -> (r: bool)
    ensures
        r == seps@.contains(c),
{
    let mut i: usize = 0;
    while i < seps.len()
        invariant
            i <= seps.len(),
            forall|j: int| 0 <= j < i ==> seps@[j] != c,
        decreases seps.len() - i,
    {
        if seps[i] == c {
            return true;
        }
        i += 1;
    }
    false
}

/// Split `v` at every character listed in `seps`.
pub fn split_on(v: &Vec<char>, seps: &Vec<char>) -> (r: Vec<Vec<char>>)
    ensures
        views(r@) == split_by(v@, one_of(seps@)),
{
    let ghost sep = one_of(seps@);
    let mut done: Vec<Vec<char>> = Vec::new();
    let mut cur: Vec<char> = Vec::new();
    let mut i: usize = 0;
    while i < v.len()
        invariant
            i <= v.len(),
            sep == one_of(seps@),
            views(done@).push(cur@) == split_by(v@.take(i as int), sep),
        decreases v.len() - i,
    {
        let c = v[i];
        let ghost before = v@.take(i as int);
        let ghost after = v@.take(i + 1);
        proof {
            assert(after.drop_last() =~= before);
            assert(after.last() == c);
        }
        if is_one_of(seps, c) {
            let finished = cur;
            let ghost prev = done@;
            done.push(finished);
            cur = Vec::new();
            proof {
                assert(views(done@) =~= views(prev).push(finished@));
                assert(views(done@).push(cur@) =~= split_by(before, sep).push(Seq::empty()));
            }
        } else {
            cur.push(c);
            proof {
                let rest = split_by(before, sep);
                assert(views(done@).push(cur@) =~= rest.update(rest.len() - 1, rest.last().push(c)));
            }
        }
        i += 1;
    }
    assert(v@.take(v.len() as int) =~= v@);
    let ghost prev = done@;
    let ghost last = cur@;
    done.push(cur);
    proof {
        assert(views(done@) =~= views(prev).push(last));
    }
    done
}

/// Split `v` at every occurrence of `c`.
pub fn split_on_char(v: &Vec<char>, c: char) -> (r: Vec<Vec<char>>)
    ensures
        views(r@) == split_by(v@, one_of(seq![c])),
{
    let mut seps: Vec<char> = Vec::new();
    seps.push(c);
    split_on(v, &seps)
}


/// The pieces of `s` separated by `c`.
pub open spec fn split_char(s: Seq<char>, c: char) -> Seq<Seq<char>> {
    split_by(s, one_of(seq![c]))
}

/// `l` without one trailing carriage return.
pub open spec fn strip_cr(l: Seq<char>) -> Seq<char> {
    if l.len() > 0 && l.last() == '\r' {
        l.drop_last()
    } else {
        l
    }
}

/// `str::lines`: pieces separated by `\n`, each line ended by a newline
/// losing one trailing `\r`, and a final empty piece (after a trailing
/// newline, or of an empty text) omitted.
pub open spec fn lines(s: Seq<char>) -> Seq<Seq<char>> {
    let p = split_char(s, '\n');
    let head = Seq::new((p.len() - 1) as nat, |i: int| strip_cr(p[i]));
    if p.last().len() == 0 {
        head
    } else {
        head.push(p.last())
    }
}

fn strip_cr_vec(v: Vec<char>) -> (r: Vec<char>)
    ensures
        r@ == strip_cr(v@),
{
    let mut v = v;
    if v.len() > 0 && v[v.len() - 1] == '\r' {
        v.pop();
    }
    v
}

/// The lines of `v`, as `str::lines` yields them.
pub fn lines_of(v: &Vec<char>) -> (r: Vec<Vec<char>>)
    ensures
        views(r@) == lines(v@),
{
    let pieces = split_on_char(v, '\n');
    let ghost p = split_char(v@, '\n');
    proof {
        lemma_split_by_nonempty(v@, one_of(seq!['\n']));
    }
    let n = pieces.len();
    let mut out: Vec<Vec<char>> = Vec::new();
    let mut i: usize = 0;
    while i + 1 < n
        invariant
            n == pieces.len(),
            n >= 1,
            views(pieces@) == p,
            i + 1 <= n,
            views(out@) == Seq::new(i as nat, |k: int| strip_cr(p[k])),
        decreases n - i,
    {
        let piece = pieces[i].clone();
        let ghost prev = out@;
        proof {
            assert(piece@ == p[i as int]);
        }
        let line = strip_cr_vec(piece);
        out.push(line);
        proof {
            assert(views(out@) =~= views(prev).push(line@));
            assert(views(out@) =~= Seq::new((i + 1) as nat, |k: int| strip_cr(p[k])));
        }
        i += 1;
    }
    let last = pieces[n - 1].clone();
    proof {
        assert(last@ == p.last());
    }
    if last.len() > 0 {
        let ghost prev = out@;
        out.push(last);
        proof {
            assert(views(out@) =~= views(prev).push(p.last()));
        }
    }
    out
}

/// The lines of a string.
pub fn lines_of_str(s: &str) -> (r: Vec<Vec<char>>)
    ensures
        views(r@) == lines(s@),
{
    let v = chars_of(s);
    lines_of(&v)
}

/// `s` without leading and trailing occurrences of `c` (`str::trim_matches(c)`).
pub open spec fn trim_char(s: Seq<char>, c: char) -> Seq<char> {
    trim_start_by(trim_end_by(s, is_char(c)), is_char(c))
}

/// The predicate "is the character `c`".
pub open spec fn is_char(c: char) -> spec_fn(char) -> bool {
    |x: char| x == c
}

/// The bounds `[lo, hi)` of `trim_char(v, c)` inside `v`.
pub fn trim_char_bounds(v: &Vec<char>, c: char) -> (r: (usize, usize))
    ensures
        r.0 <= r.1 <= v.len(),
        v@.subrange(r.0 as int, r.1 as int) == trim_char(v@, c),
{
    let ghost s = v@;
    let ghost p = is_char(c);
    let mut k: usize = v.len();
    while k > 0 && v[k - 1] == c
        invariant
            k <= v.len(),
            forall|j: int| k <= j < v.len() ==> #[trigger] v@[j] == c,
        decreases k,
    {
        k -= 1;
    }
    proof {
        assert forall|j: int| k <= j < s.len() implies p(#[trigger] s[j]) by {}
        lemma_trim_end_take(s, p, k as int);
        if k > 0 {
            assert(s.take(k as int).last() == s[k - 1]);
        }
        assert(trim_end_by(s.take(k as int), p) == s.take(k as int));
    }
    let mut i: usize = 0;
    while i < k && v[i] == c
        invariant
            i <= k <= v.len(),
            forall|j: int| 0 <= j < i ==> #[trigger] v@[j] == c,
        decreases k - i,
    {
        i += 1;
    }
    proof {
        let t = s.take(k as int);
        assert forall|j: int| 0 <= j < i implies p(#[trigger] t[j]) by {
            assert(t[j] == s[j]);
        }
        lemma_trim_start_skip(t, p, i as int);
        let u = t.skip(i as int);
        if i < k {
            assert(u[0] == s[i as int]);
        }
        assert(trim_start_by(u, p) == u);
        assert(u =~= s.subrange(i as int, k as int));
    }
    (i, k)
}

pub fn trim_char_vec(v: &Vec<char>, c: char) -> (r: Vec<char>)
    ensures
        r@ == trim_char(v@, c),
{
    let (lo, hi) = trim_char_bounds(v, c);
    slice_chars(v, lo, hi)
}


/// The UTF-8 encoding of a character sequence (what `str::as_bytes` gives).
pub open spec fn utf8_bytes(s: Seq<char>) -> Seq<u8> {
    vstd::utf8::encode_utf8(s)
}

/// The whitespace predicate.
pub open spec fn ws() -> spec_fn(char) -> bool {
    |c: char| is_ws(c)
}

/// Split `v` at every whitespace character (empty pieces kept).
pub fn split_ws(v: &Vec<char>) -> (r: Vec<Vec<char>>)
    ensures
        views(r@) == split_by(v@, ws()),
{
    let ghost sep = ws();
    let mut done: Vec<Vec<char>> = Vec::new();
    let mut cur: Vec<char> = Vec::new();
    let mut i: usize = 0;
    while i < v.len()
        invariant
            i <= v.len(),
            sep == ws(),
            views(done@).push(cur@) == split_by(v@.take(i as int), sep),
        decreases v.len() - i,
    {
        let c = v[i];
        let ghost before = v@.take(i as int);
        let ghost after = v@.take(i + 1);
        proof {
            assert(after.drop_last() =~= before);
            assert(after.last() == c);
        }
        if is_ws_char(c) {
            let finished = cur;
            let ghost prev = done@;
            done.push(finished);
            cur = Vec::new();
            proof {
                assert(views(done@) =~= views(prev).push(finished@));
                assert(views(done@).push(cur@) =~= split_by(before, sep).push(Seq::empty()));
            }
        } else {
            cur.push(c);
            proof {
                let rest = split_by(before, sep);
                assert(views(done@).push(cur@) =~= rest.update(rest.len() - 1, rest.last().push(c)));
            }
        }
        i += 1;
    }
    assert(v@.take(v.len() as int) =~= v@);
    let ghost prev = done@;
    let ghost last = cur@;
    done.push(cur);
    proof {
        assert(views(done@) =~= views(prev).push(last));
    }
    done
}

/// The predicate "is not empty".
pub open spec fn nonempty() -> spec_fn(Seq<char>) -> bool {
    |t: Seq<char>| t.len() > 0
}

/// The non-empty pieces of `pieces`, in order.
pub fn drop_empty(pieces: &Vec<Vec<char>>) -> (r: Vec<Vec<char>>)
    ensures
        views(r@) == views(pieces@).filter(nonempty()),
{
    let ghost ps = views(pieces@);
    let ghost keep = nonempty();
    let mut out: Vec<Vec<char>> = Vec::new();
    let mut i: usize = 0;
    assert(ps.take(0).filter(keep) =~= Seq::<Seq<char>>::empty()) by {
        reveal(Seq::filter);
    }
    while i < pieces.len()
        invariant
            i <= pieces.len(),
            keep == nonempty(),
            ps == views(pieces@),
            views(out@) == ps.take(i as int).filter(keep),
        decreases pieces.len() - i,
    {
        proof {
            assert(ps.take(i + 1) =~= ps.take(i as int).push(ps[i as int]));
            ps.take(i as int).lemma_filter_push(ps[i as int], keep);
            assert(pieces@[i as int]@ == ps[i as int]);
        }
        if pieces[i].len() > 0 {
            let ghost prev = out@;
            let piece = slice_chars(&pieces[i], 0, pieces[i].len());
            assert(piece@ =~= ps[i as int]);
            out.push(piece);
            assert(views(out@) =~= views(prev).push(ps[i as int]));
        }
        i += 1;
    }
    assert(ps.take(pieces.len() as int) =~= ps);
    out
}

/// `v` without trailing occurrences of `c` (`str::trim_end_matches(c)`).
pub fn trim_end_char_vec(v: &Vec<char>, c: char) -> (r: Vec<char>)
    ensures
        r@ == trim_end_by(v@, is_char(c)),
{
    let ghost s = v@;
    let ghost p = is_char(c);
    let mut k: usize = v.len();
    while k > 0 && v[k - 1] == c
        invariant
            k <= v.len(),
            forall|j: int| k <= j < v.len() ==> #[trigger] v@[j] == c,
        decreases k,
    {
        k -= 1;
    }
    proof {
        assert forall|j: int| k <= j < s.len() implies p(#[trigger] s[j]) by {}
        lemma_trim_end_take(s, p, k as int);
        if k > 0 {
            assert(s.take(k as int).last() == s[k - 1]);
        }
        assert(trim_end_by(s.take(k as int), p) == s.take(k as int));
    }
    let r = slice_chars(v, 0, k);
    assert(r@ =~= s.take(k as int));
    r
}

// ---------------------------------------------------------------------------
// Where the pieces of a split lie
// ---------------------------------------------------------------------------

/// The position at which piece `k` of `ps` starts when the pieces are laid
/// out one after another, each followed by one separator character.
pub open spec fn piece_start(ps: Seq<Seq<char>>, k: int) -> int
    decreases k,
{
    if k <= 0 {
        0
    } else {
        piece_start(ps, k - 1) + ps[k - 1].len() + 1
    }
}

/// `piece_start` only depends on the pieces before `k`.
pub proof fn lemma_piece_start_prefix(ps: Seq<Seq<char>>, qs: Seq<Seq<char>>, k: int)
    requires
        0 <= k <= ps.len(),
        k <= qs.len(),
        forall|j: int| 0 <= j < k ==> ps[j] == qs[j],
    ensures
        piece_start(ps, k) == piece_start(qs, k),
    decreases k,
{
    if k > 0 {
        lemma_piece_start_prefix(ps, qs, k - 1);
    }
}

/// Piece `k` of `ps` lies in `s` at `piece_start(ps, k)` and holds no separator.
pub open spec fn piece_fits(s: Seq<char>, sep: spec_fn(char) -> bool, ps: Seq<Seq<char>>, k: int) -> bool {
    &&& 0 <= piece_start(ps, k)
    &&& piece_start(ps, k) + ps[k].len() <= s.len()
    &&& s.subrange(piece_start(ps, k), piece_start(ps, k) + ps[k].len()) == ps[k]
    &&& forall|j: int| 0 <= j < ps[k].len() ==> !sep(#[trigger] ps[k][j])
}

/// Piece `k` of `ps` is followed in `s` by a separator.
pub open spec fn piece_separated(s: Seq<char>, sep: spec_fn(char) -> bool, ps: Seq<Seq<char>>, k: int) -> bool {
    sep(s[piece_start(ps, k) + ps[k].len()])
}

/// The pieces of `split_by(s, sep)` lie in `s` one after another, each
/// but the last followed by a separator, and the last ending at the end of `s`.
pub open spec fn split_layout(s: Seq<char>, sep: spec_fn(char) -> bool, ps: Seq<Seq<char>>) -> bool {
    &&& ps.len() >= 1
    &&& forall|k: int| 0 <= k < ps.len() ==> #[trigger] piece_fits(s, sep, ps, k)
    &&& forall|k: int| 0 <= k < ps.len() - 1 ==> #[trigger] piece_separated(s, sep, ps, k)
    &&& piece_start(ps, ps.len() - 1) + ps.last().len() == s.len()
}

proof fn lemma_split_layout_sep(t: Seq<char>, x: char, sep: spec_fn(char) -> bool)
    requires
        sep(x),
        split_layout(t, sep, split_by(t, sep)),
    ensures
        split_layout(t.push(x), sep, split_by(t.push(x), sep)),
{
    let s = t.push(x);
    let qs = split_by(t, sep);
    let ps = split_by(s, sep);
    let n = qs.len() as int;
    assert(s.drop_last() =~= t);
    assert(ps == qs.push(Seq::<char>::empty()));
    assert forall|k: int| 0 <= k < n implies piece_start(ps, k) == piece_start(qs, k) by {
        lemma_piece_start_prefix(ps, qs, k);
    }
    assert(piece_start(ps, n) == piece_start(ps, n - 1) + ps[n - 1].len() + 1);
    assert forall|k: int| 0 <= k < ps.len() implies #[trigger] piece_fits(s, sep, ps, k) by {
        if k < n {
            assert(piece_fits(t, sep, qs, k));
            assert(ps[k] == qs[k]);
            assert(s.subrange(piece_start(ps, k), piece_start(ps, k) + ps[k].len())
                =~= t.subrange(piece_start(qs, k), piece_start(qs, k) + qs[k].len()));
        } else {
            assert(ps[k] =~= Seq::<char>::empty());
            assert(s.subrange(piece_start(ps, k), piece_start(ps, k)) =~= Seq::<char>::empty());
        }
    }
    assert forall|k: int| 0 <= k < ps.len() - 1 implies #[trigger] piece_separated(s, sep, ps, k) by {
        assert(ps[k] == qs[k]);
        if k < n - 1 {
            assert(piece_separated(t, sep, qs, k));
            assert(piece_fits(t, sep, qs, k));
            assert(piece_fits(t, sep, qs, k + 1));
            assert(s[piece_start(qs, k) + qs[k].len()] == t[piece_start(qs, k) + qs[k].len()]);
        }
    }
}

proof fn lemma_split_layout_nonsep(t: Seq<char>, x: char, sep: spec_fn(char) -> bool)
    requires
        !sep(x),
        split_layout(t, sep, split_by(t, sep)),
    ensures
        split_layout(t.push(x), sep, split_by(t.push(x), sep)),
{
    let s = t.push(x);
    let qs = split_by(t, sep);
    let ps = split_by(s, sep);
    let n = qs.len() as int;
    assert(s.drop_last() =~= t);
    let last = qs.last().push(x);
    assert(ps == qs.update(n - 1, last));
    assert forall|k: int| 0 <= k < n implies piece_start(ps, k) == piece_start(qs, k) by {
        lemma_piece_start_prefix(ps, qs, k);
    }
    assert forall|k: int| 0 <= k < ps.len() implies #[trigger] piece_fits(s, sep, ps, k) by {
        assert(piece_fits(t, sep, qs, k));
        if k < n - 1 {
            assert(ps[k] == qs[k]);
            assert(s.subrange(piece_start(ps, k), piece_start(ps, k) + ps[k].len())
                =~= t.subrange(piece_start(qs, k), piece_start(qs, k) + qs[k].len()));
        } else {
            assert(ps[k] == last);
            assert(s.subrange(piece_start(ps, k), piece_start(ps, k) + ps[k].len())
                =~= t.subrange(piece_start(qs, k), piece_start(qs, k) + qs[k].len()).push(x));
            assert forall|j: int| 0 <= j < ps[k].len() implies !sep(#[trigger] ps[k][j]) by {
                if j < qs[k].len() {
                    assert(ps[k][j] == qs[k][j]);
                }
            }
        }
    }
    assert forall|k: int| 0 <= k < ps.len() - 1 implies #[trigger] piece_separated(s, sep, ps, k) by {
        assert(ps[k] == qs[k]);
        assert(piece_separated(t, sep, qs, k));
        assert(piece_fits(t, sep, qs, k));
        assert(piece_fits(t, sep, qs, k + 1));
        assert(s[piece_start(qs, k) + qs[k].len()] == t[piece_start(qs, k) + qs[k].len()]);
    }
}

pub proof fn lemma_split_layout(s: Seq<char>, sep: spec_fn(char) -> bool)
    ensures
        split_layout(s, sep, split_by(s, sep)),
    decreases s.len(),
{
    let ps = split_by(s, sep);
    if s.len() == 0 {
        assert(ps =~= seq![Seq::<char>::empty()]);
        assert(s.subrange(0, 0) =~= Seq::<char>::empty());
        assert(piece_fits(s, sep, ps, 0));
    } else {
        let t = s.drop_last();
        lemma_split_layout(t, sep);
        assert(t.push(s.last()) =~= s);
        if sep(s.last()) {
            lemma_split_layout_sep(t, s.last(), sep);
        } else {
            lemma_split_layout_nonsep(t, s.last(), sep);
        }
    }
}

/// The text before piece `k` is the first `k` pieces, each followed by its
/// separator.
pub proof fn lemma_piece_start_bounds(s: Seq<char>, sep: spec_fn(char) -> bool, k: int)
    requires
        0 <= k < split_by(s, sep).len(),
    ensures
        0 <= piece_start(split_by(s, sep), k) <= s.len(),
        piece_start(split_by(s, sep), k) + split_by(s, sep)[k].len() <= s.len(),
        k + 1 < split_by(s, sep).len() ==> piece_start(split_by(s, sep), k + 1) <= s.len(),
{
    lemma_split_layout(s, sep);
    let ps = split_by(s, sep);
    assert(piece_fits(s, sep, ps, k));
    if k + 1 < ps.len() {
        assert(piece_fits(s, sep, ps, k + 1));
    }
}


/// What precedes the first `c` (all of `s` if there is none): the first
/// piece of `str::split(c)`.
pub open spec fn before_first_char(s: Seq<char>, c: char) -> Seq<char> {
    match find_char(s, c) {
        Some(i) => s.take(i),
        None => s,
    }
}

pub fn before_first_char_exec(v: &Vec<char>, c: char) -> (r: Vec<char>)
    ensures
        r@ == before_first_char(v@, c),
{
    match find_char_exec(v, c) {
        Some(i) => {
            let r = slice_chars(v, 0, i);
            assert(r@ =~= v@.take(i as int));
            r
        },
        None => slice_chars(v, 0, v.len()),
    }
}

} // verus!
