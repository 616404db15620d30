//! Normalization is idempotent: a host that came out of `normalize` goes
//! through it again unchanged. Entries are stored normalized, so a stored
//! entry re-added, looked up or matched again is the same entry.

use vstd::prelude::*;
use crate::domain::{
    after_first, after_scheme, before_first, host_part, labels, normalize_spec, scheme_sep,
    strip_comment, strip_port, strip_wildcards, valid_host, valid_label,
};
use crate::text::{
    ascii_lower, find_char, find_seq, is_first_of, is_first_occurrence, is_last_of, is_ascii_alnum, is_char, is_ws, lemma_split_by_nonempty,
    lemma_split_layout, lower_char, occurs_at, one_of, piece_fits, piece_start, rfind_char,
    split_by, split_char, trim, trim_char, trim_end_by, trim_start_by, ws,
};

verus! {

/// The characters a valid host is made of.
pub open spec fn host_char(c: char) -> bool {
    is_ascii_alnum(c) || c == '-' || c == '.'
}

/// `s` holds no ASCII capital letter.
pub open spec fn no_upper(s: Seq<char>) -> bool {
    forall|i: int| 0 <= i < s.len() ==> !('A' <= #[trigger] s[i] && s[i] <= 'Z')
}

/// When every piece of `s` split at `c` holds only host characters, and `c`
/// is one too, so does `s`.
proof fn lemma_pieces_cover(s: Seq<char>, c: char)
    requires
        host_char(c),
        forall|k: int, j: int|
            0 <= k < split_char(s, c).len() && 0 <= j < split_char(s, c)[k].len() ==> host_char(
                #[trigger] split_char(s, c)[k][j],
            ),
    ensures
        forall|i: int| 0 <= i < s.len() ==> host_char(#[trigger] s[i]),
    decreases s.len(),
{
    if s.len() > 0 {
        let sep = one_of(seq![c]);
        let t = s.drop_last();
        let x = s.last();
        let rest = split_by(t, sep);
        lemma_split_by_nonempty(t, sep);
        let all = split_char(s, c);
        assert(all == split_by(s, sep));
        if sep(x) {
            assert(seq![c].contains(x));
            assert(seq![c][0] == c);
            assert(x == c);
            assert(all == rest.push(Seq::<char>::empty()));
            assert forall|k: int, j: int|
                0 <= k < split_char(t, c).len() && 0 <= j < split_char(t, c)[k].len() implies host_char(
                #[trigger] split_char(t, c)[k][j],
            ) by {
                assert(split_char(t, c) == rest);
                assert(all[k] == rest[k]);
                assert(host_char(all[k][j]));
            }
        } else {
            let n = rest.len() - 1;
            let grown = rest.last().push(x);
            assert(all == rest.update(n, grown));
            assert(all[n] == grown);
            assert(all[n][rest.last().len() as int] == x);
            assert(host_char(all[n][rest.last().len() as int]));
            assert forall|k: int, j: int|
                0 <= k < split_char(t, c).len() && 0 <= j < split_char(t, c)[k].len() implies host_char(
                #[trigger] split_char(t, c)[k][j],
            ) by {
                assert(split_char(t, c) == rest);
                if k == n {
                    assert(grown[j] == rest[k][j]);
                    assert(host_char(all[n][j]));
                } else {
                    assert(all[k] == rest[k]);
                    assert(host_char(all[k][j]));
                }
            }
        }
        lemma_pieces_cover(t, c);
        assert forall|i: int| 0 <= i < s.len() implies host_char(#[trigger] s[i]) by {
            if i < t.len() {
                assert(s[i] == t[i]);
            }
        }
    }
}

/// A valid host is made of host characters and neither starts nor ends
/// with a dot.
pub proof fn lemma_valid_host_shape(h: Seq<char>)
    requires
        valid_host(h),
    ensures
        forall|i: int| 0 <= i < h.len() ==> host_char(#[trigger] h[i]),
        h[0] != '.',
        h.last() != '.',
{
    let ls = labels(h);
    let sep = one_of(seq!['.']);
    assert forall|k: int, j: int| 0 <= k < ls.len() && 0 <= j < ls[k].len() implies host_char(
        #[trigger] ls[k][j],
    ) by {
        assert(valid_label(ls[k]));
    }
    lemma_pieces_cover(h, '.');
    lemma_split_layout(h, sep);
    assert(ls == split_by(h, sep));
    assert(piece_fits(h, sep, ls, 0));
    assert(piece_start(ls, 0) == 0);
    assert(valid_label(ls[0]));
    assert(h.subrange(0, ls[0].len() as int)[0] == h[0]);
    let last = ls.len() - 1;
    assert(piece_fits(h, sep, ls, last));
    assert(valid_label(ls[last]));
    let st = piece_start(ls, last);
    assert(h.subrange(st, st + ls[last].len())[ls[last].len() - 1] == h[h.len() - 1]);
}

/// A valid host without capitals normalizes to itself.
pub proof fn lemma_normalized_is_fixed(h: Seq<char>)
    requires
        valid_host(h),
        no_upper(h),
    ensures
        normalize_spec(h) == Some(h),
{
    lemma_valid_host_shape(h);
    assert(!is_ws(h.last()));
    assert(!is_ws(h[0]));
    assert(trim_end_by(h, ws()) == h);
    assert(trim_start_by(h, ws()) == h);
    assert(trim(h) == h);
    assert forall|c: char| c == '#' || c == '@' || c == '/' || c == '?' || c == ':' implies !h.contains(
        c,
    ) by {
        if h.contains(c) {
            let i = choose|i: int| 0 <= i < h.len() && h[i] == c;
            assert(host_char(h[i]));
        }
    }
    assert(find_char(h, '#') is None);
    assert(strip_comment(h) == h);
    assert(ascii_lower(h) =~= h) by {
        assert forall|i: int| 0 <= i < h.len() implies #[trigger] ascii_lower(h)[i] == h[i] by {
            assert(lower_char(h[i]) == h[i]);
        }
    }
    assert forall|i: int| !occurs_at(h, scheme_sep(), i) by {
        if occurs_at(h, scheme_sep(), i) {
            assert(h.subrange(i, i + 3)[0] == h[i]);
            assert(host_char(h[i]));
        }
    }
    assert(find_seq(h, scheme_sep()) is None);
    assert(after_scheme(h) == h);
    assert(find_char(h, '@') is None);
    assert(after_first(h, '@') == h);
    assert(find_char(h, '/') is None);
    assert(find_char(h, '?') is None);
    assert(before_first(before_first(before_first(h, '/'), '?'), '#') == h);
    assert(rfind_char(h, ':') is None);
    assert(strip_port(h) == h);
    assert(h[0] != '*');
    assert(strip_wildcards(h) == h);
    assert(trim_end_by(h, is_char('.')) == h);
    assert(trim_start_by(h, is_char('.')) == h);
    assert(trim_char(h, '.') == h);
    assert(host_part(h) == h);
}

proof fn lemma_first_exists(s: Seq<char>, c: char)
    requires
        s.contains(c),
    ensures
        exists|i: int| is_first_of(s, c, i),
    decreases s.len(),
{
    let t = s.drop_last();
    if t.contains(c) {
        lemma_first_exists(t, c);
        let i = choose|i: int| is_first_of(t, c, i);
        assert(s[i] == t[i]);
        assert forall|j: int| 0 <= j < i implies s[j] != c by {
            assert(s[j] == t[j]);
        }
        assert(is_first_of(s, c, i));
    } else {
        let k = choose|k: int| 0 <= k < s.len() && s[k] == c;
        if k < t.len() {
            assert(t[k] == c);
        }
        assert forall|j: int| 0 <= j < s.len() - 1 implies s[j] != c by {
            assert(s[j] == t[j]);
        }
        assert(is_first_of(s, c, s.len() - 1));
    }
}

proof fn lemma_last_exists(s: Seq<char>, c: char)
    requires
        s.contains(c),
    ensures
        exists|i: int| is_last_of(s, c, i),
    decreases s.len(),
{
    let t = s.drop_last();
    if s.last() == c {
        assert(is_last_of(s, c, s.len() - 1));
    } else {
        let k = choose|k: int| 0 <= k < s.len() && s[k] == c;
        assert(k < t.len() && t[k] == c);
        lemma_last_exists(t, c);
        let i = choose|i: int| is_last_of(t, c, i);
        assert forall|j: int| i < j < s.len() implies s[j] != c by {
            if j < t.len() {
                assert(s[j] == t[j]);
            }
        }
        assert(is_last_of(s, c, i));
    }
}

proof fn lemma_first_occurrence_exists(s: Seq<char>, p: Seq<char>, k: int)
    requires
        occurs_at(s, p, k),
    ensures
        exists|i: int| is_first_occurrence(s, p, i),
    decreases k,
{
    if exists|j: int| 0 <= j < k && occurs_at(s, p, j) {
        let j = choose|j: int| 0 <= j < k && occurs_at(s, p, j);
        lemma_first_occurrence_exists(s, p, j);
    } else {
        assert(is_first_occurrence(s, p, k));
    }
}

/// The index `find_char` picks, when it picks one, is the first occurrence.
proof fn lemma_find_char_first(s: Seq<char>, c: char)
    ensures
        find_char(s, c) matches Some(i) ==> is_first_of(s, c, i),
{
    if s.contains(c) {
        lemma_first_exists(s, c);
    }
}

proof fn lemma_rfind_char_last(s: Seq<char>, c: char)
    ensures
        rfind_char(s, c) matches Some(i) ==> is_last_of(s, c, i),
{
    if s.contains(c) {
        lemma_last_exists(s, c);
    }
}

proof fn lemma_find_seq_first(s: Seq<char>, p: Seq<char>)
    ensures
        find_seq(s, p) matches Some(i) ==> is_first_occurrence(s, p, i),
{
    if exists|i: int| occurs_at(s, p, i) {
        let k = choose|i: int| occurs_at(s, p, i);
        lemma_first_occurrence_exists(s, p, k);
    }
}

proof fn lemma_no_upper_skip(s: Seq<char>, k: int)
    requires
        no_upper(s),
        0 <= k <= s.len(),
    ensures
        no_upper(s.skip(k)),
        no_upper(s.take(k)),
{
    assert forall|i: int| 0 <= i < s.skip(k).len() implies !('A' <= #[trigger] s.skip(k)[i]
        && s.skip(k)[i] <= 'Z') by {
        assert(s.skip(k)[i] == s[i + k]);
    }
    assert forall|i: int| 0 <= i < s.take(k).len() implies !('A' <= #[trigger] s.take(k)[i]
        && s.take(k)[i] <= 'Z') by {
        assert(s.take(k)[i] == s[i]);
    }
}

proof fn lemma_no_upper_wildcards(s: Seq<char>)
    requires
        no_upper(s),
    ensures
        no_upper(strip_wildcards(s)),
    decreases s.len(),
{
    if s.len() >= 2 && s[0] == '*' && s[1] == '.' {
        lemma_no_upper_skip(s, 2);
        lemma_no_upper_wildcards(s.skip(2));
    }
}

proof fn lemma_no_upper_trim_end(s: Seq<char>, p: spec_fn(char) -> bool)
    requires
        no_upper(s),
    ensures
        no_upper(trim_end_by(s, p)),
    decreases s.len(),
{
    if s.len() > 0 && p(s.last()) {
        lemma_no_upper_skip(s, s.len() - 1);
        assert(s.take(s.len() - 1) =~= s.drop_last());
        lemma_no_upper_trim_end(s.drop_last(), p);
    }
}

proof fn lemma_no_upper_trim_start(s: Seq<char>, p: spec_fn(char) -> bool)
    requires
        no_upper(s),
    ensures
        no_upper(trim_start_by(s, p)),
    decreases s.len(),
{
    if s.len() > 0 && p(s[0]) {
        lemma_no_upper_skip(s, 1);
        assert(s.skip(1) =~= s.drop_first());
        lemma_no_upper_trim_start(s.drop_first(), p);
    }
}

/// What `normalize` returns holds no capital letter.
pub proof fn lemma_normalized_is_lower(input: Seq<char>)
    requires
        normalize_spec(input) is Some,
    ensures
        no_upper(normalize_spec(input)->Some_0),
{
    let l = ascii_lower(strip_comment(trim(input)));
    assert forall|i: int| 0 <= i < l.len() implies !('A' <= #[trigger] l[i] && l[i] <= 'Z') by {
        let c = strip_comment(trim(input))[i];
        assert(l[i] == lower_char(c));
        if 'A' <= c && c <= 'Z' {
            assert((((c as u32) + 32) as char) as u32 == (c as u32) + 32);
        }
    }
    let a = after_scheme(l);
    lemma_find_seq_first(l, scheme_sep());
    assert(no_upper(a)) by {
        assert forall|j: int| 0 <= j < a.len() implies !('A' <= #[trigger] a[j] && a[j] <= 'Z') by {
            match find_seq(l, scheme_sep()) {
                Some(i) => {
                    assert(a[j] == l[j + i + 3]);
                },
                None => {},
            }
        }
    }
    let b = after_first(a, '@');
    lemma_find_char_first(a, '@');
    assert(no_upper(b)) by {
        assert forall|j: int| 0 <= j < b.len() implies !('A' <= #[trigger] b[j] && b[j] <= 'Z') by {
            match find_char(a, '@') {
                Some(i) => {
                    assert(b[j] == a[j + i + 1]);
                },
                None => {},
            }
        }
    }
    let c1 = before_first(b, '/');
    lemma_find_char_first(b, '/');
    assert(no_upper(c1)) by {
        assert forall|j: int| 0 <= j < c1.len() implies !('A' <= #[trigger] c1[j] && c1[j] <= 'Z') by {
            match find_char(b, '/') {
                Some(i) => {
                    assert(c1[j] == b[j]);
                },
                None => {},
            }
        }
    }
    let c2 = before_first(c1, '?');
    lemma_find_char_first(c1, '?');
    assert(no_upper(c2)) by {
        assert forall|j: int| 0 <= j < c2.len() implies !('A' <= #[trigger] c2[j] && c2[j] <= 'Z') by {
            match find_char(c1, '?') {
                Some(i) => {
                    assert(c2[j] == c1[j]);
                },
                None => {},
            }
        }
    }
    let c3 = before_first(c2, '#');
    lemma_find_char_first(c2, '#');
    assert(no_upper(c3)) by {
        assert forall|j: int| 0 <= j < c3.len() implies !('A' <= #[trigger] c3[j] && c3[j] <= 'Z') by {
            match find_char(c2, '#') {
                Some(i) => {
                    assert(c3[j] == c2[j]);
                },
                None => {},
            }
        }
    }
    let d = strip_port(c3);
    lemma_rfind_char_last(c3, ':');
    assert(no_upper(d)) by {
        assert forall|j: int| 0 <= j < d.len() implies !('A' <= #[trigger] d[j] && d[j] <= 'Z') by {
            match rfind_char(c3, ':') {
                Some(i) => {
                    assert(d[j] == c3[j]);
                },
                None => {},
            }
        }
    }
    lemma_no_upper_wildcards(d);
    let e = strip_wildcards(d);
    lemma_no_upper_trim_end(e, is_char('.'));
    lemma_no_upper_trim_start(trim_end_by(e, is_char('.')), is_char('.'));
    assert(host_part(l) == trim_char(e, '.'));
}

/// Normalization is idempotent: whatever `normalize` returns, it returns
/// unchanged when given it again.
pub proof fn lemma_normalize_idempotent(input: Seq<char>)
    requires
        normalize_spec(input) is Some,
    ensures
        normalize_spec(normalize_spec(input)->Some_0) == normalize_spec(input),
{
    let h = normalize_spec(input)->Some_0;
    lemma_normalized_is_lower(input);
    lemma_normalized_is_fixed(h);
}

} // verus!
