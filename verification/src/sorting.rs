//! Lexicographic order on strings and sorting of string vectors.

use vstd::prelude::*;

verus! {

/// Strict lexicographic order by code point: the order of `String`'s `Ord`
/// (byte order of UTF-8, which agrees with code-point order).
pub open spec fn lex_lt(a: Seq<char>, b: Seq<char>) -> bool
    decreases a.len(),
{
    if a.len() == 0 {
        b.len() > 0
    } else if b.len() == 0 {
        false
    } else if a[0] != b[0] {
        (a[0] as u32) < (b[0] as u32)
    } else {
        lex_lt(a.drop_first(), b.drop_first())
    }
}

pub open spec fn lex_le(a: Seq<char>, b: Seq<char>) -> bool {
    a == b || lex_lt(a, b)
}

/// Ascending (repetitions allowed).
pub open spec fn sorted_asc(s: Seq<Seq<char>>) -> bool {
    forall|i: int, j: int| 0 <= i < j < s.len() ==> lex_le(#[trigger] s[i], #[trigger] s[j])
}

/// Strictly ascending.
pub open spec fn sorted_strictly(s: Seq<Seq<char>>) -> bool {
    forall|i: int, j: int| 0 <= i < j < s.len() ==> lex_lt(#[trigger] s[i], #[trigger] s[j])
}

pub open spec fn str_views(v: Seq<String>) -> Seq<Seq<char>> {
    v.map_values(|s: String| s@)
}

/// Sorts `v` ascending (`slice::sort` on `String`s, whose `Ord` is the
/// lexicographic byte order, i.e. code-point order): the result is a
/// permutation of the input in ascending order.
#[verifier::external_body]
pub(crate) fn sort_strings(v: &mut Vec<String>)
    ensures
        str_views(final(v)@).to_multiset() == str_views(old(v)@).to_multiset(),
        sorted_asc(str_views(final(v)@)),
{
    v.sort();
}

/// Two sequences with the same multiset have the same members.
pub proof fn lemma_same_multiset_contains(a: Seq<Seq<char>>, b: Seq<Seq<char>>, x: Seq<char>)
    requires
        a.to_multiset() == b.to_multiset(),
    ensures
        a.contains(x) <==> b.contains(x),
{
    broadcast use vstd::seq_lib::to_multiset_contains;

    assert(a.contains(x) <==> a.to_multiset().count(x) > 0);
    assert(b.contains(x) <==> b.to_multiset().count(x) > 0);
}

/// A sorted permutation of a duplicate-free sequence is strictly sorted.
pub proof fn lemma_sorted_no_dup_strict(a: Seq<Seq<char>>, b: Seq<Seq<char>>)
    requires
        sorted_asc(a),
        a.to_multiset() == b.to_multiset(),
        b.no_duplicates(),
    ensures
        sorted_strictly(a),
        a.no_duplicates(),
{
    broadcast use vstd::seq_lib::to_multiset_contains;

    b.lemma_multiset_has_no_duplicates();
    assert forall|x: Seq<char>| a.to_multiset().contains(x) implies a.to_multiset().count(x)
        == 1 by {
        assert(b.to_multiset().contains(x));
    }
    a.lemma_multiset_has_no_duplicates_conv();
    assert forall|i: int, j: int| 0 <= i < j < a.len() implies lex_lt(
        #[trigger] a[i],
        #[trigger] a[j],
    ) by {
        assert(lex_le(a[i], a[j]));
        assert(a[i] != a[j]);
    }
}

} // verus!
