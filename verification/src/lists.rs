//! The curated lists. Their text ships with the service (which hands it in
//! here); at runtime they are unioned with the user's custom list from the
//! database.

use vstd::prelude::*;
use crate::blocklist::{parsed_set, Blocklist};
use crate::domain::blocked_by;
use crate::safesearch::{parse_upto, SafeSearchMap};
use crate::sorting::{sorted_strictly, str_views};
use crate::text::lines;

verus! {

/// Default number of domains promoted to the always-on HOSTS floor.
pub const FLOOR_SIZE: usize = 24;

/// The full block set: the bulk list unioned with the small curated one.
pub fn starter_blocklist(adult_full: &str, adult: &str) -> (r: Blocklist)
    ensures
        r@ == parsed_set(adult_full@).union(parsed_set(adult@)),
{
    let mut b = Blocklist::parse(adult_full).0;
    let c = Blocklist::parse(adult).0;
    b.merge(&c);
    b
}

/// The small curated list on its own (floor seeding).
pub fn curated_blocklist(adult: &str) -> (r: Blocklist)
    ensures
        r@ == parsed_set(adult@),
{
    Blocklist::parse(adult).0
}

/// The DoH provider endpoints.
pub fn doh_list(doh: &str) -> (r: Blocklist)
    ensures
        r@ == parsed_set(doh@),
{
    Blocklist::parse(doh).0
}

/// Bypass-tool block set (DoH resolvers, VPN/proxy services, Tor).
pub fn bypass_blocklist(bypass: &str) -> (r: Blocklist)
    ensures
        r@ == parsed_set(bypass@),
{
    Blocklist::parse(bypass).0
}

/// The SafeSearch map.
pub fn safesearch_map(text: &str) -> (r: SafeSearchMap)
    ensures
        r@ == parse_upto(lines(text@), lines(text@).len() as int).0,
{
    SafeSearchMap::parse(text).0
}

/// The predicate "is blocked by `set`".
pub open spec fn blocked_in(set: Set<Seq<char>>) -> spec_fn(Seq<char>) -> bool {
    |d: Seq<char>| blocked_by(d, set)
}

/// The first `n` elements of `s`, or all of them when there are fewer.
pub open spec fn take_upto(s: Seq<Seq<char>>, n: nat) -> Seq<Seq<char>> {
    if s.len() <= n {
        s
    } else {
        s.take(n as int)
    }
}

/// `floor` is the first `n` domains, in ascending order, of the curated set
/// that the live set blocks.
pub open spec fn is_floor(
    curated: Set<Seq<char>>,
    block: Set<Seq<char>>,
    n: nat,
    floor: Seq<Seq<char>>,
) -> bool {
    exists|s: Seq<Seq<char>>|
        sorted_strictly(s) && s.to_set() == curated && floor == take_upto(
            #[trigger] s.filter(blocked_in(block)),
            n,
        )
}

/// The HOSTS floor: a small curated subset that keeps blocking the worst
/// domains with no running process. It is drawn from the curated list in
/// ascending order, filtered by the live block set (so an empty set, with
/// enforcement off, yields an empty floor), and holds at most `n` domains.
pub fn floor_domains(curated: &Blocklist, block: &Blocklist, n: usize) -> (r: Vec<String>)
    ensures
        is_floor(curated@, block@, n as nat, str_views(r@)),
{
    let sorted = curated.sorted();
    let ghost s = str_views(sorted@);
    let ghost p = blocked_in(block@);
    let mut out: Vec<String> = Vec::new();
    let mut i: usize = 0;
    assert(s.take(0).filter(p) =~= Seq::<Seq<char>>::empty()) by {
        reveal(Seq::filter);
    }
    while i < sorted.len()
        invariant
            i <= sorted.len(),
            s == str_views(sorted@),
            p == blocked_in(block@),
            str_views(out@) == take_upto(s.take(i as int).filter(p), n as nat),
        decreases sorted.len() - i,
    {
        proof {
            assert(s.take(i + 1) =~= s.take(i as int).push(s[i as int]));
            s.take(i as int).lemma_filter_push(s[i as int], p);
            assert(sorted@[i as int]@ == s[i as int]);
        }
        let ghost f = s.take(i as int).filter(p);
        if block.is_blocked(sorted[i].as_str()) {
            if out.len() < n {
                let ghost prev = out@;
                out.push(sorted[i].clone());
                assert(str_views(out@) =~= str_views(prev).push(s[i as int]));
                assert(f.push(s[i as int]).len() <= n);
            } else {
                assert(f.push(s[i as int]).take(n as int) =~= f.take(n as int));
            }
        }
        i += 1;
    }
    assert(s.take(sorted.len() as int) =~= s);
    assert(str_views(out@) == take_upto(s.filter(blocked_in(block@)), n as nat));
    out
}

/// The floor is bounded, drawn from the curated list, and blocked by the
/// live set; an empty live set gives an empty floor.
pub proof fn lemma_floor_properties(
    s: Seq<Seq<char>>,
    curated: Set<Seq<char>>,
    block: Set<Seq<char>>,
    n: nat,
    floor: Seq<Seq<char>>,
)
    requires
        s.to_set() == curated,
        floor == take_upto(s.filter(blocked_in(block)), n),
    ensures
        floor.len() <= n,
        forall|i: int| 0 <= i < floor.len() ==> curated.contains(#[trigger] floor[i]) && blocked_by(
            floor[i],
            block,
        ),
        block.len() == 0 && block.finite() ==> floor.len() == 0,
{
    let f = s.filter(blocked_in(block));
    assert forall|i: int| 0 <= i < floor.len() implies curated.contains(#[trigger] floor[i])
        && blocked_by(floor[i], block) by {
        assert(floor[i] == f[i]);
        s.filter_lemma(blocked_in(block));
        assert(blocked_in(block)(f[i]));
        let x = f[i];
        assert(f.contains(x));
        s.lemma_filter_contains_rev(blocked_in(block), x);
        assert(s.contains(x));
        assert(s.to_set().contains(x));
    }
    if block.len() == 0 && block.finite() {
        if floor.len() > 0 {
            assert(blocked_by(floor[0], block));
            broadcast use vstd::set::axiom_set_empty_len;
            assert(block =~= Set::<Seq<char>>::empty()) by {
                if exists|x: Seq<char>| block.contains(x) {
                    let x = choose|x: Seq<char>| block.contains(x);
                    vstd::set::axiom_set_contains_len(block, x);
                }
            }
        }
    }
}

} // verus!
