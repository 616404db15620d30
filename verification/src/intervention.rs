//! Block-moment intervention detection.
//!
//! A single blocked DNS lookup is NOT user intent: browsers speculatively
//! prefetch DNS for links merely visible on a page. So a stream of sinkholed
//! adult-block hits is debounced into calm, deliberate-looking intervention
//! triggers, and never fires more than once per cooldown.
//!
//! [`Detector`] is a pure state machine (time is passed in). [`InterventionCenter`]
//! adds a monotonic clock and the state the IPC layer polls.

use vstd::prelude::*;
use std::collections::VecDeque;
use std::time::Instant;
use crate::ipc::InterventionDto;
use crate::text::{
    ascii_lower, ascii_lower_vec, chars_of, drop_empty, is_char, nonempty, push_all, split_char,
    split_on_char, string_of, trim_end_by, trim_end_char_vec, views,
};

verus! {

/// At least this many hits for one domain inside the window: intervene.
pub const BURST_SAME: usize = 3;

/// At least this many *distinct* blocked domains inside the window: intervene.
pub const DISTINCT_DOMAINS: usize = 2;

/// Sliding debounce window.
pub const WINDOW_MS: u64 = 10_000;

/// At most one intervention per this cooldown.
pub const COOLDOWN_MS: u64 = 180_000;

/// The UI counts as "present" if it polled within this long.
pub const UI_ACTIVE_MS: u64 = 10_000;

/// A pending intervention older than this is stale and won't pop a window.
pub const PENDING_TTL_MS: u64 = 15_000;

// ---------------------------------------------------------------------------
// Group keys
// ---------------------------------------------------------------------------

/// The registrable part of a host: its last two non-empty labels, after
/// trailing dots are dropped and ASCII letters lowercased; a host with fewer
/// labels is its own key.
pub open spec fn group_key_spec(host: Seq<char>) -> Seq<char> {
    let h = ascii_lower(trim_end_by(host, is_char('.')));
    let ls = split_char(h, '.').filter(nonempty());
    if ls.len() >= 2 {
        ls[ls.len() - 2] + seq!['.'] + ls[ls.len() - 1]
    } else {
        h
    }
}

/// Fold `www.pornhub.com` and `cdn.pornhub.com` into one urge. Registrable
/// domain = last two dot-labels, which is exact for the single-label TLDs the
/// starter blocklist uses (`.com`, `.net`, ...). Multi-part TLDs (`.co.uk`)
/// fold one label too coarsely, which only makes the debounce slightly stricter.
pub fn group_key(host: &str) -> (r: String)
    ensures
        r@ == group_key_spec(host@),
{
    let v = chars_of(host);
    let t = trim_end_char_vec(&v, '.');
    let h = ascii_lower_vec(&t);
    let pieces = split_on_char(&h, '.');
    let labels = drop_empty(&pieces);
    let ghost ls = split_char(h@, '.').filter(nonempty());
    assert(views(labels@) == ls);
    let n = labels.len();
    assert(ls.len() == n);
    if n >= 2 {
        let mut out: Vec<char> = Vec::new();
        push_all(&mut out, &labels[n - 2]);
        out.push('.');
        push_all(&mut out, &labels[n - 1]);
        assert(labels@[n - 2]@ == ls[n - 2]);
        assert(labels@[n - 1]@ == ls[n - 1]);
        assert(out@ =~= ls[n - 2] + seq!['.'] + ls[n - 1]);
        string_of(&out)
    } else {
        string_of(&h)
    }
}

// ---------------------------------------------------------------------------
// The debouncer
// ---------------------------------------------------------------------------

/// `a - b`, or 0 when `b > a` (`u64::saturating_sub`).
pub open spec fn sat_sub(a: u64, b: u64) -> int {
    if a >= b {
        a - b
    } else {
        0
    }
}

/// A window of hits as (time, group key) pairs.
pub open spec fn hits(r: Seq<(u64, String)>) -> Seq<(u64, Seq<char>)> {
    r.map_values(|h: (u64, String)| (h.0, h.1@))
}

/// The window without the hits, oldest first, that are more than
/// `WINDOW_MS` older than `now`.
pub open spec fn prune(w: Seq<(u64, Seq<char>)>, now: u64) -> Seq<(u64, Seq<char>)>
    decreases w.len(),
{
    if w.len() > 0 && sat_sub(now, w[0].0) > WINDOW_MS as int {
        prune(w.drop_first(), now)
    } else {
        w
    }
}

/// How many hits of the window carry `key`.
pub open spec fn count_key(w: Seq<(u64, Seq<char>)>, key: Seq<char>) -> nat
    decreases w.len(),
{
    if w.len() == 0 {
        0
    } else {
        count_key(w.drop_last(), key) + if w.last().1 == key {
            1nat
        } else {
            0nat
        }
    }
}

/// The window holds at least two distinct group keys.
pub open spec fn two_distinct(w: Seq<(u64, Seq<char>)>) -> bool {
    exists|i: int, j: int| 0 <= i < w.len() && 0 <= j < w.len() && w[i].1 != w[j].1
}

/// Less than a cooldown has passed since the last trigger.
pub open spec fn in_cooldown(last: Option<u64>, now: u64) -> bool {
    match last {
        Some(l) => sat_sub(now, l) < COOLDOWN_MS as int,
        None => false,
    }
}

/// The debouncer's state and answer after a hit for `key` at `now`: the
/// window is pruned and the hit appended; outside a cooldown, a burst of
/// `BURST_SAME` hits of one key or two distinct keys fires, recording the
/// trigger time and consuming the window.
pub open spec fn record_spec(d: (Seq<(u64, Seq<char>)>, Option<u64>), now: u64, key: Seq<char>) -> (
    (Seq<(u64, Seq<char>)>, Option<u64>),
    bool,
) {
    let w = prune(d.0, now).push((now, key));
    if in_cooldown(d.1, now) {
        ((w, d.1), false)
    } else if count_key(w, key) >= BURST_SAME as nat || two_distinct(w) {
        ((Seq::empty(), Some(now)), true)
    } else {
        ((w, d.1), false)
    }
}

/// Pure debounce + rate-limit state machine. The caller supplies monotonic
/// milliseconds, so it is fully deterministic.
pub struct Detector {
    recent: VecDeque<(u64, String)>,
    last_trigger_ms: Option<u64>,
}

impl View for Detector {
    type V = (Seq<(u64, Seq<char>)>, Option<u64>);

    closed spec fn view(&self) -> (Seq<(u64, Seq<char>)>, Option<u64>) {
        (hits(self.recent@), self.last_trigger_ms)
    }
}

proof fn lemma_count_key_push(w: Seq<(u64, Seq<char>)>, x: (u64, Seq<char>), key: Seq<char>)
    ensures
        count_key(w.push(x), key) == count_key(w, key) + if x.1 == key {
            1nat
        } else {
            0nat
        },
{
    assert(w.push(x).drop_last() =~= w);
}

impl Detector {
    pub fn new() -> (r: Self)
        ensures
            r@ == (Seq::<(u64, Seq<char>)>::empty(), None::<u64>),
    {
        let r = Detector { recent: VecDeque::new(), last_trigger_ms: None };
        assert(hits(r.recent@) =~= Seq::<(u64, Seq<char>)>::empty());
        r
    }

    /// Drop the hits that have aged out of the sliding window.
    fn prune_window(&mut self, now_ms: u64)
        ensures
            final(self)@ == (prune(old(self)@.0, now_ms), old(self)@.1),
    {
        let ghost start = hits(self.recent@);
        let mut pruning = true;
        while pruning
            invariant
                prune(hits(self.recent@), now_ms) == prune(start, now_ms),
                !pruning ==> prune(hits(self.recent@), now_ms) == hits(self.recent@),
                self.last_trigger_ms == old(self).last_trigger_ms,
            decreases self.recent@.len(), if pruning {
                1int
            } else {
                0int
            },
        {
            if self.recent.len() == 0 {
                pruning = false;
            } else {
                let t = self.recent[0].0;
                let ghost w = hits(self.recent@);
                assert(w[0].0 == t);
                if now_ms.saturating_sub(t) > WINDOW_MS {
                    let ghost before = self.recent@;
                    let _ = self.recent.pop_front();
                    assert(hits(self.recent@) =~= w.drop_first());
                } else {
                    pruning = false;
                }
            }
        }
    }

    /// Record one sinkholed adult-block hit at `now_ms`. Returns `true` iff this
    /// hit should open a *new* intervention window right now. Hits during the
    /// cooldown still count toward the window but never re-trigger.
    pub fn record(&mut self, now_ms: u64, host: &str) -> (r: bool)
        ensures
            (final(self)@, r) == record_spec(old(self)@, now_ms, group_key_spec(host@)),
    {
        let key = group_key(host);
        self.prune_window(now_ms);
        let ghost pruned = hits(self.recent@);
        self.recent.push_back((now_ms, key.clone()));
        let ghost w = hits(self.recent@);
        assert(w =~= pruned.push((now_ms, key@)));
        if let Some(last) = self.last_trigger_ms {
            if now_ms.saturating_sub(last) < COOLDOWN_MS {
                return false;
            }
        }
        let mut same: usize = 0;
        let mut other = false;
        let mut i: usize = 0;
        while i < self.recent.len()
            invariant
                i <= self.recent@.len(),
                w == hits(self.recent@),
                w.len() == self.recent@.len(),
                same == count_key(w.take(i as int), key@),
                same <= i,
                other == (exists|j: int| 0 <= j < i && (#[trigger] w[j]).1 != key@),
            decreases self.recent@.len() - i,
        {
            proof {
                assert(w.take(i + 1) =~= w.take(i as int).push(w[i as int]));
                lemma_count_key_push(w.take(i as int), w[i as int], key@);
            }
            assert(w[i as int].1 == self.recent@[i as int].1@);
            if self.recent[i].1 == key {
                same += 1;
            } else {
                other = true;
            }
            i += 1;
        }
        assert(w.take(w.len() as int) =~= w);
        proof {
            let last = w.len() - 1;
            assert(w[last].1 == key@);
            if two_distinct(w) {
                let (a, b) = choose|a: int, b: int|
                    0 <= a < w.len() && 0 <= b < w.len() && w[a].1 != w[b].1;
                if w[a].1 != key@ {
                    assert(w[a].1 != key@);
                } else {
                    assert(w[b].1 != key@);
                }
            }
            if other {
                let j = choose|j: int| 0 <= j < w.len() && (#[trigger] w[j]).1 != key@;
                assert(w[j].1 != w[last].1);
            }
        }
        if same >= BURST_SAME || other {
            self.last_trigger_ms = Some(now_ms);
            self.recent.clear();
            assert(hits(self.recent@) =~= Seq::<(u64, Seq<char>)>::empty());
            true
        } else {
            false
        }
    }
}

/// A hit arriving at an empty window never triggers: one lookup is not intent.
pub proof fn lemma_lone_hit_never_triggers(
    d: (Seq<(u64, Seq<char>)>, Option<u64>),
    now: u64,
    key: Seq<char>,
)
    requires
        prune(d.0, now).len() == 0,
    ensures
        !record_spec(d, now, key).1,
{
    let w = prune(d.0, now).push((now, key));
    lemma_count_key_push(prune(d.0, now), (now, key), key);
    assert(count_key(w, key) == 1);
    if two_distinct(w) {
        let (a, b) = choose|a: int, b: int|
            0 <= a < w.len() && 0 <= b < w.len() && w[a].1 != w[b].1;
        assert(false);
    }
}

/// Two triggers are always at least a cooldown apart: after a hit at `t1`
/// triggers, no hit at a time `t2` less than `COOLDOWN_MS` later triggers.
pub proof fn lemma_one_trigger_per_cooldown(
    d: (Seq<(u64, Seq<char>)>, Option<u64>),
    t1: u64,
    k1: Seq<char>,
    t2: u64,
    k2: Seq<char>,
)
    requires
        record_spec(d, t1, k1).1,
        t1 <= t2,
        t2 - t1 < COOLDOWN_MS,
    ensures
        !record_spec(record_spec(d, t1, k1).0, t2, k2).1,
{
}

/// The detector's state after the first `n` of the hits `hs`, from `d`.
pub open spec fn after_hits(
    d: (Seq<(u64, Seq<char>)>, Option<u64>),
    hs: Seq<(u64, Seq<char>)>,
    n: nat,
) -> (Seq<(u64, Seq<char>)>, Option<u64>)
    decreases n,
{
    if n == 0 || n > hs.len() {
        d
    } else {
        record_spec(after_hits(d, hs, (n - 1) as nat), hs[n - 1].0, group_key_spec(hs[n - 1].1)).0
    }
}

/// Whether hit `i` of `hs` (fed after the ones before it) triggers.
pub open spec fn hit_fires(
    d: (Seq<(u64, Seq<char>)>, Option<u64>),
    hs: Seq<(u64, Seq<char>)>,
    i: nat,
) -> bool {
    record_spec(after_hits(d, hs, i), hs[i as int].0, group_key_spec(hs[i as int].1)).1
}

proof fn lemma_trigger_time_kept(
    d: (Seq<(u64, Seq<char>)>, Option<u64>),
    hs: Seq<(u64, Seq<char>)>,
    i: nat,
    k: nat,
)
    requires
        i < k <= hs.len(),
        hit_fires(d, hs, i),
        forall|m: nat| i < m < k ==> !#[trigger] hit_fires(d, hs, m),
    ensures
        after_hits(d, hs, k).1 == Some(hs[i as int].0),
    decreases k,
{
    if k > i + 1 {
        lemma_trigger_time_kept(d, hs, i, (k - 1) as nat);
        assert(!hit_fires(d, hs, (k - 1) as nat));
    }
}

/// Triggers are always at least a cooldown apart, however many hits come
/// between them: feeding hits in time order, any two that trigger are
/// `COOLDOWN_MS` or more apart.
pub proof fn lemma_triggers_a_cooldown_apart(
    d: (Seq<(u64, Seq<char>)>, Option<u64>),
    hs: Seq<(u64, Seq<char>)>,
    i: nat,
    j: nat,
)
    requires
        i < j < hs.len(),
        forall|a: int, b: int| 0 <= a <= b < hs.len() ==> (#[trigger] hs[a]).0 <= (#[trigger] hs[b]).0,
        hit_fires(d, hs, i),
        hit_fires(d, hs, j),
    ensures
        hs[j as int].0 - hs[i as int].0 >= COOLDOWN_MS,
    decreases j - i,
{
    if exists|m: nat| i < m < j && #[trigger] hit_fires(d, hs, m) {
        let m = choose|m: nat| i < m < j && #[trigger] hit_fires(d, hs, m);
        lemma_triggers_a_cooldown_apart(d, hs, i, m);
        assert(hs[m as int].0 <= hs[j as int].0);
    } else {
        lemma_trigger_time_kept(d, hs, i, j);
        assert(hs[i as int].0 <= hs[j as int].0);
    }
}

/// A detector that has seen nothing yet (`Detector::new`).
pub open spec fn fresh() -> (Seq<(u64, Seq<char>)>, Option<u64>) {
    (Seq::empty(), None)
}

/// Hits given in time order.
pub open spec fn time_ordered(hs: Seq<(u64, Seq<char>)>) -> bool {
    forall|a: int, b: int| 0 <= a <= b < hs.len() ==> (#[trigger] hs[a]).0 <= (#[trigger] hs[b]).0
}

/// The window entries of the hits at positions `ids`.
pub open spec fn window_of(hs: Seq<(u64, Seq<char>)>, ids: Seq<int>) -> Seq<(u64, Seq<char>)> {
    Seq::new(ids.len(), |k: int| (hs[ids[k]].0, group_key_spec(hs[ids[k]].1)))
}

/// `prune` on positions: drop the oldest while more than `WINDOW_MS` old.
pub open spec fn prune_ids(ids: Seq<int>, hs: Seq<(u64, Seq<char>)>, now: u64) -> Seq<int>
    decreases ids.len(),
{
    if ids.len() > 0 && sat_sub(now, hs[ids[0]].0) > WINDOW_MS as int {
        prune_ids(ids.drop_first(), hs, now)
    } else {
        ids
    }
}

/// The positions of the hits the window holds after the first `n` hits,
/// fed to a fresh detector.
pub open spec fn window_ids(hs: Seq<(u64, Seq<char>)>, n: nat) -> Seq<int>
    decreases n,
{
    if n == 0 || n > hs.len() {
        Seq::empty()
    } else if hit_fires(fresh(), hs, (n - 1) as nat) {
        Seq::empty()
    } else {
        prune_ids(window_ids(hs, (n - 1) as nat), hs, hs[n - 1].0).push(n - 1)
    }
}

/// Positions strictly increasing, each below `n`.
pub open spec fn ids_ok(ids: Seq<int>, n: int) -> bool {
    &&& forall|k: int| 0 <= k < ids.len() ==> 0 <= #[trigger] ids[k] < n
    &&& forall|a: int, b: int| 0 <= a < b < ids.len() ==> (#[trigger] ids[a]) < (#[trigger] ids[b])
}

proof fn lemma_prune_ids(ids: Seq<int>, hs: Seq<(u64, Seq<char>)>, now: u64, n: int)
    requires
        ids_ok(ids, n),
        n <= hs.len(),
        time_ordered(hs),
    ensures
        prune(window_of(hs, ids), now) == window_of(hs, prune_ids(ids, hs, now)),
        prune_ids(ids, hs, now).len() <= ids.len(),
        prune_ids(ids, hs, now) == ids.skip(ids.len() - prune_ids(ids, hs, now).len()),
        forall|k: int|
            0 <= k < prune_ids(ids, hs, now).len() ==> sat_sub(
                now,
                hs[#[trigger] prune_ids(ids, hs, now)[k]].0,
            ) <= WINDOW_MS as int,
    decreases ids.len(),
{
    let w = window_of(hs, ids);
    if ids.len() > 0 && sat_sub(now, hs[ids[0]].0) > WINDOW_MS as int {
        let rest = ids.drop_first();
        assert forall|a: int, b: int| 0 <= a < b < rest.len() implies (#[trigger] rest[a]) < (
        #[trigger] rest[b]) by {
            assert(rest[a] == ids[a + 1] && rest[b] == ids[b + 1]);
        }
        assert forall|k: int| 0 <= k < rest.len() implies 0 <= #[trigger] rest[k] < n by {
            assert(rest[k] == ids[k + 1]);
        }
        lemma_prune_ids(rest, hs, now, n);
        assert(w[0].0 == hs[ids[0]].0);
        assert(w.drop_first() =~= window_of(hs, rest));
        let p = prune_ids(rest, hs, now);
        assert(rest.skip(rest.len() - p.len()) =~= ids.skip(ids.len() - p.len()));
    } else {
        if ids.len() > 0 {
            assert(w[0].0 == hs[ids[0]].0);
            assert forall|k: int| 0 <= k < ids.len() implies sat_sub(now, hs[#[trigger] ids[k]].0)
                <= WINDOW_MS as int by {
                if k > 0 {
                    assert(ids[0] < ids[k]);
                    assert(hs[ids[0]].0 <= hs[ids[k]].0);
                }
            }
        }
        assert(ids.skip(0) =~= ids);
    }
}

proof fn lemma_window_ids(hs: Seq<(u64, Seq<char>)>, n: nat)
    requires
        n <= hs.len(),
        time_ordered(hs),
    ensures
        after_hits(fresh(), hs, n).0 == window_of(hs, window_ids(hs, n)),
        ids_ok(window_ids(hs, n), n as int),
        forall|k: int, f: nat|
            #![trigger window_ids(hs, n)[k], hit_fires(fresh(), hs, f)]
            0 <= k < window_ids(hs, n).len() && window_ids(hs, n)[k] <= f < n ==> !hit_fires(
                fresh(),
                hs,
                f,
            ),
    decreases n,
{
    if n == 0 {
        assert(window_of(hs, Seq::<int>::empty()) =~= Seq::<(u64, Seq<char>)>::empty());
    } else {
        let m = (n - 1) as nat;
        lemma_window_ids(hs, m);
        let prev = window_ids(hs, m);
        let t = hs[m as int].0;
        let key = group_key_spec(hs[m as int].1);
        lemma_prune_ids(prev, hs, t, m as int);
        let kept = prune_ids(prev, hs, t);
        let ids = kept.push(m as int);
        assert(window_of(hs, kept).push((t, key)) =~= window_of(hs, ids));
        if hit_fires(fresh(), hs, m) {
            assert(window_of(hs, Seq::<int>::empty()) =~= Seq::<(u64, Seq<char>)>::empty());
        } else {
            assert(window_ids(hs, n) == ids);
            let c = prev.len() - kept.len();
            assert forall|k: int| 0 <= k < kept.len() implies #[trigger] kept[k] == prev[k + c] by {}
            assert forall|a: int, b: int| 0 <= a < b < ids.len() implies (#[trigger] ids[a]) < (
            #[trigger] ids[b]) by {
                if b < kept.len() {
                    assert(kept[a] == prev[a + c] && kept[b] == prev[b + c]);
                } else {
                    assert(kept[a] == prev[a + c]);
                }
            }
            assert forall|k: int| 0 <= k < ids.len() implies 0 <= #[trigger] ids[k] < n by {
                if k < kept.len() {
                    assert(kept[k] == prev[k + c]);
                }
            }
            assert forall|k: int, f: nat|
                #![trigger ids[k], hit_fires(fresh(), hs, f)]
                0 <= k < ids.len() && ids[k] <= f < n implies !hit_fires(fresh(), hs, f) by {
                if k < kept.len() && f < m {
                    assert(kept[k] == prev[k + c]);
                }
            }
        }
    }
}

/// The positions of `w` whose key is `key`, in order.
proof fn key_positions(w: Seq<(u64, Seq<char>)>, key: Seq<char>) -> (ps: Seq<int>)
    ensures
        ps.len() == count_key(w, key),
        forall|k: int| 0 <= k < ps.len() ==> 0 <= #[trigger] ps[k] < w.len() && w[ps[k]].1 == key,
        forall|a: int, b: int| 0 <= a < b < ps.len() ==> (#[trigger] ps[a]) < (#[trigger] ps[b]),
    decreases w.len(),
{
    if w.len() == 0 {
        Seq::empty()
    } else {
        let dl = w.drop_last();
        let prev = key_positions(dl, key);
        assert forall|k: int| 0 <= k < prev.len() implies w[#[trigger] prev[k]] == dl[prev[k]] by {}
        if w.last().1 == key {
            let ps = prev.push(w.len() - 1);
            assert forall|k: int| 0 <= k < ps.len() implies 0 <= #[trigger] ps[k] < w.len() && w[ps[k]].1
                == key by {
                if k < prev.len() {
                    assert(ps[k] == prev[k]);
                }
            }
            assert forall|a: int, b: int| 0 <= a < b < ps.len() implies (#[trigger] ps[a]) < (
            #[trigger] ps[b]) by {
                assert(ps[a] == prev[a]);
                if b < prev.len() {
                    assert(ps[b] == prev[b]);
                }
            }
            ps
        } else {
            prev
        }
    }
}

/// Hit `m` counts toward the trigger at hit `i`: it is no later than `i`,
/// within `WINDOW_MS` of it, and no hit from `m` up to `i` triggered.
pub open spec fn counts_toward(hs: Seq<(u64, Seq<char>)>, i: int, m: int) -> bool {
    &&& 0 <= m <= i
    &&& sat_sub(hs[i].0, hs[m].0) <= WINDOW_MS as int
    &&& forall|f: nat| m <= f < i ==> !#[trigger] hit_fires(fresh(), hs, f)
}

/// A trigger always had enough behind it: when hit `i` (fed in time order to
/// a fresh detector) triggers, the hits since the previous trigger that lie
/// within `WINDOW_MS` of it, this one included, hold `BURST_SAME` hits of its
/// own group key or two distinct group keys.
pub proof fn lemma_trigger_had_enough_hits(hs: Seq<(u64, Seq<char>)>, i: nat)
    requires
        i < hs.len(),
        time_ordered(hs),
        hit_fires(fresh(), hs, i),
    ensures
        ({
            let key = group_key_spec(hs[i as int].1);
            ||| exists|a: int, b: int, c: int|
                a < b < c && counts_toward(hs, i as int, a) && counts_toward(hs, i as int, b)
                    && counts_toward(hs, i as int, c) && #[trigger] group_key_spec(hs[a].1) == key
                    && #[trigger] group_key_spec(hs[b].1) == key && #[trigger] group_key_spec(
                    hs[c].1,
                ) == key
            ||| exists|a: int, b: int|
                counts_toward(hs, i as int, a) && counts_toward(hs, i as int, b) && #[trigger] group_key_spec(
                    hs[a].1,
                ) != #[trigger] group_key_spec(hs[b].1)
        }),
{
    lemma_window_ids(hs, i);
    let prev = window_ids(hs, i);
    let t = hs[i as int].0;
    let key = group_key_spec(hs[i as int].1);
    lemma_prune_ids(prev, hs, t, i as int);
    let kept = prune_ids(prev, hs, t);
    let ids = kept.push(i as int);
    let c0 = prev.len() - kept.len();
    assert forall|k: int| 0 <= k < kept.len() implies #[trigger] kept[k] == prev[k + c0] by {}
    let w = prune(after_hits(fresh(), hs, i).0, t).push((t, key));
    assert(w =~= window_of(hs, ids));
    // Every hit the window holds counts toward this trigger.
    assert forall|k: int| 0 <= k < ids.len() implies counts_toward(hs, i as int, #[trigger] ids[k]) by {
        if k < kept.len() {
            assert(kept[k] == prev[k + c0]);
            assert forall|f: nat| ids[k] <= f < i implies !#[trigger] hit_fires(fresh(), hs, f) by {
                assert(prev[k + c0] <= f < i);
            }
        }
    }
    assert forall|a: int, b: int| 0 <= a < b < ids.len() implies (#[trigger] ids[a]) < (
    #[trigger] ids[b]) by {
        if b < kept.len() {
            assert(kept[a] == prev[a + c0] && kept[b] == prev[b + c0]);
        } else {
            assert(kept[a] == prev[a + c0]);
        }
    }
    if count_key(w, key) >= BURST_SAME as nat {
        let ps = key_positions(w, key);
        let (a, b, c) = (ids[ps[0]], ids[ps[1]], ids[ps[2]]);
        assert(w[ps[0]].1 == key && w[ps[1]].1 == key && w[ps[2]].1 == key);
        assert(ps[0] < ps[1] && ps[1] < ps[2]);
        assert(counts_toward(hs, i as int, a) && counts_toward(hs, i as int, b) && counts_toward(
            hs,
            i as int,
            c,
        ));
        assert(group_key_spec(hs[a].1) == key && group_key_spec(hs[b].1) == key
            && group_key_spec(hs[c].1) == key);
    } else {
        assert(two_distinct(w));
        let (x, y) = choose|x: int, y: int| 0 <= x < w.len() && 0 <= y < w.len() && w[x].1 != w[y].1;
        let (a, b) = (ids[x], ids[y]);
        assert(counts_toward(hs, i as int, a) && counts_toward(hs, i as int, b));
        assert(group_key_spec(hs[a].1) != group_key_spec(hs[b].1));
    }
}

/// A trigger consumes the window: the hits that armed it can never arm
/// another one.
pub proof fn lemma_trigger_consumes_window(
    d: (Seq<(u64, Seq<char>)>, Option<u64>),
    now: u64,
    key: Seq<char>,
)
    requires
        record_spec(d, now, key).1,
    ensures
        record_spec(d, now, key).0.0.len() == 0,
        record_spec(d, now, key).0.1 == Some(now),
{
}

// ---------------------------------------------------------------------------
// The center the service feeds and the UI polls
// ---------------------------------------------------------------------------

/// The state of an intervention center.
pub struct CenterView {
    pub detector: (Seq<(u64, Seq<char>)>, Option<u64>),
    /// (armed_at_ms, domain) awaiting the UI to pick it up.
    pub pending: Option<(u64, Seq<char>)>,
    pub urges_while_away: u32,
    pub last_poll_ms: Option<u64>,
}

#[verifier::external_type_specification]
#[verifier::external_body]
pub struct ExInstant(Instant);

/// `Instant::now`: a reading of the monotonic clock.
#[verifier::external_body]
fn clock_now() -> Instant {
    Instant::now()
}

/// `Instant::elapsed` in whole milliseconds since `start`. Nothing is
/// promised of the reading: it depends on the clock.
#[verifier::external_body]
fn elapsed_ms(start: &Instant) -> u64 {
    start.elapsed().as_millis() as u64
}

/// The home for the debounce state. The block-event consumer feeds it; the
/// IPC handler polls it. (The service shares it behind a lock.)
pub struct InterventionCenter {
    start: Instant,
    detector: Detector,
    pending: Option<(u64, String)>,
    urges_while_away: u32,
    last_poll_ms: Option<u64>,
}

/// Whether the UI polled less than `UI_ACTIVE_MS` before `now`.
pub open spec fn ui_active(last_poll: Option<u64>, now: u64) -> bool {
    match last_poll {
        Some(lp) => sat_sub(now, lp) < UI_ACTIVE_MS as int,
        None => false,
    }
}

/// A pending intervention armed less than `PENDING_TTL_MS` before `now`.
pub open spec fn fresh_pending(pending: Option<(u64, Seq<char>)>, now: u64) -> bool {
    match pending {
        Some(p) => sat_sub(now, p.0) < PENDING_TTL_MS as int,
        None => false,
    }
}

/// The state after one block hit at `now` on `host`: the debounce runs;
/// when it fires, a present UI gets a window, an absent one an away count.
pub open spec fn recorded(before: CenterView, after: CenterView, now: u64, host: Seq<char>) -> bool {
    {
        let (d, fired) = record_spec(before.detector, now, group_key_spec(host));
        &&& after.detector == d
        &&& after.last_poll_ms == before.last_poll_ms
        &&& if fired && ui_active(before.last_poll_ms, now) {
            &&& after.pending == Some((now, host))
            &&& after.urges_while_away == before.urges_while_away
        } else if fired {
            &&& after.pending == before.pending
            &&& after.urges_while_away == (if before.urges_while_away
                == u32::MAX {
                u32::MAX
            } else {
                (before.urges_while_away + 1) as u32
            })
        } else {
            &&& after.pending == before.pending
            &&& after.urges_while_away == before.urges_while_away
        }
    }
}

/// The state after arming a window by hand at `now`.
pub open spec fn armed(before: CenterView, after: CenterView, now: u64) -> bool {
    &&& after.pending == Some((now, Seq::<char>::empty()))
    &&& after.detector == before.detector
    &&& after.urges_while_away == before.urges_while_away
    &&& after.last_poll_ms == before.last_poll_ms
}

/// A poll at `now`: the UI is marked present, a fresh pending window is
/// handed out (with its domain, when it has one) and cleared, and the away
/// count is drained.
pub open spec fn polled(before: CenterView, after: CenterView, now: u64, r: InterventionDto) -> bool {
    &&& after.last_poll_ms == Some(now)
    &&& after.pending is None
    &&& after.urges_while_away == 0
    &&& after.detector == before.detector
    &&& r.pending == fresh_pending(before.pending, now)
    &&& match r.domain {
        Some(d) => r.pending && d@ == before.pending.unwrap().1 && d@.len() > 0,
        None => !r.pending || before.pending.unwrap().1.len() == 0,
    }
    &&& r.urges_while_away == before.urges_while_away
    &&& r.letter is None
}

impl InterventionCenter {
    pub closed spec fn view(&self) -> CenterView {
        CenterView {
            detector: self.detector@,
            pending: match self.pending {
                Some(p) => Some((p.0, p.1@)),
                None => None,
            },
            urges_while_away: self.urges_while_away,
            last_poll_ms: self.last_poll_ms,
        }
    }

    pub fn new() -> (r: Self)
        ensures
            r.view().detector == (Seq::<(u64, Seq<char>)>::empty(), None::<u64>),
            r.view().pending is None,
            r.view().urges_while_away == 0,
            r.view().last_poll_ms is None,
    {
        InterventionCenter {
            start: clock_now(),
            detector: Detector::new(),
            pending: None,
            urges_while_away: 0,
            last_poll_ms: None,
        }
    }

    /// Feed one sinkholed adult-block host at `now`. Runs the debounce; if it
    /// fires, either arm a poppable intervention (UI present) or bump the
    /// while-you-were-away counter (UI absent).
    pub fn record_block_at(&mut self, now: u64, host: &str)
        ensures
            recorded(old(self).view(), final(self).view(), now, host@),
    {
        if self.detector.record(now, host) {
            let active = match self.last_poll_ms {
                Some(lp) => now.saturating_sub(lp) < UI_ACTIVE_MS,
                None => false,
            };
            if active {
                let h = string_of(&chars_of(host));
                self.pending = Some((now, h));
            } else {
                self.urges_while_away = self.urges_while_away.saturating_add(1);
            }
        }
    }

    /// Feed one sinkholed adult-block host, timed by the center's clock.
    pub fn record_block(&mut self, host: &str)
        ensures
            exists|now: u64| recorded(old(self).view(), final(self).view(), now, host@),
    {
        let now = elapsed_ms(&self.start);
        self.record_block_at(now, host);
    }

    /// Arm an intervention unconditionally at `now` ("I need help now" /
    /// panic hotkey).
    pub fn trigger_manual_at(&mut self, now: u64)
        ensures
            armed(old(self).view(), final(self).view(), now),
    {
        self.pending = Some((now, String::new()));
    }

    /// Arm an intervention unconditionally, timed by the center's clock.
    pub fn trigger_manual(&mut self)
        ensures
            exists|now: u64| armed(old(self).view(), final(self).view(), now),
    {
        let now = elapsed_ms(&self.start);
        self.trigger_manual_at(now);
    }

    /// The UI's short-interval poll at `now`. Marks the UI present, returns
    /// (and clears) any fresh pending intervention, and drains the away counter.
    pub fn poll_at(&mut self, now: u64) -> (r: InterventionDto)
        ensures
            polled(old(self).view(), final(self).view(), now, r),
    {
        self.last_poll_ms = Some(now);
        let taken = self.pending.take();
        let fresh = match taken {
            Some((t, d)) => {
                if now.saturating_sub(t) < PENDING_TTL_MS {
                    Some(d)
                } else {
                    None
                }
            },
            None => None,
        };
        let away = self.urges_while_away;
        self.urges_while_away = 0;
        let pending = fresh.is_some();
        let domain = match fresh {
            Some(d) => {
                if d.as_str().is_empty() {
                    None
                } else {
                    Some(d)
                }
            },
            None => None,
        };
        InterventionDto { pending, domain, urges_while_away: away, letter: None }
    }

    /// The UI's poll, timed by the center's clock.
    pub fn poll(&mut self) -> (r: InterventionDto)
        ensures
            exists|now: u64| polled(old(self).view(), final(self).view(), now, r),
    {
        let now = elapsed_ms(&self.start);
        self.poll_at(now)
    }
}

// ---------------------------------------------------------------------------
// Covering every screen
// ---------------------------------------------------------------------------

/// The bounds (left, top, right, bottom) of the first `n` monitors, each
/// given by its top-left corner and its size.
pub open spec fn span_upto(ms: Seq<(i32, i32, u32, u32)>, n: int) -> (int, int, int, int)
    decreases n,
{
    if n <= 1 {
        (ms[0].0 as int, ms[0].1 as int, ms[0].0 + ms[0].2, ms[0].1 + ms[0].3)
    } else {
        let b = span_upto(ms, n - 1);
        let m = ms[n - 1];
        (
            if m.0 < b.0 { m.0 as int } else { b.0 },
            if m.1 < b.1 { m.1 as int } else { b.1 },
            if m.0 + m.2 > b.2 { m.0 + m.2 } else { b.2 },
            if m.1 + m.3 > b.3 { m.1 + m.3 } else { b.3 },
        )
    }
}

/// The monitors' right and bottom edges fit the coordinate type, and so does
/// the extent of their union.
pub open spec fn span_fits(ms: Seq<(i32, i32, u32, u32)>) -> bool {
    &&& forall|i: int|
        0 <= i < ms.len() ==> (#[trigger] ms[i]).2 <= i32::MAX && ms[i].3 <= i32::MAX && ms[i].0
            + ms[i].2 <= i32::MAX && ms[i].1 + ms[i].3 <= i32::MAX
    &&& ms.len() > 0 ==> span_upto(ms, ms.len() as int).2 - span_upto(ms, ms.len() as int).0
        <= i32::MAX
    &&& ms.len() > 0 ==> span_upto(ms, ms.len() as int).3 - span_upto(ms, ms.len() as int).1
        <= i32::MAX
}

proof fn lemma_span_grows(ms: Seq<(i32, i32, u32, u32)>, n: int)
    requires
        1 <= n <= ms.len(),
        forall|i: int| 0 <= i < ms.len() ==> (#[trigger] ms[i]).2 <= i32::MAX,
        forall|i: int| 0 <= i < ms.len() ==> (#[trigger] ms[i]).3 <= i32::MAX,
    ensures
        span_upto(ms, n).0 <= span_upto(ms, n).2,
        span_upto(ms, n).1 <= span_upto(ms, n).3,
        i32::MIN <= span_upto(ms, n).0 <= i32::MAX,
        i32::MIN <= span_upto(ms, n).1 <= i32::MAX,
    decreases n,
{
    if n > 1 {
        lemma_span_grows(ms, n - 1);
    }
}

/// The window that covers every monitor, so the intervention cannot be
/// escaped onto another screen: the union of the monitors' rectangles as
/// (left, top, width, height), width and height at least 1; none without
/// monitors.
pub fn monitor_span(ms: &Vec<(i32, i32, u32, u32)>) -> (r: Option<(i32, i32, u32, u32)>)
    requires
        span_fits(ms@),
    ensures
        ms@.len() == 0 ==> r is None,
        ms@.len() > 0 ==> ({
            let b = span_upto(ms@, ms@.len() as int);
            &&& r matches Some(v)
            &&& v.0 == b.0 && v.1 == b.1
            &&& v.2 == if b.2 - b.0 > 1 { b.2 - b.0 } else { 1 }
            &&& v.3 == if b.3 - b.1 > 1 { b.3 - b.1 } else { 1 }
        }),
{
    if ms.len() == 0 {
        return None;
    }
    let m0 = ms[0];
    assert(ms@[0] == m0);
    let mut left: i32 = m0.0;
    let mut top: i32 = m0.1;
    let mut right: i32 = m0.0 + m0.2 as i32;
    let mut bottom: i32 = m0.1 + m0.3 as i32;
    let mut i: usize = 1;
    while i < ms.len()
        invariant
            1 <= i <= ms.len(),
            span_fits(ms@),
            (left as int, top as int, right as int, bottom as int) == span_upto(ms@, i as int),
        decreases ms.len() - i,
    {
        let m = ms[i];
        assert(ms@[i as int] == m);
        if m.0 < left {
            left = m.0;
        }
        if m.1 < top {
            top = m.1;
        }
        let r = m.0 + m.2 as i32;
        if r > right {
            right = r;
        }
        let b = m.1 + m.3 as i32;
        if b > bottom {
            bottom = b;
        }
        i += 1;
    }
    proof {
        lemma_span_grows(ms@, ms@.len() as int);
    }
    let w = right - left;
    let h = bottom - top;
    Some((left, top, if w > 1 { w as u32 } else { 1 }, if h > 1 { h as u32 } else { 1 }))
}

} // verus!
