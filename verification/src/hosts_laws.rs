//! What upserting and removing the Sanctum section promise together: an
//! upsert always leaves exactly one well-formed section, and removing it
//! again gives back the file as it was (with only the separator an insert
//! added), so everything outside the section is preserved.

use vstd::prelude::*;
use crate::hosts::{
    all_domain_lines, count_upto, domain_lines, file_lines, header_1, header_2, header_3,
    is_marker_line, join, line_end, line_start, marker_count, marker_index, newline_spec,
    remove_spec, render_spec, section_absent, section_ok, section_bounds, section_lines, section_present,
    separated, upsert_spec,
};
use crate::text::{
    contains_seq, is_ws, occurs_at, lemma_piece_start_prefix, lemma_split_by_nonempty, lemma_split_layout, one_of,
    piece_fits, piece_separated, piece_start, split_by, split_char, trim, trim_end_by,
    trim_start_by, ws,
};
use crate::{HOSTS_END, HOSTS_START};

verus! {

/// The line pieces of a concatenation: the last piece of `x` and the first
/// piece of `y` join up; every other piece is kept.
pub proof fn lemma_split_concat(x: Seq<char>, y: Seq<char>, sep: spec_fn(char) -> bool)
    ensures
        split_by(x + y, sep) =~~= split_by(x, sep).drop_last() + seq![
            split_by(x, sep).last() + split_by(y, sep)[0],
        ] + split_by(y, sep).skip(1),
    decreases y.len(),
{
    lemma_split_by_nonempty(x, sep);
    lemma_split_by_nonempty(y, sep);
    let px = split_by(x, sep);
    if y.len() == 0 {
        assert(x + y =~= x);
        assert(split_by(y, sep) =~= seq![Seq::<char>::empty()]);
        assert(px.last() + Seq::<char>::empty() =~= px.last());
        assert(px.drop_last() + seq![px.last()] =~= px);
    } else {
        let y0 = y.drop_last();
        let c = y.last();
        lemma_split_concat(x, y0, sep);
        lemma_split_by_nonempty(y0, sep);
        let py0 = split_by(y0, sep);
        let py = split_by(y, sep);
        let s = x + y;
        assert(s.drop_last() =~= x + y0);
        assert(s.last() == c);
        let q = split_by(x + y0, sep);
        if sep(c) {
            assert(py == py0.push(Seq::<char>::empty()));
            assert(split_by(s, sep) == q.push(Seq::<char>::empty()));
            assert(py[0] == py0[0]);
            assert(py.skip(1) =~= py0.skip(1).push(Seq::<char>::empty()));
        } else {
            assert(py == py0.update(py0.len() - 1, py0.last().push(c)));
            assert(split_by(s, sep) == q.update(q.len() - 1, q.last().push(c)));
            if py0.len() == 1 {
                assert(py[0] =~= py0[0].push(c));
                assert(py.skip(1) =~= Seq::<Seq<char>>::empty());
                assert((px.last() + py0[0]).push(c) =~= px.last() + py0[0].push(c));
            } else {
                assert(py[0] == py0[0]);
                assert(py.skip(1) =~~= py0.skip(1).update(py0.len() - 2, py0.last().push(c)));
            }
        }
    }
}


/// A text without separators is a single piece.
proof fn lemma_split_plain(s: Seq<char>, sep: spec_fn(char) -> bool)
    requires
        forall|i: int| 0 <= i < s.len() ==> !sep(#[trigger] s[i]),
    ensures
        split_by(s, sep) =~~= seq![s],
    decreases s.len(),
{
    if s.len() > 0 {
        let t = s.drop_last();
        assert forall|i: int| 0 <= i < t.len() implies !sep(#[trigger] t[i]) by {
            assert(t[i] == s[i]);
        }
        lemma_split_plain(t, sep);
        assert(t.push(s.last()) =~= s);
    } else {
        assert(split_by(s, sep) =~~= seq![Seq::<char>::empty()]);
    }
}

/// The separator predicate of `split_char(_, '\n')` holds exactly of `'\n'`.
proof fn lemma_newline_sep()
    ensures
        forall|c: char| #[trigger] one_of(seq!['\n'])(c) <==> c == '\n',
{
    assert forall|c: char| #[trigger] one_of(seq!['\n'])(c) <==> c == '\n' by {
        if c == '\n' {
            assert(seq!['\n'][0] == '\n');
        }
    }
}

/// A line without newlines followed by a newline splits into the line and
/// an empty piece.
proof fn lemma_split_line(l: Seq<char>)
    requires
        !l.contains('\n'),
    ensures
        split_char(l.push('\n'), '\n') =~~= seq![l, Seq::<char>::empty()],
{
    let sep = one_of(seq!['\n']);
    lemma_newline_sep();
    assert forall|i: int| 0 <= i < l.len() implies !sep(#[trigger] l[i]) by {
        if l[i] == '\n' {
            assert(l.contains('\n'));
        }
    }
    lemma_split_plain(l, sep);
    assert(l.push('\n').drop_last() =~= l);
}

/// Lines, each followed by a newline sequence.
pub open spec fn flat(ls: Seq<Seq<char>>, nl: Seq<char>) -> Seq<char>
    decreases ls.len(),
{
    if ls.len() == 0 {
        Seq::empty()
    } else {
        flat(ls.drop_last(), nl) + ls.last() + nl
    }
}

/// Joining lines and ending with one more separator lays out every line
/// followed by the separator.
proof fn lemma_join_flat(ls: Seq<Seq<char>>, nl: Seq<char>)
    requires
        ls.len() >= 1,
    ensures
        join(ls, nl) + nl =~= flat(ls, nl),
    decreases ls.len(),
{
    if ls.len() == 1 {
        assert(ls.drop_last() =~= Seq::<Seq<char>>::empty());
        assert(flat(ls.drop_last(), nl) =~= Seq::<char>::empty());
    } else {
        lemma_join_flat(ls.drop_last(), nl);
    }
}

/// Each line with `t` appended.
pub open spec fn with_tail(ls: Seq<Seq<char>>, t: Seq<char>) -> Seq<Seq<char>> {
    ls.map_values(|l: Seq<char>| l + t)
}

/// The newline-separated pieces of laid-out lines: each line (with what
/// precedes the `\n` of the separator), then an empty piece.
proof fn lemma_split_flat(ls: Seq<Seq<char>>, t: Seq<char>)
    requires
        forall|i: int| 0 <= i < ls.len() ==> !(#[trigger] ls[i]).contains('\n'),
        !t.contains('\n'),
    ensures
        split_char(flat(ls, t.push('\n')), '\n') =~~= with_tail(ls, t).push(Seq::<char>::empty()),
    decreases ls.len(),
{
    let nl = t.push('\n');
    if ls.len() == 0 {
        assert(flat(ls, nl) =~= Seq::<char>::empty());
        assert(split_char(Seq::<char>::empty(), '\n') =~~= seq![Seq::<char>::empty()]);
    } else {
        let dl = ls.drop_last();
        assert forall|i: int| 0 <= i < dl.len() implies !(#[trigger] dl[i]).contains('\n') by {
            assert(dl[i] == ls[i]);
        }
        lemma_split_flat(dl, t);
        let l = ls.last();
        let lt = l + t;
        assert(!lt.contains('\n')) by {
            if lt.contains('\n') {
                let k = choose|k: int| 0 <= k < lt.len() && lt[k] == '\n';
                if k < l.len() {
                    assert(l[k] == '\n');
                    assert(l.contains('\n'));
                } else {
                    assert(t[k - l.len()] == '\n');
                    assert(t.contains('\n'));
                }
            }
        }
        lemma_split_line(lt);
        let x = flat(dl, nl);
        let y = lt.push('\n');
        assert(flat(ls, nl) =~= x + y);
        lemma_split_concat(x, y, one_of(seq!['\n']));
        let px = split_char(x, '\n');
        assert(px =~~= with_tail(dl, t).push(Seq::<char>::empty()));
        assert(px.last() + lt =~= lt);
        assert(with_tail(ls, t) =~~= with_tail(dl, t).push(lt));
    }
}

/// Appending whitespace does not change a trimmed line.
proof fn lemma_trim_cr(l: Seq<char>)
    ensures
        trim(l.push('\r')) == trim(l),
{
    assert(l.push('\r').drop_last() =~= l);
    assert(ws()('\r'));
}

/// `trim_end_by` keeps a prefix.
proof fn lemma_trim_end_prefix(s: Seq<char>, p: spec_fn(char) -> bool)
    ensures
        trim_end_by(s, p).len() <= s.len(),
        trim_end_by(s, p) =~= s.take(trim_end_by(s, p).len() as int),
    decreases s.len(),
{
    if s.len() > 0 && p(s.last()) {
        lemma_trim_end_prefix(s.drop_last(), p);
    }
}

/// `trim_start_by` keeps a suffix.
proof fn lemma_trim_start_suffix(s: Seq<char>, p: spec_fn(char) -> bool)
    ensures
        trim_start_by(s, p).len() <= s.len(),
        trim_start_by(s, p) =~= s.skip(s.len() - trim_start_by(s, p).len()),
    decreases s.len(),
{
    if s.len() > 0 && p(s[0]) {
        lemma_trim_start_suffix(s.drop_first(), p);
    }
}

/// A trimmed line holds no character the line did not hold.
proof fn lemma_trim_keeps_out(s: Seq<char>, c: char)
    requires
        !s.contains(c),
    ensures
        !trim(s).contains(c),
{
    let e = trim_end_by(s, ws());
    lemma_trim_end_prefix(s, ws());
    lemma_trim_start_suffix(e, ws());
    let t = trim(s);
    if t.contains(c) {
        let k = choose|k: int| 0 <= k < t.len() && t[k] == c;
        let off = e.len() - t.len();
        assert(t[k] == e[k + off]);
        assert(e[k + off] == s[k + off]);
        assert(s.contains(c));
    }
}

/// How many lines are `m` marker lines.
pub open spec fn cnt(ls: Seq<Seq<char>>, m: Seq<char>) -> nat {
    count_upto(ls, m, ls.len() as int)
}

/// The count over the first `n` lines only depends on whether those lines
/// are markers.
proof fn lemma_count_same(ls: Seq<Seq<char>>, qs: Seq<Seq<char>>, m: Seq<char>, n: int)
    requires
        0 <= n <= ls.len(),
        n <= qs.len(),
        forall|k: int| 0 <= k < n ==> is_marker_line(#[trigger] ls[k], m) == is_marker_line(qs[k], m),
    ensures
        count_upto(ls, m, n) == count_upto(qs, m, n),
    decreases n,
{
    if n > 0 {
        lemma_count_same(ls, qs, m, n - 1);
    }
}

/// Counting over a concatenation adds up.
proof fn lemma_cnt_concat(a: Seq<Seq<char>>, b: Seq<Seq<char>>, m: Seq<char>)
    ensures
        cnt(a + b, m) == cnt(a, m) + cnt(b, m),
    decreases b.len(),
{
    if b.len() == 0 {
        assert(a + b =~= a);
    } else {
        let b0 = b.drop_last();
        lemma_cnt_concat(a, b0, m);
        let ab = a + b;
        assert(ab.len() == (a + b0).len() + 1);
        lemma_count_same(ab, a + b0, m, (a + b0).len() as int);
        lemma_count_same(b, b0, m, b0.len() as int);
        assert(ab[ab.len() - 1] == b[b.len() - 1]);
    }
}

/// A count of zero means no line is a marker.
proof fn lemma_cnt_zero(ls: Seq<Seq<char>>, m: Seq<char>, n: int, k: int)
    requires
        0 <= k < n <= ls.len(),
        count_upto(ls, m, n) == 0,
    ensures
        !is_marker_line(ls[k], m),
    decreases n,
{
    if k < n - 1 {
        lemma_cnt_zero(ls, m, n - 1, k);
    }
}


/// No newline and no `#`.
pub open spec fn clean(s: Seq<char>) -> bool {
    !s.contains('\n') && !s.contains('#')
}

/// The fixed lines of the section: markers and headers hold no newline,
/// are their own trimmed form, and only the markers are markers.
proof fn lemma_fixed_lines()
    ensures
        !HOSTS_START@.contains('\n'),
        !HOSTS_END@.contains('\n'),
        !header_1().contains('\n'),
        !header_2().contains('\n'),
        !header_3().contains('\n'),
        !HOSTS_START@.contains('\r'),
        !HOSTS_END@.contains('\r'),
        !header_1().contains('\r'),
        !header_2().contains('\r'),
        !header_3().contains('\r'),
        is_marker_line(HOSTS_START@, HOSTS_START@),
        !is_marker_line(HOSTS_START@, HOSTS_END@),
        is_marker_line(HOSTS_END@, HOSTS_END@),
        !is_marker_line(HOSTS_END@, HOSTS_START@),
        !is_marker_line(header_1(), HOSTS_START@),
        !is_marker_line(header_1(), HOSTS_END@),
        !is_marker_line(header_2(), HOSTS_START@),
        !is_marker_line(header_2(), HOSTS_END@),
        !is_marker_line(header_3(), HOSTS_START@),
        !is_marker_line(header_3(), HOSTS_END@),
        HOSTS_START@.len() > 0 && HOSTS_START@[0] == '#',
        HOSTS_END@.len() > 0 && HOSTS_END@[0] == '#',
{
    reveal_strlit("# >>> SANCTUM START");
    reveal_strlit("# <<< SANCTUM END");
    reveal_strlit("# Managed by Sanctum \u{2014} do not edit between these markers.");
    reveal_strlit("# Editing here does nothing while protection is active;");
    reveal_strlit("# the Sanctum service rewrites this section.");
    lemma_trim_fixed(HOSTS_START@);
    lemma_trim_fixed(HOSTS_END@);
    lemma_trim_fixed(header_1());
    lemma_trim_fixed(header_2());
    lemma_trim_fixed(header_3());
    lemma_no_newline(HOSTS_START@);
    lemma_no_newline(HOSTS_END@);
    lemma_no_newline(header_1());
    lemma_no_newline(header_2());
    lemma_no_newline(header_3());
    assert(HOSTS_START@[2] != HOSTS_END@[2]);
    assert(header_1()[2] != HOSTS_START@[2]);
    assert(header_1()[2] != HOSTS_END@[2]);
    assert(header_2()[2] != HOSTS_START@[2]);
    assert(header_2()[2] != HOSTS_END@[2]);
    assert(header_3()[2] != HOSTS_START@[2]);
    assert(header_3()[2] != HOSTS_END@[2]);
}

/// A line starting with `#` and ending in a non-space is its own trimmed form.
proof fn lemma_trim_fixed(s: Seq<char>)
    requires
        s.len() > 0,
        s[0] == '#',
        !is_ws(s.last()),
    ensures
        trim(s) == s,
{
}

/// A line of printable characters holds no newline and no carriage return.
proof fn lemma_no_newline(s: Seq<char>)
    requires
        forall|i: int| 0 <= i < s.len() ==> (#[trigger] s[i] as u32) >= 32,
    ensures
        !s.contains('\n'),
        !s.contains('\r'),
{
    if s.contains('\n') {
        let k = choose|k: int| 0 <= k < s.len() && s[k] == '\n';
        assert((s[k] as u32) >= 32);
    }
    if s.contains('\r') {
        let k = choose|k: int| 0 <= k < s.len() && s[k] == '\r';
        assert((s[k] as u32) >= 32);
    }
}


proof fn lemma_concat_clean(a: Seq<char>, b: Seq<char>)
    requires
        clean(a),
        clean(b),
    ensures
        clean(a + b),
{
    let s = a + b;
    assert forall|c: char| (c == '\n' || c == '#') implies !s.contains(c) by {
        if s.contains(c) {
            let k = choose|k: int| 0 <= k < s.len() && s[k] == c;
            if k < a.len() {
                assert(a[k] == c);
                assert(a.contains(c));
            } else {
                assert(b[k - a.len()] == c);
                assert(b.contains(c));
            }
        }
    }
}

/// The inputs of a section render as clean lines: sinks and domains hold no
/// newline and no `#`.
pub open spec fn safe_inputs(ds: Seq<Seq<char>>, v4: Seq<char>, v6: Seq<char>) -> bool {
    clean(v4) && clean(v6) && forall|i: int| 0 <= i < ds.len() ==> clean(#[trigger] ds[i])
}

proof fn lemma_domain_lines_clean(ds: Seq<Seq<char>>, v4: Seq<char>, v6: Seq<char>)
    requires
        safe_inputs(ds, v4, v6),
    ensures
        forall|i: int| 0 <= i < all_domain_lines(ds, v4, v6).len() ==> clean(
            #[trigger] all_domain_lines(ds, v4, v6)[i],
        ),
    decreases ds.len(),
{
    if ds.len() > 0 {
        let dl = ds.drop_last();
        assert forall|i: int| 0 <= i < dl.len() implies clean(#[trigger] dl[i]) by {
            assert(dl[i] == ds[i]);
        }
        lemma_domain_lines_clean(dl, v4, v6);
        let d = ds.last();
        assert(clean(d));
        let sp = seq![' '];
        let www = seq![' ', 'w', 'w', 'w', '.'];
        assert(clean(sp)) by {
            if sp.contains('\n') || sp.contains('#') {
                assert(sp[0] == ' ');
            }
        }
        assert(clean(www)) by {
            if www.contains('\n') {
                let k = choose|k: int| 0 <= k < www.len() && www[k] == '\n';
                assert(www[k] == ' ' || www[k] == 'w' || www[k] == '.');
            }
            if www.contains('#') {
                let k = choose|k: int| 0 <= k < www.len() && www[k] == '#';
                assert(www[k] == ' ' || www[k] == 'w' || www[k] == '.');
            }
        }
        lemma_concat_clean(v4, sp);
        lemma_concat_clean(v4 + sp, d);
        lemma_concat_clean(v6, sp);
        lemma_concat_clean(v6 + sp, d);
        lemma_concat_clean(v4, www);
        lemma_concat_clean(v4 + www, d);
        lemma_concat_clean(v6, www);
        lemma_concat_clean(v6 + www, d);
        let prev = all_domain_lines(dl, v4, v6);
        let dls = domain_lines(d, v4, v6);
        let all = all_domain_lines(ds, v4, v6);
        assert(all == prev + dls);
        assert forall|i: int| 0 <= i < all.len() implies clean(#[trigger] all[i]) by {
            if i < prev.len() {
                assert(all[i] == prev[i]);
            } else {
                assert(all[i] == dls[i - prev.len()]);
            }
        }
    }
}

/// A clean line is never a marker line.
proof fn lemma_clean_not_marker(l: Seq<char>, m: Seq<char>)
    requires
        clean(l),
        m.len() > 0,
        m[0] == '#',
    ensures
        !is_marker_line(l, m),
{
    lemma_trim_keeps_out(l, '#');
    if trim(l) == m {
        assert(trim(l)[0] == '#');
        assert(trim(l).contains('#'));
    }
}

/// Appending nothing or a carriage return does not change whether a line is
/// a marker line.
proof fn lemma_tail_marker(l: Seq<char>, t: Seq<char>, m: Seq<char>)
    requires
        t == Seq::<char>::empty() || t == seq!['\r'],
    ensures
        is_marker_line(l + t, m) == is_marker_line(l, m),
        !(l + t).contains('\n') <== !l.contains('\n'),
{
    if t == Seq::<char>::empty() {
        assert(l + t =~= l);
    } else {
        assert(l + t =~= l.push('\r'));
        lemma_trim_cr(l);
        if (l + t).contains('\n') {
            let k = choose|k: int| 0 <= k < (l + t).len() && (l + t)[k] == '\n';
            if k < l.len() {
                assert(l[k] == '\n');
                assert(l.contains('\n'));
            }
        }
    }
}

/// The rendered section's lines: START first, END last, no other marker, and
/// no newline inside any line.
proof fn lemma_section_shape(ds: Seq<Seq<char>>, v4: Seq<char>, v6: Seq<char>, t: Seq<char>)
    requires
        safe_inputs(ds, v4, v6),
        t == Seq::<char>::empty() || t == seq!['\r'],
    ensures
        forall|i: int| 0 <= i < section_lines(ds, v4, v6).len() ==> !(#[trigger] section_lines(
            ds,
            v4,
            v6,
        )[i]).contains('\n'),
        with_tail(section_lines(ds, v4, v6), t).len() >= 2,
        is_marker_line(with_tail(section_lines(ds, v4, v6), t)[0], HOSTS_START@),
        !is_marker_line(with_tail(section_lines(ds, v4, v6), t)[0], HOSTS_END@),
        is_marker_line(with_tail(section_lines(ds, v4, v6), t).last(), HOSTS_END@),
        !is_marker_line(with_tail(section_lines(ds, v4, v6), t).last(), HOSTS_START@),
        forall|i: int|
            0 < i < with_tail(section_lines(ds, v4, v6), t).len() - 1 ==> !is_marker_line(
                #[trigger] with_tail(section_lines(ds, v4, v6), t)[i],
                HOSTS_START@,
            ) && !is_marker_line(with_tail(section_lines(ds, v4, v6), t)[i], HOSTS_END@),
{
    lemma_fixed_lines();
    lemma_domain_lines_clean(ds, v4, v6);
    let sl = section_lines(ds, v4, v6);
    let adl = all_domain_lines(ds, v4, v6);
    let w = with_tail(sl, t);
    let n = sl.len();
    assert(n == adl.len() + 5);
    assert(sl[0] == HOSTS_START@);
    assert(sl[1] == header_1());
    assert(sl[2] == header_2());
    assert(sl[3] == header_3());
    assert(sl[n - 1] == HOSTS_END@);
    assert forall|i: int| 4 <= i < n - 1 implies sl[i] == adl[i - 4] by {}
    assert forall|i: int| 0 <= i < n implies !(#[trigger] sl[i]).contains('\n') by {
        if 4 <= i < n - 1 {
            assert(clean(adl[i - 4]));
        }
    }
    assert forall|i: int| 0 <= i < n implies (#[trigger] w[i]) == sl[i] + t by {}
    lemma_tail_marker(sl[0], t, HOSTS_START@);
    lemma_tail_marker(sl[0], t, HOSTS_END@);
    lemma_tail_marker(sl[n - 1], t, HOSTS_START@);
    lemma_tail_marker(sl[n - 1], t, HOSTS_END@);
    assert forall|i: int| 0 < i < w.len() - 1 implies !is_marker_line(
        #[trigger] w[i],
        HOSTS_START@,
    ) && !is_marker_line(w[i], HOSTS_END@) by {
        lemma_tail_marker(sl[i], t, HOSTS_START@);
        lemma_tail_marker(sl[i], t, HOSTS_END@);
        if i >= 4 {
            lemma_clean_not_marker(sl[i], HOSTS_START@);
            lemma_clean_not_marker(sl[i], HOSTS_END@);
        }
    }
}


/// No line is a START or END marker line.
pub open spec fn no_markers(ls: Seq<Seq<char>>) -> bool {
    forall|i: int|
        0 <= i < ls.len() ==> !is_marker_line(#[trigger] ls[i], HOSTS_START@) && !is_marker_line(
            ls[i],
            HOSTS_END@,
        )
}

proof fn lemma_cnt_none(ls: Seq<Seq<char>>, m: Seq<char>, n: int)
    requires
        0 <= n <= ls.len(),
        forall|i: int| 0 <= i < n ==> !is_marker_line(#[trigger] ls[i], m),
    ensures
        count_upto(ls, m, n) == 0,
    decreases n,
{
    if n > 0 {
        lemma_cnt_none(ls, m, n - 1);
    }
}

/// A text that is empty or ends with a newline splits with an empty last piece.
proof fn lemma_ends_nl(s: Seq<char>)
    requires
        s.len() == 0 || s.last() == '\n',
    ensures
        split_char(s, '\n').len() >= 1,
        split_char(s, '\n').last() == Seq::<char>::empty(),
{
    lemma_newline_sep();
    lemma_split_by_nonempty(s, one_of(seq!['\n']));
    if s.len() == 0 {
        assert(split_char(s, '\n') =~~= seq![Seq::<char>::empty()]);
    }
}

/// The empty line is not a marker line.
proof fn lemma_empty_not_marker(t: Seq<char>)
    requires
        t == Seq::<char>::empty() || t == seq!['\r'],
    ensures
        !is_marker_line(t, HOSTS_START@),
        !is_marker_line(t, HOSTS_END@),
{
    lemma_fixed_lines();
    lemma_tail_marker(Seq::<char>::empty(), t, HOSTS_START@);
    lemma_tail_marker(Seq::<char>::empty(), t, HOSTS_END@);
    assert(Seq::<char>::empty() + t =~= t);
    assert(trim(Seq::<char>::empty()) =~= Seq::<char>::empty());
}

/// Terminating the last line of a marker-free text keeps it marker-free
/// and leaves an empty last piece.
proof fn lemma_append_nl(x: Seq<char>, t: Seq<char>)
    requires
        no_markers(split_char(x, '\n')),
        t == Seq::<char>::empty() || t == seq!['\r'],
    ensures
        no_markers(split_char(x + t.push('\n'), '\n')),
        split_char(x + t.push('\n'), '\n').last() == Seq::<char>::empty(),
        (x + t.push('\n')).last() == '\n',
{
    let sep = one_of(seq!['\n']);
    lemma_newline_sep();
    lemma_split_by_nonempty(x, sep);
    assert(!t.contains('\n')) by {
        if t.contains('\n') {
            let k = choose|k: int| 0 <= k < t.len() && t[k] == '\n';
            assert(t[k] == '\r');
        }
    }
    lemma_split_line(t);
    lemma_split_concat(x, t.push('\n'), sep);
    let px = split_char(x, '\n');
    let ps = split_char(x + t.push('\n'), '\n');
    assert(ps =~~= px.drop_last() + seq![px.last() + t] + seq![Seq::<char>::empty()]);
    lemma_tail_marker(px.last(), t, HOSTS_START@);
    lemma_tail_marker(px.last(), t, HOSTS_END@);
    lemma_empty_not_marker(Seq::<char>::empty());
    assert forall|i: int| 0 <= i < ps.len() implies !is_marker_line(
        #[trigger] ps[i],
        HOSTS_START@,
    ) && !is_marker_line(ps[i], HOSTS_END@) by {
        if i < px.len() - 1 {
            assert(ps[i] == px[i]);
        } else if i == px.len() - 1 {
            assert(ps[i] == px.last() + t);
            assert(px.last() == px[px.len() - 1]);
        } else {
            assert(ps[i] == Seq::<char>::empty());
        }
    }
}

/// The newline style and what precedes its `\n`.
proof fn lemma_newline_shape(c: Seq<char>)
    ensures
        newline_spec(c) == newline_spec(c).drop_last().push('\n'),
        newline_spec(c).drop_last() == Seq::<char>::empty() || newline_spec(c).drop_last()
            == seq!['\r'],
{
    let nl = newline_spec(c);
    if nl == seq!['\r', '\n'] {
        assert(nl.drop_last() =~= seq!['\r']);
        assert(nl =~= seq!['\r'].push('\n'));
    } else {
        assert(nl == seq!['\n']);
        assert(nl.drop_last() =~= Seq::<char>::empty());
        assert(nl =~= Seq::<char>::empty().push('\n'));
    }
}

/// The text before the section, prepared by an insert, is marker-free and
/// ends with an empty piece.
proof fn lemma_separated_lines(c: Seq<char>, nl: Seq<char>, t: Seq<char>)
    requires
        no_markers(split_char(c, '\n')),
        nl == t.push('\n'),
        t == Seq::<char>::empty() || t == seq!['\r'],
    ensures
        no_markers(split_char(separated(c, nl), '\n')),
        split_char(separated(c, nl), '\n').len() >= 1,
        split_char(separated(c, nl), '\n').last() == Seq::<char>::empty(),
{
    let a = if c.len() > 0 && c.last() != '\n' {
        c + nl
    } else {
        c
    };
    if c.len() > 0 && c.last() != '\n' {
        lemma_append_nl(c, t);
    }
    assert(no_markers(split_char(a, '\n')));
    let b = separated(c, nl);
    if a.len() > 0 {
        lemma_append_nl(a, t);
        assert(b == a + nl);
    } else {
        assert(b == a);
    }
    lemma_ends_nl(b);
}

/// Upserting into a file without a section leaves exactly one well-formed
/// section, and removing it gives back the file with only the line break
/// and blank separator line the insert added.
#[verifier::rlimit(60)]
pub proof fn lemma_upsert_into_absent(c: Seq<char>, ds: Seq<Seq<char>>, v4: Seq<char>, v6: Seq<char>)
    requires
        section_absent(c),
        safe_inputs(ds, v4, v6),
    ensures
        section_present(
            upsert_spec(c, render_spec(ds, v4, v6, newline_spec(c)), newline_spec(c)),
        ),
        remove_spec(upsert_spec(c, render_spec(ds, v4, v6, newline_spec(c)), newline_spec(c)))
            == separated(c, newline_spec(c)),
        section_bounds(upsert_spec(c, render_spec(ds, v4, v6, newline_spec(c)), newline_spec(c)))
            == (separated(c, newline_spec(c)).len() as int, upsert_spec(
            c,
            render_spec(ds, v4, v6, newline_spec(c)),
            newline_spec(c),
        ).len() as int),
{
    let sep = one_of(seq!['\n']);
    lemma_newline_sep();
    let nl = newline_spec(c);
    lemma_newline_shape(c);
    let t = nl.drop_last();
    // The original lines hold no marker.
    let pc = split_char(c, '\n');
    assert(no_markers(pc)) by {
        assert forall|i: int| 0 <= i < pc.len() implies !is_marker_line(
            #[trigger] pc[i],
            HOSTS_START@,
        ) && !is_marker_line(pc[i], HOSTS_END@) by {
            lemma_cnt_zero(pc, HOSTS_START@, pc.len() as int, i);
            lemma_cnt_zero(pc, HOSTS_END@, pc.len() as int, i);
        }
    }
    lemma_separated_lines(c, nl, t);
    let b = separated(c, nl);
    let pb = split_char(b, '\n');
    let bl = pb.drop_last();
    // The rendered section.
    let sl = section_lines(ds, v4, v6);
    lemma_section_shape(ds, v4, v6, t);
    let w = with_tail(sl, t);
    lemma_join_flat(sl, nl);
    lemma_split_flat(sl, t);
    let f = flat(sl, nl);
    assert(!section_present(c));
    let u = upsert_spec(c, render_spec(ds, v4, v6, nl), nl);
    assert(u =~= b + f);
    lemma_split_concat(b, f, sep);
    let ls = split_char(u, '\n');
    let wf = w.push(Seq::<char>::empty());
    assert(split_char(f, '\n') =~~= wf);
    assert(ls =~~= bl + wf) by {
        assert(pb.last() + wf[0] =~= wf[0]);
        assert(bl + seq![pb.last() + wf[0]] + wf.skip(1) =~~= bl + wf);
    }
    let p = bl.len() as int;
    let q = p + w.len() - 1;
    assert(ls.len() == q + 2);
    lemma_empty_not_marker(Seq::<char>::empty());
    // Where the markers are.
    assert forall|k: int| 0 <= k < ls.len() && #[trigger] is_marker_line(ls[k], HOSTS_START@)
        implies k == p by {
        if k < p {
            assert(ls[k] == pb[k]);
        } else if k > p && k <= q {
            assert(ls[k] == w[k - p]);
        } else if k == q + 1 {
            assert(ls[k] == Seq::<char>::empty());
        }
    }
    assert forall|k: int| 0 <= k < ls.len() && #[trigger] is_marker_line(ls[k], HOSTS_END@)
        implies k == q by {
        if k < p {
            assert(ls[k] == pb[k]);
        } else if k >= p && k < q {
            assert(ls[k] == w[k - p]);
        } else if k == q + 1 {
            assert(ls[k] == Seq::<char>::empty());
        }
    }
    assert(ls[p] == w[0]);
    assert(ls[q] == w.last());
    // Counts.
    assert(count_upto(ls, HOSTS_START@, ls.len() as int) == 1) by {
        lemma_cnt_none(ls, HOSTS_START@, p);
        lemma_cnt_none_from(ls, HOSTS_START@, p, ls.len() as int);
    }
    assert(count_upto(ls, HOSTS_END@, ls.len() as int) == 1) by {
        lemma_cnt_none(ls, HOSTS_END@, q);
        lemma_cnt_none_from(ls, HOSTS_END@, q, ls.len() as int);
    }
    assert(marker_count(u, HOSTS_START@) == 1);
    assert(marker_count(u, HOSTS_END@) == 1);
    // The indices the section is found at.
    assert(is_marker_line(file_lines(u)[p], HOSTS_START@));
    assert(marker_index(u, HOSTS_START@) == p);
    assert(is_marker_line(file_lines(u)[q], HOSTS_END@));
    assert(marker_index(u, HOSTS_END@) == q);
    // Their character positions.
    lemma_split_layout(b, sep);
    lemma_split_layout(u, sep);
    assert(pb.len() == p + 1);
    assert(piece_fits(b, sep, pb, p));
    lemma_piece_start_prefix(ls, pb, p);
    assert(line_start(u, p) == b.len());
    assert(piece_start(ls, q + 1) == piece_start(ls, q) + ls[q].len() + 1);
    assert(piece_fits(u, sep, ls, q + 1));
    assert(line_end(u, q) == u.len());
    assert(section_bounds(u) == (b.len() as int, u.len() as int));
    assert(f.len() > 0);
    assert(section_present(u));
    assert(remove_spec(u) =~= b);
}

proof fn lemma_cnt_none_from(ls: Seq<Seq<char>>, m: Seq<char>, from: int, n: int)
    requires
        0 <= from < n <= ls.len(),
        count_upto(ls, m, from) == 0,
        is_marker_line(ls[from], m),
        forall|i: int| from < i < n ==> !is_marker_line(#[trigger] ls[i], m),
    ensures
        count_upto(ls, m, n) == 1,
    decreases n,
{
    if n > from + 1 {
        lemma_cnt_none_from(ls, m, from, n - 1);
    }
}


proof fn lemma_piece_start_mono(ps: Seq<Seq<char>>, a: int, b: int)
    requires
        0 <= a <= b,
    ensures
        piece_start(ps, a) <= piece_start(ps, b),
    decreases b,
{
    if b > a {
        lemma_piece_start_mono(ps, a, b - 1);
    }
}

proof fn lemma_one_marker(ls: Seq<Seq<char>>, m: Seq<char>, n: int, j: int)
    requires
        0 <= j < n <= ls.len(),
        is_marker_line(ls[j], m),
    ensures
        count_upto(ls, m, n) >= 1,
    decreases n,
{
    if n - 1 > j {
        lemma_one_marker(ls, m, n - 1, j);
    }
}

proof fn lemma_two_markers(ls: Seq<Seq<char>>, m: Seq<char>, n: int, j: int, k: int)
    requires
        0 <= j < n <= ls.len(),
        0 <= k < n,
        j != k,
        is_marker_line(ls[j], m),
        is_marker_line(ls[k], m),
    ensures
        count_upto(ls, m, n) >= 2,
    decreases n,
{
    if n - 1 == j {
        lemma_one_marker(ls, m, n - 1, k);
    } else if n - 1 == k {
        lemma_one_marker(ls, m, n - 1, j);
    } else {
        lemma_two_markers(ls, m, n - 1, j, k);
    }
}

proof fn lemma_some_marker(ls: Seq<Seq<char>>, m: Seq<char>, n: int)
    requires
        0 <= n <= ls.len(),
        count_upto(ls, m, n) >= 1,
    ensures
        exists|k: int| 0 <= k < n && is_marker_line(#[trigger] ls[k], m),
    decreases n,
{
    if !is_marker_line(ls[n - 1], m) {
        lemma_some_marker(ls, m, n - 1);
    }
}

/// The unique marker line of a file with a single one is where
/// `marker_index` points, and no other line is that marker.
proof fn lemma_unique_marker(c: Seq<char>, m: Seq<char>)
    requires
        marker_count(c, m) == 1,
    ensures
        0 <= marker_index(c, m) < file_lines(c).len(),
        is_marker_line(file_lines(c)[marker_index(c, m)], m),
        forall|k: int|
            0 <= k < file_lines(c).len() && #[trigger] is_marker_line(file_lines(c)[k], m) ==> k
                == marker_index(c, m),
{
    let ls = file_lines(c);
    lemma_some_marker(ls, m, ls.len() as int);
    let j = marker_index(c, m);
    assert forall|k: int| 0 <= k < ls.len() && #[trigger] is_marker_line(ls[k], m) implies k
        == j by {
        if k != j {
            lemma_two_markers(ls, m, ls.len() as int, j, k);
        }
    }
}

/// A section lies within the file.
proof fn lemma_present_bounds(c: Seq<char>)
    requires
        section_present(c),
    ensures
        0 <= section_bounds(c).0 < section_bounds(c).1 <= c.len(),
{
    let sep = one_of(seq!['\n']);
    lemma_newline_sep();
    lemma_split_layout(c, sep);
    lemma_unique_marker(c, HOSTS_START@);
    lemma_unique_marker(c, HOSTS_END@);
    let ps = file_lines(c);
    let ks = marker_index(c, HOSTS_START@);
    let ke = marker_index(c, HOSTS_END@);
    assert(piece_fits(c, sep, ps, ks));
    assert(piece_fits(c, sep, ps, ke));
    if ke < ps.len() - 1 {
        assert(piece_fits(c, sep, ps, ke + 1));
        assert(piece_start(ps, ke + 1) == piece_start(ps, ke) + ps[ke].len() + 1);
    }
}

/// The text before line `k` splits into the first `k` lines and an empty piece.
proof fn lemma_split_prefix(c: Seq<char>, k: int)
    requires
        0 <= k < split_char(c, '\n').len(),
    ensures
        0 <= piece_start(split_char(c, '\n'), k) <= c.len(),
        split_char(c.take(piece_start(split_char(c, '\n'), k)), '\n') =~~= split_char(c, '\n').take(
            k,
        ).push(Seq::<char>::empty()),
    decreases k,
{
    let sep = one_of(seq!['\n']);
    lemma_newline_sep();
    let ps = split_char(c, '\n');
    lemma_split_layout(c, sep);
    assert(piece_fits(c, sep, ps, k));
    if k == 0 {
        assert(c.take(0) =~= Seq::<char>::empty());
        assert(split_char(Seq::<char>::empty(), '\n') =~~= seq![Seq::<char>::empty()]);
    } else {
        lemma_split_prefix(c, k - 1);
        let a = piece_start(ps, k - 1);
        let x = c.take(a);
        let l = ps[k - 1];
        assert(piece_fits(c, sep, ps, k - 1));
        assert(piece_separated(c, sep, ps, k - 1));
        assert(c[a + l.len()] == '\n');
        assert(!l.contains('\n')) by {
            if l.contains('\n') {
                let j = choose|j: int| 0 <= j < l.len() && l[j] == '\n';
                assert(!sep(l[j]));
            }
        }
        assert(c.take(piece_start(ps, k)) =~= x + l.push('\n')) by {
            assert(c.subrange(a, a + l.len()) == l);
        }
        lemma_split_line(l);
        lemma_split_concat(x, l.push('\n'), sep);
        let px = split_char(x, '\n');
        assert(px.last() + l =~= l);
        assert(ps.take(k) =~~= ps.take(k - 1).push(l));
    }
}

/// The text from line `k` on splits into the lines from `k` on.
proof fn lemma_split_suffix(c: Seq<char>, k: int)
    requires
        0 <= k < split_char(c, '\n').len(),
    ensures
        split_char(c.skip(piece_start(split_char(c, '\n'), k)), '\n') =~~= split_char(c, '\n').skip(
            k,
        ),
{
    let sep = one_of(seq!['\n']);
    let ps = split_char(c, '\n');
    lemma_split_prefix(c, k);
    let a = piece_start(ps, k);
    let x = c.take(a);
    let y = c.skip(a);
    assert(c =~= x + y);
    lemma_split_concat(x, y, sep);
    lemma_split_by_nonempty(y, sep);
    let py = split_char(y, '\n');
    let px = split_char(x, '\n');
    assert(px.last() + py[0] =~= py[0]);
    assert(ps =~~= ps.take(k) + py);
    assert(py =~~= ps.skip(k));
}

/// Upserting into a file that has a section keeps exactly one section, and
/// removing it afterwards gives the same file as removing the old one: all
/// characters outside the section are untouched.
#[verifier::rlimit(60)]
pub proof fn lemma_upsert_over_present(c: Seq<char>, ds: Seq<Seq<char>>, v4: Seq<char>, v6: Seq<char>)
    requires
        section_present(c),
        safe_inputs(ds, v4, v6),
    ensures
        section_present(
            upsert_spec(c, render_spec(ds, v4, v6, newline_spec(c)), newline_spec(c)),
        ),
        remove_spec(upsert_spec(c, render_spec(ds, v4, v6, newline_spec(c)), newline_spec(c)))
            == remove_spec(c),
        section_bounds(upsert_spec(c, render_spec(ds, v4, v6, newline_spec(c)), newline_spec(c)))
            == (section_bounds(c).0, section_bounds(c).0 + render_spec(
            ds,
            v4,
            v6,
            newline_spec(c),
        ).len() + newline_spec(c).len()),
{
    let sep = one_of(seq!['\n']);
    lemma_newline_sep();
    lemma_fixed_lines();
    lemma_present_bounds(c);
    let nl = newline_spec(c);
    lemma_newline_shape(c);
    let t = nl.drop_last();
    let ps = file_lines(c);
    lemma_split_layout(c, sep);
    lemma_unique_marker(c, HOSTS_START@);
    lemma_unique_marker(c, HOSTS_END@);
    let ks = marker_index(c, HOSTS_START@);
    let ke = marker_index(c, HOSTS_END@);
    let (s, e) = section_bounds(c);
    assert(s == piece_start(ps, ks));
    // START comes before END.
    assert(ks != ke);
    assert(ks < ke) by {
        if ke < ks {
            lemma_piece_start_mono(ps, ke + 1, ks);
            assert(piece_start(ps, ke + 1) == piece_start(ps, ke) + ps[ke].len() + 1);
        }
    }
    // The pieces around the section.
    lemma_split_prefix(c, ks);
    let pre = c.take(s);
    let post = c.skip(e);
    let last = ps.len() - 1;
    let qs = if ke < last {
        ps.skip(ke + 1)
    } else {
        seq![Seq::<char>::empty()]
    };
    assert(split_char(post, '\n') =~~= qs) by {
        if ke < last {
            assert(e == piece_start(ps, ke + 1));
            lemma_split_suffix(c, ke + 1);
        } else {
            assert(piece_fits(c, sep, ps, ke));
            assert(e == c.len());
            assert(post =~= Seq::<char>::empty());
            assert(split_char(Seq::<char>::empty(), '\n') =~~= seq![Seq::<char>::empty()]);
        }
    }
    // The rendered section.
    let sl = section_lines(ds, v4, v6);
    lemma_section_shape(ds, v4, v6, t);
    let w = with_tail(sl, t);
    lemma_join_flat(sl, nl);
    lemma_split_flat(sl, t);
    let f = flat(sl, nl);
    let wf = w.push(Seq::<char>::empty());
    assert(split_char(f, '\n') =~~= wf);
    let u = upsert_spec(c, render_spec(ds, v4, v6, nl), nl);
    assert(u =~= pre + (f + post));
    // The lines of the new file.
    lemma_split_concat(f, post, sep);
    lemma_split_by_nonempty(post, sep);
    let fq = split_char(f + post, '\n');
    assert(fq =~~= w + qs) by {
        assert(wf.last() + qs[0] =~= qs[0]);
        assert(wf.drop_last() =~~= w);
    }
    lemma_split_concat(pre, f + post, sep);
    let ppre = split_char(pre, '\n');
    let ls = split_char(u, '\n');
    assert(ls =~~= ps.take(ks) + w + qs) by {
        assert(ppre.last() + fq[0] =~= fq[0]);
        assert(ppre.drop_last() =~~= ps.take(ks));
    }
    let p = ks;
    let q = ks + w.len() - 1;
    assert(ls.len() == q + 1 + qs.len());
    lemma_empty_not_marker(Seq::<char>::empty());
    // No marker outside the new section.
    assert forall|k: int| 0 <= k < ls.len() && #[trigger] is_marker_line(ls[k], HOSTS_START@)
        implies k == p by {
        if k < p {
            assert(ls[k] == ps[k]);
        } else if k > p && k <= q {
            assert(ls[k] == w[k - p]);
        } else if k > q {
            if ke < last {
                assert(ls[k] == ps[k - q + ke]);
            } else {
                assert(ls[k] == Seq::<char>::empty());
            }
        }
    }
    assert forall|k: int| 0 <= k < ls.len() && #[trigger] is_marker_line(ls[k], HOSTS_END@)
        implies k == q by {
        if k < p {
            assert(ls[k] == ps[k]);
        } else if k >= p && k < q {
            assert(ls[k] == w[k - p]);
        } else if k > q {
            if ke < last {
                assert(ls[k] == ps[k - q + ke]);
            } else {
                assert(ls[k] == Seq::<char>::empty());
            }
        }
    }
    assert(ls[p] == w[0]);
    assert(ls[q] == w.last());
    assert(count_upto(ls, HOSTS_START@, ls.len() as int) == 1) by {
        lemma_cnt_none(ls, HOSTS_START@, p);
        lemma_cnt_none_from(ls, HOSTS_START@, p, ls.len() as int);
    }
    assert(count_upto(ls, HOSTS_END@, ls.len() as int) == 1) by {
        lemma_cnt_none(ls, HOSTS_END@, q);
        lemma_cnt_none_from(ls, HOSTS_END@, q, ls.len() as int);
    }
    assert(marker_count(u, HOSTS_START@) == 1);
    assert(marker_count(u, HOSTS_END@) == 1);
    assert(is_marker_line(file_lines(u)[p], HOSTS_START@));
    assert(marker_index(u, HOSTS_START@) == p);
    assert(is_marker_line(file_lines(u)[q], HOSTS_END@));
    assert(marker_index(u, HOSTS_END@) == q);
    // Character positions: the new section spans exactly the rendered text.
    lemma_piece_start_prefix(ls, ps, p);
    assert(line_start(u, p) == pre.len());
    let pf = pre + f;
    lemma_split_concat(pre, f, sep);
    let lpf = split_char(pf, '\n');
    assert(lpf =~~= ps.take(ks) + wf) by {
        assert(ppre.last() + wf[0] =~= wf[0]);
    }
    lemma_split_layout(pf, sep);
    assert(piece_fits(pf, sep, lpf, q + 1));
    assert(piece_start(lpf, q + 1) == pf.len());
    lemma_piece_start_prefix(ls, lpf, q + 1);
    assert(piece_start(ls, q + 1) == piece_start(ls, q) + ls[q].len() + 1);
    assert(line_end(u, q) == pre.len() + f.len());
    assert(section_bounds(u) == (pre.len() as int, (pre.len() + f.len()) as int));
    assert(f.len() > 0);
    assert(section_present(u));
    assert(remove_spec(u) =~= pre + post);
}

/// Removing the section an insert added leaves no marker line behind, and
/// gives back every line of the file: the file itself, followed only by the
/// line breaks the insert added.
pub proof fn lemma_remove_after_insert_is_clean(
    c: Seq<char>,
    ds: Seq<Seq<char>>,
    v4: Seq<char>,
    v6: Seq<char>,
)
    requires
        section_absent(c),
        safe_inputs(ds, v4, v6),
    ensures
        ({
            let r = remove_spec(
                upsert_spec(c, render_spec(ds, v4, v6, newline_spec(c)), newline_spec(c)),
            );
            &&& section_absent(r)
            &&& r.take(c.len() as int) == c
            &&& c.len() <= r.len()
            &&& forall|j: int| c.len() <= j < r.len() ==> #[trigger] r[j] == '\r' || r[j] == '\n'
        }),
{
    lemma_upsert_into_absent(c, ds, v4, v6);
    lemma_newline_sep();
    let nl = newline_spec(c);
    lemma_newline_shape(c);
    let t = nl.drop_last();
    let pc = split_char(c, '\n');
    assert(no_markers(pc)) by {
        assert forall|i: int| 0 <= i < pc.len() implies !is_marker_line(
            #[trigger] pc[i],
            HOSTS_START@,
        ) && !is_marker_line(pc[i], HOSTS_END@) by {
            lemma_cnt_zero(pc, HOSTS_START@, pc.len() as int, i);
            lemma_cnt_zero(pc, HOSTS_END@, pc.len() as int, i);
        }
    }
    lemma_separated_lines(c, nl, t);
    let r = separated(c, nl);
    let pr = split_char(r, '\n');
    lemma_cnt_none(pr, HOSTS_START@, pr.len() as int);
    lemma_cnt_none(pr, HOSTS_END@, pr.len() as int);
    assert(forall|j: int| 0 <= j < nl.len() ==> #[trigger] nl[j] == '\r' || nl[j] == '\n');
    let a = if c.len() > 0 && c.last() != '\n' {
        c + nl
    } else {
        c
    };
    assert(a.take(c.len() as int) =~= c);
    assert forall|j: int| c.len() <= j < a.len() implies #[trigger] a[j] == '\r' || a[j] == '\n' by {
        assert(a[j] == nl[j - c.len()]);
    }
    if a.len() > 0 {
        assert(r == a + nl);
        assert(r.take(c.len() as int) =~= c);
        assert forall|j: int| c.len() <= j < r.len() implies #[trigger] r[j] == '\r' || r[j] == '\n' by {
            if j < a.len() {
                assert(r[j] == a[j]);
            } else {
                assert(r[j] == nl[j - a.len()]);
            }
        }
    } else {
        assert(r == a);
    }
}


// ---------------------------------------------------------------------------
// Upserting twice
// ---------------------------------------------------------------------------

/// No carriage return in the sinks or in any domain.
pub open spec fn cr_free(ds: Seq<Seq<char>>, v4: Seq<char>, v6: Seq<char>) -> bool {
    &&& !v4.contains('\r')
    &&& !v6.contains('\r')
    &&& forall|i: int| 0 <= i < ds.len() ==> !(#[trigger] ds[i]).contains('\r')
}

proof fn lemma_concat_no_cr(a: Seq<char>, b: Seq<char>)
    requires
        !a.contains('\r'),
        !b.contains('\r'),
    ensures
        !(a + b).contains('\r'),
{
    let s = a + b;
    if s.contains('\r') {
        let k = choose|k: int| 0 <= k < s.len() && s[k] == '\r';
        if k < a.len() {
            assert(a[k] == '\r');
        } else {
            assert(b[k - a.len()] == '\r');
        }
    }
}

proof fn lemma_domain_lines_no_cr(ds: Seq<Seq<char>>, v4: Seq<char>, v6: Seq<char>)
    requires
        cr_free(ds, v4, v6),
    ensures
        forall|i: int|
            0 <= i < all_domain_lines(ds, v4, v6).len() ==> !(#[trigger] all_domain_lines(
                ds,
                v4,
                v6,
            )[i]).contains('\r'),
    decreases ds.len(),
{
    if ds.len() > 0 {
        let dl = ds.drop_last();
        assert forall|i: int| 0 <= i < dl.len() implies !(#[trigger] dl[i]).contains('\r') by {
            assert(dl[i] == ds[i]);
        }
        lemma_domain_lines_no_cr(dl, v4, v6);
        let d = ds.last();
        assert(!d.contains('\r'));
        let sp = seq![' '];
        let www = seq![' ', 'w', 'w', 'w', '.'];
        assert(!sp.contains('\r')) by {
            if sp.contains('\r') {
                assert(sp[0] == ' ');
            }
        }
        assert(!www.contains('\r')) by {
            if www.contains('\r') {
                let k = choose|k: int| 0 <= k < www.len() && www[k] == '\r';
                assert(www[k] == ' ' || www[k] == 'w' || www[k] == '.');
            }
        }
        lemma_concat_no_cr(v4, sp);
        lemma_concat_no_cr(v4 + sp, d);
        lemma_concat_no_cr(v6, sp);
        lemma_concat_no_cr(v6 + sp, d);
        lemma_concat_no_cr(v4, www);
        lemma_concat_no_cr(v4 + www, d);
        lemma_concat_no_cr(v6, www);
        lemma_concat_no_cr(v6 + www, d);
        let prev = all_domain_lines(dl, v4, v6);
        let dls = domain_lines(d, v4, v6);
        let all = all_domain_lines(ds, v4, v6);
        assert(all == prev + dls);
        assert forall|i: int| 0 <= i < all.len() implies !(#[trigger] all[i]).contains('\r') by {
            if i < prev.len() {
                assert(all[i] == prev[i]);
            } else {
                assert(all[i] == dls[i - prev.len()]);
            }
        }
    }
}

proof fn lemma_section_lines_no_cr(ds: Seq<Seq<char>>, v4: Seq<char>, v6: Seq<char>)
    requires
        cr_free(ds, v4, v6),
    ensures
        forall|i: int|
            0 <= i < section_lines(ds, v4, v6).len() ==> !(#[trigger] section_lines(
                ds,
                v4,
                v6,
            )[i]).contains('\r'),
{
    lemma_fixed_lines();
    lemma_domain_lines_no_cr(ds, v4, v6);
    let sl = section_lines(ds, v4, v6);
    let adl = all_domain_lines(ds, v4, v6);
    let n = sl.len();
    assert(n == adl.len() + 5);
    assert(sl[0] == HOSTS_START@);
    assert(sl[1] == header_1());
    assert(sl[2] == header_2());
    assert(sl[3] == header_3());
    assert(sl[n - 1] == HOSTS_END@);
    assert forall|i: int| 0 <= i < n implies !(#[trigger] sl[i]).contains('\r') by {
        if 4 <= i < n - 1 {
            assert(sl[i] == adl[i - 4]);
        }
    }
}

proof fn lemma_flat_no_cr(ls: Seq<Seq<char>>, nl: Seq<char>)
    requires
        forall|i: int| 0 <= i < ls.len() ==> !(#[trigger] ls[i]).contains('\r'),
        !nl.contains('\r'),
    ensures
        !flat(ls, nl).contains('\r'),
    decreases ls.len(),
{
    if ls.len() > 0 {
        let dl = ls.drop_last();
        assert forall|i: int| 0 <= i < dl.len() implies !(#[trigger] dl[i]).contains('\r') by {
            assert(dl[i] == ls[i]);
        }
        lemma_flat_no_cr(dl, nl);
        assert(!ls.last().contains('\r')) by {
            assert(ls.last() == ls[ls.len() - 1]);
        }
        lemma_concat_no_cr(flat(dl, nl), ls.last());
        lemma_concat_no_cr(flat(dl, nl) + ls.last(), nl);
    } else {
        assert(flat(ls, nl) =~= Seq::<char>::empty());
    }
}

/// Laid-out lines begin with the first line.
proof fn lemma_flat_first(ls: Seq<Seq<char>>, nl: Seq<char>)
    requires
        ls.len() >= 1,
    ensures
        ls[0].len() <= flat(ls, nl).len(),
        forall|j: int| 0 <= j < ls[0].len() ==> flat(ls, nl)[j] == #[trigger] ls[0][j],
    decreases ls.len(),
{
    let dl = ls.drop_last();
    if ls.len() > 1 {
        lemma_flat_first(dl, nl);
        assert(dl[0] == ls[0]);
    } else {
        assert(flat(dl, nl) =~= Seq::<char>::empty());
    }
}

/// Upserting the same section a second time changes nothing: the file keeps
/// its newline style and its single section, and the second upsert gives
/// back exactly the text of the first. This holds for sinks and domains
/// without carriage returns, on every file but a section-less LF file whose
/// last line ends in a bare carriage return (the first upsert's line break
/// turns that into a CRLF, and the file's style with it).
#[verifier::rlimit(60)]
pub proof fn lemma_upsert_is_idempotent(c: Seq<char>, ds: Seq<Seq<char>>, v4: Seq<char>, v6: Seq<char>)
    requires
        section_ok(c),
        safe_inputs(ds, v4, v6),
        cr_free(ds, v4, v6),
        !(section_absent(c) && newline_spec(c) == seq!['\n'] && c.len() > 0 && c.last() == '\r'),
    ensures
        ({
            let u = upsert_spec(c, render_spec(ds, v4, v6, newline_spec(c)), newline_spec(c));
            &&& section_present(u)
            &&& newline_spec(u) == newline_spec(c)
            &&& upsert_spec(u, render_spec(ds, v4, v6, newline_spec(u)), newline_spec(u)) == u
        }),
{
    lemma_fixed_lines();
    let nl = newline_spec(c);
    lemma_newline_shape(c);
    let r = render_spec(ds, v4, v6, nl);
    let u = upsert_spec(c, r, nl);
    let crlf = seq!['\r', '\n'];
    let sl = section_lines(ds, v4, v6);
    lemma_section_shape(ds, v4, v6, nl.drop_last());
    assert(sl.len() >= 2);
    lemma_join_flat(sl, nl);
    let f = r + nl;
    assert(f =~= flat(sl, nl));
    lemma_flat_first(sl, nl);
    assert(sl[0] == HOSTS_START@);
    assert(f[0] == '#');
    // Where the new section starts, and what follows it.
    let x: int;
    let post: Seq<char>;
    if section_present(c) {
        lemma_upsert_over_present(c, ds, v4, v6);
        lemma_present_bounds(c);
        let (s, e) = section_bounds(c);
        x = s;
        post = c.skip(e);
        assert(u =~= c.take(s) + f + post);
        assert(u.take(x) =~= c.take(s));
    } else {
        lemma_upsert_into_absent(c, ds, v4, v6);
        x = separated(c, nl).len() as int;
        post = Seq::<char>::empty();
        assert(u =~= separated(c, nl) + f + post);
        assert(u.take(x) =~= separated(c, nl));
    }
    assert(section_bounds(u) == (x, x + f.len()));
    assert(u =~= u.take(x) + f + post);
    assert(u.skip(x + f.len()) =~= post);
    // The style survives.
    assert(u.subrange(x + r.len(), x + f.len()) =~= nl);
    if nl == crlf {
        assert(occurs_at(u, crlf, x + r.len()));
        assert(newline_spec(u) == crlf);
    } else {
        assert(nl == seq!['\n']);
        assert(!contains_seq(c, crlf));
        assert(u[x + r.len()] == '\n');
        assert(u.contains('\n'));
        lemma_section_lines_no_cr(ds, v4, v6);
        assert(!nl.contains('\r')) by {
            if nl.contains('\r') {
                assert(nl[0] == '\n');
            }
        }
        lemma_flat_no_cr(sl, nl);
        assert forall|i: int| !occurs_at(u, crlf, i) by {
            if occurs_at(u, crlf, i) {
                assert(u[i] == u.subrange(i, i + 2)[0]);
                assert(u[i + 1] == u.subrange(i, i + 2)[1]);
                assert(u[i] == '\r' && u[i + 1] == '\n');
                if i < x {
                    if section_present(c) {
                        let s = section_bounds(c).0;
                        if i + 1 < s {
                            assert(c.subrange(i, i + 2) =~= crlf);
                            assert(occurs_at(c, crlf, i));
                        } else {
                            assert(u[i + 1] == f[0]);
                        }
                    } else {
                        let a = if c.len() > 0 && c.last() != '\n' {
                            c + nl
                        } else {
                            c
                        };
                        let b = separated(c, nl);
                        assert(b[i] == '\r');
                        if i >= c.len() {
                            if i < a.len() {
                                assert(b[i] == a[i]);
                                assert(a[i] == nl[i - c.len()]);
                            } else {
                                assert(b[i] == nl[i - a.len()]);
                            }
                        }
                        assert(c[i] == '\r');
                        if i + 1 < c.len() {
                            assert(c[i + 1] == b[i + 1]);
                            assert(c.subrange(i, i + 2) =~= crlf);
                            assert(occurs_at(c, crlf, i));
                        } else {
                            assert(c.last() == '\r');
                        }
                    }
                } else if i < x + f.len() {
                    assert(f[i - x] == '\r');
                    assert(f.contains('\r'));
                } else {
                    let e = section_bounds(c).1;
                    let j = i - x - f.len();
                    assert(post[j] == c[e + j]);
                    assert(post[j + 1] == c[e + j + 1]);
                    assert(c.subrange(e + j, e + j + 2) =~= crlf);
                    assert(occurs_at(c, crlf, e + j));
                }
            }
        }
        assert(!contains_seq(u, crlf));
        assert(newline_spec(u) == nl);
    }
    assert(upsert_spec(u, r, nl) =~= u);
}

} // verus!
