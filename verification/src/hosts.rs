//! Management of Sanctum's owned region of the Windows hosts file.
//!
//! Hard rule: we only ever read/replace the characters *between and
//! including* our two markers. Everything outside is preserved exactly,
//! including the user's line endings. We never parse or rewrite the rest
//! of the hosts file.

use vstd::prelude::*;
use vstd::utf8::encode_utf8;
use crate::error::Error;
use crate::fmt::{decimal, push_decimal};
use crate::text::{
    chars_eq, chars_of, contains_seq, contains_seq_exec, lemma_piece_start_bounds,
    lemma_split_by_nonempty, one_of, piece_start, push_all, push_str, slice_chars, split_char,
    split_on_char, string_of, trim, trim_vec, views,
};
use crate::{HOSTS_END, HOSTS_START};

verus! {

/// Marker for the machinery in this module. Zero-sized; groups the fns.
pub struct HostsSection;

// ---------------------------------------------------------------------------
// Specification
// ---------------------------------------------------------------------------

/// The number of bytes of the UTF-8 encoding of `s`.
pub open spec fn blen(s: Seq<char>) -> nat {
    encode_utf8(s).len()
}

/// The lines of the file, without their `\n` terminators.
pub open spec fn file_lines(c: Seq<char>) -> Seq<Seq<char>> {
    split_char(c, '\n')
}

/// A line is a marker line if, with surrounding whitespace (including its
/// line ending) removed, it is exactly the marker.
pub open spec fn is_marker_line(line: Seq<char>, marker: Seq<char>) -> bool {
    trim(line) == marker
}

/// How many of the first `n` lines are `marker` lines.
pub open spec fn count_upto(ls: Seq<Seq<char>>, marker: Seq<char>, n: int) -> nat
    decreases n,
{
    if n <= 0 {
        0
    } else {
        count_upto(ls, marker, n - 1) + if is_marker_line(ls[n - 1], marker) {
            1nat
        } else {
            0nat
        }
    }
}

/// How many lines of `c` are `marker` lines.
pub open spec fn marker_count(c: Seq<char>, marker: Seq<char>) -> nat {
    count_upto(file_lines(c), marker, file_lines(c).len() as int)
}

/// A line of `c` that is a `marker` line (the only one, where there is just one).
pub open spec fn marker_index(c: Seq<char>, marker: Seq<char>) -> int {
    choose|k: int| 0 <= k < file_lines(c).len() && is_marker_line(file_lines(c)[k], marker)
}

/// Where line `k` starts.
pub open spec fn line_start(c: Seq<char>, k: int) -> int {
    piece_start(file_lines(c), k)
}

/// Where line `k` ends, its `\n` included.
pub open spec fn line_end(c: Seq<char>, k: int) -> int {
    let ls = file_lines(c);
    piece_start(ls, k) + ls[k].len() + if k < ls.len() - 1 {
        1int
    } else {
        0int
    }
}

/// The character range `[start, end)` of the section: from the start of
/// the START line to the end of the END line (its newline included).
pub open spec fn section_bounds(c: Seq<char>) -> (int, int) {
    (line_start(c, marker_index(c, HOSTS_START@)), line_end(c, marker_index(c, HOSTS_END@)))
}

/// Exactly one START and one END marker line, START first.
pub open spec fn section_present(c: Seq<char>) -> bool {
    &&& marker_count(c, HOSTS_START@) == 1
    &&& marker_count(c, HOSTS_END@) == 1
    &&& section_bounds(c).0 < section_bounds(c).1
}

/// No marker lines at all.
pub open spec fn section_absent(c: Seq<char>) -> bool {
    marker_count(c, HOSTS_START@) == 0 && marker_count(c, HOSTS_END@) == 0
}

/// The markers are balanced: no section, or exactly one well-formed one.
pub open spec fn section_ok(c: Seq<char>) -> bool {
    section_absent(c) || section_present(c)
}

/// The message given when the markers are not balanced.
pub open spec fn section_error(c: Seq<char>) -> Seq<char> {
    let st = marker_count(c, HOSTS_START@);
    let en = marker_count(c, HOSTS_END@);
    if st == 1 && en == 1 {
        "hosts END marker appears before START marker"@
    } else {
        "hosts markers unbalanced: "@ + decimal(st) + " START / "@ + decimal(en)
            + " END (expected 1 each)"@
    }
}

/// `lines` joined with `sep` between them (no trailing separator).
pub open spec fn join(lines: Seq<Seq<char>>, sep: Seq<char>) -> Seq<char>
    decreases lines.len(),
{
    if lines.len() == 0 {
        Seq::empty()
    } else if lines.len() == 1 {
        lines[0]
    } else {
        join(lines.drop_last(), sep) + sep + lines.last()
    }
}

pub open spec fn header_1() -> Seq<char> {
    "# Managed by Sanctum \u{2014} do not edit between these markers."@
}

pub open spec fn header_2() -> Seq<char> {
    "# Editing here does nothing while protection is active;"@
}

pub open spec fn header_3() -> Seq<char> {
    "# the Sanctum service rewrites this section."@
}

/// The four sinkhole lines for one domain: the domain and its `www.` host,
/// each for both address families.
pub open spec fn domain_lines(d: Seq<char>, v4: Seq<char>, v6: Seq<char>) -> Seq<Seq<char>> {
    seq![
        v4 + seq![' '] + d,
        v6 + seq![' '] + d,
        v4 + seq![' ', 'w', 'w', 'w', '.'] + d,
        v6 + seq![' ', 'w', 'w', 'w', '.'] + d,
    ]
}

/// The sinkhole lines for every domain, in order.
pub open spec fn all_domain_lines(ds: Seq<Seq<char>>, v4: Seq<char>, v6: Seq<char>) -> Seq<
    Seq<char>,
>
    decreases ds.len(),
{
    if ds.len() == 0 {
        Seq::empty()
    } else {
        all_domain_lines(ds.drop_last(), v4, v6) + domain_lines(ds.last(), v4, v6)
    }
}

/// Every line of the rendered section, markers included.
pub open spec fn section_lines(ds: Seq<Seq<char>>, v4: Seq<char>, v6: Seq<char>) -> Seq<
    Seq<char>,
> {
    seq![HOSTS_START@, header_1(), header_2(), header_3()] + all_domain_lines(ds, v4, v6)
        + seq![HOSTS_END@]
}

/// The rendered section.
pub open spec fn render_spec(ds: Seq<Seq<char>>, v4: Seq<char>, v6: Seq<char>, nl: Seq<char>) -> Seq<
    char,
> {
    join(section_lines(ds, v4, v6), nl)
}

/// The newline style of a file: CRLF if it has any, else LF if it has any,
/// else (empty or one line) the Windows-native CRLF.
pub open spec fn newline_spec(c: Seq<char>) -> Seq<char> {
    if contains_seq(c, seq!['\r', '\n']) {
        seq!['\r', '\n']
    } else if c.contains('\n') {
        seq!['\n']
    } else {
        seq!['\r', '\n']
    }
}

/// The file with the section inserted (or replaced): the old section's
/// range is replaced by the rendered section and a newline; a file with no
/// section gets a line break if its last line is unterminated, a blank
/// separator line if it is not empty, then the section and a newline.
pub open spec fn upsert_spec(c: Seq<char>, rendered: Seq<char>, nl: Seq<char>) -> Seq<char> {
    if section_present(c) {
        c.take(section_bounds(c).0) + rendered + nl + c.skip(section_bounds(c).1)
    } else {
        separated(c, nl) + rendered + nl
    }
}

/// A file without a section, made ready to have one appended: its last line
/// terminated, then a blank separator line unless the file is empty.
pub open spec fn separated(c: Seq<char>, nl: Seq<char>) -> Seq<char> {
    let a = if c.len() > 0 && c.last() != '\n' {
        c + nl
    } else {
        c
    };
    if a.len() > 0 {
        a + nl
    } else {
        a
    }
}

/// The file with the section (and only the section) removed.
pub open spec fn remove_spec(c: Seq<char>) -> Seq<char> {
    if section_present(c) {
        c.take(section_bounds(c).0) + c.skip(section_bounds(c).1)
    } else {
        c
    }
}

// ---------------------------------------------------------------------------
// Scanning
// ---------------------------------------------------------------------------

proof fn lemma_markers_differ()
    ensures
        HOSTS_START@ != HOSTS_END@,
{
    reveal_strlit("# >>> SANCTUM START");
    reveal_strlit("# <<< SANCTUM END");
    assert(HOSTS_START@[2] != HOSTS_END@[2]);
}

/// The outcome of scanning a file for the section.
struct Scan {
    starts: usize,
    ends: usize,
    /// Character range of the section, when `starts == ends == 1` and it is well-formed.
    range: Option<(usize, usize)>,
}

fn scan_section(v: &Vec<char>) -> (r: Scan)
    ensures
        r.starts == marker_count(v@, HOSTS_START@),
        r.ends == marker_count(v@, HOSTS_END@),
        section_present(v@) <==> r.range is Some,
        r.range matches Some((s, e)) ==> s == section_bounds(v@).0 && e == section_bounds(v@).1
            && s < e <= v@.len(),
{
    let ghost c = v@;
    let ghost ls = file_lines(c);
    let start_m = chars_of(HOSTS_START);
    let end_m = chars_of(HOSTS_END);
    proof {
        lemma_markers_differ();
        lemma_split_by_nonempty(c, one_of(seq!['\n']));
    }
    let pieces = split_on_char(v, '\n');
    let n = pieces.len();
    let mut starts: usize = 0;
    let mut ends: usize = 0;
    let mut sidx: usize = 0;
    let mut eidx: usize = 0;
    let mut soff: usize = 0;
    let mut eend: usize = 0;
    let mut off: usize = 0;
    let mut i: usize = 0;
    while i < n
        invariant
            n == pieces.len(),
            n == ls.len(),
            n >= 1,
            views(pieces@) == ls,
            ls == file_lines(c),
            c == v@,
            start_m@ == HOSTS_START@,
            end_m@ == HOSTS_END@,
            HOSTS_START@ != HOSTS_END@,
            i <= n,
            i < n ==> off == piece_start(ls, i as int),
            starts == count_upto(ls, HOSTS_START@, i as int),
            ends == count_upto(ls, HOSTS_END@, i as int),
            starts <= i,
            ends <= i,
            starts >= 1 ==> sidx < i && is_marker_line(ls[sidx as int], HOSTS_START@) && soff
                == piece_start(ls, sidx as int),
            starts == 0 ==> forall|k: int|
                0 <= k < i ==> !is_marker_line(#[trigger] ls[k], HOSTS_START@),
            ends == 0 ==> forall|k: int|
                0 <= k < i ==> !is_marker_line(#[trigger] ls[k], HOSTS_END@),
            starts == 1 ==> forall|k: int|
                0 <= k < i && is_marker_line(#[trigger] ls[k], HOSTS_START@) ==> k == sidx,
            ends >= 1 ==> eidx < i && is_marker_line(ls[eidx as int], HOSTS_END@) && eend
                == line_end(c, eidx as int),
            ends == 1 ==> forall|k: int|
                0 <= k < i && is_marker_line(#[trigger] ls[k], HOSTS_END@) ==> k == eidx,
        decreases n - i,
    {
        proof {
            lemma_piece_start_bounds(c, one_of(seq!['\n']), i as int);
        }
        assert(pieces@[i as int]@ == ls[i as int]);
        let t = trim_vec(&pieces[i]);
        let plen = pieces[i].len();
        assert(off + plen <= v.len());
        proof {
            if i + 1 < n {
                assert(piece_start(ls, i + 1) == piece_start(ls, i as int) + ls[i as int].len() + 1);
            }
        }
        let line_len = if i + 1 < n {
            plen + 1
        } else {
            plen
        };
        if chars_eq(&t, &start_m) {
            if starts == 0 {
                sidx = i;
                soff = off;
            }
            starts += 1;
        } else if chars_eq(&t, &end_m) {
            eidx = i;
            eend = off + line_len;
            ends += 1;
        }
        if i + 1 < n {
            off = off + plen + 1;
        }
        i += 1;
    }
    let ghost st = marker_count(c, HOSTS_START@);
    let ghost en = marker_count(c, HOSTS_END@);
    if starts == 1 && ends == 1 {
        proof {
            let ks = marker_index(c, HOSTS_START@);
            let ke = marker_index(c, HOSTS_END@);
            assert(0 <= sidx < ls.len() && is_marker_line(ls[sidx as int], HOSTS_START@));
            assert(0 <= eidx < ls.len() && is_marker_line(ls[eidx as int], HOSTS_END@));
            assert(ks == sidx);
            assert(ke == eidx);
            lemma_piece_start_bounds(c, one_of(seq!['\n']), eidx as int);
            if eidx + 1 < ls.len() {
                lemma_piece_start_bounds(c, one_of(seq!['\n']), eidx + 1);
            } else {
                crate::text::lemma_split_layout(c, one_of(seq!['\n']));
            }
        }
        if soff < eend {
            return Scan { starts, ends, range: Some((soff, eend)) };
        }
    }
    Scan { starts, ends, range: None }
}

/// Detect the dominant newline style used by `content`.
pub(crate) fn newline_of(content: &str) -> (r: &'static str)
    ensures
        r@ == newline_spec(content@),
{
    let v = chars_of(content);
    let mut crlf: Vec<char> = Vec::new();
    crlf.push('\r');
    crlf.push('\n');
    assert(crlf@ =~= seq!['\r', '\n']);
    proof {
        reveal_strlit("\r\n");
        reveal_strlit("\n");
    }
    if contains_seq_exec(&v, &crlf) {
        "\r\n"
    } else if crate::text::find_char_exec(&v, '\n').is_some() {
        "\n"
    } else {
        "\r\n"
    }
}

/// Whether `line` is the given marker line.
pub(crate) fn is_marker(line: &str, marker: &str) -> (r: bool)
    ensures
        r == is_marker_line(line@, marker@),
{
    let v = chars_of(line);
    let t = trim_vec(&v);
    let m = chars_of(marker);
    chars_eq(&t, &m)
}

fn section_error_exec(starts: usize, ends: usize) -> (r: Error)
    ensures
        r matches Error::Hosts(m) && m@ == (if starts == 1 && ends == 1 {
            "hosts END marker appears before START marker"@
        } else {
            "hosts markers unbalanced: "@ + decimal(starts as nat) + " START / "@ + decimal(
                ends as nat,
            ) + " END (expected 1 each)"@
        }),
{
    let mut out: Vec<char> = Vec::new();
    if starts == 1 && ends == 1 {
        push_str(&mut out, "hosts END marker appears before START marker");
        assert(out@ =~= "hosts END marker appears before START marker"@);
    } else {
        push_str(&mut out, "hosts markers unbalanced: ");
        push_decimal(&mut out, starts as u64);
        push_str(&mut out, " START / ");
        push_decimal(&mut out, ends as u64);
        push_str(&mut out, " END (expected 1 each)");
        assert(out@ =~= "hosts markers unbalanced: "@ + decimal(starts as nat) + " START / "@
            + decimal(ends as nat) + " END (expected 1 each)"@);
    }
    Error::Hosts(string_of(&out))
}

/// Locate the byte range `[start, end)` covering the entire Sanctum
/// section, including both marker lines and the end marker's trailing
/// newline.
///
/// * `Ok(None)`   — no section present (zero markers of either kind).
/// * `Ok(Some(_))`— exactly one well-formed section.
/// * `Err(_)`     — markers are unbalanced (this is the failure the
///   integrity check guards against).
pub fn section_byte_range(content: &str) -> (r: Result<Option<(usize, usize)>, Error>)
    ensures
        section_absent(content@) ==> r == Ok::<Option<(usize, usize)>, Error>(None),
        section_present(content@) ==> r == Ok::<Option<(usize, usize)>, Error>(
            Some(
                (
                    blen(content@.take(section_bounds(content@).0)) as usize,
                    blen(content@.take(section_bounds(content@).1)) as usize,
                ),
            ),
        ),
        !section_ok(content@) ==> (r matches Err(Error::Hosts(m)) && m@ == section_error(content@)),
{
    let v = chars_of(content);
    let scan = scan_section(&v);
    match scan.range {
        Some((s, e)) => {
            let before_start = string_of(&slice_chars(&v, 0, s));
            let before_end = string_of(&slice_chars(&v, 0, e));
            assert(v@.subrange(0, s as int) =~= v@.take(s as int));
            assert(v@.subrange(0, e as int) =~= v@.take(e as int));
            Ok(Some((before_start.as_str().len(), before_end.as_str().len())))
        },
        None => {
            if scan.starts == 0 && scan.ends == 0 {
                Ok(None)
            } else {
                Err(section_error_exec(scan.starts, scan.ends))
            }
        },
    }
}

/// True if the section markers are balanced (0 or exactly 1 well-formed
/// section). Used by the integrity check.
pub fn markers_balanced(content: &str) -> (r: bool)
    ensures
        r == section_ok(content@),
{
    section_byte_range(content).is_ok()
}

// ---------------------------------------------------------------------------
// Rendering and editing
// ---------------------------------------------------------------------------

fn sink_line(sink: &str, www: bool, d: &String) -> (r: Vec<char>)
    ensures
        r@ == sink@ + (if www {
            seq![' ', 'w', 'w', 'w', '.']
        } else {
            seq![' ']
        }) + d@,
{
    let mut out: Vec<char> = Vec::new();
    push_str(&mut out, sink);
    out.push(' ');
    if www {
        out.push('w');
        out.push('w');
        out.push('w');
        out.push('.');
    }
    push_str(&mut out, d.as_str());
    proof {
        if www {
            assert(out@ =~= sink@ + seq![' ', 'w', 'w', 'w', '.'] + d@);
        } else {
            assert(out@ =~= sink@ + seq![' '] + d@);
        }
    }
    out
}

fn push_line(lines: &mut Vec<Vec<char>>, line: Vec<char>)
    ensures
        views(final(lines)@) == views(old(lines)@).push(line@),
{
    let ghost prev = lines@;
    lines.push(line);
    assert(views(lines@) =~= views(prev).push(line@));
}

/// Render the full Sanctum section (both markers included) for the given
/// sinkhole domains, using `newline` between lines. No trailing newline.
pub fn render_section(domains: &[String], sink_v4: &str, sink_v6: &str, newline: &str) -> (r:
    String)
    ensures
        r@ == render_spec(domains@.map_values(|d: String| d@), sink_v4@, sink_v6@, newline@),
{
    let ghost ds = domains@.map_values(|d: String| d@);
    let mut lines: Vec<Vec<char>> = Vec::new();
    push_line(&mut lines, chars_of(HOSTS_START));
    push_line(&mut lines, chars_of("# Managed by Sanctum \u{2014} do not edit between these markers."));
    push_line(&mut lines, chars_of("# Editing here does nothing while protection is active;"));
    push_line(&mut lines, chars_of("# the Sanctum service rewrites this section."));
    assert(views(lines@) =~= seq![HOSTS_START@, header_1(), header_2(), header_3()]);
    let mut i: usize = 0;
    while i < domains.len()
        invariant
            i <= domains.len(),
            ds == domains@.map_values(|d: String| d@),
            views(lines@) == seq![HOSTS_START@, header_1(), header_2(), header_3()]
                + all_domain_lines(ds.take(i as int), sink_v4@, sink_v6@),
        decreases domains.len() - i,
    {
        let d = &domains[i];
        push_line(&mut lines, sink_line(sink_v4, false, d));
        push_line(&mut lines, sink_line(sink_v6, false, d));
        push_line(&mut lines, sink_line(sink_v4, true, d));
        push_line(&mut lines, sink_line(sink_v6, true, d));
        proof {
            assert(ds.take(i + 1).drop_last() =~= ds.take(i as int));
            assert(ds.take(i + 1).last() == d@);
            assert(views(lines@) =~= seq![HOSTS_START@, header_1(), header_2(), header_3()]
                + all_domain_lines(ds.take(i + 1), sink_v4@, sink_v6@));
        }
        i += 1;
    }
    push_line(&mut lines, chars_of(HOSTS_END));
    assert(ds.take(domains.len() as int) =~= ds);
    assert(views(lines@) =~= section_lines(ds, sink_v4@, sink_v6@));
    let sep = chars_of(newline);
    let joined = join_lines(&lines, &sep);
    string_of(&joined)
}

/// `join` on vectors.
fn join_lines(lines: &Vec<Vec<char>>, sep: &Vec<char>) -> (r: Vec<char>)
    ensures
        r@ == join(views(lines@), sep@),
{
    let mut out: Vec<char> = Vec::new();
    let mut i: usize = 0;
    while i < lines.len()
        invariant
            i <= lines.len(),
            out@ == join(views(lines@).take(i as int), sep@),
        decreases lines.len() - i,
    {
        let ghost prev = views(lines@).take(i as int);
        let ghost next = views(lines@).take(i + 1);
        assert(next.drop_last() =~= prev);
        assert(next.last() == lines@[i as int]@);
        if i > 0 {
            push_all(&mut out, sep);
        }
        push_all(&mut out, &lines[i]);
        proof {
            if i == 0 {
                assert(out@ =~= next[0]);
            }
        }
        i += 1;
    }
    assert(views(lines@).take(lines.len() as int) =~= views(lines@));
    out
}

/// Insert or replace the Sanctum section in `content`, leaving all other
/// characters untouched. Returns the new file body.
pub fn upsert_section(content: &str, domains: &[String], sink_v4: &str, sink_v6: &str) -> (r:
    Result<String, Error>)
    ensures
        section_ok(content@) ==> (r matches Ok(s) && s@ == upsert_spec(
            content@,
            render_spec(
                domains@.map_values(|d: String| d@),
                sink_v4@,
                sink_v6@,
                newline_spec(content@),
            ),
            newline_spec(content@),
        )),
        !section_ok(content@) ==> (r matches Err(Error::Hosts(m)) && m@ == section_error(content@)),
{
    let nl = newline_of(content);
    let rendered = render_section(domains, sink_v4, sink_v6, nl);
    let v = chars_of(content);
    let scan = scan_section(&v);
    match scan.range {
        Some((s, e)) => {
            let mut out = slice_chars(&v, 0, s);
            push_str(&mut out, rendered.as_str());
            push_str(&mut out, nl);
            let tail = slice_chars(&v, e, v.len());
            push_all(&mut out, &tail);
            assert(out@ =~= v@.take(s as int) + rendered@ + nl@ + v@.skip(e as int));
            Ok(string_of(&out))
        },
        None => {
            if !(scan.starts == 0 && scan.ends == 0) {
                return Err(section_error_exec(scan.starts, scan.ends));
            }
            let mut out = v;
            if out.len() > 0 && out[out.len() - 1] != '\n' {
                push_str(&mut out, nl);
            }
            if out.len() > 0 {
                push_str(&mut out, nl);
            }
            push_str(&mut out, rendered.as_str());
            push_str(&mut out, nl);
            Ok(string_of(&out))
        },
    }
}

/// Remove the Sanctum section entirely (used on uninstall / disable).
/// Characters outside the section are preserved exactly.
pub fn remove_section(content: &str) -> (r: Result<String, Error>)
    ensures
        section_ok(content@) ==> (r matches Ok(s) && s@ == remove_spec(content@)),
        !section_ok(content@) ==> (r matches Err(Error::Hosts(m)) && m@ == section_error(content@)),
{
    let v = chars_of(content);
    let scan = scan_section(&v);
    match scan.range {
        Some((s, e)) => {
            let mut out = slice_chars(&v, 0, s);
            let tail = slice_chars(&v, e, v.len());
            push_all(&mut out, &tail);
            assert(out@ =~= v@.take(s as int) + v@.skip(e as int));
            Ok(string_of(&out))
        },
        None => {
            if !(scan.starts == 0 && scan.ends == 0) {
                return Err(section_error_exec(scan.starts, scan.ends));
            }
            Ok(string_of(&v))
        },
    }
}

} // verus!
