//! COBOL preprocessing: source format detection, normalisation to one
//! line-for-line intermediate form, and `COPY` expansion.
//!
//! Fixed format keeps columns 8 to 72 and blanks comment lines (`*` or
//! `/` in column 7); free format drops `*>` comments. Columns are byte
//! positions, as in the card images the format comes from.

use vstd::prelude::*;

use crate::pattern::{
    all_captures, cap_view, caps_view, find_all, find_first, first_capture, flat_map, get_group,
    group, group_or_empty, group_or_empty_exec, lemma_flat_map_congruent, lemma_flat_map_step,
    lemma_take_full, opt_cap_view, CapView,
    Captures,
};
use crate::text::{
    ascii_upper, ascii_upper_exec, before_first, before_first_str, byte_range, byte_slice,
    chars_eq, count_char, ends_with, lemma_byte_range_no_newline, lemma_count_char_absent,
    lemma_count_char_concat, lemma_find_from_bounds, lemma_lines_no_newline, is_ascii_text,
    lemma_lines_ascii, lemma_ascii_sliceable, from_chars, is_ascii_digit_spec, is_whitespace, is_ws, lines, lines_exec,
    push_all, push_str_chars, replace_all, replace_all_exec, sliceable, starts_with, to_chars,
    trim, trim_exec, utf8, views,
};

verus! {

/// The two source layouts.
#[derive(Debug, Clone, Copy, PartialEq, Eq, Structural)]
pub enum CobolFormat {
    Fixed,
    Free,
}

// ── format detection ────────────────────────────────────────────────

/// Column 7 holds a fixed-format indicator (`*`, `D`, `-` or blank).
pub open spec fn is_indicator(b: u8) -> bool {
    b == 42u8 || b == 68u8 || b == 45u8 || b == 32u8
}

/// Columns 1 to 6 are a sequence number: digits or whitespace.
pub open spec fn is_sequence_area(s: Seq<char>) -> bool {
    forall|i: int| 0 <= i < s.len() ==> is_ascii_digit_spec(#[trigger] s[i]) || is_ws(s[i])
}

/// The line counts towards detection (it is not blank and does not
/// start with a tab).
pub open spec fn counted_line(line: Seq<char>) -> bool {
    !starts_with(line, seq!['\t']) && trim(line).len() > 0
}

/// A counted line that looks like fixed format.
pub open spec fn fixed_signal(line: Seq<char>) -> bool {
    let b = utf8(line);
    b.len() >= 7 && is_indicator(b[6]) && is_sequence_area(byte_range(line, 0, 6))
}

/// `(fixed-looking lines, counted lines)` among the first `n` lines.
pub open spec fn format_counts(ls: Seq<Seq<char>>, n: int) -> (int, int)
    decreases n,
{
    if n <= 0 {
        (0, 0)
    } else {
        let (f, t) = format_counts(ls, n - 1);
        let l = ls[n - 1];
        if counted_line(l) {
            (
                if fixed_signal(l) {
                    f + 1
                } else {
                    f
                },
                t + 1,
            )
        } else {
            (f, t)
        }
    }
}

/// Fixed when more than 60% of the counted lines among the first 200
/// look fixed.
pub open spec fn detect_format_spec(source: Seq<char>) -> CobolFormat {
    let ls = lines(source);
    let n = if ls.len() < 200 {
        ls.len() as int
    } else {
        200
    };
    let (f, t) = format_counts(ls, n);
    if t > 0 && 5 * f > 3 * t {
        CobolFormat::Fixed
    } else {
        CobolFormat::Free
    }
}

proof fn lemma_ascii_boundary(line: Seq<char>, i: int)
    requires
        0 <= i < utf8(line).len(),
        utf8(line)[i] < 128,
    ensures
        vstd::utf8::is_char_boundary(utf8(line), i),
{
    broadcast use vstd::utf8::encode_utf8_valid_utf8;

    vstd::utf8::is_char_boundary_iff_not_is_continuation_byte(utf8(line), i);
}

fn sequence_area_exec(s: &str) -> (b: bool)
    ensures
        b == is_sequence_area(s@),
{
    let c = to_chars(s);
    let mut i: usize = 0;
    while i < c.len()
        invariant
            i <= c@.len(),
            c@ == s@,
            forall|k: int| 0 <= k < i ==> is_ascii_digit_spec(#[trigger] c@[k]) || is_ws(c@[k]),
        decreases c@.len() - i,
    {
        if !(('0' <= c[i] && c[i] <= '9') || is_whitespace(c[i])) {
            return false;
        }
        i += 1;
    }
    true
}

fn line_signals(line: &str) -> (r: (bool, bool))
    ensures
        r.0 == counted_line(line@),
        r.1 == (counted_line(line@) && fixed_signal(line@)),
{
    let c = to_chars(line);
    proof {
        crate::text::lemma_starts_with_char(line@, '\t');
    }
    let t = trim_exec(c.as_slice());
    if (c.len() > 0 && c[0] == '\t') || t.len() == 0 {
        return (false, false);
    }
    let bytes = line.as_bytes();
    if bytes.len() >= 7 {
        let b6 = bytes[6];
        if b6 == 42u8 || b6 == 68u8 || b6 == 45u8 || b6 == 32u8 {
            proof {
                lemma_ascii_boundary(line@, 6);
                broadcast use vstd::utf8::encode_utf8_valid_utf8;
                vstd::utf8::is_char_boundary_start_end_of_seq(utf8(line@));
            }
            let prefix = byte_slice(line, 0, 6);
            return (true, sequence_area_exec(prefix));
        }
    }
    (true, false)
}

/// Whether `source` is fixed- or free-format COBOL.
pub fn detect_format(source: &str) -> (r: CobolFormat)
    ensures
        r == detect_format_spec(source@),
{
    let c = to_chars(source);
    let ls = lines_exec(c.as_slice());
    let ghost lv = lines(source@);
    let n: usize = if ls.len() < 200 {
        ls.len()
    } else {
        200
    };
    let mut fixed: u32 = 0;
    let mut total: u32 = 0;
    let mut i: usize = 0;
    while i < n
        invariant
            i <= n,
            n <= ls@.len(),
            n <= 200,
            views(ls@) == lv,
            (fixed as int, total as int) == format_counts(lv, i as int),
            fixed <= total,
            total <= i,
        decreases n - i,
    {
        let line = from_chars(ls[i].as_slice());
        assert(line@ == lv[i as int]);
        let (counted, signal) = line_signals(line.as_str());
        if counted {
            total += 1;
            if signal {
                fixed += 1;
            }
        }
        i += 1;
    }
    if total > 0 && 5 * fixed > 3 * total {
        CobolFormat::Fixed
    } else {
        CobolFormat::Free
    }
}

// ── normalisation ───────────────────────────────────────────────────

/// A fixed-format line without its sequence and indicator columns and
/// its identification area: bytes 7 to 72, blank for comment lines,
/// the line itself when shorter than seven bytes.
pub open spec fn fixed_line(line: Seq<char>) -> Seq<char> {
    let b = utf8(line);
    if b.len() < 7 {
        line
    } else if b[6] == 42u8 || b[6] == 47u8 {
        Seq::empty()
    } else if b.len() > 7 {
        byte_range(line, 7, if b.len() < 72 { b.len() as int } else { 72 })
    } else {
        Seq::empty()
    }
}

/// The cut of [`fixed_line`] falls on character boundaries.
pub open spec fn fixed_line_ok(line: Seq<char>) -> bool {
    let b = utf8(line);
    b.len() < 7 || b[6] == 42u8 || b[6] == 47u8 || b.len() <= 7 || sliceable(
        line,
        7,
        if b.len() < 72 {
            b.len() as int
        } else {
            72
        },
    )
}

pub open spec fn fixed_lines_ok(source: Seq<char>) -> bool {
    forall|k: int| 0 <= k < lines(source).len() ==> fixed_line_ok(#[trigger] lines(source)[k])
}

pub open spec fn normalize_fixed_spec(source: Seq<char>) -> Seq<char> {
    flat_map(lines(source), |l: Seq<char>| fixed_line(l) + seq!['\n'])
}

pub open spec fn normalize_free_spec(source: Seq<char>) -> Seq<char> {
    flat_map(lines(source), |l: Seq<char>| before_first(l, "*>"@) + seq!['\n'])
}

pub open spec fn normalize_spec(source: Seq<char>) -> Seq<char> {
    match detect_format_spec(source) {
        CobolFormat::Fixed => normalize_fixed_spec(source),
        CobolFormat::Free => normalize_free_spec(source),
    }
}

/// One normalised line in the given layout.
pub open spec fn normalized_line(fmt: CobolFormat, l: Seq<char>) -> Seq<char> {
    match fmt {
        CobolFormat::Fixed => fixed_line(l),
        CobolFormat::Free => before_first(l, "*>"@),
    }
}

proof fn lemma_normalized_line_no_newline(fmt: CobolFormat, l: Seq<char>)
    requires
        !l.contains('\n'),
        fmt == CobolFormat::Fixed ==> fixed_line_ok(l),
    ensures
        !normalized_line(fmt, l).contains('\n'),
{
    let r = normalized_line(fmt, l);
    match fmt {
        CobolFormat::Fixed => {
            let b = utf8(l);
            if b.len() >= 7 && !(b[6] == 42u8 || b[6] == 47u8) && b.len() > 7 {
                lemma_byte_range_no_newline(l, 7, if b.len() < 72 { b.len() as int } else { 72 });
            }
        },
        CobolFormat::Free => {
            lemma_find_from_bounds(l, "*>"@, 0);
            assert(!r.contains('\n')) by {
                if r.contains('\n') {
                    let q = choose|q: int| 0 <= q < r.len() && r[q] == '\n';
                    assert(r[q] == l[q]);
                }
            }
        },
    }
}

proof fn lemma_lines_counted(ls: Seq<Seq<char>>, f: spec_fn(Seq<char>) -> Seq<char>)
    requires
        forall|i: int|
            0 <= i < ls.len() ==> count_char(#[trigger] f(ls[i]), '\n') == 1 && f(ls[i]).len() > 0
                && f(ls[i]).last() == '\n',
    ensures
        count_char(flat_map(ls, f), '\n') == ls.len(),
        flat_map(ls, f).len() > 0 ==> flat_map(ls, f).last() == '\n',
    decreases ls.len(),
{
    if ls.len() > 0 {
        let r = ls.drop_last();
        assert forall|i: int| 0 <= i < r.len() implies count_char(#[trigger] f(r[i]), '\n') == 1
            && f(r[i]).len() > 0 && f(r[i]).last() == '\n' by {
            assert(r[i] == ls[i]);
        }
        lemma_lines_counted(r, f);
        let x = f(ls[ls.len() - 1]);
        assert(ls.last() == ls[ls.len() - 1]);
        lemma_count_char_concat(flat_map(r, f), x, '\n');
        let all = flat_map(ls, f);
        assert(all == flat_map(r, f) + x);
        assert(all[all.len() - 1] == x[x.len() - 1]);
    }
}

/// Normalisation works line for line: each source line gives exactly
/// one output line, computed from that line alone (so line numbers in
/// the output are those of the source), and every output line ends
/// with a newline.
pub proof fn law_normalize_line_for_line(source: Seq<char>)
    requires
        detect_format_spec(source) == CobolFormat::Fixed ==> fixed_lines_ok(source),
    ensures
        normalize_spec(source) == flat_map(
            lines(source),
            |l: Seq<char>| normalized_line(detect_format_spec(source), l) + seq!['\n'],
        ),
        forall|k: int|
            0 <= k < lines(source).len() ==> !normalized_line(
                detect_format_spec(source),
                #[trigger] lines(source)[k],
            ).contains('\n'),
        count_char(normalize_spec(source), '\n') == lines(source).len(),
        normalize_spec(source).len() > 0 ==> normalize_spec(source).last() == '\n',
{
    let fmt = detect_format_spec(source);
    let ls = lines(source);
    let g = |l: Seq<char>| normalized_line(fmt, l) + seq!['\n'];
    match fmt {
        CobolFormat::Fixed => {
            lemma_flat_map_congruent(ls, |l: Seq<char>| fixed_line(l) + seq!['\n'], g);
        },
        CobolFormat::Free => {
            lemma_flat_map_congruent(ls, |l: Seq<char>| before_first(l, "*>"@) + seq!['\n'], g);
        },
    }
    lemma_lines_no_newline(source);
    assert forall|k: int| 0 <= k < ls.len() implies !normalized_line(fmt, #[trigger] ls[k]).contains('\n') by {
        assert(!ls[k].contains('\n'));
        lemma_normalized_line_no_newline(fmt, ls[k]);
    }
    assert forall|i: int| 0 <= i < ls.len() implies count_char(#[trigger] g(ls[i]), '\n') == 1
        && g(ls[i]).len() > 0 && g(ls[i]).last() == '\n' by {
        let x = normalized_line(fmt, ls[i]);
        lemma_count_char_absent(x, '\n');
        lemma_count_char_concat(x, seq!['\n'], '\n');
        let nl = seq!['\n'];
        assert(nl.drop_last() =~= Seq::<char>::empty());
        assert(nl.last() == '\n');
        assert(count_char(nl.drop_last(), '\n') == 0);
        assert(count_char(nl, '\n') == 1);
        assert(g(ls[i]) == x + nl);
        assert((x + nl).last() == '\n');
    }
    lemma_lines_counted(ls, g);
}

/// A fixed-format line: a sequence area of six digits or blanks (each
/// on its own), then an indicator (blank, `*`, `D` or `-`).
pub open spec fn fixed_layout_line(l: Seq<char>) -> bool {
    &&& l.len() >= 7
    &&& forall|i: int| 0 <= i < 6 ==> (#[trigger] l[i]) == ' ' || ('0' <= l[i] && l[i] <= '9')
    &&& (l[6] == ' ' || l[6] == '*' || l[6] == 'D' || l[6] == '-')
}

/// A line laid out in fixed format signals fixed format, whether its
/// sequence area holds digits or is left blank.
pub proof fn law_fixed_layout_signals(l: Seq<char>)
    requires
        fixed_layout_line(l),
    ensures
        fixed_signal(l),
{
    let p7 = l.take(7);
    let p6 = l.take(6);
    assert forall|i: int| 0 <= i < p7.len() implies ((#[trigger] p7[i]) as u32) < 128 by {
        assert(p7[i] == l[i]);
    }
    assert forall|i: int| 0 <= i < p6.len() implies ((#[trigger] p6[i]) as u32) < 128 by {
        assert(p6[i] == l[i]);
    }
    crate::text::lemma_utf8_ascii_bytes(p7);
    crate::text::lemma_utf8_ascii_bytes(p6);
    crate::text::lemma_utf8_concat(p7, l.skip(7));
    assert(p7 + l.skip(7) =~= l);
    let b = utf8(l);
    assert(b[6] == utf8(p7)[6]);
    assert(utf8(p7)[6] as u32 == l[6] as u32);
    assert(is_indicator(b[6]));
    assert(b.subrange(0, 6) =~= utf8(p6)) by {
        assert forall|i: int| 0 <= i < 6 implies b.subrange(0, 6)[i] == utf8(p6)[i] by {
            assert(b[i] == utf8(p7)[i]);
            assert(utf8(p7)[i] as u32 == l[i] as u32);
            assert(utf8(p6)[i] as u32 == l[i] as u32);
        }
    }
    vstd::utf8::encode_utf8_decode_utf8(p6);
    assert(byte_range(l, 0, 6) == p6);
    assert forall|i: int| 0 <= i < p6.len() implies is_ascii_digit_spec(#[trigger] p6[i]) || is_ws(p6[i]) by {
        assert(p6[i] == l[i]);
    }
}

proof fn lemma_counts_all_fixed(ls: Seq<Seq<char>>, n: int)
    requires
        0 <= n <= ls.len(),
        forall|k: int| 0 <= k < ls.len() ==> fixed_layout_line(#[trigger] ls[k]) && trim(ls[k]).len() > 0,
    ensures
        format_counts(ls, n) == (n, n),
    decreases n,
{
    if n > 0 {
        lemma_counts_all_fixed(ls, n - 1);
        let l = ls[n - 1];
        law_fixed_layout_signals(l);
        crate::text::lemma_starts_with_char(l, '\t');
        assert(l[0] != '\t');
        assert(counted_line(l));
    }
}

/// A source whose every line is laid out in fixed format (and holds
/// some text) is detected as fixed format, blank sequence areas
/// included.
pub proof fn law_fixed_layout_source(source: Seq<char>)
    requires
        lines(source).len() > 0,
        forall|k: int|
            0 <= k < lines(source).len() ==> fixed_layout_line(#[trigger] lines(source)[k]) && trim(
                lines(source)[k],
            ).len() > 0,
    ensures
        detect_format_spec(source) == CobolFormat::Fixed,
{
    let ls = lines(source);
    let n = if ls.len() < 200 { ls.len() as int } else { 200 };
    lemma_counts_all_fixed(ls, n);
}

proof fn lemma_counts_no_fixed(ls: Seq<Seq<char>>, n: int)
    requires
        0 <= n <= ls.len(),
        forall|k: int| 0 <= k < ls.len() ==> !fixed_signal(#[trigger] ls[k]),
    ensures
        format_counts(ls, n).0 == 0,
    decreases n,
{
    if n > 0 {
        lemma_counts_no_fixed(ls, n - 1);
        assert(!fixed_signal(ls[n - 1]));
    }
}

/// An ASCII source none of whose lines carries an indicator (blank, `*`,
/// `D` or `-`) in column 7 is free format.
pub proof fn law_free_without_indicators(source: Seq<char>)
    requires
        is_ascii_text(source),
        forall|k: int|
            0 <= k < lines(source).len() ==> (#[trigger] lines(source)[k]).len() < 7 || !(
            lines(source)[k][6] == ' ' || lines(source)[k][6] == '*' || lines(source)[k][6] == 'D'
                || lines(source)[k][6] == '-'),
    ensures
        detect_format_spec(source) == CobolFormat::Free,
{
    let ls = lines(source);
    lemma_lines_ascii(source);
    assert forall|k: int| 0 <= k < ls.len() implies !fixed_signal(#[trigger] ls[k]) by {
        let l = ls[k];
        crate::text::lemma_utf8_ascii_bytes(l);
        if l.len() >= 7 {
            let v = utf8(l)[6] as u32;
            assert(v == l[6] as u32);
            vstd::utf8::char_u32_cast(l[6], v);
            vstd::utf8::char_u32_cast(' ', 32u32);
            vstd::utf8::char_u32_cast('*', 42u32);
            vstd::utf8::char_u32_cast('D', 68u32);
            vstd::utf8::char_u32_cast('-', 45u32);
            assert(!is_indicator(utf8(l)[6]));
        }
    }
    let n = if ls.len() < 200 { ls.len() as int } else { 200 };
    lemma_counts_no_fixed(ls, n);
}

/// An ASCII source meets [`normalize`]'s precondition, so the
/// line-for-line law holds of every ASCII source: one output line per
/// source line, computed from that line alone, each ended by a newline.
pub proof fn law_normalize_ascii(source: Seq<char>)
    requires
        is_ascii_text(source),
    ensures
        detect_format_spec(source) == CobolFormat::Fixed ==> fixed_lines_ok(source),
        normalize_spec(source) == flat_map(
            lines(source),
            |l: Seq<char>| normalized_line(detect_format_spec(source), l) + seq!['\n'],
        ),
        count_char(normalize_spec(source), '\n') == lines(source).len(),
        normalize_spec(source).len() > 0 ==> normalize_spec(source).last() == '\n',
{
    let ls = lines(source);
    lemma_lines_ascii(source);
    assert forall|k: int| 0 <= k < ls.len() implies fixed_line_ok(#[trigger] ls[k]) by {
        let l = ls[k];
        assert(is_ascii_text(l));
        lemma_ascii_sliceable(l, 0, 0);
        let n = utf8(l).len() as int;
        if n > 7 {
            lemma_ascii_sliceable(l, 7, if n < 72 { n } else { 72 });
        }
    }
    law_normalize_line_for_line(source);
}

fn fixed_line_ok_exec(line: &str) -> (b: bool)
    ensures
        b == fixed_line_ok(line@),
{
    let bytes = line.as_bytes();
    let n = bytes.len();
    if n < 7 || bytes[6] == 42u8 || bytes[6] == 47u8 || n <= 7 {
        return true;
    }
    let end = if n < 72 {
        n
    } else {
        72
    };
    crate::text::is_char_boundary_at(line, 7) && crate::text::is_char_boundary_at(line, end)
}

/// Whether every line can be cut as [`normalize_fixed`] cuts it.
pub fn fixed_lines_sliceable(source: &str) -> (b: bool)
    ensures
        b == fixed_lines_ok(source@),
{
    let c = to_chars(source);
    let ls = lines_exec(c.as_slice());
    let ghost lv = lines(source@);
    let mut i: usize = 0;
    while i < ls.len()
        invariant
            i <= ls@.len(),
            views(ls@) == lv,
            lv == lines(source@),
            forall|k: int| 0 <= k < i ==> fixed_line_ok(#[trigger] lv[k]),
        decreases ls@.len() - i,
    {
        let line = from_chars(ls[i].as_slice());
        assert(line@ == lv[i as int]);
        if !fixed_line_ok_exec(line.as_str()) {
            assert(!fixed_line_ok(lines(source@)[i as int]));
            return false;
        }
        i += 1;
    }
    true
}

fn fixed_line_exec(line: &str) -> (r: Vec<char>)
    requires
        fixed_line_ok(line@),
    ensures
        r@ == fixed_line(line@),
{
    let bytes = line.as_bytes();
    let n = bytes.len();
    if n < 7 {
        return to_chars(line);
    }
    if bytes[6] == 42u8 || bytes[6] == 47u8 {
        return Vec::new();
    }
    if n > 7 {
        let end = if n < 72 {
            n
        } else {
            72
        };
        to_chars(byte_slice(line, 7, end))
    } else {
        Vec::new()
    }
}

/// Normalise fixed-format source: per line, columns 8 to 72 (by byte),
/// a blank line for comments.
pub fn normalize_fixed(source: &str) -> (r: String)
    requires
        fixed_lines_ok(source@),
    ensures
        r@ == normalize_fixed_spec(source@),
{
    let c = to_chars(source);
    let ls = lines_exec(c.as_slice());
    let ghost lv = lines(source@);
    let ghost f = |l: Seq<char>| fixed_line(l) + seq!['\n'];
    let mut out: Vec<char> = Vec::new();
    let mut i: usize = 0;
    while i < ls.len()
        invariant
            i <= ls@.len(),
            views(ls@) == lv,
            fixed_lines_ok(source@),
            lv == lines(source@),
            f == (|l: Seq<char>| fixed_line(l) + seq!['\n']),
            out@ == flat_map(lv.take(i as int), f),
        decreases ls@.len() - i,
    {
        proof {
            lemma_flat_map_step(lv, i as int, f);
        }
        let line = from_chars(ls[i].as_slice());
        assert(line@ == lv[i as int]);
        assert(fixed_line_ok(lv[i as int]));
        let t = fixed_line_exec(line.as_str());
        push_all(&mut out, t.as_slice());
        out.push('\n');
        i += 1;
    }
    proof {
        lemma_take_full(lv);
    }
    from_chars(out.as_slice())
}

/// Normalise free-format source: per line, the text before `*>`.
pub fn normalize_free(source: &str) -> (r: String)
    ensures
        r@ == normalize_free_spec(source@),
{
    let c = to_chars(source);
    let ls = lines_exec(c.as_slice());
    let ghost lv = lines(source@);
    let ghost f = |l: Seq<char>| before_first(l, "*>"@) + seq!['\n'];
    let mut out: Vec<char> = Vec::new();
    let mut i: usize = 0;
    while i < ls.len()
        invariant
            i <= ls@.len(),
            views(ls@) == lv,
            f == (|l: Seq<char>| before_first(l, "*>"@) + seq!['\n']),
            out@ == flat_map(lv.take(i as int), f),
        decreases ls@.len() - i,
    {
        proof {
            lemma_flat_map_step(lv, i as int, f);
        }
        assert(lv[i as int] == ls@[i as int]@);
        let t = before_first_str(ls[i].as_slice(), "*>");
        push_all(&mut out, t.as_slice());
        out.push('\n');
        i += 1;
    }
    proof {
        lemma_take_full(lv);
    }
    from_chars(out.as_slice())
}

/// Collapse a source into the intermediate form of its detected format.
pub fn normalize(source: &str) -> (r: String)
    requires
        detect_format_spec(source@) == CobolFormat::Fixed ==> fixed_lines_ok(source@),
    ensures
        r@ == normalize_spec(source@),
{
    match detect_format(source) {
        CobolFormat::Fixed => normalize_fixed(source),
        CobolFormat::Free => normalize_free(source),
    }
}

// ── COPY expansion ──────────────────────────────────────────────────

/// `COPY name`, case-insensitive.
pub const COPY_PATTERN: &'static str = r#"(?i)\bCOPY\s+([A-Za-z0-9_-]+)"#;

/// `==from== BY ==to==` pseudo-text replacement.
pub const REPLACING_PATTERN: &'static str = r#"==\s*([^=]+?)\s*==\s+BY\s+==\s*([^=]+?)\s*=="#;

/// The copybook registered under `key` ignoring ASCII case; among
/// names that agree up to case the one listed last wins.
pub open spec fn copybook(catalogue: Seq<(String, String)>, key: Seq<char>, n: int) -> Option<Seq<char>>
    decreases n,
{
    if n <= 0 {
        None
    } else if ascii_upper(catalogue[n - 1].0@) == key {
        Some(catalogue[n - 1].1@)
    } else {
        copybook(catalogue, key, n - 1)
    }
}

/// The replacements of the first `n` `REPLACING` clauses applied in
/// order; a clause whose `from` is empty changes nothing.
pub open spec fn replaced(body: Seq<char>, caps: Seq<CapView>, n: int) -> Seq<char>
    decreases n,
{
    if n <= 0 {
        body
    } else {
        let prev = replaced(body, caps, n - 1);
        let from = trim(group_or_empty(caps[n - 1], 1));
        let to = trim(group_or_empty(caps[n - 1], 2));
        if from.len() > 0 {
            replace_all(prev, from, to)
        } else {
            prev
        }
    }
}

pub open spec fn apply_replacing_spec(body: Seq<char>, copy_line: Seq<char>) -> Seq<char> {
    let caps = all_captures(REPLACING_PATTERN@, copy_line);
    replaced(body, caps, caps.len() as int)
}

/// A copybook spliced in between marker comments.
pub open spec fn spliced(name: Seq<char>, body: Seq<char>) -> Seq<char> {
    "* >>>> COPY "@ + name + " >>>>\n"@ + body + (if ends_with(body, seq!['\n']) {
        Seq::empty()
    } else {
        seq!['\n']
    }) + "* <<<< COPY "@ + name + " <<<<\n"@
}

/// One source line after expansion, given the match of
/// [`COPY_PATTERN`] on it and the matches of [`REPLACING_PATTERN`]: a
/// `COPY` of a known copybook is replaced by the copybook (after its
/// `REPLACING` clauses); any other line stays as it is.
pub open spec fn expanded_from(
    line: Seq<char>,
    m: Option<CapView>,
    replacing: Seq<CapView>,
    catalogue: Seq<(String, String)>,
) -> Seq<char> {
    match m {
        Some(c) => match group(c, 1) {
            Some(name) => match copybook(catalogue, ascii_upper(name), catalogue.len() as int) {
                Some(body) => spliced(name, replaced(body, replacing, replacing.len() as int)),
                None => line + seq!['\n'],
            },
            None => line + seq!['\n'],
        },
        None => line + seq!['\n'],
    }
}

/// One source line after expansion.
pub open spec fn expanded_line(line: Seq<char>, catalogue: Seq<(String, String)>) -> Seq<char> {
    expanded_from(
        line,
        first_capture(COPY_PATTERN@, line),
        all_captures(REPLACING_PATTERN@, line),
        catalogue,
    )
}

pub open spec fn expand_copy_spec(source: Seq<char>, catalogue: Seq<(String, String)>) -> Seq<char> {
    flat_map(lines(source), |l: Seq<char>| expanded_line(l, catalogue))
}

/// Whether a line is a `COPY` of a copybook that the catalogue holds.
pub open spec fn names_known_copybook(line: Seq<char>, catalogue: Seq<(String, String)>) -> bool {
    match first_capture(COPY_PATTERN@, line) {
        Some(c) => match group(c, 1) {
            Some(name) => copybook(catalogue, ascii_upper(name), catalogue.len() as int) is Some,
            None => false,
        },
        None => false,
    }
}

/// Where no line of the source is a `COPY` of a catalogued copybook,
/// expansion gives every line back verbatim, each ended by a newline.
pub proof fn law_expand_copy_identity(source: Seq<char>, catalogue: Seq<(String, String)>)
    requires
        forall|k: int|
            0 <= k < lines(source).len() ==> !names_known_copybook(
                #[trigger] lines(source)[k],
                catalogue,
            ),
    ensures
        expand_copy_spec(source, catalogue) == flat_map(lines(source), |l: Seq<char>| l + seq!['\n']),
{
    let ls = lines(source);
    let f = |l: Seq<char>| expanded_line(l, catalogue);
    let g = |l: Seq<char>| l + seq!['\n'];
    assert forall|i: int| 0 <= i < ls.len() implies f(#[trigger] ls[i]) == g(ls[i]) by {
        assert(!names_known_copybook(ls[i], catalogue));
    }
    lemma_flat_map_congruent(ls, f, g);
}

fn copybook_exec(catalogue: &Vec<(String, String)>, key: &[char]) -> (r: Option<Vec<char>>)
    ensures
        crate::text::opt_view(r) == copybook(catalogue@, key@, catalogue@.len() as int),
{
    let mut n = catalogue.len();
    while n > 0
        invariant
            n <= catalogue@.len(),
            copybook(catalogue@, key@, catalogue@.len() as int) == copybook(catalogue@, key@, n as int),
        decreases n,
    {
        let k = to_chars(catalogue[n - 1].0.as_str());
        let up = ascii_upper_exec(k.as_slice());
        if chars_eq(up.as_slice(), key) {
            return Some(to_chars(catalogue[n - 1].1.as_str()));
        }
        n -= 1;
    }
    None
}

/// The body after the `REPLACING` clauses of the given matches of
/// [`REPLACING_PATTERN`], applied in order.
pub fn replacing_from_matches(body: &str, caps: &Vec<Captures>) -> (r: String)
    ensures
        r@ == replaced(body@, caps_view(caps@), caps@.len() as int),
{
    let ghost cv = caps_view(caps@);
    let mut result = to_chars(body);
    let mut i: usize = 0;
    while i < caps.len()
        invariant
            i <= caps.len(),
            cv == caps_view(caps@),
            result@ == replaced(body@, cv, i as int),
        decreases caps.len() - i,
    {
        assert(cv[i as int] == cap_view(caps@[i as int]));
        let g1 = group_or_empty_exec(&caps[i], 1);
        let g2 = group_or_empty_exec(&caps[i], 2);
        let from = trim_exec(g1.as_slice());
        let to = trim_exec(g2.as_slice());
        if from.len() > 0 {
            result = replace_all_exec(result.as_slice(), from.as_slice(), to.as_slice());
        }
        i += 1;
    }
    from_chars(result.as_slice())
}

/// Apply the `REPLACING ==a== BY ==b==` clauses of a `COPY` line.
pub fn apply_replacing(body: &str, copy_line: &str) -> (r: String)
    ensures
        r@ == apply_replacing_spec(body@, copy_line@),
{
    let caps = find_all(REPLACING_PATTERN, copy_line);
    replacing_from_matches(body, &caps)
}

/// One source line after expansion, given the match of [`COPY_PATTERN`]
/// on it and the matches of [`REPLACING_PATTERN`].
pub fn expanded_from_matches(
    line: &str,
    m: Option<Captures>,
    replacing: &Vec<Captures>,
    catalogue: &Vec<(String, String)>,
) -> (r: String)
    ensures
        r@ == expanded_from(line@, opt_cap_view(m), caps_view(replacing@), catalogue@),
{
    let mut plain = to_chars(line);
    plain.push('\n');
    match m {
        Some(cap) => match get_group(&cap, 1) {
            Some(name) => {
                let key = ascii_upper_exec(name.as_slice());
                match copybook_exec(catalogue, key.as_slice()) {
                    Some(body) => {
                        let body_s = from_chars(body.as_slice());
                        let applied = replacing_from_matches(body_s.as_str(), replacing);
                        let a = to_chars(applied.as_str());
                        let mut out = to_chars("* >>>> COPY ");
                        push_all(&mut out, name.as_slice());
                        push_str_chars(&mut out, " >>>>\n");
                        push_all(&mut out, a.as_slice());
                        if !(a.len() > 0 && a[a.len() - 1] == '\n') {
                            out.push('\n');
                        }
                        push_str_chars(&mut out, "* <<<< COPY ");
                        push_all(&mut out, name.as_slice());
                        push_str_chars(&mut out, " <<<<\n");
                        assert(ends_with(a@, seq!['\n']) <==> (a@.len() > 0 && a@[a@.len() - 1] == '\n')) by {
                            if a@.len() > 0 {
                                assert(a@.skip(a@.len() - 1) =~= seq![a@[a@.len() - 1]]);
                                if ends_with(a@, seq!['\n']) {
                                    assert(a@.skip(a@.len() - 1)[0] == '\n');
                                }
                            }
                        }
                        assert(out@ =~= spliced(name@, a@));
                        from_chars(out.as_slice())
                    },
                    None => from_chars(plain.as_slice()),
                }
            },
            None => from_chars(plain.as_slice()),
        },
        None => from_chars(plain.as_slice()),
    }
}

fn expanded_line_exec(line: &str, catalogue: &Vec<(String, String)>) -> (r: Vec<char>)
    ensures
        r@ == expanded_line(line@, catalogue@),
{
    let m = find_first(COPY_PATTERN, line);
    let replacing = find_all(REPLACING_PATTERN, line);
    let t = expanded_from_matches(line, m, &replacing, catalogue);
    to_chars(t.as_str())
}

/// Inline every `COPY name` whose copybook the catalogue holds (names
/// compared ignoring ASCII case); other lines are kept verbatim.
pub fn expand_copy(source: &str, catalogue: &Vec<(String, String)>) -> (r: String)
    ensures
        r@ == expand_copy_spec(source@, catalogue@),
{
    let c = to_chars(source);
    let ls = lines_exec(c.as_slice());
    let ghost lv = lines(source@);
    let ghost f = |l: Seq<char>| expanded_line(l, catalogue@);
    let mut out: Vec<char> = Vec::new();
    let mut i: usize = 0;
    while i < ls.len()
        invariant
            i <= ls@.len(),
            views(ls@) == lv,
            f == (|l: Seq<char>| expanded_line(l, catalogue@)),
            out@ == flat_map(lv.take(i as int), f),
        decreases ls@.len() - i,
    {
        proof {
            lemma_flat_map_step(lv, i as int, f);
        }
        let line = from_chars(ls[i].as_slice());
        assert(line@ == lv[i as int]);
        let t = expanded_line_exec(line.as_str(), catalogue);
        push_all(&mut out, t.as_slice());
        i += 1;
    }
    proof {
        lemma_take_full(lv);
    }
    from_chars(out.as_slice())
}

} // verus!
