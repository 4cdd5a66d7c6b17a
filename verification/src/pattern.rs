//! Regular-expression matching through the `regex` crate.
//!
//! The matching itself is the `regex` crate's: what `captures_iter`
//! yields for a pattern and a haystack is named by
//! [`regex_captures`], a function of the two strings alone. Every
//! extractor in this library states its result over that name, so the
//! logic around each match (which group is read, how line numbers are
//! derived, which defaults apply) is proved, while the automaton is not.

use vstd::prelude::*;
use regex::Regex;

use crate::text::{opt_view, to_chars};

verus! {

#[verifier::external_type_specification]
#[verifier::external_body]
pub struct ExRegex(Regex);

/// A compiled pattern together with its source text. Only [`compile`]
/// builds one, so `re` is always the compilation of `source`.
pub struct Pattern {
    source: String,
    re: Regex,
}

impl View for Pattern {
    type V = Seq<char>;

    closed spec fn view(&self) -> Seq<char> {
        self.source@
    }
}

/// One match as `captures_iter` reports it: byte span of the whole
/// match and the text of every capture group (group 0 is the whole
/// match; a group that did not participate is `None`).
pub struct Captures {
    pub start: usize,
    pub end: usize,
    pub groups: Vec<Option<String>>,
}

/// Plain-value form of one match: `(start, end, groups)`.
pub type CapView = (int, int, Seq<Option<Seq<char>>>);

pub open spec fn opt_string_view(o: Option<String>) -> Option<Seq<char>> {
    match o {
        Some(s) => Some(s@),
        None => None,
    }
}

pub open spec fn cap_view(c: Captures) -> CapView {
    (
        c.start as int,
        c.end as int,
        c.groups@.map_values(|g: Option<String>| opt_string_view(g)),
    )
}

/// The view of a match that may be missing.
pub open spec fn opt_cap_view(m: Option<Captures>) -> Option<CapView> {
    match m {
        Some(c) => Some(cap_view(c)),
        None => None,
    }
}

pub open spec fn caps_view(v: Seq<Captures>) -> Seq<CapView> {
    v.map_values(|c: Captures| cap_view(c))
}

/// Whether `regex::Regex::new` accepts the pattern.
pub uninterp spec fn regex_compiles(pattern: Seq<char>) -> bool;

/// The matches `regex::Regex::captures_iter` yields for `pattern` on
/// `haystack`, in order.
pub uninterp spec fn regex_captures(pattern: Seq<char>, haystack: Seq<char>) -> Seq<CapView>;

/// Matches as `captures_iter` yields them: each within the haystack's
/// `hay_len` bytes, and each starting at or after the end of the one
/// before.
pub open spec fn matches_ordered(caps: Seq<CapView>, hay_len: int) -> bool {
    &&& forall|i: int| 0 <= i < caps.len() ==> 0 <= (#[trigger] caps[i]).0 <= caps[i].1 <= hay_len
    &&& forall|i: int, j: int| 0 <= i < j < caps.len() ==> (#[trigger] caps[i]).1 <= (#[trigger] caps[j]).0
}

/// Compiles `source` with `regex::Regex::new`. The contract claims that
/// the result is `Some` exactly when the crate accepts the pattern, and
/// that the returned pattern carries `source` as its text.
#[verifier::external_body]
pub(crate) fn compile(source: &str) -> (r: Option<Pattern>)
    ensures
        r is Some <==> regex_compiles(source@),
        r matches Some(p) ==> p@ == source@,
{
    match Regex::new(source) {
        Ok(re) => Some(Pattern { source: source.to_string(), re }),
        Err(_) => None,
    }
}

/// Runs `regex::Regex::captures_iter` and copies every match out as
/// plain values. The contract claims that the copied matches are the
/// ones the crate yields, named by [`regex_captures`], and, as the
/// crate documents ("successive non-overlapping matches", byte offsets
/// into the haystack), that they lie within the haystack in order
/// without overlapping.
#[verifier::external_body]
pub(crate) fn captures_iter(p: &Pattern, haystack: &str) -> (r: Vec<Captures>)
    ensures
        caps_view(r@) == regex_captures(p@, haystack@),
        matches_ordered(caps_view(r@), crate::text::utf8(haystack@).len() as int),
{
    let mut out: Vec<Captures> = Vec::new();
    for caps in p.re.captures_iter(haystack) {
        let whole = caps.get_match();
        let mut groups: Vec<Option<String>> = Vec::new();
        for g in caps.iter() {
            groups.push(g.map(|m| m.as_str().to_string()));
        }
        out.push(Captures { start: whole.start(), end: whole.end(), groups });
    }
    out
}

/// Every match of `pattern` on `haystack`; no match at all when the
/// pattern does not compile.
pub open spec fn all_captures(pattern: Seq<char>, haystack: Seq<char>) -> Seq<CapView> {
    if regex_compiles(pattern) {
        regex_captures(pattern, haystack)
    } else {
        Seq::empty()
    }
}

/// The leftmost-first match (`Regex::captures`), if any.
pub open spec fn first_capture(pattern: Seq<char>, haystack: Seq<char>) -> Option<CapView> {
    let all = all_captures(pattern, haystack);
    if all.len() > 0 {
        Some(all[0])
    } else {
        None
    }
}

pub fn find_all(pattern: &str, haystack: &str) -> (r: Vec<Captures>)
    ensures
        caps_view(r@) == all_captures(pattern@, haystack@),
        matches_ordered(caps_view(r@), crate::text::utf8(haystack@).len() as int),
{
    match compile(pattern) {
        Some(p) => captures_iter(&p, haystack),
        None => {
            let r: Vec<Captures> = Vec::new();
            assert(caps_view(r@) =~= Seq::<CapView>::empty());
            r
        },
    }
}

pub fn find_first(pattern: &str, haystack: &str) -> (r: Option<Captures>)
    ensures
        match r {
            Some(c) => first_capture(pattern@, haystack@) == Some(cap_view(c)),
            None => first_capture(pattern@, haystack@) is None,
        },
{
    let mut all = find_all(pattern, haystack);
    if all.len() > 0 {
        proof {
            assert(caps_view(all@)[0] == cap_view(all@[0]));
        }
        Some(all.swap_remove(0))
    } else {
        None
    }
}

/// Capture group `i` of a match (`Captures::get(i)`).
pub open spec fn group(c: CapView, i: int) -> Option<Seq<char>> {
    if 0 <= i < c.2.len() {
        c.2[i]
    } else {
        None
    }
}

/// Group `i`'s text, or the empty string when it did not participate.
pub open spec fn group_or_empty(c: CapView, i: int) -> Seq<char> {
    match group(c, i) {
        Some(s) => s,
        None => Seq::empty(),
    }
}

pub fn get_group(c: &Captures, i: usize) -> (r: Option<Vec<char>>)
    ensures
        opt_view(r) == group(cap_view(*c), i as int),
{
    if i < c.groups.len() {
        match &c.groups[i] {
            Some(s) => Some(to_chars(s.as_str())),
            None => None,
        }
    } else {
        None
    }
}

pub fn group_or_empty_exec(c: &Captures, i: usize) -> (r: Vec<char>)
    ensures
        r@ == group_or_empty(cap_view(*c), i as int),
{
    match get_group(c, i) {
        Some(v) => v,
        None => Vec::new(),
    }
}

// ── line numbers from byte offsets ──────────────────────────────────

/// Number of `b` bytes in `s`.
pub open spec fn count_byte(s: Seq<u8>, b: u8) -> nat
    decreases s.len(),
{
    if s.len() == 0 {
        0
    } else {
        count_byte(s.drop_last(), b) + if s.last() == b {
            1nat
        } else {
            0nat
        }
    }
}

/// 1-based line of byte `offset` in `content`: one more than the number
/// of `\n` bytes before it (offset clamped to the text's byte length),
/// as the `u32` the extractors store.
pub open spec fn line_of_byte(content: Seq<char>, offset: int) -> u32 {
    let bytes = vstd::utf8::encode_utf8(content);
    let end = if offset < bytes.len() {
        offset
    } else {
        bytes.len() as int
    };
    ((count_byte(bytes.take(end), 10u8) + 1) % 0x1_0000_0000) as u32
}

/// A prefix holds no more matching bytes than its length.
pub proof fn lemma_count_byte_bound(s: Seq<u8>, b: u8, x: int)
    requires
        0 <= x <= s.len(),
    ensures
        count_byte(s.take(x), b) <= x,
{
    lemma_count_byte_prefix(s, b, x, x);
}

proof fn lemma_count_byte_prefix(s: Seq<u8>, b: u8, x: int, y: int)
    requires
        0 <= x <= y <= s.len(),
    ensures
        count_byte(s.take(x), b) <= count_byte(s.take(y), b),
        count_byte(s.take(y), b) <= y,
    decreases y,
{
    if y > 0 {
        assert(s.take(y).drop_last() =~= s.take(y - 1));
        if x < y {
            lemma_count_byte_prefix(s, b, x, y - 1);
        } else {
            lemma_count_byte_prefix(s, b, y - 1, y - 1);
        }
    }
}

/// Line numbers grow with the byte offset, while the text has fewer
/// than `u32::MAX` bytes.
pub proof fn lemma_line_of_byte_monotone(content: Seq<char>, a: int, b: int)
    requires
        0 <= a <= b,
        vstd::utf8::encode_utf8(content).len() < 0xFFFF_FFFF,
    ensures
        line_of_byte(content, a) <= line_of_byte(content, b),
{
    let bytes = vstd::utf8::encode_utf8(content);
    let ea = if a < bytes.len() { a } else { bytes.len() as int };
    let eb = if b < bytes.len() { b } else { bytes.len() as int };
    lemma_count_byte_prefix(bytes, 10u8, ea, eb);
}

/// Where `f` keeps two elements in order, they come from elements of
/// `s` in the same order.
pub proof fn lemma_filter_map_order<A, B>(s: Seq<A>, f: spec_fn(A) -> Option<B>, j1: int, j2: int)
    requires
        0 <= j1 < j2 < filter_map(s, f).len(),
    ensures
        exists|i1: int, i2: int|
            0 <= i1 < i2 < s.len() && f(#[trigger] s[i1]) == Some(filter_map(s, f)[j1]) && f(
                #[trigger] s[i2],
            ) == Some(filter_map(s, f)[j2]),
    decreases s.len(),
{
    let r = s.drop_last();
    let fm = filter_map(s, f);
    let rm = filter_map(r, f);
    lemma_filter_map_members(r, f);
    match f(s.last()) {
        Some(x) => {
            if j2 < rm.len() {
                lemma_filter_map_order(r, f, j1, j2);
                let (i1, i2) = choose|i1: int, i2: int|
                    0 <= i1 < i2 < r.len() && f(#[trigger] r[i1]) == Some(rm[j1]) && f(#[trigger] r[i2])
                        == Some(rm[j2]);
                assert(s[i1] == r[i1] && s[i2] == r[i2]);
                assert(fm[j1] == rm[j1] && fm[j2] == rm[j2]);
            } else {
                let i1 = choose|i: int| 0 <= i < r.len() && f(r[i]) == Some(#[trigger] rm[j1]);
                assert(s[i1] == r[i1]);
                assert(fm[j1] == rm[j1]);
                assert(s[s.len() - 1] == s.last());
                assert(fm[j2] == x);
            }
        },
        None => {
            lemma_filter_map_order(r, f, j1, j2);
            let (i1, i2) = choose|i1: int, i2: int|
                0 <= i1 < i2 < r.len() && f(#[trigger] r[i1]) == Some(rm[j1]) && f(#[trigger] r[i2])
                    == Some(rm[j2]);
            assert(s[i1] == r[i1] && s[i2] == r[i2]);
        },
    }
}

pub fn line_for_offset(content: &str, offset: usize) -> (r: u32)
    ensures
        r == line_of_byte(content@, offset as int),
{
    let bytes = content.as_bytes();
    let end = if offset < bytes.len() {
        offset
    } else {
        bytes.len()
    };
    let mut count: u64 = 0;
    let mut i: usize = 0;
    assert(bytes@.take(0) =~= Seq::<u8>::empty());
    while i < end
        invariant
            i <= end <= bytes@.len(),
            count == count_byte(bytes@.take(i as int), 10u8),
            count <= i,
        decreases end - i,
    {
        assert(bytes@.take(i + 1).drop_last() =~= bytes@.take(i as int));
        if bytes[i] == 10u8 {
            count = count + 1;
        }
        i += 1;
    }
    let low = (count % 0x1_0000_0000) as u32;
    let r = if low == 0xFFFF_FFFFu32 {
        0u32
    } else {
        low + 1
    };
    assert(r as int == (count + 1) % 0x1_0000_0000);
    r
}

/// The 1-based line number of 0-based line `idx`, as the `u32` the
/// extractors store (`(idx + 1) as u32`).
pub open spec fn line_no(idx: int) -> u32 {
    ((idx + 1) % 0x1_0000_0000) as u32
}

pub fn line_number(idx: usize) -> (r: u32)
    ensures
        r == line_no(idx as int),
{
    let low = (idx as u64 % 0x1_0000_0000) as u32;
    let r = if low == 0xFFFF_FFFFu32 {
        0u32
    } else {
        low + 1
    };
    assert(r as int == (idx + 1) % 0x1_0000_0000);
    r
}

// ── sequence combinators used by extractor specs ────────────────────

pub open spec fn filter_map<A, B>(s: Seq<A>, f: spec_fn(A) -> Option<B>) -> Seq<B>
    decreases s.len(),
{
    if s.len() == 0 {
        Seq::empty()
    } else {
        let rest = filter_map(s.drop_last(), f);
        match f(s.last()) {
            Some(b) => rest.push(b),
            None => rest,
        }
    }
}

pub open spec fn flat_map<A, B>(s: Seq<A>, f: spec_fn(A) -> Seq<B>) -> Seq<B>
    decreases s.len(),
{
    if s.len() == 0 {
        Seq::empty()
    } else {
        flat_map(s.drop_last(), f) + f(s.last())
    }
}

/// The first `Some` that `f` yields along `s`, scanning from the front.
pub open spec fn first_some<A, B>(s: Seq<A>, f: spec_fn(A) -> Option<B>) -> Option<B>
    decreases s.len(),
{
    if s.len() == 0 {
        None
    } else {
        match f(s[0]) {
            Some(b) => Some(b),
            None => first_some(s.drop_first(), f),
        }
    }
}

pub proof fn lemma_first_some_step<A, B>(s: Seq<A>, i: int, f: spec_fn(A) -> Option<B>)
    requires
        0 <= i < s.len(),
    ensures
        first_some(s.skip(i), f) == match f(s[i]) {
            Some(b) => Some(b),
            None => first_some(s.skip(i + 1), f),
        },
{
    assert(s.skip(i)[0] == s[i]);
    assert(s.skip(i).drop_first() =~= s.skip(i + 1));
}

/// What `filter_map` keeps: each kept value comes from some element,
/// and every element the function keeps is there.
pub proof fn lemma_filter_map_members<A, B>(s: Seq<A>, f: spec_fn(A) -> Option<B>)
    ensures
        forall|j: int|
            0 <= j < filter_map(s, f).len() ==> exists|i: int|
                0 <= i < s.len() && f(s[i]) == Some(#[trigger] filter_map(s, f)[j]),
        forall|i: int|
            0 <= i < s.len() && #[trigger] f(s[i]) is Some ==> filter_map(s, f).contains(f(s[i])->0),
    decreases s.len(),
{
    if s.len() > 0 {
        let r = s.drop_last();
        lemma_filter_map_members(r, f);
        let fm = filter_map(s, f);
        let rm = filter_map(r, f);
        assert forall|j: int| 0 <= j < fm.len() implies exists|i: int|
            0 <= i < s.len() && f(s[i]) == Some(#[trigger] fm[j]) by {
            if j < rm.len() {
                assert(fm[j] == rm[j]);
                let i = choose|i: int| 0 <= i < r.len() && f(r[i]) == Some(rm[j]);
                assert(s[i] == r[i]);
            } else {
                assert(f(s[s.len() - 1]) == Some(fm[j]));
            }
        }
        assert forall|i: int| 0 <= i < s.len() && #[trigger] f(s[i]) is Some implies fm.contains(f(s[i])->0) by {
            if i < s.len() - 1 {
                assert(r[i] == s[i]);
                assert(rm.contains(f(r[i])->0));
                let k = choose|k: int| 0 <= k < rm.len() && rm[k] == f(r[i])->0;
                assert(fm[k] == rm[k]);
            } else {
                assert(fm[fm.len() - 1] == f(s[i])->0);
            }
        }
    }
}

pub proof fn lemma_filter_map_step<A, B>(s: Seq<A>, i: int, f: spec_fn(A) -> Option<B>)
    requires
        0 <= i < s.len(),
    ensures
        filter_map(s.take(i + 1), f) == match f(s[i]) {
            Some(b) => filter_map(s.take(i), f).push(b),
            None => filter_map(s.take(i), f),
        },
{
    assert(s.take(i + 1).drop_last() =~= s.take(i));
    assert(s.take(i + 1).last() == s[i]);
}

pub proof fn lemma_flat_map_step<A, B>(s: Seq<A>, i: int, f: spec_fn(A) -> Seq<B>)
    requires
        0 <= i < s.len(),
    ensures
        flat_map(s.take(i + 1), f) == flat_map(s.take(i), f) + f(s[i]),
{
    assert(s.take(i + 1).drop_last() =~= s.take(i));
    assert(s.take(i + 1).last() == s[i]);
}

/// Two functions that agree on every element give the same `flat_map`.
pub proof fn lemma_flat_map_congruent<A, B>(s: Seq<A>, f: spec_fn(A) -> Seq<B>, g: spec_fn(A) -> Seq<B>)
    requires
        forall|i: int| 0 <= i < s.len() ==> f(#[trigger] s[i]) == g(s[i]),
    ensures
        flat_map(s, f) == flat_map(s, g),
    decreases s.len(),
{
    if s.len() > 0 {
        let r = s.drop_last();
        assert forall|i: int| 0 <= i < r.len() implies f(#[trigger] r[i]) == g(r[i]) by {
            assert(r[i] == s[i]);
        }
        lemma_flat_map_congruent(r, f, g);
        assert(f(s[s.len() - 1]) == g(s[s.len() - 1]));
    }
}

pub proof fn lemma_map_push<A, B>(s: Seq<A>, x: A, f: spec_fn(A) -> B)
    ensures
        s.push(x).map_values(f) == s.map_values(f).push(f(x)),
{
    assert(s.push(x).map_values(f) =~= s.map_values(f).push(f(x)));
}

pub proof fn lemma_take_full<A>(s: Seq<A>)
    ensures
        s.take(s.len() as int) == s,
{
    assert(s.take(s.len() as int) =~= s);
}

} // verus!
