//! Relative links between markdown documents.
//!
//! `[text](./target.md#heading)` links become IMPORTS edges between
//! documents. External URLs, image links and bare `#anchor` references
//! carry no cross-file structure and are dropped.

use vstd::prelude::*;

use crate::pattern::{
    all_captures, cap_view, caps_view, filter_map, find_all, flat_map, group_or_empty,
    group_or_empty_exec, lemma_filter_map_step, lemma_flat_map_step, lemma_map_push,
    lemma_take_full, CapView, Captures,
};
use crate::text::{
    from_chars, lines, lines_exec, split_once, split_once_exec, starts_with, starts_with_str,
    to_chars, trim, trim_exec, views,
};

verus! {

/// `[text](target)` not preceded by `!` (which would make it an image).
pub const LINK_PATTERN: &'static str = r#"(^|[^!])\[([^\]]+)\]\(([^)]+)\)"#;

/// One link to another document.
pub struct MarkdownLink {
    /// The display text between the brackets.
    pub text: String,
    /// The target path before any `#fragment`.
    pub target: String,
    /// The heading fragment after `#`, if any.
    pub fragment: Option<String>,
    /// 1-based source line.
    pub line: u32,
}

impl View for MarkdownLink {
    type V = (Seq<char>, Seq<char>, Option<Seq<char>>, u32);

    open spec fn view(&self) -> Self::V {
        (self.text@, self.target@, crate::pattern::opt_string_view(self.fragment), self.line)
    }
}

/// A target with a URL scheme this extractor leaves alone.
pub open spec fn is_external_spec(t: Seq<char>) -> bool {
    starts_with(t, "http://"@) || starts_with(t, "https://"@) || starts_with(t, "mailto:"@)
        || starts_with(t, "ftp://"@) || starts_with(t, "file://"@)
}

/// The path before the first `#` and the fragment after it.
pub open spec fn split_fragment_spec(t: Seq<char>) -> (Seq<char>, Option<Seq<char>>) {
    match split_once(t, seq!['#']) {
        Some((path, frag)) => (path, Some(frag)),
        None => (t, None),
    }
}

/// The link one match on line number `line_idx` (0-based) yields: none
/// for an empty, external or anchor-only target.
pub open spec fn link_of(line_idx: int, c: CapView) -> Option<(Seq<char>, Seq<char>, Option<Seq<char>>, u32)> {
    let raw = trim(group_or_empty(c, 3));
    if raw.len() == 0 || is_external_spec(raw) || starts_with(raw, seq!['#']) {
        None
    } else {
        let (target, fragment) = split_fragment_spec(raw);
        Some((group_or_empty(c, 2), target, fragment, crate::pattern::line_no(line_idx)))
    }
}

pub open spec fn links_of_line(line_idx: int, caps: Seq<CapView>) -> Seq<
    (Seq<char>, Seq<char>, Option<Seq<char>>, u32),
> {
    filter_map(caps, |c: CapView| link_of(line_idx, c))
}

/// The links of every line, in order.
pub open spec fn links_of(content: Seq<char>) -> Seq<(Seq<char>, Seq<char>, Option<Seq<char>>, u32)> {
    let ls = lines(content);
    flat_map(
        Seq::new(ls.len(), |k: int| k),
        |k: int| links_of_line(k, all_captures(LINK_PATTERN@, ls[k])),
    )
}

/// The target as written: the path, then `#` and the fragment when
/// there is one.
pub open spec fn raw_target(l: (Seq<char>, Seq<char>, Option<Seq<char>>, u32)) -> Seq<char> {
    match l.2 {
        Some(f) => l.1 + seq!['#'] + f,
        None => l.1,
    }
}

/// A kept link: a non-empty path without `#`, written neither with a
/// URL scheme nor as a bare `#anchor`.
pub open spec fn link_well_formed(l: (Seq<char>, Seq<char>, Option<Seq<char>>, u32)) -> bool {
    &&& l.1.len() > 0
    &&& !l.1.contains('#')
    &&& !is_external_spec(raw_target(l))
    &&& !starts_with(raw_target(l), seq!['#'])
}

proof fn lemma_link_of(k: int, c: CapView)
    ensures
        link_of(k, c) matches Some(l) ==> link_well_formed(l) && l.3 == crate::pattern::line_no(k),
{
    let raw = trim(group_or_empty(c, 3));
    if let Some(l) = link_of(k, c) {
        crate::text::lemma_starts_with_char(raw, '#');
        crate::text::lemma_find_from_bounds(raw, seq!['#'], 0);
        match crate::text::find(raw, seq!['#']) {
            Some(i) => {
                assert(crate::text::occurs_at(raw, seq!['#'], i));
                assert(raw.subrange(i, i + 1)[0] == raw[i]);
                assert(raw[i] == '#');
                assert(i != 0);
                assert(raw.take(i) + seq!['#'] + raw.skip(i + 1) =~= raw);
                assert forall|q: int| 0 <= q < raw.take(i).len() implies raw.take(i)[q] != '#' by {
                    if raw.take(i)[q] == '#' {
                        assert(raw.subrange(q, q + 1) =~= seq!['#']);
                        assert(crate::text::occurs_at(raw, seq!['#'], q));
                    }
                }
            },
            None => {
                assert forall|q: int| 0 <= q < raw.len() implies raw[q] != '#' by {
                    if raw[q] == '#' {
                        assert(raw.subrange(q, q + 1) =~= seq!['#']);
                        assert(crate::text::occurs_at(raw, seq!['#'], q));
                    }
                }
            },
        }
        assert(raw_target(l) == raw);
    }
}

proof fn lemma_links_prefix(content: Seq<char>, n: int)
    requires
        0 <= n <= lines(content).len(),
        lines(content).len() < 0x1_0000_0000,
    ensures
        ({
            let ls = lines(content);
            let fl = flat_map(
                Seq::new(ls.len(), |k: int| k).take(n),
                |k: int| links_of_line(k, all_captures(LINK_PATTERN@, ls[k])),
            );
            &&& forall|j: int|
                0 <= j < fl.len() ==> link_well_formed(#[trigger] fl[j]) && 1 <= fl[j].3 <= n
            &&& forall|j1: int, j2: int| 0 <= j1 < j2 < fl.len() ==> #[trigger] fl[j1].3 <= #[trigger] fl[j2].3
        }),
    decreases n,
{
    let ls = lines(content);
    let idx = Seq::new(ls.len(), |k: int| k);
    let g = |k: int| links_of_line(k, all_captures(LINK_PATTERN@, ls[k]));
    if n > 0 {
        lemma_links_prefix(content, n - 1);
        lemma_flat_map_step(idx, n - 1, g);
        let a = flat_map(idx.take(n - 1), g);
        let caps = all_captures(LINK_PATTERN@, ls[n - 1]);
        let f = |c: CapView| link_of(n - 1, c);
        let b = links_of_line(n - 1, caps);
        assert(idx[n - 1] == n - 1);
        assert(g(idx[n - 1]) == b);
        let fl = flat_map(idx.take(n), g);
        assert(fl == a + b);
        crate::pattern::lemma_filter_map_members(caps, f);
        assert forall|j: int| 0 <= j < b.len() implies link_well_formed(#[trigger] b[j]) && b[j].3 == n by {
            let i = choose|i: int| 0 <= i < caps.len() && f(caps[i]) == Some(b[j]);
            lemma_link_of(n - 1, caps[i]);
        }
        assert forall|j: int| 0 <= j < fl.len() implies link_well_formed(#[trigger] fl[j]) && 1 <= fl[j].3 <= n by {
            if j < a.len() {
                assert(fl[j] == a[j]);
            } else {
                assert(fl[j] == b[j - a.len()]);
            }
        }
        assert forall|j1: int, j2: int| 0 <= j1 < j2 < fl.len() implies #[trigger] fl[j1].3 <= #[trigger] fl[j2].3 by {
            if j2 < a.len() {
                assert(fl[j1] == a[j1]);
                assert(fl[j2] == a[j2]);
            } else if j1 < a.len() {
                assert(fl[j1] == a[j1]);
                assert(fl[j2] == b[j2 - a.len()]);
            } else {
                assert(fl[j1] == b[j1 - a.len()]);
                assert(fl[j2] == b[j2 - a.len()]);
            }
        }
    }
}

/// Every extracted link has a non-empty path without `#` and was
/// written neither with a URL scheme nor as a bare `#anchor`; its line
/// number lies between 1 and the number of lines, and the links come in
/// line order.
pub proof fn law_links_well_formed(content: Seq<char>)
    requires
        lines(content).len() < 0x1_0000_0000,
    ensures
        forall|j: int|
            0 <= j < links_of(content).len() ==> link_well_formed(#[trigger] links_of(content)[j])
                && 1 <= links_of(content)[j].3 <= lines(content).len(),
        forall|j1: int, j2: int|
            0 <= j1 < j2 < links_of(content).len() ==> #[trigger] links_of(content)[j1].3
                <= #[trigger] links_of(content)[j2].3,
{
    let ls = lines(content);
    lemma_links_prefix(content, ls.len() as int);
    lemma_take_full(Seq::new(ls.len(), |k: int| k));
}

/// Whether the target starts with a URL scheme (`http://`, `https://`,
/// `mailto:`, `ftp://`, `file://`).
pub fn is_external(target: &str) -> (b: bool)
    ensures
        b == is_external_spec(target@),
{
    let t = to_chars(target);
    starts_with_str(t.as_slice(), "http://") || starts_with_str(t.as_slice(), "https://")
        || starts_with_str(t.as_slice(), "mailto:") || starts_with_str(t.as_slice(), "ftp://")
        || starts_with_str(t.as_slice(), "file://")
}

/// Split `path#fragment` at the first `#`.
pub fn split_fragment(target: &str) -> (r: (String, Option<String>))
    ensures
        (r.0@, crate::pattern::opt_string_view(r.1)) == split_fragment_spec(target@),
{
    let t = to_chars(target);
    let mut hash: Vec<char> = Vec::new();
    hash.push('#');
    assert(hash@ =~= seq!['#']);
    match split_once_exec(t.as_slice(), hash.as_slice()) {
        Some((path, frag)) => (from_chars(path.as_slice()), Some(from_chars(frag.as_slice()))),
        None => (target.to_owned(), None),
    }
}

/// Links from the given matches of [`LINK_PATTERN`] on line `line_idx`
/// (0-based).
pub fn links_from_matches(line_idx: usize, caps: &Vec<Captures>) -> (r: Vec<MarkdownLink>)
    ensures
        r@.map_values(|l: MarkdownLink| l@) == links_of_line(line_idx as int, caps_view(caps@)),
{
    let ghost f = |c: CapView| link_of(line_idx as int, c);
    let mut out: Vec<MarkdownLink> = Vec::new();
    let mut i: usize = 0;
    while i < caps.len()
        invariant
            i <= caps.len(),
            f == (|c: CapView| link_of(line_idx as int, c)),
            out@.map_values(|l: MarkdownLink| l@) == filter_map(caps_view(caps@).take(i as int), f),
        decreases caps.len() - i,
    {
        let cap = &caps[i];
        proof {
            lemma_filter_map_step(caps_view(caps@), i as int, f);
            assert(caps_view(caps@)[i as int] == cap_view(*cap));
        }
        let g3 = group_or_empty_exec(cap, 3);
        let raw = trim_exec(g3.as_slice());
        let raw_s = from_chars(raw.as_slice());
        let skip = raw.len() == 0 || is_external(raw_s.as_str()) || (raw.len() > 0 && raw[0]
            == '#');
        proof {
            crate::text::lemma_starts_with_char(raw@, '#');
        }
        if !skip {
            let text = group_or_empty_exec(cap, 2);
            let (target, fragment) = split_fragment(raw_s.as_str());
            let item = MarkdownLink {
                text: from_chars(text.as_slice()),
                target,
                fragment,
                line: crate::pattern::line_number(line_idx),
            };
            proof {
                lemma_map_push(out@, item, |l: MarkdownLink| l@);
            }
            out.push(item);
        }
        i += 1;
    }
    proof {
        lemma_take_full(caps_view(caps@));
    }
    out
}

/// Every relative markdown link in `content`, line by line.
pub fn extract(content: &str) -> (r: Vec<MarkdownLink>)
    ensures
        r@.map_values(|l: MarkdownLink| l@) == links_of(content@),
{
    let c = to_chars(content);
    let ls = lines_exec(c.as_slice());
    let ghost lv = lines(content@);
    let ghost idx = Seq::new(lv.len(), |k: int| k);
    let ghost g = |k: int| links_of_line(k, all_captures(LINK_PATTERN@, lv[k]));
    let mut out: Vec<MarkdownLink> = Vec::new();
    let mut k: usize = 0;
    while k < ls.len()
        invariant
            k <= ls.len(),
            views(ls@) == lv,
            idx == Seq::new(lv.len(), |k: int| k),
            g == (|k: int| links_of_line(k, all_captures(LINK_PATTERN@, lv[k]))),
            out@.map_values(|l: MarkdownLink| l@) == flat_map(idx.take(k as int), g),
        decreases ls.len() - k,
    {
        proof {
            lemma_flat_map_step(idx, k as int, g);
        }
        let line = from_chars(ls[k].as_slice());
        assert(line@ == lv[k as int]);
        let caps = find_all(LINK_PATTERN, line.as_str());
        let more = links_from_matches(k, &caps);
        let ghost before = out@;
        let mut more = more;
        out.append(&mut more);
        assert(out@.map_values(|l: MarkdownLink| l@) =~= before.map_values(|l: MarkdownLink| l@)
            + links_of_line(k as int, caps_view(caps@)));
        k += 1;
    }
    proof {
        lemma_take_full(idx);
    }
    out
}

} // verus!
