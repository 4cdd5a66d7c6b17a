//! HTML references: `<form action>` URLs and `<script src>` targets.
//!
//! HTML files carry no code symbols; they participate in the graph
//! through the routes they submit to and the scripts they load. Both
//! are found with a regular expression per shape; the logic here turns
//! each match into a record with a 1-based line number.

use vstd::prelude::*;

use crate::pattern::{
    all_captures, cap_view, caps_view, filter_map, find_all, get_group, group, group_or_empty,
    group_or_empty_exec, lemma_filter_map_step, lemma_map_push, lemma_take_full, line_for_offset,
    line_of_byte, CapView, Captures,
};
use crate::text::{ascii_upper, ascii_upper_exec, from_chars};

verus! {

/// Provider for `.html` / `.htm` files. It declares no symbols.
pub struct HtmlProvider;

impl HtmlProvider {
    pub fn language(&self) -> (l: crate::lang::languages::SupportedLanguage)
        ensures
            l == crate::lang::languages::SupportedLanguage::Html,
    {
        crate::lang::languages::SupportedLanguage::Html
    }

    pub fn file_extensions(&self) -> (r: Vec<&'static str>)
        ensures
            r@.len() == 2,
            r@[0]@ == "html"@,
            r@[1]@ == "htm"@,
    {
        let mut r: Vec<&'static str> = Vec::new();
        r.push("html");
        r.push("htm");
        r
    }

    /// HTML declares no symbol kinds.
    pub fn supported_labels(&self) -> (r: Vec<crate::lang::provider::NodeLabel>)
        ensures
            r@.len() == 0,
    {
        Vec::new()
    }

    /// HTML has no code symbols; its references come through
    /// [`extract_form_actions`] and [`extract_script_srcs`].
    pub fn extract_symbols(&self, file_path: &str, content: &str) -> (r: Vec<
        crate::lang::provider::ExtractedSymbol,
    >)
        ensures
            r@.len() == 0,
    {
        Vec::new()
    }
}

/// `<form ... action="url" ... method="m"`: the method is taken when it
/// follows the action inside the tag.
pub const FORM_ACTION_PATTERN: &'static str =
    r#"(?i)<\s*form\b[^>]*\baction\s*=\s*['"]([^'"]+)['"](?:[^>]*?\bmethod\s*=\s*['"]([^'"]+)['"])?"#;

/// `<script ... src="target"`.
pub const SCRIPT_SRC_PATTERN: &'static str = r#"(?i)<\s*script\b[^>]*\bsrc\s*=\s*['"]([^'"]+)['"]"#;

/// One `<form action="...">` reference discovered in HTML.
pub struct HtmlFormAction {
    pub url: String,
    /// HTTP method in uppercase; `GET` when the form has no `method`.
    pub method: String,
    pub line: u32,
}

/// One `<script src="...">` reference.
pub struct HtmlScriptSrc {
    pub src: String,
    pub line: u32,
}

impl View for HtmlFormAction {
    type V = (Seq<char>, Seq<char>, u32);

    open spec fn view(&self) -> Self::V {
        (self.url@, self.method@, self.line)
    }
}

impl View for HtmlScriptSrc {
    type V = (Seq<char>, u32);

    open spec fn view(&self) -> Self::V {
        (self.src@, self.line)
    }
}

/// The record one form-action match yields: none when the URL group is
/// empty; the method upper-cased, `GET` when absent.
pub open spec fn form_action_of(content: Seq<char>, c: CapView) -> Option<(Seq<char>, Seq<char>, u32)> {
    let url = group_or_empty(c, 1);
    if url.len() == 0 {
        None
    } else {
        Some(
            (
                url,
                match group(c, 2) {
                    Some(m) => ascii_upper(m),
                    None => "GET"@,
                },
                line_of_byte(content, c.0),
            ),
        )
    }
}

pub open spec fn form_actions_from(content: Seq<char>, caps: Seq<CapView>) -> Seq<
    (Seq<char>, Seq<char>, u32),
> {
    filter_map(caps, |c: CapView| form_action_of(content, c))
}

pub open spec fn script_src_of(content: Seq<char>, c: CapView) -> Option<(Seq<char>, u32)> {
    let src = group_or_empty(c, 1);
    if src.len() == 0 {
        None
    } else {
        Some((src, line_of_byte(content, c.0)))
    }
}

pub open spec fn script_srcs_from(content: Seq<char>, caps: Seq<CapView>) -> Seq<(Seq<char>, u32)> {
    filter_map(caps, |c: CapView| script_src_of(content, c))
}

/// Form actions from the given matches of [`FORM_ACTION_PATTERN`] on
/// `content`.
pub fn form_actions_from_matches(content: &str, caps: &Vec<Captures>) -> (r: Vec<HtmlFormAction>)
    ensures
        r@.map_values(|a: HtmlFormAction| a@) == form_actions_from(content@, caps_view(caps@)),
{
    let ghost f = |c: CapView| form_action_of(content@, c);
    let mut out: Vec<HtmlFormAction> = Vec::new();
    let mut i: usize = 0;
    while i < caps.len()
        invariant
            i <= caps.len(),
            f == (|c: CapView| form_action_of(content@, c)),
            out@.map_values(|a: HtmlFormAction| a@) == filter_map(caps_view(caps@).take(i as int), f),
        decreases caps.len() - i,
    {
        let cap = &caps[i];
        proof {
            lemma_filter_map_step(caps_view(caps@), i as int, f);
            assert(caps_view(caps@)[i as int] == cap_view(*cap));
        }
        let url = group_or_empty_exec(cap, 1);
        if url.len() > 0 {
            let method = match get_group(cap, 2) {
                Some(m) => from_chars(ascii_upper_exec(m.as_slice()).as_slice()),
                None => "GET".to_owned(),
            };
            let item = HtmlFormAction {
                url: from_chars(url.as_slice()),
                method,
                line: line_for_offset(content, cap.start),
            };
            proof {
                lemma_map_push(out@, item, |a: HtmlFormAction| a@);
            }
            out.push(item);
        }
        i += 1;
    }
    proof {
        lemma_take_full(caps_view(caps@));
    }
    out
}

/// Extract every `<form action="url" method="X">` pair from HTML.
pub fn extract_form_actions(content: &str) -> (r: Vec<HtmlFormAction>)
    ensures
        r@.map_values(|a: HtmlFormAction| a@) == form_actions_from(
            content@,
            all_captures(FORM_ACTION_PATTERN@, content@),
        ),
{
    let caps = find_all(FORM_ACTION_PATTERN, content);
    form_actions_from_matches(content, &caps)
}

/// Script references from the given matches of [`SCRIPT_SRC_PATTERN`].
pub fn script_srcs_from_matches(content: &str, caps: &Vec<Captures>) -> (r: Vec<HtmlScriptSrc>)
    ensures
        r@.map_values(|a: HtmlScriptSrc| a@) == script_srcs_from(content@, caps_view(caps@)),
{
    let ghost f = |c: CapView| script_src_of(content@, c);
    let mut out: Vec<HtmlScriptSrc> = Vec::new();
    let mut i: usize = 0;
    while i < caps.len()
        invariant
            i <= caps.len(),
            f == (|c: CapView| script_src_of(content@, c)),
            out@.map_values(|a: HtmlScriptSrc| a@) == filter_map(caps_view(caps@).take(i as int), f),
        decreases caps.len() - i,
    {
        let cap = &caps[i];
        proof {
            lemma_filter_map_step(caps_view(caps@), i as int, f);
            assert(caps_view(caps@)[i as int] == cap_view(*cap));
        }
        let src = group_or_empty_exec(cap, 1);
        if src.len() > 0 {
            let item = HtmlScriptSrc {
                src: from_chars(src.as_slice()),
                line: line_for_offset(content, cap.start),
            };
            proof {
                lemma_map_push(out@, item, |a: HtmlScriptSrc| a@);
            }
            out.push(item);
        }
        i += 1;
    }
    proof {
        lemma_take_full(caps_view(caps@));
    }
    out
}

/// Extract `<script src="...">` references.
pub fn extract_script_srcs(content: &str) -> (r: Vec<HtmlScriptSrc>)
    ensures
        r@.map_values(|a: HtmlScriptSrc| a@) == script_srcs_from(
            content@,
            all_captures(SCRIPT_SRC_PATTERN@, content@),
        ),
{
    let caps = find_all(SCRIPT_SRC_PATTERN, content);
    script_srcs_from_matches(content, &caps)
}

} // verus!
