//! HTTP client call sites: `fetch`, axios / jQuery and Python
//! `requests` / `httpx` calls with a literal URL. The response shape is
//! filled in later by the pipeline.

use vstd::prelude::*;

use crate::pattern::{
    all_captures, cap_view, caps_view, filter_map, find_all, group_or_empty, group_or_empty_exec,
    lemma_filter_map_step, lemma_take_full, line_for_offset, line_of_byte, CapView, Captures,
};
use crate::text::{ascii_upper, ascii_upper_exec, from_chars};

verus! {

/// `fetch('url'`.
pub const FETCH_CALL_PATTERN: &'static str = r#"\bfetch\s*\(\s*[`'"]([^`'"]+)[`'"]"#;

/// `axios.verb('url'`, also through `$` and `jQuery`. `$` is not a word
/// character, so it is matched without a word boundary.
pub const AXIOS_METHOD_PATTERN: &'static str =
    r#"(?:\b(?:axios|jQuery)|\$)\.(get|post|put|delete|patch|head|options)\s*\(\s*[`'"]([^`'"]+)[`'"]"#;

/// `requests.verb('url'`, also through `httpx` and `session`.
pub const REQUESTS_METHOD_PATTERN: &'static str =
    r#"\b(?:requests|httpx|session)\.(get|post|put|delete|patch|head|options)\s*\(\s*[`'"]([^`'"]+)[`'"]"#;

/// One HTTP client call.
#[derive(Debug, Clone, PartialEq, Eq)]
pub struct FetchCall {
    /// HTTP method in uppercase; `GET` for a bare `fetch`.
    pub method: String,
    /// The URL as written.
    pub url: String,
    /// 1-based line of the call.
    pub line: u32,
}

pub type FetchView = (Seq<char>, Seq<char>, u32);

impl View for FetchCall {
    type V = FetchView;

    open spec fn view(&self) -> FetchView {
        (self.method@, self.url@, self.line)
    }
}

pub open spec fn fetches_view(v: Seq<FetchCall>) -> Seq<FetchView> {
    v.map_values(|f: FetchCall| f@)
}

/// A `fetch` call declares no method: it is a `GET`.
pub open spec fn fetch_call(content: Seq<char>, c: CapView) -> Option<FetchView> {
    Some(("GET"@, group_or_empty(c, 1), line_of_byte(content, c.0)))
}

/// A method-named call: the method upper-cased, then the URL.
pub open spec fn method_call(content: Seq<char>, c: CapView) -> Option<FetchView> {
    Some((ascii_upper(group_or_empty(c, 1)), group_or_empty(c, 2), line_of_byte(content, c.0)))
}

/// `fetch` calls, then axios-style calls, then requests-style calls.
pub open spec fn fetch_calls(content: Seq<char>) -> Seq<FetchView> {
    filter_map(all_captures(FETCH_CALL_PATTERN@, content), |c: CapView| fetch_call(content, c))
        + filter_map(all_captures(AXIOS_METHOD_PATTERN@, content), |c: CapView| method_call(content, c))
        + filter_map(all_captures(REQUESTS_METHOD_PATTERN@, content), |c: CapView| method_call(content, c))
}

fn append_fetches(out: &mut Vec<FetchCall>, more: Vec<FetchCall>)
    ensures
        fetches_view(final(out)@) == fetches_view(old(out)@) + fetches_view(more@),
{
    let ghost added = more@;
    let mut more = more;
    out.append(&mut more);
    assert(fetches_view(out@) =~= fetches_view(old(out)@) + fetches_view(added));
}

/// `fetch` calls from the given matches of [`FETCH_CALL_PATTERN`].
pub fn fetches_from_matches(content: &str, caps: &Vec<Captures>) -> (r: Vec<FetchCall>)
    ensures
        fetches_view(r@) == filter_map(caps_view(caps@), |c: CapView| fetch_call(content@, c)),
{
    let ghost f = |c: CapView| fetch_call(content@, c);
    let mut out: Vec<FetchCall> = Vec::new();
    let mut i: usize = 0;
    while i < caps.len()
        invariant
            i <= caps.len(),
            f == (|c: CapView| fetch_call(content@, c)),
            fetches_view(out@) == filter_map(caps_view(caps@).take(i as int), f),
        decreases caps.len() - i,
    {
        let cap = &caps[i];
        proof {
            lemma_filter_map_step(caps_view(caps@), i as int, f);
            assert(caps_view(caps@)[i as int] == cap_view(*cap));
        }
        let url = group_or_empty_exec(cap, 1);
        let call = FetchCall { method: "GET".to_owned(), url: from_chars(url.as_slice()), line: line_for_offset(content, cap.start) };
        let ghost before = fetches_view(out@);
        out.push(call);
        assert(fetches_view(out@) =~= before.push(fetch_call(content@, cap_view(*cap)).unwrap()));
        i += 1;
    }
    proof {
        lemma_take_full(caps_view(caps@));
    }
    out
}
/// Method-named calls from the given matches of [`AXIOS_METHOD_PATTERN`] or [`REQUESTS_METHOD_PATTERN`].
pub fn method_calls_from_matches(content: &str, caps: &Vec<Captures>) -> (r: Vec<FetchCall>)
    ensures
        fetches_view(r@) == filter_map(caps_view(caps@), |c: CapView| method_call(content@, c)),
{
    let ghost f = |c: CapView| method_call(content@, c);
    let mut out: Vec<FetchCall> = Vec::new();
    let mut i: usize = 0;
    while i < caps.len()
        invariant
            i <= caps.len(),
            f == (|c: CapView| method_call(content@, c)),
            fetches_view(out@) == filter_map(caps_view(caps@).take(i as int), f),
        decreases caps.len() - i,
    {
        let cap = &caps[i];
        proof {
            lemma_filter_map_step(caps_view(caps@), i as int, f);
            assert(caps_view(caps@)[i as int] == cap_view(*cap));
        }
        let m = group_or_empty_exec(cap, 1);
        let method = ascii_upper_exec(m.as_slice());
        let url = group_or_empty_exec(cap, 2);
        let call = FetchCall { method: from_chars(method.as_slice()), url: from_chars(url.as_slice()), line: line_for_offset(content, cap.start) };
        let ghost before = fetches_view(out@);
        out.push(call);
        assert(fetches_view(out@) =~= before.push(method_call(content@, cap_view(*cap)).unwrap()));
        i += 1;
    }
    proof {
        lemma_take_full(caps_view(caps@));
    }
    out
}

/// Every HTTP client call in `content`.
pub fn extract(content: &str) -> (r: Vec<FetchCall>)
    ensures
        fetches_view(r@) == fetch_calls(content@),
{
    let a = find_all(FETCH_CALL_PATTERN, content);
    let b = find_all(AXIOS_METHOD_PATTERN, content);
    let c = find_all(REQUESTS_METHOD_PATTERN, content);
    let mut out = fetches_from_matches(content, &a);
    append_fetches(&mut out, method_calls_from_matches(content, &b));
    append_fetches(&mut out, method_calls_from_matches(content, &c));
    out
}

} // verus!
