//! Framework-specific HTTP route extractors.
//!
//! Each submodule reads one framework's route declarations from source
//! text and reports `(method, path, handler name, line)`; the pipeline
//! links the handler by name. Extraction is best-effort: a missed
//! route only lacks an edge.

use vstd::prelude::*;

use crate::paths::components;
use crate::pattern::{
    cap_view, filter_map, find_first, first_capture, group_or_empty, group_or_empty_exec,
    lemma_filter_map_step, lemma_take_full, opt_cap_view, CapView, Captures,
};
use crate::text::{
    ascii_lower, ascii_lower_exec, ascii_upper, ascii_upper_exec, from_chars, quotes, rfind_any,
    split_char, split_char_exec, to_chars, trim, trim_class, trim_exec, trim_quotes_exec, views,
};

pub mod aspnet;
pub mod django;
pub mod fastapi;
pub mod flask;
pub mod laravel;
pub mod symfony;

verus! {

/// One detected HTTP route.
#[derive(Debug, Clone, PartialEq, Eq)]
pub struct DetectedRoute {
    /// HTTP method in uppercase (`*` for any).
    pub method: String,
    /// URL path pattern as written.
    pub path: String,
    /// Bare name of the handler function or method.
    pub handler_name: String,
    /// 1-based line of the declaration.
    pub line: u32,
}

pub type RouteView = (Seq<char>, Seq<char>, Seq<char>, u32);

impl View for DetectedRoute {
    type V = RouteView;

    open spec fn view(&self) -> RouteView {
        (self.method@, self.path@, self.handler_name@, self.line)
    }
}

pub open spec fn routes_view(v: Seq<DetectedRoute>) -> Seq<RouteView> {
    v.map_values(|r: DetectedRoute| r@)
}

pub fn push_route(out: &mut Vec<DetectedRoute>, method: &[char], path: &[char], handler: &[char], line: u32)
    ensures
        routes_view(final(out)@) == routes_view(old(out)@).push((method@, path@, handler@, line)),
{
    out.push(
        DetectedRoute {
            method: from_chars(method),
            path: from_chars(path),
            handler_name: from_chars(handler),
            line,
        },
    );
    assert(routes_view(out@) =~= routes_view(old(out)@).push((method@, path@, handler@, line)));
}

pub fn append_routes(out: &mut Vec<DetectedRoute>, more: Vec<DetectedRoute>)
    ensures
        routes_view(final(out)@) == routes_view(old(out)@) + routes_view(more@),
{
    let ghost added = more@;
    let mut more = more;
    out.append(&mut more);
    assert(routes_view(out@) =~= routes_view(old(out)@) + routes_view(added));
}

/// Group 1 of the first line in `[from, to)` that `pattern` matches.
pub open spec fn handler_after(lines: Seq<Seq<char>>, pattern: Seq<char>, from: int, to: int) -> Option<
    Seq<char>,
>
    decreases to - from,
{
    if from < 0 || from >= to || from >= lines.len() {
        None
    } else {
        match first_capture(pattern, lines[from]) {
            Some(c) => Some(group_or_empty(c, 1)),
            None => handler_after(lines, pattern, from + 1, to),
        }
    }
}

/// [`handler_after`] over the `window` lines after line `i`.
pub fn handler_after_exec(lines: &Vec<Vec<char>>, pattern: &str, i: usize, window: usize) -> (r:
    Option<Vec<char>>)
    ensures
        opt_view_chars(r) == handler_after(views(lines@), pattern@, i + 1, i + 1 + window),
{
    let ghost lv = views(lines@);
    if i >= lines.len() {
        return None;
    }
    let to: usize = if window < lines.len() - i - 1 {
        i + 1 + window
    } else {
        lines.len()
    };
    let mut j: usize = i + 1;
    while j < to
        invariant
            i + 1 <= j,
            to <= lines@.len(),
            lv == views(lines@),
            to == i + 1 + window || to == lines@.len(),
            to >= lines@.len() || to == i + 1 + window,
            to <= i + 1 + window,
            handler_after(lv, pattern@, i + 1, i + 1 + window) == handler_after(
                lv,
                pattern@,
                j as int,
                i + 1 + window,
            ),
        decreases to - j,
    {
        let line = from_chars(lines[j].as_slice());
        assert(line@ == lv[j as int]);
        match find_first(pattern, line.as_str()) {
            Some(c) => {
                let g = group_or_empty_exec(&c, 1);
                assert(handler_after(lv, pattern@, j as int, i + 1 + window) == Some(g@));
                return Some(g);
            },
            None => {},
        }
        j += 1;
    }
    None
}

pub open spec fn opt_view_chars(o: Option<Vec<char>>) -> Option<Seq<char>> {
    match o {
        Some(v) => Some(v@),
        None => None,
    }
}

/// One entry of a `methods` list: trimmed, unquoted, upper-cased.
pub open spec fn method_item(s: Seq<char>) -> Seq<char> {
    ascii_upper(trim_class(trim(s), false, quotes()))
}

/// The methods a match of a `[..]` list pattern names (its non-empty
/// entries), or just `default` without a match.
pub open spec fn methods_of(m: Option<CapView>, default: Seq<char>) -> Seq<Seq<char>> {
    match m {
        Some(m) => filter_map(
            split_char(group_or_empty(m, 1), ','),
            |s: Seq<char>|
                if method_item(s).len() > 0 {
                    Some(method_item(s))
                } else {
                    None
                },
        ),
        None => seq![default],
    }
}

/// The methods an attribute tail lists (the non-empty entries of the
/// first `[..]` list `pattern` finds), or just `default`.
pub open spec fn listed_methods(tail: Seq<char>, pattern: Seq<char>, default: Seq<char>) -> Seq<
    Seq<char>,
> {
    methods_of(first_capture(pattern, tail), default)
}

/// The methods of a `[..]` list match, or just `default` without one.
pub fn methods_from_match(m: Option<Captures>, default: &str) -> (r: Vec<Vec<char>>)
    ensures
        views(r@) == methods_of(opt_cap_view(m), default@),
{
    match m {
        Some(m) => {
            let list = group_or_empty_exec(&m, 1);
            let items = split_char_exec(list.as_slice(), ',');
            let ghost iv = views(items@);
            let ghost f = |s: Seq<char>|
                if method_item(s).len() > 0 {
                    Some(method_item(s))
                } else {
                    None
                };
            let mut out: Vec<Vec<char>> = Vec::new();
            let mut k: usize = 0;
            while k < items.len()
                invariant
                    k <= items.len(),
                    iv == views(items@),
                    f == (|s: Seq<char>|
                        if method_item(s).len() > 0 {
                            Some(method_item(s))
                        } else {
                            None
                        }),
                    views(out@) == filter_map(iv.take(k as int), f),
                decreases items.len() - k,
            {
                proof {
                    lemma_filter_map_step(iv, k as int, f);
                }
                assert(iv[k as int] == items@[k as int]@);
                let t = trim_exec(items[k].as_slice());
                let u = trim_quotes_exec(t.as_slice());
                let up = ascii_upper_exec(u.as_slice());
                if up.len() > 0 {
                    let ghost before = views(out@);
                    out.push(up);
                    assert(views(out@) =~= before.push(method_item(iv[k as int])));
                }
                k += 1;
            }
            proof {
                lemma_take_full(iv);
            }
            out
        },
        None => {
            let mut out: Vec<Vec<char>> = Vec::new();
            out.push(to_chars(default));
            assert(views(out@) =~= seq![default@]);
            out
        },
    }
}

pub fn listed_methods_exec(tail: &str, pattern: &str, default: &str) -> (r: Vec<Vec<char>>)
    ensures
        views(r@) == listed_methods(tail@, pattern@, default@),
{
    let m = find_first(pattern, tail);
    methods_from_match(m, default)
}

/// One route per method, all with the same path, handler and line.
pub open spec fn routes_for_methods(
    methods: Seq<Seq<char>>,
    path: Seq<char>,
    handler: Seq<char>,
    line: u32,
) -> Seq<RouteView> {
    methods.map_values(|m: Seq<char>| (m, path, handler, line))
}

pub fn push_routes_for_methods(
    out: &mut Vec<DetectedRoute>,
    methods: &Vec<Vec<char>>,
    path: &[char],
    handler: &[char],
    line: u32,
)
    ensures
        routes_view(final(out)@) == routes_view(old(out)@) + routes_for_methods(
            views(methods@),
            path@,
            handler@,
            line,
        ),
{
    let ghost start = routes_view(out@);
    let mut k: usize = 0;
    while k < methods.len()
        invariant
            k <= methods.len(),
            routes_view(out@) == start + routes_for_methods(
                views(methods@).take(k as int),
                path@,
                handler@,
                line,
            ),
        decreases methods.len() - k,
    {
        push_route(out, methods[k].as_slice(), path, handler, line);
        assert(views(methods@).take(k + 1) =~= views(methods@).take(k as int).push(
            methods@[k as int]@,
        ));
        k += 1;
        assert(routes_view(out@) =~= start + routes_for_methods(
            views(methods@).take(k as int),
            path@,
            handler@,
            line,
        ));
    }
    assert(views(methods@).take(methods.len() as int) =~= views(methods@));
}

// ── dispatch by file ────────────────────────────────────────────────

/// `Path::file_name`: the last component, unless it is the root or a
/// `.` / `..` component.
pub open spec fn file_name(path: Seq<char>) -> Option<Seq<char>> {
    let c = components(path);
    if c.len() == 0 {
        None
    } else {
        let last = c.last();
        if last == seq!['/'] || last == seq!['.'] || last == seq!['.', '.'] {
            None
        } else {
            Some(last)
        }
    }
}

/// `Path::extension`: what follows the last `.` of the file name,
/// unless that dot is its first character.
pub open spec fn extension(path: Seq<char>) -> Option<Seq<char>> {
    match file_name(path) {
        Some(f) => match rfind_any(f, seq!['.']) {
            Some(i) => if i == 0 {
                None
            } else {
                Some(f.skip(i + 1))
            },
            None => None,
        },
        None => None,
    }
}

/// The extractors a file goes through, by lower-cased extension (and,
/// for Django, the file name `urls.py`), concatenated in order.
pub open spec fn extract_all_spec(path: Seq<char>, content: Seq<char>) -> Seq<RouteView> {
    let ext = match extension(path) {
        Some(e) => ascii_lower(e),
        None => Seq::empty(),
    };
    if ext == "py"@ {
        (if file_name(path) == Some("urls.py"@) {
            django::django_routes(content)
        } else {
            Seq::empty()
        }) + fastapi::fastapi_routes(content) + flask::flask_routes(content)
    } else if ext == "php"@ {
        laravel::laravel_routes(content) + symfony::symfony_routes(content)
    } else if ext == "cs"@ {
        aspnet::aspnet_routes(content)
    } else {
        Seq::empty()
    }
}

fn file_name_exec(path: &str) -> (r: Option<Vec<char>>)
    ensures
        opt_view_chars(r) == file_name(path@),
{
    let p = to_chars(path);
    let mut c = crate::paths::components_exec(p.as_slice());
    if c.len() == 0 {
        return None;
    }
    let ghost cv = views(c@);
    let last = c.pop().unwrap();
    assert(last@ == cv.last());
    let n = last.len();
    let root = n == 1 && last[0] == '/';
    let dot = n == 1 && last[0] == '.';
    let dotdot = n == 2 && last[0] == '.' && last[1] == '.';
    assert(root == (last@ == seq!['/'])) by {
        if last@ == seq!['/'] {
            assert(last@[0] == '/');
        }
        if root {
            assert(last@ =~= seq!['/']);
        }
    }
    assert(dot == (last@ == seq!['.'])) by {
        if last@ == seq!['.'] {
            assert(last@[0] == '.');
        }
        if dot {
            assert(last@ =~= seq!['.']);
        }
    }
    assert(dotdot == (last@ == seq!['.', '.'])) by {
        if last@ == seq!['.', '.'] {
            assert(last@[0] == '.' && last@[1] == '.');
        }
        if dotdot {
            assert(last@ =~= seq!['.', '.']);
        }
    }
    if root || dot || dotdot {
        None
    } else {
        Some(last)
    }
}

pub fn extension_exec(path: &str) -> (r: Option<Vec<char>>)
    ensures
        opt_view_chars(r) == extension(path@),
{
    match file_name_exec(path) {
        Some(f) => {
            let mut dot: Vec<char> = Vec::new();
            dot.push('.');
            assert(dot@ =~= seq!['.']);
            proof {
                crate::text::lemma_rfind_any(f@, dot@);
            }
            let flen = f.len();
            match crate::text::rfind_any_exec(f.as_slice(), dot.as_slice()) {
                Some(i) => {
                    if i == 0 {
                        None
                    } else {
                        Some(crate::text::sub_chars(f.as_slice(), i + 1, flen))
                    }
                },
                None => None,
            }
        },
        None => None,
    }
}

/// Run the extractors that apply to a file, chosen by its extension.
pub fn extract_all(path: &str, content: &str) -> (r: Vec<DetectedRoute>)
    ensures
        routes_view(r@) == extract_all_spec(path@, content@),
{
    let ext = match extension_exec(path) {
        Some(e) => ascii_lower_exec(e.as_slice()),
        None => Vec::new(),
    };
    let mut out: Vec<DetectedRoute> = Vec::new();
    if crate::text::str_eq_chars("py", ext.as_slice()) {
        let is_urls = match file_name_exec(path) {
            Some(f) => crate::text::str_eq_chars("urls.py", f.as_slice()),
            None => false,
        };
        assert(is_urls == (file_name(path@) == Some("urls.py"@)));
        if is_urls {
            append_routes(&mut out, django::extract(content));
        }
        append_routes(&mut out, fastapi::extract(content));
        append_routes(&mut out, flask::extract(content));
    } else if crate::text::str_eq_chars("php", ext.as_slice()) {
        append_routes(&mut out, laravel::extract(content));
        append_routes(&mut out, symfony::extract(content));
    } else if crate::text::str_eq_chars("cs", ext.as_slice()) {
        append_routes(&mut out, aspnet::extract(content));
    }
    assert(routes_view(out@) =~= extract_all_spec(path@, content@));
    out
}

} // verus!
