//! Django `urls.py`: `path(..)`, `re_path(..)` and `url(..)` calls. A
//! Django route accepts every method (`*`); the view picks.

use vstd::prelude::*;

use crate::pattern::{
    all_captures, cap_view, caps_view, filter_map, find_all, find_first, first_capture, flat_map,
    get_group, group, group_or_empty, group_or_empty_exec, lemma_filter_map_step,
    lemma_flat_map_step, lemma_take_full, line_for_offset, line_no, line_number, line_of_byte,
    CapView, Captures,
};
use crate::text::{
    after_last, after_last_exec, ascii_upper, ascii_upper_exec, from_chars, lines, lines_exec,
    to_chars, views,
};
use super::{
    append_routes, handler_after, handler_after_exec, listed_methods, listed_methods_exec,
    opt_view_chars, push_route, push_routes_for_methods, routes_for_methods, routes_view,
    DetectedRoute, RouteView,
};

verus! {

/// A `path` / `re_path` / `url` call with its route string and view.
pub const PATH_CALL_PATTERN: &'static str =
    r#"(?m)^\s*(?:\w+\.)*(?:path|re_path|url)\s*\(\s*(?:r?["']([^"']+)["'])\s*,\s*([A-Za-z_][A-Za-z0-9_.]*)"#;

/// The route one match of [`PATH_CALL_PATTERN`] on line `i` declares:
/// the view's last dotted segment is the handler; an empty path or
/// handler yields nothing.
pub open spec fn django_route_of(c: CapView, i: int) -> Seq<RouteView> {
    let path = group_or_empty(c, 1);
    let handler = after_last(group_or_empty(c, 2), '.');
    if handler.len() == 0 || path.len() == 0 {
        Seq::empty()
    } else {
        seq![("*"@, path, handler, line_no(i))]
    }
}

/// The route on line `i`.
pub open spec fn django_routes_at(ls: Seq<Seq<char>>, i: int) -> Seq<RouteView> {
    match first_capture(PATH_CALL_PATTERN@, ls[i]) {
        Some(c) => django_route_of(c, i),
        None => Seq::empty(),
    }
}

/// The route of one match of [`PATH_CALL_PATTERN`] on line `line_idx`
/// (0-based).
pub fn route_from_match(c: &Captures, line_idx: usize) -> (r: Vec<DetectedRoute>)
    ensures
        routes_view(r@) == django_route_of(cap_view(*c), line_idx as int),
{
    let mut out: Vec<DetectedRoute> = Vec::new();
    let path = group_or_empty_exec(c, 1);
    let full = group_or_empty_exec(c, 2);
    let handler = after_last_exec(full.as_slice(), '.');
    if handler.len() > 0 && path.len() > 0 {
        let star = to_chars("*");
        push_route(&mut out, star.as_slice(), path.as_slice(), handler.as_slice(), line_number(line_idx));
    }
    assert(routes_view(out@) =~= django_route_of(cap_view(*c), line_idx as int));
    out
}

pub open spec fn django_routes(content: Seq<char>) -> Seq<RouteView> {
    django_line_routes(content)
}

fn routes_at_exec(ls: &Vec<Vec<char>>, i: usize) -> (r: Vec<DetectedRoute>)
    requires
        i < ls@.len(),
    ensures
        routes_view(r@) == django_routes_at(views(ls@), i as int),
{
    let line = from_chars(ls[i].as_slice());
    assert(line@ == views(ls@)[i as int]);
    match find_first(PATH_CALL_PATTERN, line.as_str()) {
        Some(c) => route_from_match(&c, i),
        None => {
            let out: Vec<DetectedRoute> = Vec::new();
            assert(routes_view(out@) =~= django_routes_at(views(ls@), i as int));
            out
        },
    }
}

/// Routes declared at each line, in order.
pub open spec fn django_line_routes(content: Seq<char>) -> Seq<RouteView> {
    let ls = lines(content);
    flat_map(Seq::new(ls.len(), |k: int| k), |k: int| django_routes_at(ls, k))
}

/// Every route call of a `urls.py` source.
pub fn extract_lines(content: &str) -> (r: Vec<DetectedRoute>)
    ensures
        routes_view(r@) == django_line_routes(content@),
{
    let c = to_chars(content);
    let ls = lines_exec(c.as_slice());
    let ghost lv = lines(content@);
    let ghost idx = Seq::new(lv.len(), |k: int| k);
    let ghost g = |k: int| django_routes_at(lv, k);
    let mut out: Vec<DetectedRoute> = Vec::new();
    let mut i: usize = 0;
    while i < ls.len()
        invariant
            i <= ls.len(),
            views(ls@) == lv,
            idx == Seq::new(lv.len(), |k: int| k),
            g == (|k: int| django_routes_at(lv, k)),
            routes_view(out@) == flat_map(idx.take(i as int), g),
        decreases ls.len() - i,
    {
        proof {
            lemma_flat_map_step(idx, i as int, g);
        }
        let more = routes_at_exec(&ls, i);
        append_routes(&mut out, more);
        i += 1;
    }
    proof {
        lemma_take_full(idx);
    }
    out
}

/// Every route call of a `urls.py` source.
pub fn extract(content: &str) -> (r: Vec<DetectedRoute>)
    ensures
        routes_view(r@) == django_routes(content@),
{
    extract_lines(content)
}

} // verus!
