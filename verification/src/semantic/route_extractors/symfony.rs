//! Symfony: `#[Route('/path', methods: [..])]` attributes on controller
//! methods; without `methods` the route answers any method (`*`).

use vstd::prelude::*;

use crate::pattern::{
    all_captures, cap_view, caps_view, filter_map, find_all, find_first, first_capture, flat_map,
    get_group, group, group_or_empty, group_or_empty_exec, lemma_filter_map_step,
    lemma_flat_map_step, lemma_take_full, line_for_offset, line_no, line_number, line_of_byte,
    opt_cap_view, CapView, Captures,
};
use crate::text::{
    after_last, after_last_exec, ascii_upper, ascii_upper_exec, from_chars, lines, lines_exec,
    to_chars, views,
};
use super::{
    append_routes, handler_after, handler_after_exec, listed_methods, listed_methods_exec,
    methods_from_match, methods_of,
    opt_view_chars, push_route, push_routes_for_methods, routes_for_methods, routes_view,
    DetectedRoute, RouteView,
};

verus! {

/// A `#[Route(...)]` attribute: the path and the rest of its arguments.
pub const ATTR_PATTERN: &'static str = r#"(?m)^\s*#\[\s*Route\s*\(\s*['"]([^'"]+)['"]([^)]*)\)\s*\]"#;

/// A `methods: [..]` named argument.
pub const METHODS_PATTERN: &'static str = r#"methods\s*:\s*\[([^\]]+)\]"#;

/// A `function` declaration line.
pub const HANDLER_PATTERN: &'static str =
    r#"^\s*(?:public|private|protected)?\s*function\s+([A-Za-z_][A-Za-z0-9_]*)"#;

/// The routes one match of [`ATTR_PATTERN`] on line `i` declares, given
/// the match of the methods list in its arguments and the handler name
/// found after it: one route per listed method, none without a handler.
pub open spec fn symfony_routes_of(
    c: CapView,
    methods: Option<CapView>,
    handler: Option<Seq<char>>,
    i: int,
) -> Seq<RouteView> {
    match handler {
        Some(name) => routes_for_methods(
            methods_of(methods, "*"@),
            group_or_empty(c, 1),
            name,
            line_no(i),
        ),
        None => Seq::empty(),
    }
}

/// The routes on line `i`: one per listed method, when a handler
/// follows within four lines.
pub open spec fn symfony_routes_at(ls: Seq<Seq<char>>, i: int) -> Seq<RouteView> {
    match first_capture(ATTR_PATTERN@, ls[i]) {
        Some(c) => symfony_routes_of(
            c,
            first_capture(METHODS_PATTERN@, group_or_empty(c, 2)),
            handler_after(ls, HANDLER_PATTERN@, i + 1, i + 5),
            i,
        ),
        None => Seq::empty(),
    }
}

/// The routes of one match of [`ATTR_PATTERN`] on line `line_idx`
/// (0-based), given the match of [`METHODS_PATTERN`] in its arguments and
/// the handler name found after it.
pub fn routes_from_match(
    c: &Captures,
    methods: Option<Captures>,
    handler: Option<Vec<char>>,
    line_idx: usize,
) -> (r: Vec<DetectedRoute>)
    ensures
        routes_view(r@) == symfony_routes_of(
            cap_view(*c),
            opt_cap_view(methods),
            opt_view_chars(handler),
            line_idx as int,
        ),
{
    let mut out: Vec<DetectedRoute> = Vec::new();
    let path = group_or_empty_exec(c, 1);
    let ms = methods_from_match(methods, "*");
    match handler {
        Some(name) => {
            push_routes_for_methods(&mut out, &ms, path.as_slice(), name.as_slice(), line_number(line_idx));
        },
        None => {},
    }
    assert(routes_view(out@) =~= symfony_routes_of(
        cap_view(*c),
        opt_cap_view(methods),
        opt_view_chars(handler),
        line_idx as int,
    ));
    out
}

pub open spec fn symfony_routes(content: Seq<char>) -> Seq<RouteView> {
    symfony_line_routes(content)
}

fn routes_at_exec(ls: &Vec<Vec<char>>, i: usize) -> (r: Vec<DetectedRoute>)
    requires
        i < ls@.len(),
    ensures
        routes_view(r@) == symfony_routes_at(views(ls@), i as int),
{
    let line = from_chars(ls[i].as_slice());
    assert(line@ == views(ls@)[i as int]);
    match find_first(ATTR_PATTERN, line.as_str()) {
        Some(c) => {
            let tail = group_or_empty_exec(&c, 2);
            let tail_s = from_chars(tail.as_slice());
            let methods = find_first(METHODS_PATTERN, tail_s.as_str());
            let handler = handler_after_exec(ls, HANDLER_PATTERN, i, 4);
            routes_from_match(&c, methods, handler, i)
        },
        None => {
            let out: Vec<DetectedRoute> = Vec::new();
            assert(routes_view(out@) =~= symfony_routes_at(views(ls@), i as int));
            out
        },
    }
}

/// Routes declared at each line, in order.
pub open spec fn symfony_line_routes(content: Seq<char>) -> Seq<RouteView> {
    let ls = lines(content);
    flat_map(Seq::new(ls.len(), |k: int| k), |k: int| symfony_routes_at(ls, k))
}

/// Every Symfony attribute route in `content`, one per method.
pub fn extract_lines(content: &str) -> (r: Vec<DetectedRoute>)
    ensures
        routes_view(r@) == symfony_line_routes(content@),
{
    let c = to_chars(content);
    let ls = lines_exec(c.as_slice());
    let ghost lv = lines(content@);
    let ghost idx = Seq::new(lv.len(), |k: int| k);
    let ghost g = |k: int| symfony_routes_at(lv, k);
    let mut out: Vec<DetectedRoute> = Vec::new();
    let mut i: usize = 0;
    while i < ls.len()
        invariant
            i <= ls.len(),
            views(ls@) == lv,
            idx == Seq::new(lv.len(), |k: int| k),
            g == (|k: int| symfony_routes_at(lv, k)),
            routes_view(out@) == flat_map(idx.take(i as int), g),
        decreases ls.len() - i,
    {
        proof {
            lemma_flat_map_step(idx, i as int, g);
        }
        let more = routes_at_exec(&ls, i);
        append_routes(&mut out, more);
        i += 1;
    }
    proof {
        lemma_take_full(idx);
    }
    out
}

/// Every Symfony attribute route in `content`, one per method.
pub fn extract(content: &str) -> (r: Vec<DetectedRoute>)
    ensures
        routes_view(r@) == symfony_routes(content@),
{
    extract_lines(content)
}

} // verus!
