//! FastAPI: `@app.get("/path")`-style decorators, the handler being the
//! next `def` within four lines.

use vstd::prelude::*;

use crate::pattern::{
    all_captures, cap_view, caps_view, filter_map, find_all, find_first, first_capture, flat_map,
    get_group, group, group_or_empty, group_or_empty_exec, lemma_filter_map_step,
    lemma_flat_map_step, lemma_take_full, line_for_offset, line_no, line_number, line_of_byte,
    CapView, Captures,
};
use crate::text::{
    after_last, after_last_exec, ascii_upper, ascii_upper_exec, from_chars, lines, lines_exec,
    to_chars, views,
};
use super::{
    append_routes, handler_after, handler_after_exec, listed_methods, listed_methods_exec,
    opt_view_chars, push_route, push_routes_for_methods, routes_for_methods, routes_view,
    DetectedRoute, RouteView,
};

verus! {

/// A method decorator on a router or app object.
pub const DECORATOR_PATTERN: &'static str =
    r#"(?m)^\s*@\s*(?:\w+\.)+(get|post|put|delete|patch|options|head)\s*\(\s*["']([^"']+)["']"#;

/// A `def` / `async def` line.
pub const HANDLER_PATTERN: &'static str = r#"^\s*(?:async\s+)?def\s+([A-Za-z_][A-Za-z0-9_]*)"#;

/// The route a decorator match on line `i` declares, given the handler
/// name found after it: none without a named handler.
pub open spec fn fastapi_route_of(c: CapView, handler: Option<Seq<char>>, i: int) -> Seq<RouteView> {
    match handler {
        Some(name) => if name.len() > 0 {
            seq![(ascii_upper(group_or_empty(c, 1)), group_or_empty(c, 2), name, line_no(i))]
        } else {
            Seq::empty()
        },
        None => Seq::empty(),
    }
}

/// The route a decorator on line `i` declares, when a named handler
/// follows within four lines.
pub open spec fn fastapi_routes_at(ls: Seq<Seq<char>>, i: int) -> Seq<RouteView> {
    match first_capture(DECORATOR_PATTERN@, ls[i]) {
        Some(c) => fastapi_route_of(c, handler_after(ls, HANDLER_PATTERN@, i + 1, i + 5), i),
        None => Seq::empty(),
    }
}

/// The route of one match of [`DECORATOR_PATTERN`] on line `line_idx`
/// (0-based), given the handler name found after it.
pub fn route_from_match(decorator: &Captures, handler: Option<Vec<char>>, line_idx: usize) -> (r: Vec<DetectedRoute>)
    ensures
        routes_view(r@) == fastapi_route_of(cap_view(*decorator), opt_view_chars(handler), line_idx as int),
{
    let mut out: Vec<DetectedRoute> = Vec::new();
    match handler {
        Some(name) => {
            if name.len() > 0 {
                let m = group_or_empty_exec(decorator, 1);
                let method = ascii_upper_exec(m.as_slice());
                let path = group_or_empty_exec(decorator, 2);
                push_route(&mut out, method.as_slice(), path.as_slice(), name.as_slice(), line_number(line_idx));
            }
        },
        None => {},
    }
    assert(routes_view(out@) =~= fastapi_route_of(cap_view(*decorator), opt_view_chars(handler), line_idx as int));
    out
}

pub open spec fn fastapi_routes(content: Seq<char>) -> Seq<RouteView> {
    fastapi_line_routes(content)
}

fn routes_at_exec(ls: &Vec<Vec<char>>, i: usize) -> (r: Vec<DetectedRoute>)
    requires
        i < ls@.len(),
    ensures
        routes_view(r@) == fastapi_routes_at(views(ls@), i as int),
{
    let line = from_chars(ls[i].as_slice());
    assert(line@ == views(ls@)[i as int]);
    match find_first(DECORATOR_PATTERN, line.as_str()) {
        Some(c) => {
            let handler = handler_after_exec(ls, HANDLER_PATTERN, i, 4);
            route_from_match(&c, handler, i)
        },
        None => {
            let out: Vec<DetectedRoute> = Vec::new();
            assert(routes_view(out@) =~= fastapi_routes_at(views(ls@), i as int));
            out
        },
    }
}

/// Routes declared at each line, in order.
pub open spec fn fastapi_line_routes(content: Seq<char>) -> Seq<RouteView> {
    let ls = lines(content);
    flat_map(Seq::new(ls.len(), |k: int| k), |k: int| fastapi_routes_at(ls, k))
}

/// Every decorated FastAPI route in `content`.
pub fn extract_lines(content: &str) -> (r: Vec<DetectedRoute>)
    ensures
        routes_view(r@) == fastapi_line_routes(content@),
{
    let c = to_chars(content);
    let ls = lines_exec(c.as_slice());
    let ghost lv = lines(content@);
    let ghost idx = Seq::new(lv.len(), |k: int| k);
    let ghost g = |k: int| fastapi_routes_at(lv, k);
    let mut out: Vec<DetectedRoute> = Vec::new();
    let mut i: usize = 0;
    while i < ls.len()
        invariant
            i <= ls.len(),
            views(ls@) == lv,
            idx == Seq::new(lv.len(), |k: int| k),
            g == (|k: int| fastapi_routes_at(lv, k)),
            routes_view(out@) == flat_map(idx.take(i as int), g),
        decreases ls.len() - i,
    {
        proof {
            lemma_flat_map_step(idx, i as int, g);
        }
        let more = routes_at_exec(&ls, i);
        append_routes(&mut out, more);
        i += 1;
    }
    proof {
        lemma_take_full(idx);
    }
    out
}

/// Every decorated FastAPI route in `content`.
pub fn extract(content: &str) -> (r: Vec<DetectedRoute>)
    ensures
        routes_view(r@) == fastapi_routes(content@),
{
    extract_lines(content)
}

} // verus!
