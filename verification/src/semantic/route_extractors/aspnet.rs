//! ASP.NET: `[HttpGet("path")]` attributes on controller actions (the
//! action declared within seven lines) and minimal-API `app.MapGet(..)`
//! calls.

use vstd::prelude::*;

use crate::pattern::{
    all_captures, cap_view, caps_view, filter_map, find_all, find_first, first_capture, flat_map,
    get_group, group, group_or_empty, group_or_empty_exec, lemma_filter_map_step,
    lemma_flat_map_step, lemma_take_full, line_for_offset, line_no, line_number, line_of_byte,
    CapView, Captures,
};
use crate::text::{
    after_last, after_last_exec, ascii_upper, ascii_upper_exec, from_chars, lines, lines_exec,
    to_chars, views,
};
use super::{
    append_routes, handler_after, handler_after_exec, listed_methods, listed_methods_exec,
    opt_view_chars, push_route, push_routes_for_methods, routes_for_methods, routes_view,
    DetectedRoute, RouteView,
};

verus! {

/// An `[HttpVerb]` or `[HttpVerb("path")]` attribute line.
pub const HTTP_ATTR_PATTERN: &'static str =
    r#"(?m)^\s*\[\s*Http(Get|Post|Put|Delete|Patch|Options|Head)(?:\(\s*(?:Name\s*=\s*)?["']([^"']*)["']\s*\))?\s*\]"#;

/// A minimal-API `.MapVerb("path", Handler`.
pub const MINIMAL_MAP_PATTERN: &'static str =
    r#"\.Map(Get|Post|Put|Delete|Patch)\s*\(\s*["']([^"']+)["']\s*,\s*([A-Za-z_][A-Za-z0-9_.]*)"#;

/// An action method declaration.
pub const ACTION_PATTERN: &'static str =
    r#"^\s*(?:public|private|protected|internal)?\s*(?:async\s+)?(?:virtual\s+|override\s+)?\S+\s+([A-Za-z_][A-Za-z0-9_]*)\s*\("#;

/// The route one match of [`HTTP_ATTR_PATTERN`] on line `i` declares,
/// given the action name found after it; the path defaults to `/`.
pub open spec fn aspnet_route_of(c: CapView, action: Option<Seq<char>>, i: int) -> Seq<RouteView> {
    match action {
        Some(name) => seq![
            (
                ascii_upper(group_or_empty(c, 1)),
                match group(c, 2) {
                    Some(p) => p,
                    None => "/"@,
                },
                name,
                line_no(i),
            ),
        ],
        None => Seq::empty(),
    }
}

/// The route an attribute on line `i` declares, when an action follows
/// within seven lines.
pub open spec fn aspnet_routes_at(ls: Seq<Seq<char>>, i: int) -> Seq<RouteView> {
    match first_capture(HTTP_ATTR_PATTERN@, ls[i]) {
        Some(c) => aspnet_route_of(c, handler_after(ls, ACTION_PATTERN@, i + 1, i + 8), i),
        None => Seq::empty(),
    }
}

/// The route of one match of [`HTTP_ATTR_PATTERN`] on line `line_idx`
/// (0-based), given the action name found after it.
pub fn route_from_match(c: &Captures, action: Option<Vec<char>>, line_idx: usize) -> (r: Vec<DetectedRoute>)
    ensures
        routes_view(r@) == aspnet_route_of(cap_view(*c), opt_view_chars(action), line_idx as int),
{
    let mut out: Vec<DetectedRoute> = Vec::new();
    match action {
        Some(name) => {
            let m = group_or_empty_exec(c, 1);
            let method = ascii_upper_exec(m.as_slice());
            let path = match get_group(c, 2) {
                Some(p) => p,
                None => to_chars("/"),
            };
            push_route(&mut out, method.as_slice(), path.as_slice(), name.as_slice(), line_number(line_idx));
        },
        None => {},
    }
    assert(routes_view(out@) =~= aspnet_route_of(cap_view(*c), opt_view_chars(action), line_idx as int));
    out
}

/// A minimal-API route: the handler's last dotted segment names it.
pub open spec fn minimal_route(content: Seq<char>, c: CapView) -> Option<RouteView> {
    Some(
        (
            ascii_upper(group_or_empty(c, 1)),
            group_or_empty(c, 2),
            after_last(group_or_empty(c, 3), '.'),
            line_of_byte(content, c.0),
        ),
    )
}

/// Attribute routes first, then minimal-API routes.
pub open spec fn aspnet_routes(content: Seq<char>) -> Seq<RouteView> {
    aspnet_line_routes(content) + filter_map(
        all_captures(MINIMAL_MAP_PATTERN@, content),
        |c: CapView| minimal_route(content, c),
    )
}

fn routes_at_exec(ls: &Vec<Vec<char>>, i: usize) -> (r: Vec<DetectedRoute>)
    requires
        i < ls@.len(),
    ensures
        routes_view(r@) == aspnet_routes_at(views(ls@), i as int),
{
    let line = from_chars(ls[i].as_slice());
    assert(line@ == views(ls@)[i as int]);
    match find_first(HTTP_ATTR_PATTERN, line.as_str()) {
        Some(c) => {
            let action = handler_after_exec(ls, ACTION_PATTERN, i, 7);
            route_from_match(&c, action, i)
        },
        None => {
            let out: Vec<DetectedRoute> = Vec::new();
            assert(routes_view(out@) =~= aspnet_routes_at(views(ls@), i as int));
            out
        },
    }
}

/// Routes declared at each line, in order.
pub open spec fn aspnet_line_routes(content: Seq<char>) -> Seq<RouteView> {
    let ls = lines(content);
    flat_map(Seq::new(ls.len(), |k: int| k), |k: int| aspnet_routes_at(ls, k))
}

/// Attribute routes of every line of `content`.
pub fn extract_lines(content: &str) -> (r: Vec<DetectedRoute>)
    ensures
        routes_view(r@) == aspnet_line_routes(content@),
{
    let c = to_chars(content);
    let ls = lines_exec(c.as_slice());
    let ghost lv = lines(content@);
    let ghost idx = Seq::new(lv.len(), |k: int| k);
    let ghost g = |k: int| aspnet_routes_at(lv, k);
    let mut out: Vec<DetectedRoute> = Vec::new();
    let mut i: usize = 0;
    while i < ls.len()
        invariant
            i <= ls.len(),
            views(ls@) == lv,
            idx == Seq::new(lv.len(), |k: int| k),
            g == (|k: int| aspnet_routes_at(lv, k)),
            routes_view(out@) == flat_map(idx.take(i as int), g),
        decreases ls.len() - i,
    {
        proof {
            lemma_flat_map_step(idx, i as int, g);
        }
        let more = routes_at_exec(&ls, i);
        append_routes(&mut out, more);
        i += 1;
    }
    proof {
        lemma_take_full(idx);
    }
    out
}
/// Minimal-API routes from the given matches of [`MINIMAL_MAP_PATTERN`].
pub fn minimal_from_matches(content: &str, caps: &Vec<Captures>) -> (r: Vec<DetectedRoute>)
    ensures
        routes_view(r@) == filter_map(caps_view(caps@), |c: CapView| minimal_route(content@, c)),
{
    let ghost f = |c: CapView| minimal_route(content@, c);
    let mut out: Vec<DetectedRoute> = Vec::new();
    let mut i: usize = 0;
    while i < caps.len()
        invariant
            i <= caps.len(),
            f == (|c: CapView| minimal_route(content@, c)),
            routes_view(out@) == filter_map(caps_view(caps@).take(i as int), f),
        decreases caps.len() - i,
    {
        let cap = &caps[i];
        proof {
            lemma_filter_map_step(caps_view(caps@), i as int, f);
            assert(caps_view(caps@)[i as int] == cap_view(*cap));
        }
        let m = group_or_empty_exec(cap, 1);
        let method = ascii_upper_exec(m.as_slice());
        let path = group_or_empty_exec(cap, 2);
        let full = group_or_empty_exec(cap, 3);
        let handler = after_last_exec(full.as_slice(), '.');
        push_route(&mut out, method.as_slice(), path.as_slice(), handler.as_slice(), line_for_offset(content, cap.start));
        i += 1;
    }
    proof {
        lemma_take_full(caps_view(caps@));
    }
    out
}

/// Every attribute and minimal-API route in `content`.
pub fn extract(content: &str) -> (r: Vec<DetectedRoute>)
    ensures
        routes_view(r@) == aspnet_routes(content@),
{
    let mut out = extract_lines(content);
    let caps = find_all(MINIMAL_MAP_PATTERN, content);
    append_routes(&mut out, minimal_from_matches(content, &caps));
    out
}

} // verus!
