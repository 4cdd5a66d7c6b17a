//! Laravel: `Route::get('/path', 'Controller@action')`,
//! `Route::post('/path', [Controller::class, 'action'])` and the bare
//! identifier form.

use vstd::prelude::*;

use crate::pattern::{
    all_captures, cap_view, caps_view, filter_map, find_all, find_first, first_capture, flat_map,
    get_group, group, group_or_empty, group_or_empty_exec, lemma_filter_map_step,
    lemma_flat_map_step, lemma_take_full, line_for_offset, line_no, line_number, line_of_byte,
    CapView, Captures,
};
use crate::text::{
    after_last, after_last_exec, ascii_upper, ascii_upper_exec, from_chars, lines, lines_exec,
    to_chars, views,
};
use crate::text::{rfind_any, rfind_any_exec, sub_chars};
use super::{
    append_routes, handler_after, handler_after_exec, listed_methods, listed_methods_exec,
    opt_view_chars, push_route, push_routes_for_methods, routes_for_methods, routes_view,
    DetectedRoute, RouteView,
};

verus! {

/// A `Route::verb(path, handler)` call in any of the three handler forms.
pub const ROUTE_HELPER_PATTERN: &'static str =
    r#"Route::(get|post|put|delete|patch|options|any)\s*\(\s*['"]([^'"]+)['"]\s*,\s*(?:\[[^,\]]+,\s*['"]([^'"]+)['"]|['"][^@'"]*@([A-Za-z_][A-Za-z0-9_]*)['"]|([A-Za-z_][A-Za-z0-9_\\]*))"#;

/// The handler text: whichever of the three alternatives matched.
pub open spec fn handler_text(c: CapView) -> Seq<char> {
    match group(c, 3) {
        Some(h) => h,
        None => match group(c, 4) {
            Some(h) => h,
            None => group_or_empty(c, 5),
        },
    }
}

/// The text after the last `\` or `:`.
pub open spec fn last_segment(s: Seq<char>) -> Seq<char> {
    match rfind_any(s, seq!['\\', ':']) {
        Some(i) => s.skip(i + 1),
        None => s,
    }
}

/// The route of one call; none when method, path or handler is empty.
pub open spec fn helper_route(content: Seq<char>, c: CapView) -> Option<RouteView> {
    let method = ascii_upper(group_or_empty(c, 1));
    let path = group_or_empty(c, 2);
    let handler = last_segment(handler_text(c));
    if method.len() == 0 || path.len() == 0 || handler.len() == 0 {
        None
    } else {
        Some((method, path, handler, line_of_byte(content, c.0)))
    }
}

pub open spec fn laravel_routes(content: Seq<char>) -> Seq<RouteView> {
    filter_map(all_captures(ROUTE_HELPER_PATTERN@, content), |c: CapView| helper_route(content, c))
}

fn last_segment_exec(s: &[char]) -> (r: Vec<char>)
    ensures
        r@ == last_segment(s@),
{
    let mut set: Vec<char> = Vec::new();
    set.push('\\');
    set.push(':');
    assert(set@ =~= seq!['\\', ':']);
    proof {
        crate::text::lemma_rfind_any(s@, set@);
    }
    let slen = s.len();
    match rfind_any_exec(s, set.as_slice()) {
        Some(i) => sub_chars(s, i + 1, slen),
        None => sub_chars(s, 0, slen),
    }
}

/// Routes from the given matches of [`ROUTE_HELPER_PATTERN`].
pub fn routes_from_matches(content: &str, caps: &Vec<Captures>) -> (r: Vec<DetectedRoute>)
    ensures
        routes_view(r@) == filter_map(caps_view(caps@), |c: CapView| helper_route(content@, c)),
{
    let ghost f = |c: CapView| helper_route(content@, c);
    let mut out: Vec<DetectedRoute> = Vec::new();
    let mut i: usize = 0;
    while i < caps.len()
        invariant
            i <= caps.len(),
            f == (|c: CapView| helper_route(content@, c)),
            routes_view(out@) == filter_map(caps_view(caps@).take(i as int), f),
        decreases caps.len() - i,
    {
        let cap = &caps[i];
        proof {
            lemma_filter_map_step(caps_view(caps@), i as int, f);
            assert(caps_view(caps@)[i as int] == cap_view(*cap));
        }
        let m = group_or_empty_exec(cap, 1);
        let method = ascii_upper_exec(m.as_slice());
        let path = group_or_empty_exec(cap, 2);
        let text = match get_group(cap, 3) {
            Some(h) => h,
            None => match get_group(cap, 4) {
                Some(h) => h,
                None => group_or_empty_exec(cap, 5),
            },
        };
        let handler = last_segment_exec(text.as_slice());
        if method.len() > 0 && path.len() > 0 && handler.len() > 0 {
            push_route(&mut out, method.as_slice(), path.as_slice(), handler.as_slice(), line_for_offset(content, cap.start));
        }
        i += 1;
    }
    proof {
        lemma_take_full(caps_view(caps@));
    }
    out
}

/// Every `Route::verb(..)` declaration in `content`.
pub fn extract(content: &str) -> (r: Vec<DetectedRoute>)
    ensures
        routes_view(r@) == laravel_routes(content@),
{
    let caps = find_all(ROUTE_HELPER_PATTERN, content);
    routes_from_matches(content, &caps)
}

} // verus!
