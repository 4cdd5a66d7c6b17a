//! Route and MCP tool detection: file-based routing conventions,
//! decorator and call patterns, and the statements that record routes,
//! tools and the fetches that reach them.

use vstd::prelude::*;

use crate::chars::{is_alphanumeric, lowercase_text, str_to_lowercase, unicode_alphanumeric};
use crate::pattern::{filter_map, lemma_filter_map_step, lemma_map_push, lemma_take_full};
use crate::pipeline::imports::cypher_escape_spec;
use crate::text::{
    chars_eq, contains, contains_exec, decimal, decimal_exec, ends_with, ends_with_str, find,
    find_exec, from_chars, index_of_char_from, index_of_char_from_exec, lemma_index_of_char_from,
    lemma_starts_with_char, lines, lines_exec, push_all, push_str_chars, remove_all,
    remove_all_exec, replace_all, replace_all_exec, replace_char, replace_char_exec,
    replace_char_with, replace_char_with_exec, rfind_any, rfind_any_exec, starts_with,
    starts_with_str, strip_prefix, strip_prefix_str, sub_chars, to_chars, trim, trim_end_matches,
    trim_end_matches_str, trim_exec, trim_start_matches, trim_start_matches_str, views,
};

verus! {

/// A route found in a file: method (`*` for any), URL path, the
/// qualified name of its handler and the file.
pub struct DetectedRoute {
    pub method: String,
    pub path: String,
    pub handler_qname: String,
    pub source_file: String,
}

pub type RouteView = (Seq<char>, Seq<char>, Seq<char>, Seq<char>);

impl View for DetectedRoute {
    type V = RouteView;

    open spec fn view(&self) -> RouteView {
        (self.method@, self.path@, self.handler_qname@, self.source_file@)
    }
}

/// An MCP tool: its registered name and its handler's qualified name.
pub struct DetectedTool {
    pub name: String,
    pub handler_qname: String,
}

pub type ToolView = (Seq<char>, Seq<char>);

impl View for DetectedTool {
    type V = ToolView;

    open spec fn view(&self) -> ToolView {
        (self.name@, self.handler_qname@)
    }
}

pub open spec fn routes_view(v: Seq<DetectedRoute>) -> Seq<RouteView> {
    v.map_values(|r: DetectedRoute| r@)
}

pub open spec fn tools_view(v: Seq<DetectedTool>) -> Seq<ToolView> {
    v.map_values(|t: DetectedTool| t@)
}

fn push_route(routes: &mut Vec<DetectedRoute>, method: &[char], path: &[char], handler: &[char], file: &[char])
    ensures
        routes_view(final(routes)@) == routes_view(old(routes)@).push((method@, path@, handler@, file@)),
{
    let r = DetectedRoute {
        method: from_chars(method),
        path: from_chars(path),
        handler_qname: from_chars(handler),
        source_file: from_chars(file),
    };
    proof {
        lemma_map_push(routes@, r, |x: DetectedRoute| x@);
    }
    routes.push(r);
}

// ── small text helpers ──────────────────────────────────────────────

/// Backslashes become forward slashes.
pub fn normalize_path(s: &str) -> (r: String)
    ensures
        r@ == replace_char(s@, '\\', '/'),
{
    let c = to_chars(s);
    from_chars(replace_char_exec(c.as_slice(), '\\', '/').as_slice())
}

/// The first quoted argument: after optional whitespace, a `"` or `'`
/// and the text up to the next quote of the same kind.
pub open spec fn string_arg(s: Seq<char>) -> Option<Seq<char>> {
    let t = trim(s);
    if starts_with(t, seq!['"']) {
        match index_of_char_from(t.skip(1), '"', 0) {
            Some(e) => Some(t.skip(1).take(e)),
            None => None,
        }
    } else if starts_with(t, seq!['\'']) {
        match index_of_char_from(t.skip(1), '\'', 0) {
            Some(e) => Some(t.skip(1).take(e)),
            None => None,
        }
    } else {
        None
    }
}

fn quoted_after(t: &[char], q: char) -> (r: Option<Vec<char>>)
    requires
        t@.len() > 0,
    ensures
        crate::text::opt_view(r) == match index_of_char_from(t@.skip(1), q, 0) {
            Some(e) => Some(t@.skip(1).take(e)),
            None => None,
        },
{
    let rest = sub_chars(t, 1, t.len());
    assert(rest@ =~= t@.skip(1));
    proof {
        lemma_index_of_char_from(rest@, q, 0);
    }
    match index_of_char_from_exec(rest.as_slice(), q, 0) {
        Some(e) => {
            let v = sub_chars(rest.as_slice(), 0, e);
            assert(v@ =~= rest@.take(e as int));
            Some(v)
        },
        None => None,
    }
}

/// The first quoted string argument of a call's argument text.
pub fn extract_string_arg(s: &str) -> (r: Option<String>)
    ensures
        crate::pattern::opt_string_view(r) == string_arg(s@),
{
    let c = to_chars(s);
    let t = trim_exec(c.as_slice());
    proof {
        lemma_starts_with_char(t@, '"');
        lemma_starts_with_char(t@, '\'');
    }
    let q = if t.len() > 0 && t[0] == '"' {
        quoted_after(t.as_slice(), '"')
    } else if t.len() > 0 && t[0] == '\'' {
        quoted_after(t.as_slice(), '\'')
    } else {
        None
    };
    match q {
        Some(v) => Some(from_chars(v.as_slice())),
        None => None,
    }
}

/// Length of the leading run of alphanumeric characters and `_`.
pub open spec fn ident_len(s: Seq<char>) -> int
    decreases s.len(),
{
    if s.len() > 0 && (unicode_alphanumeric(s[0]) || s[0] == '_') {
        1 + ident_len(s.drop_first())
    } else {
        0
    }
}

/// A definition line without its leading keywords, each stripped as
/// often as it repeats, in the order `export`, `default`, `pub`,
/// `async`, `def`, `fn`, `function`.
pub open spec fn without_def_keywords(line: Seq<char>) -> Seq<char> {
    trim_start_matches(
        trim_start_matches(
            trim_start_matches(
                trim_start_matches(
                    trim_start_matches(
                        trim_start_matches(trim_start_matches(line, "export "@), "default "@),
                        "pub "@,
                    ),
                    "async "@,
                ),
                "def "@,
            ),
            "fn "@,
        ),
        "function "@,
    )
}

/// The defined name: the identifier after the keywords, if any.
pub open spec fn fn_name(line: Seq<char>) -> Option<Seq<char>> {
    let t = without_def_keywords(line);
    if ident_len(t) > 0 {
        Some(t.take(ident_len(t)))
    } else {
        None
    }
}

proof fn lemma_ident_len(s: Seq<char>)
    ensures
        0 <= ident_len(s) <= s.len(),
    decreases s.len(),
{
    if s.len() > 0 && (unicode_alphanumeric(s[0]) || s[0] == '_') {
        lemma_ident_len(s.drop_first());
    }
}

/// Extract a function name from a `def` / `fn` / `function` line.
pub fn extract_fn_name(line: &str) -> (r: Option<String>)
    ensures
        crate::pattern::opt_string_view(r) == fn_name(line@),
{
    let c = to_chars(line);
    let a = trim_start_matches_str(c.as_slice(), "export ");
    let b = trim_start_matches_str(a.as_slice(), "default ");
    let d = trim_start_matches_str(b.as_slice(), "pub ");
    let e = trim_start_matches_str(d.as_slice(), "async ");
    let f = trim_start_matches_str(e.as_slice(), "def ");
    let g = trim_start_matches_str(f.as_slice(), "fn ");
    let t = trim_start_matches_str(g.as_slice(), "function ");
    let tlen = t.len();
    let mut i: usize = 0;
    proof {
        lemma_ident_len(t@);
        assert(t@.skip(0) =~= t@);
    }
    while i < tlen && (is_alphanumeric(t[i]) || t[i] == '_')
        invariant
            i <= tlen,
            tlen == t@.len(),
            ident_len(t@) == i + ident_len(t@.skip(i as int)),
        decreases tlen - i,
    {
        assert(t@.skip(i as int).drop_first() =~= t@.skip(i + 1));
        i += 1;
    }
    assert(ident_len(t@.skip(i as int)) == 0) by {
        if i < tlen {
            assert(t@.skip(i as int)[0] == t@[i as int]);
        }
    }
    if i > 0 {
        let n = sub_chars(t.as_slice(), 0, i);
        Some(from_chars(n.as_slice()))
    } else {
        None
    }
}

// ── file-based routing ──────────────────────────────────────────────

/// A page file name without its script extension.
pub open spec fn strip_script_ext(p: Seq<char>) -> Seq<char> {
    trim_end_matches(trim_end_matches(trim_end_matches(trim_end_matches(p, ".tsx"@), ".ts"@), ".jsx"@), ".js"@)
}

fn strip_script_ext_exec(p: &[char]) -> (r: Vec<char>)
    ensures
        r@ == strip_script_ext(p@),
{
    let a = trim_end_matches_str(p, ".tsx");
    let b = trim_end_matches_str(a.as_slice(), ".ts");
    let c = trim_end_matches_str(b.as_slice(), ".jsx");
    trim_end_matches_str(c.as_slice(), ".js")
}

/// Dynamic segments `[id]` become `:id`.
pub open spec fn bracket_params(s: Seq<char>) -> Seq<char> {
    replace_char_with(replace_char_with(s, '[', seq![':']), ']', Seq::empty())
}

fn bracket_params_exec(s: &[char]) -> (r: Vec<char>)
    ensures
        r@ == bracket_params(s@),
{
    let mut colon: Vec<char> = Vec::new();
    colon.push(':');
    assert(colon@ =~= seq![':']);
    let a = replace_char_with_exec(s, '[', colon.as_slice());
    let none: Vec<char> = Vec::new();
    replace_char_with_exec(a.as_slice(), ']', none.as_slice())
}

/// The text before the last `/` (empty without one).
pub open spec fn before_last_slash(s: Seq<char>) -> Seq<char> {
    match rfind_any(s, seq!['/']) {
        Some(i) => s.take(i),
        None => Seq::empty(),
    }
}

fn before_last_slash_exec(s: &[char]) -> (r: Vec<char>)
    ensures
        r@ == before_last_slash(s@),
{
    let mut set: Vec<char> = Vec::new();
    set.push('/');
    assert(set@ =~= seq!['/']);
    proof {
        crate::text::lemma_rfind_any(s@, set@);
    }
    match rfind_any_exec(s, set.as_slice()) {
        Some(i) => sub_chars(s, 0, i),
        None => Vec::new(),
    }
}

/// The path within the app directory: `src/` then `app/` stripped.
pub open spec fn app_stem(rel: Seq<char>) -> Seq<char> {
    trim_start_matches(trim_start_matches(rel, "src/"@), "app/"@)
}

pub open spec fn is_page_file(stem: Seq<char>) -> bool {
    ends_with(stem, "/page.tsx"@) || ends_with(stem, "/page.ts"@) || ends_with(stem, "/page.jsx"@)
        || ends_with(stem, "/page.js"@)
}

pub open spec fn is_route_file(stem: Seq<char>) -> bool {
    ends_with(stem, "/route.tsx"@) || ends_with(stem, "/route.ts"@) || ends_with(stem, "/route.js"@)
}

/// The HTTP methods an app-router `route` file answers.
pub open spec fn api_methods() -> Seq<Seq<char>> {
    seq!["GET"@, "POST"@, "PUT"@, "DELETE"@, "PATCH"@]
}

/// Next.js routes of a file: under `pages/`, one route for any method
/// (except the `_app`, `_document` and `_error` pages); under the app
/// router, `GET` for a `page` file and every API method for a `route`
/// file.
pub open spec fn nextjs_routes(rel: Seq<char>) -> Seq<RouteView> {
    match strip_prefix(rel, "pages/"@) {
        Some(rest) => {
            let path = strip_script_ext(rest);
            if path == "_app"@ || path == "_document"@ || path == "_error"@ {
                Seq::empty()
            } else {
                let url = if path == "index"@ {
                    "/"@
                } else {
                    seq!['/'] + bracket_params(remove_all(path, "/index"@))
                };
                seq![("*"@, url, rel + "::default"@, rel)]
            }
        },
        None => if starts_with(rel, "app/"@) || starts_with(rel, "src/app/"@) {
            let stem = app_stem(rel);
            let path = seq!['/'] + bracket_params(before_last_slash(stem));
            (if is_page_file(stem) {
                seq![("GET"@, path, rel + "::default"@, rel)]
            } else {
                Seq::empty()
            }) + (if is_route_file(stem) {
                api_methods().map_values(|m: Seq<char>| (m, path, rel + "::"@ + m, rel))
            } else {
                Seq::empty()
            })
        } else {
            Seq::empty()
        },
    }
}

/// A plain page name: no `/`, `.`, `[` or `]`.
pub open spec fn plain_segment(d: Seq<char>) -> bool {
    forall|i: int| 0 <= i < d.len() ==> (#[trigger] d[i]) != '/' && d[i] != '.' && d[i] != '['
        && d[i] != ']'
}

proof fn lemma_not_ends_with_dot(s: Seq<char>, e: Seq<char>, q: int)
    requires
        0 <= q < e.len(),
        e[q] == '.',
        e.len() <= s.len(),
        s[s.len() - e.len() + q] != '.',
    ensures
        !ends_with(s, e),
{
    if ends_with(s, e) {
        assert(s.skip(s.len() - e.len())[q] == s[s.len() - e.len() + q]);
    }
}

proof fn lemma_trim_end_keep(s: Seq<char>, e: Seq<char>)
    requires
        !ends_with(s, e),
    ensures
        trim_end_matches(s, e) == s,
{
}

proof fn lemma_trim_end_once(s: Seq<char>, e: Seq<char>)
    requires
        e.len() > 0,
        !ends_with(s, e),
    ensures
        trim_end_matches(s + e, e) == s,
{
    assert((s + e).skip((s + e).len() - e.len()) =~= e);
    assert((s + e).take((s + e).len() - e.len()) =~= s);
    assert(trim_end_matches(s, e) == s);
    reveal_with_fuel(trim_end_matches, 2);
}

/// No dot anywhere: no script extension to trim.
proof fn lemma_no_ext(s: Seq<char>)
    requires
        s.len() > 0,
        forall|i: int| 0 <= i < s.len() ==> (#[trigger] s[i]) != '.',
    ensures
        strip_script_ext(s) == s,
        strip_script_ext(s + ".tsx"@) == s,
        strip_script_ext(s + ".ts"@) == s,
        strip_script_ext(s + ".jsx"@) == s,
        strip_script_ext(s + ".js"@) == s,
{
    reveal_strlit(".tsx");
    reveal_strlit(".ts");
    reveal_strlit(".jsx");
    reveal_strlit(".js");
    let n = s.len() as int;
    let e1 = ".tsx"@;
    let e2 = ".ts"@;
    let e3 = ".jsx"@;
    let e4 = ".js"@;
    assert forall|e: Seq<char>| e.len() > 0 && e[0] == '.' implies !ends_with(s, e) by {
        if e.len() <= s.len() {
            lemma_not_ends_with_dot(s, e, 0);
        }
    }
    assert(!ends_with(s, e1) && !ends_with(s, e2) && !ends_with(s, e3) && !ends_with(s, e4));
    // s + .tsx
    let x1 = s + e1;
    lemma_trim_end_once(s, e1);
    // s + .ts
    let x2 = s + e2;
    assert(x2[n - 1] == s[n - 1]);
    lemma_not_ends_with_dot(x2, e1, 0);
    lemma_trim_end_keep(x2, e1);
    lemma_trim_end_once(s, e2);
    // s + .jsx
    let x3 = s + e3;
    if ends_with(x3, e1) {
        assert(x3.skip(x3.len() - 4)[1] == x3[n + 1]);
    }
    if ends_with(x3, e2) {
        assert(x3.skip(x3.len() - 3)[0] == x3[n + 1]);
    }
    lemma_trim_end_once(s, e3);
    // s + .js
    let x4 = s + e4;
    assert(x4[n - 1] == s[n - 1]);
    lemma_not_ends_with_dot(x4, e1, 0);
    if ends_with(x4, e2) {
        assert(x4.skip(x4.len() - 3)[1] == x4[n + 1]);
    }
    lemma_not_ends_with_dot(x4, e3, 0);
    lemma_trim_end_once(s, e4);
}

proof fn lemma_remove_index(d: Seq<char>)
    requires
        forall|i: int| 0 <= i < d.len() ==> (#[trigger] d[i]) != '/',
    ensures
        remove_all(d, "/index"@) == d,
        remove_all(d + "/index"@, "/index"@) == d,
    decreases d.len(),
{
    reveal_strlit("/index");
    let p = "/index"@;
    if d.len() == 0 {
        assert(d + p =~= p);
        assert(p.take(6) =~= p);
        assert(p.skip(6) =~= Seq::<char>::empty());
        assert(starts_with(p, p));
        assert(remove_all(p.skip(6), p) == Seq::<char>::empty());
        assert(remove_all(p, p) == remove_all(p.skip(6), p));
    } else {
        let r = d.drop_first();
        assert forall|i: int| 0 <= i < r.len() implies (#[trigger] r[i]) != '/' by {
            assert(r[i] == d[i + 1]);
        }
        lemma_remove_index(r);
        assert(!starts_with(d, p)) by {
            if starts_with(d, p) {
                assert(d.take(6)[0] == d[0]);
            }
        }
        assert(!starts_with(d + p, p)) by {
            if starts_with(d + p, p) {
                assert((d + p).take(6)[0] == d[0]);
            }
        }
        assert(d =~= seq![d[0]] + r);
        assert((d + p).drop_first() =~= r + p);
        assert((d + p)[0] == d[0]);
    }
}

proof fn lemma_no_brackets(d: Seq<char>)
    requires
        forall|i: int| 0 <= i < d.len() ==> (#[trigger] d[i]) != '[' && d[i] != ']',
    ensures
        bracket_params(d) == d,
    decreases d.len(),
{
    lemma_replace_absent(d, '[', seq![':']);
    lemma_replace_absent(d, ']', Seq::empty());
}

proof fn lemma_replace_absent(d: Seq<char>, c: char, to: Seq<char>)
    requires
        forall|i: int| 0 <= i < d.len() ==> (#[trigger] d[i]) != c,
    ensures
        replace_char_with(d, c, to) == d,
    decreases d.len(),
{
    if d.len() > 0 {
        let r = d.drop_last();
        assert forall|i: int| 0 <= i < r.len() implies (#[trigger] r[i]) != c by {
            assert(r[i] == d[i]);
        }
        lemma_replace_absent(r, c, to);
        assert(d[d.len() - 1] == d.last());
        assert(r + seq![d.last()] =~= d);
    }
}

/// In the pages router, `pages/<name>/index.<ext>` serves the same URL
/// path as `pages/<name>.<ext>`, namely `/<name>`: the `index` segment
/// never shows in the path.
pub proof fn law_pages_index_route(d: Seq<char>, ext: Seq<char>)
    requires
        d.len() > 0,
        plain_segment(d),
        d != "index"@,
        d != "_app"@,
        d != "_document"@,
        d != "_error"@,
        ext == ".tsx"@ || ext == ".ts"@ || ext == ".jsx"@ || ext == ".js"@,
    ensures
        ({
            let f = "pages/"@ + d + "/index"@ + ext;
            nextjs_routes(f) == seq![("*"@, seq!['/'] + d, f + "::default"@, f)]
        }),
        ({
            let f = "pages/"@ + d + ext;
            nextjs_routes(f) == seq![("*"@, seq!['/'] + d, f + "::default"@, f)]
        }),
{
    reveal_strlit("pages/");
    reveal_strlit("/index");
    reveal_strlit("index");
    reveal_strlit("_app");
    reveal_strlit("_document");
    reveal_strlit("_error");
    let pre = "pages/"@;
    let di = d + "/index"@;
    assert forall|i: int| 0 <= i < di.len() implies (#[trigger] di[i]) != '.' by {
        if i < d.len() {
            assert(di[i] == d[i]);
        }
    }
    lemma_no_ext(di);
    assert forall|i: int| 0 <= i < d.len() implies (#[trigger] d[i]) != '.' by {}
    lemma_no_ext(d);
    assert forall|i: int| 0 <= i < d.len() implies (#[trigger] d[i]) != '/' by {}
    lemma_remove_index(d);
    assert forall|i: int| 0 <= i < d.len() implies (#[trigger] d[i]) != '[' && d[i] != ']' by {}
    lemma_no_brackets(d);
    // the file under its directory
    let f1 = pre + d + "/index"@ + ext;
    assert(f1 =~= pre + (di + ext));
    assert(starts_with(f1, pre)) by {
        assert(f1.take(6) =~= pre);
    }
    assert(f1.skip(6) =~= di + ext);
    assert(strip_script_ext(di + ext) == di);
    assert(di != "index"@ && di != "_app"@ && di != "_document"@ && di != "_error"@) by {
        assert(di[d.len() as int] == '/');
        if di == "_document"@ {
            assert("_document"@[3] == 'o');
        }
        if di == "_error"@ {
            assert(di.len() >= 7);
        }
    }
    // the file itself
    let f2 = pre + d + ext;
    assert(f2 =~= pre + (d + ext));
    assert(starts_with(f2, pre)) by {
        assert(f2.take(6) =~= pre);
    }
    assert(f2.skip(6) =~= d + ext);
    assert(strip_script_ext(d + ext) == d);
}

/// The special pages `_app`, `_document` and `_error` serve no route,
/// and `pages/index.<ext>` serves the root path `/`.
pub proof fn law_pages_special_files(name: Seq<char>, ext: Seq<char>)
    requires
        ext == ".tsx"@ || ext == ".ts"@ || ext == ".jsx"@ || ext == ".js"@,
    ensures
        (name == "_app"@ || name == "_document"@ || name == "_error"@) ==> nextjs_routes(
            "pages/"@ + name + ext,
        ).len() == 0,
        name == "index"@ ==> nextjs_routes("pages/"@ + name + ext) == seq![
            ("*"@, "/"@, "pages/"@ + name + ext + "::default"@, "pages/"@ + name + ext),
        ],
{
    reveal_strlit("pages/");
    reveal_strlit("_app");
    reveal_strlit("_document");
    reveal_strlit("_error");
    reveal_strlit("index");
    if name == "_app"@ || name == "_document"@ || name == "_error"@ || name == "index"@ {
        assert forall|i: int| 0 <= i < name.len() implies (#[trigger] name[i]) != '.' by {}
        lemma_no_ext(name);
        let pre = "pages/"@;
        let f = pre + name + ext;
        assert(f =~= pre + (name + ext));
        assert(starts_with(f, pre)) by {
            assert(f.take(6) =~= pre);
        }
        assert(f.skip(6) =~= name + ext);
        assert(strip_script_ext(name + ext) == name);
    }
}

proof fn lemma_not_ends_at(s: Seq<char>, e: Seq<char>, q: int)
    requires
        0 <= q < e.len(),
        (e.len() > s.len() || s[s.len() - e.len() + q] != e[q]),
    ensures
        !ends_with(s, e),
{
    if ends_with(s, e) {
        assert(s.skip(s.len() - e.len())[q] == s[s.len() - e.len() + q]);
    }
}

/// In the app router, `app/<name>/page.<ext>` serves `GET /<name>` and
/// nothing else.
pub proof fn law_app_page_route(d: Seq<char>, page: Seq<char>)
    requires
        d.len() > 0,
        plain_segment(d),
        d != "app"@,
        page == "/page.tsx"@ || page == "/page.ts"@ || page == "/page.jsx"@ || page == "/page.js"@,
    ensures
        ({
            let f = "app/"@ + d + page;
            nextjs_routes(f) == seq![("GET"@, seq!['/'] + d, f + "::default"@, f)]
        }),
{
    reveal_strlit("app/");
    reveal_strlit("src/");
    reveal_strlit("pages/");
    reveal_strlit("/page.tsx");
    reveal_strlit("/page.ts");
    reveal_strlit("/page.jsx");
    reveal_strlit("/page.js");
    reveal_strlit("/route.tsx");
    reveal_strlit("/route.ts");
    reveal_strlit("/route.js");
    reveal_strlit("app");
    let a = "app/"@;
    let x = d + page;
    let f = a + d + page;
    assert(f =~= a + x);
    let n = d.len() as int;
    assert(x[n] == '/');
    assert forall|i: int| n < i < x.len() implies (#[trigger] x[i]) != '/' by {
        assert(x[i] == page[i - n]);
    }
    // not under pages/, under app/
    assert(strip_prefix(f, "pages/"@) is None) by {
        if starts_with(f, "pages/"@) {
            assert(f.take(6)[0] == f[0]);
        }
    }
    assert(starts_with(f, a)) by {
        assert(f.take(4) =~= a);
    }
    // the stem within the app directory
    assert(!starts_with(f, "src/"@)) by {
        if starts_with(f, "src/"@) {
            assert(f.take(4)[0] == f[0]);
        }
    }
    assert(f.skip(4) =~= x);
    assert(!starts_with(x, a)) by {
        if starts_with(x, a) {
            assert(x.take(4) == a);
            assert(a[0] == 'a' && a[1] == 'p' && a[2] == 'p' && a[3] == '/');
            if n >= 4 {
                assert(x.take(4)[3] == x[3]);
                assert(x[3] == d[3]);
                assert(d[3] != '/');
            } else if n == 3 {
                assert(d =~= x.take(3));
                assert forall|i: int| 0 <= i < 3 implies d[i] == "app"@[i] by {
                    assert(x.take(4)[i] == x[i]);
                }
                assert(d =~= "app"@);
            } else {
                assert(x.take(4)[n] == x[n]);
            }
        }
    }
    assert(trim_start_matches(f, "src/"@) == f);
    assert(trim_start_matches(f, a) == trim_start_matches(x, a));
    assert(trim_start_matches(x, a) == x);
    assert(app_stem(f) == x);
    // the directory part
    crate::text::lemma_rfind_any(x, seq!['/']);
    assert(seq!['/'][0] == x[n]);
    assert(seq!['/'].contains(x[n]));
    match rfind_any(x, seq!['/']) {
        Some(i) => {
            if i > n {
                assert(seq!['/'].contains(x[i]));
                assert(x[i] != '/');
            }
            if i < n {
                assert(!seq!['/'].contains(x[n]));
            }
        },
        None => {},
    }
    assert(x.take(n) =~= d);
    assert(before_last_slash(x) == d);
    assert forall|i: int| 0 <= i < d.len() implies (#[trigger] d[i]) != '[' && d[i] != ']' by {}
    lemma_no_brackets(d);
    // a page, not a route handler
    assert(ends_with(x, page)) by {
        assert(x.skip(x.len() - page.len()) =~= page);
    }
    assert(d[n - 1] != '/');
    if n >= 2 {
        assert(d[n - 2] != '/');
    }
    assert(x[n - 1] == d[n - 1]);
    if n >= 2 {
        assert(x[n - 2] == d[n - 2]);
    }
    if page.len() == 9 {
        lemma_not_ends_at(x, "/route.tsx"@, 0);
        lemma_not_ends_at(x, "/route.ts"@, 1);
        lemma_not_ends_at(x, "/route.js"@, 1);
    } else {
        lemma_not_ends_at(x, "/route.tsx"@, 0);
        lemma_not_ends_at(x, "/route.ts"@, 0);
        lemma_not_ends_at(x, "/route.js"@, 0);
    }
    assert(is_page_file(x));
    assert(!is_route_file(x));
    assert(seq![("GET"@, seq!['/'] + d, f + "::default"@, f)] + Seq::<RouteView>::empty() =~= seq![
        ("GET"@, seq!['/'] + d, f + "::default"@, f),
    ]);
}

fn with_text(a: &[char], b: &str) -> (r: Vec<char>)
    ensures
        r@ == a@ + b@,
{
    let mut r = sub_chars(a, 0, a.len());
    push_str_chars(&mut r, b);
    r
}

/// Next.js file-based routes of `relative`; the content is not read.
pub fn detect_nextjs_routes(relative: &str, content: &str, routes: &mut Vec<DetectedRoute>)
    ensures
        routes_view(final(routes)@) == routes_view(old(routes)@) + nextjs_routes(relative@),
{
    let rel = to_chars(relative);
    let ghost start = routes_view(routes@);
    match strip_prefix_str(rel.as_slice(), "pages/") {
        Some(rest) => {
            let path = strip_script_ext_exec(rest.as_slice());
            if crate::text::str_eq_chars("_app", path.as_slice()) || crate::text::str_eq_chars(
                "_document",
                path.as_slice(),
            ) || crate::text::str_eq_chars("_error", path.as_slice()) {
                assert(routes_view(routes@) =~= start + nextjs_routes(relative@));
                return;
            }
            let url = if crate::text::str_eq_chars("index", path.as_slice()) {
                to_chars("/")
            } else {
                let idx = to_chars("/index");
                let a = remove_all_exec(path.as_slice(), idx.as_slice());
                let b = bracket_params_exec(a.as_slice());
                let mut u: Vec<char> = Vec::new();
                u.push('/');
                push_all(&mut u, b.as_slice());
                assert(u@ =~= seq!['/'] + b@);
                u
            };
            let star = to_chars("*");
            let handler = with_text(rel.as_slice(), "::default");
            push_route(routes, star.as_slice(), url.as_slice(), handler.as_slice(), rel.as_slice());
            assert(routes_view(routes@) =~= start + nextjs_routes(relative@));
            return;
        },
        None => {},
    }
    if starts_with_str(rel.as_slice(), "app/") || starts_with_str(rel.as_slice(), "src/app/") {
        let a = trim_start_matches_str(rel.as_slice(), "src/");
        let stem = trim_start_matches_str(a.as_slice(), "app/");
        let dir = before_last_slash_exec(stem.as_slice());
        let b = bracket_params_exec(dir.as_slice());
        let mut path: Vec<char> = Vec::new();
        path.push('/');
        push_all(&mut path, b.as_slice());
        assert(path@ =~= seq!['/'] + b@);
        let page = ends_with_str(stem.as_slice(), "/page.tsx") || ends_with_str(stem.as_slice(), "/page.ts")
            || ends_with_str(stem.as_slice(), "/page.jsx") || ends_with_str(stem.as_slice(), "/page.js");
        if page {
            let get = to_chars("GET");
            let handler = with_text(rel.as_slice(), "::default");
            push_route(routes, get.as_slice(), path.as_slice(), handler.as_slice(), rel.as_slice());
        }
        let ghost mid = routes_view(routes@);
        let api = ends_with_str(stem.as_slice(), "/route.tsx") || ends_with_str(stem.as_slice(), "/route.ts")
            || ends_with_str(stem.as_slice(), "/route.js");
        if api {
            let mut methods: Vec<&str> = Vec::new();
            methods.push("GET");
            methods.push("POST");
            methods.push("PUT");
            methods.push("DELETE");
            methods.push("PATCH");
            let ghost mv = methods@.map_values(|m: &str| m@);
            assert(mv =~= api_methods());
            let ghost f = |m: Seq<char>| (m, path@, relative@ + "::"@ + m, relative@);
            let mut k: usize = 0;
            while k < methods.len()
                invariant
                    k <= methods@.len(),
                    mv == methods@.map_values(|m: &str| m@),
                    rel@ == relative@,
                    f == (|m: Seq<char>| (m, path@, relative@ + "::"@ + m, relative@)),
                    routes_view(routes@) == mid + mv.take(k as int).map_values(f),
                decreases methods@.len() - k,
            {
                let m = to_chars(methods[k]);
                let mut handler = with_text(rel.as_slice(), "::");
                push_all(&mut handler, m.as_slice());
                push_route(routes, m.as_slice(), path.as_slice(), handler.as_slice(), rel.as_slice());
                assert(mv.take(k + 1) =~= mv.take(k as int).push(mv[k as int]));
                assert(handler@ =~= relative@ + "::"@ + mv[k as int]);
                k += 1;
                assert(routes_view(routes@) =~= mid + mv.take(k as int).map_values(f));
            }
            assert(mv.take(methods@.len() as int) =~= mv);
        }
        assert(routes_view(routes@) =~= start + nextjs_routes(relative@));
    } else {
        assert(routes_view(routes@) =~= start + nextjs_routes(relative@));
    }
}

/// An Expo Router group segment appears in the (lower-cased) path.
pub open spec fn has_expo_group(sl: Seq<char>) -> bool {
    contains(sl, "/(tabs)"@) || contains(sl, "/(drawer)"@) || contains(sl, "/(stack)"@) || contains(
        sl,
        "/(modal)"@,
    )
}

pub open spec fn is_expo_layout(sl: Seq<char>) -> bool {
    ends_with(sl, "/_layout.tsx"@) || ends_with(sl, "/_layout.ts"@) || ends_with(sl, "/_layout.jsx"@)
        || ends_with(sl, "/_layout.js"@)
}

pub open spec fn is_script(stem: Seq<char>) -> bool {
    ends_with(stem, ".tsx"@) || ends_with(stem, ".ts"@) || ends_with(stem, ".jsx"@) || ends_with(
        stem,
        ".js"@,
    )
}

/// The URL of an Expo screen: extension and group segments removed,
/// `_layout` marked as `__layout`, dynamic segments as parameters.
pub open spec fn expo_url_path(stem: Seq<char>) -> Seq<char> {
    bracket_params(
        replace_all(
            remove_all(
                remove_all(remove_all(remove_all(strip_script_ext(stem), "(tabs)/"@), "(drawer)/"@), "(stack)/"@),
                "(modal)/"@,
            ),
            "_layout"@,
            "__layout"@,
        ),
    )
}

/// An Expo Router screen under `app/` in a route group, or a layout,
/// becomes a `GET` route.
pub open spec fn expo_routes(rel: Seq<char>) -> Seq<RouteView> {
    let sl = lowercase_text(rel);
    if !(starts_with(sl, "app/"@) || starts_with(sl, "src/app/"@)) {
        Seq::empty()
    } else if !has_expo_group(sl) && !is_expo_layout(sl) {
        Seq::empty()
    } else {
        let stem = app_stem(rel);
        if !is_script(stem) {
            Seq::empty()
        } else {
            let u = expo_url_path(stem);
            let url = if u.len() == 0 || u == "index"@ {
                "/"@
            } else {
                seq!['/'] + u
            };
            seq![("GET"@, url, rel + "::default"@, rel)]
        }
    }
}

/// Expo Router screen routes of `relative`.
pub fn detect_expo_routes(relative: &str, routes: &mut Vec<DetectedRoute>)
    ensures
        routes_view(final(routes)@) == routes_view(old(routes)@) + expo_routes(relative@),
{
    let ghost start = routes_view(routes@);
    let sl_s = str_to_lowercase(relative);
    let sl = to_chars(sl_s.as_str());
    if !(starts_with_str(sl.as_slice(), "app/") || starts_with_str(sl.as_slice(), "src/app/")) {
        assert(routes_view(routes@) =~= start + expo_routes(relative@));
        return;
    }
    let has_group = crate::text::contains_str(sl.as_slice(), "/(tabs)") || crate::text::contains_str(
        sl.as_slice(),
        "/(drawer)",
    ) || crate::text::contains_str(sl.as_slice(), "/(stack)") || crate::text::contains_str(
        sl.as_slice(),
        "/(modal)",
    );
    let is_layout = ends_with_str(sl.as_slice(), "/_layout.tsx") || ends_with_str(sl.as_slice(), "/_layout.ts")
        || ends_with_str(sl.as_slice(), "/_layout.jsx") || ends_with_str(sl.as_slice(), "/_layout.js");
    if !has_group && !is_layout {
        assert(routes_view(routes@) =~= start + expo_routes(relative@));
        return;
    }
    let rel = to_chars(relative);
    let a = trim_start_matches_str(rel.as_slice(), "src/");
    let stem = trim_start_matches_str(a.as_slice(), "app/");
    let screen = ends_with_str(stem.as_slice(), ".tsx") || ends_with_str(stem.as_slice(), ".ts")
        || ends_with_str(stem.as_slice(), ".jsx") || ends_with_str(stem.as_slice(), ".js");
    if !screen {
        assert(routes_view(routes@) =~= start + expo_routes(relative@));
        return;
    }
    let p0 = strip_script_ext_exec(stem.as_slice());
    let t1 = to_chars("(tabs)/");
    let p1 = remove_all_exec(p0.as_slice(), t1.as_slice());
    let t2 = to_chars("(drawer)/");
    let p2 = remove_all_exec(p1.as_slice(), t2.as_slice());
    let t3 = to_chars("(stack)/");
    let p3 = remove_all_exec(p2.as_slice(), t3.as_slice());
    let t4 = to_chars("(modal)/");
    let p4 = remove_all_exec(p3.as_slice(), t4.as_slice());
    let l1 = to_chars("_layout");
    let l2 = to_chars("__layout");
    let p5 = replace_all_exec(p4.as_slice(), l1.as_slice(), l2.as_slice());
    let u = bracket_params_exec(p5.as_slice());
    let url = if u.len() == 0 || crate::text::str_eq_chars("index", u.as_slice()) {
        to_chars("/")
    } else {
        let mut v: Vec<char> = Vec::new();
        v.push('/');
        push_all(&mut v, u.as_slice());
        assert(v@ =~= seq!['/'] + u@);
        v
    };
    let get = to_chars("GET");
    let handler = with_text(rel.as_slice(), "::default");
    push_route(routes, get.as_slice(), url.as_slice(), handler.as_slice(), rel.as_slice());
    assert(routes_view(routes@) =~= start + expo_routes(relative@));
}


// ── decorator and call patterns ─────────────────────────────────────

/// Route-declaring patterns and the method each implies, tried in
/// order; the first one found on a line decides.
pub open spec fn route_pattern_table() -> Seq<(Seq<char>, Seq<char>)> {
    seq![
        ("@app.route("@, "*"@),
        ("@app.get("@, "GET"@),
        ("@app.post("@, "POST"@),
        ("@app.put("@, "PUT"@),
        ("@app.delete("@, "DELETE"@),
        ("@app.patch("@, "PATCH"@),
        ("@router.get("@, "GET"@),
        ("@router.post("@, "POST"@),
        ("@router.put("@, "PUT"@),
        ("@router.delete("@, "DELETE"@),
        ("@router.patch("@, "PATCH"@),
        ("app.get("@, "GET"@),
        ("app.post("@, "POST"@),
        ("app.put("@, "PUT"@),
        ("app.delete("@, "DELETE"@),
        ("app.patch("@, "PATCH"@),
        ("router.get("@, "GET"@),
        ("router.post("@, "POST"@),
        ("router.put("@, "PUT"@),
        ("router.delete("@, "DELETE"@),
        ("router.patch("@, "PATCH"@),
        ("#[get("@, "GET"@),
        ("#[post("@, "POST"@),
        ("#[put("@, "PUT"@),
        ("#[delete("@, "DELETE"@),
        ("#[patch("@, "PATCH"@),
        (".route("@, "*"@),
        ("@GetMapping("@, "GET"@),
        ("@PostMapping("@, "POST"@),
        ("@PutMapping("@, "PUT"@),
        ("@DeleteMapping("@, "DELETE"@),
        ("@PatchMapping("@, "PATCH"@),
        ("@RequestMapping("@, "*"@),
        ("@Get("@, "GET"@),
        ("@Post("@, "POST"@),
        ("@Put("@, "PUT"@),
        ("@Delete("@, "DELETE"@),
        ("@Patch("@, "PATCH"@),
        ("Route::get("@, "GET"@),
        ("Route::post("@, "POST"@),
        ("Route::put("@, "PUT"@),
        ("Route::delete("@, "DELETE"@),
        ("Route::patch("@, "PATCH"@),
        ("Route::any("@, "*"@),
        ("router.GET("@, "GET"@),
        ("router.POST("@, "POST"@),
        ("router.PUT("@, "PUT"@),
        ("router.DELETE("@, "DELETE"@),
        ("router.PATCH("@, "PATCH"@),
        ("r.GET("@, "GET"@),
        ("r.POST("@, "POST"@),
        ("r.PUT("@, "PUT"@),
        ("r.DELETE("@, "DELETE"@),
        ("r.PATCH("@, "PATCH"@),
        ("path(\""@, "*"@),
        ("path('"@, "*"@),
        ("re_path("@, "*"@),
        ("get \""@, "GET"@),
        ("get '"@, "GET"@),
        ("post \""@, "POST"@),
        ("post '"@, "POST"@),
        ("put \""@, "PUT"@),
        ("put '"@, "PUT"@),
        ("patch \""@, "PATCH"@),
        ("patch '"@, "PATCH"@),
        ("delete \""@, "DELETE"@),
        ("delete '"@, "DELETE"@),
    ]
}

/// The pattern texts of a table.
pub open spec fn pattern_texts(t: Seq<(Seq<char>, Seq<char>)>) -> Seq<Seq<char>> {
    t.map_values(|p: (Seq<char>, Seq<char>)| p.0)
}

pub open spec fn pattern_views(v: Seq<(&str, &str)>) -> Seq<(Seq<char>, Seq<char>)> {
    v.map_values(|p: (&str, &str)| (p.0@, p.1@))
}

fn route_patterns() -> (r: Vec<(&'static str, &'static str)>)
    ensures
        pattern_views(r@) == route_pattern_table(),
{
    let mut r: Vec<(&'static str, &'static str)> = Vec::new();
    r.push(("@app.route(", "*"));
    r.push(("@app.get(", "GET"));
    r.push(("@app.post(", "POST"));
    r.push(("@app.put(", "PUT"));
    r.push(("@app.delete(", "DELETE"));
    r.push(("@app.patch(", "PATCH"));
    r.push(("@router.get(", "GET"));
    r.push(("@router.post(", "POST"));
    r.push(("@router.put(", "PUT"));
    r.push(("@router.delete(", "DELETE"));
    r.push(("@router.patch(", "PATCH"));
    r.push(("app.get(", "GET"));
    r.push(("app.post(", "POST"));
    r.push(("app.put(", "PUT"));
    r.push(("app.delete(", "DELETE"));
    r.push(("app.patch(", "PATCH"));
    r.push(("router.get(", "GET"));
    r.push(("router.post(", "POST"));
    r.push(("router.put(", "PUT"));
    r.push(("router.delete(", "DELETE"));
    r.push(("router.patch(", "PATCH"));
    r.push(("#[get(", "GET"));
    r.push(("#[post(", "POST"));
    r.push(("#[put(", "PUT"));
    r.push(("#[delete(", "DELETE"));
    r.push(("#[patch(", "PATCH"));
    r.push((".route(", "*"));
    r.push(("@GetMapping(", "GET"));
    r.push(("@PostMapping(", "POST"));
    r.push(("@PutMapping(", "PUT"));
    r.push(("@DeleteMapping(", "DELETE"));
    r.push(("@PatchMapping(", "PATCH"));
    r.push(("@RequestMapping(", "*"));
    r.push(("@Get(", "GET"));
    r.push(("@Post(", "POST"));
    r.push(("@Put(", "PUT"));
    r.push(("@Delete(", "DELETE"));
    r.push(("@Patch(", "PATCH"));
    r.push(("Route::get(", "GET"));
    r.push(("Route::post(", "POST"));
    r.push(("Route::put(", "PUT"));
    r.push(("Route::delete(", "DELETE"));
    r.push(("Route::patch(", "PATCH"));
    r.push(("Route::any(", "*"));
    r.push(("router.GET(", "GET"));
    r.push(("router.POST(", "POST"));
    r.push(("router.PUT(", "PUT"));
    r.push(("router.DELETE(", "DELETE"));
    r.push(("router.PATCH(", "PATCH"));
    r.push(("r.GET(", "GET"));
    r.push(("r.POST(", "POST"));
    r.push(("r.PUT(", "PUT"));
    r.push(("r.DELETE(", "DELETE"));
    r.push(("r.PATCH(", "PATCH"));
    r.push(("path(\"", "*"));
    r.push(("path('", "*"));
    r.push(("re_path(", "*"));
    r.push(("get \"", "GET"));
    r.push(("get '", "GET"));
    r.push(("post \"", "POST"));
    r.push(("post '", "POST"));
    r.push(("put \"", "PUT"));
    r.push(("put '", "PUT"));
    r.push(("patch \"", "PATCH"));
    r.push(("patch '", "PATCH"));
    r.push(("delete \"", "DELETE"));
    r.push(("delete '", "DELETE"));
    assert(pattern_views(r@) =~= route_pattern_table());
    r
}

/// Index of the first pattern at or after `k` that occurs in `t`.
pub open spec fn first_pattern(t: Seq<char>, pats: Seq<Seq<char>>, k: int) -> Option<int>
    decreases pats.len() - k,
{
    if k < 0 || k >= pats.len() {
        None
    } else if contains(t, pats[k]) {
        Some(k)
    } else {
        first_pattern(t, pats, k + 1)
    }
}

/// The text after the first occurrence of pattern `p` in `t`.
pub open spec fn after_pattern(t: Seq<char>, p: Seq<char>) -> Seq<char> {
    match find(t, p) {
        Some(pos) => t.skip(pos + p.len()),
        None => Seq::empty(),
    }
}

/// A line that starts a route handler definition.
pub open spec fn is_route_def_line(t: Seq<char>) -> bool {
    starts_with(t, "def "@) || starts_with(t, "async def "@) || starts_with(t, "fn "@) || starts_with(t, "pub fn "@) || starts_with(t, "pub async fn "@) || starts_with(t, "async fn "@) || starts_with(t, "function "@) || starts_with(t, "export function "@) || starts_with(t, "export default function "@) || starts_with(t, "export async function "@)
}

/// A line that starts a tool handler definition.
pub open spec fn is_tool_def_line(t: Seq<char>) -> bool {
    starts_with(t, "def "@) || starts_with(t, "async def "@) || starts_with(t, "fn "@) || starts_with(t, "pub fn "@) || starts_with(t, "pub async fn "@) || starts_with(t, "async fn "@) || starts_with(t, "function "@) || starts_with(t, "export function "@) || starts_with(t, "export async function "@)
}

/// The last route, when its handler is still a placeholder containing
/// `marker`, gets handler `q`.
pub open spec fn patch_last_route(rs: Seq<RouteView>, q: Seq<char>, marker: Seq<char>) -> Seq<RouteView> {
    if rs.len() > 0 && contains(rs.last().2, marker) {
        rs.update(rs.len() - 1, (rs.last().0, rs.last().1, q, rs.last().3))
    } else {
        rs
    }
}

/// The routes after line `idx` of `rel`: a route with a placeholder
/// handler for the first matching pattern followed by a quoted path,
/// then the placeholder of the last route filled by a definition on
/// the same line.
pub open spec fn decorator_line(rs: Seq<RouteView>, rel: Seq<char>, line: Seq<char>, idx: int) -> Seq<RouteView> {
    let t = trim(line);
    let table = route_pattern_table();
    let pushed = match first_pattern(t, pattern_texts(table), 0) {
        Some(k) => match string_arg(after_pattern(t, table[k].0)) {
            Some(path) => rs.push((table[k].1, path, rel + "::"@ + "__pending_"@ + decimal(idx as nat), rel)),
            None => rs,
        },
        None => rs,
    };
    if is_route_def_line(t) {
        match fn_name(t) {
            Some(name) => patch_last_route(pushed, rel + "::"@ + name, "__pending_"@),
            None => pushed,
        }
    } else {
        pushed
    }
}

pub open spec fn decorator_fold(rs: Seq<RouteView>, rel: Seq<char>, ls: Seq<Seq<char>>, n: int) -> Seq<RouteView>
    decreases n,
{
    if n <= 0 {
        rs
    } else {
        decorator_line(decorator_fold(rs, rel, ls, n - 1), rel, ls[n - 1], n - 1)
    }
}

fn first_pattern_exec(t: &[char], pats: &Vec<Vec<char>>) -> (r: Option<usize>)
    ensures
        match r {
            Some(k) => first_pattern(t@, views(pats@), 0) == Some(k as int) && k < pats@.len(),
            None => first_pattern(t@, views(pats@), 0) is None,
        },
{
    let mut k: usize = 0;
    while k < pats.len()
        invariant
            k <= pats@.len(),
            first_pattern(t@, views(pats@), 0) == first_pattern(t@, views(pats@), k as int),
        decreases pats@.len() - k,
    {
        assert(views(pats@)[k as int] == pats@[k as int]@);
        if contains_exec(t, pats[k].as_slice()) {
            return Some(k);
        }
        k += 1;
    }
    None
}

fn after_pattern_exec(t: &[char], p: &[char]) -> (r: Vec<char>)
    ensures
        r@ == after_pattern(t@, p@),
{
    let tlen = t.len();
    match find_exec(t, p) {
        Some(pos) => {
            proof {
                crate::text::lemma_find_from_bounds(t@, p@, 0);
            }
            let v = sub_chars(t, pos + p.len(), tlen);
            assert(v@ =~= t@.skip(pos + p@.len()));
            v
        },
        None => Vec::new(),
    }
}

fn is_route_def_line_exec(t: &[char]) -> (b: bool)
    ensures
        b == is_route_def_line(t@),
{
    starts_with_str(t, "def ") || starts_with_str(t, "async def ") || starts_with_str(t, "fn ") || starts_with_str(t, "pub fn ") || starts_with_str(t, "pub async fn ") || starts_with_str(t, "async fn ") || starts_with_str(t, "function ") || starts_with_str(t, "export function ") || starts_with_str(t, "export default function ") || starts_with_str(t, "export async function ")
}

fn is_tool_def_line_exec(t: &[char]) -> (b: bool)
    ensures
        b == is_tool_def_line(t@),
{
    starts_with_str(t, "def ") || starts_with_str(t, "async def ") || starts_with_str(t, "fn ") || starts_with_str(t, "pub fn ") || starts_with_str(t, "pub async fn ") || starts_with_str(t, "async fn ") || starts_with_str(t, "function ") || starts_with_str(t, "export function ") || starts_with_str(t, "export async function ")
}

fn placeholder(rel: &[char], marker: &str, idx: usize) -> (r: Vec<char>)
    ensures
        r@ == rel@ + "::"@ + marker@ + decimal(idx as nat),
{
    let mut h = sub_chars(rel, 0, rel.len());
    assert(h@ =~= rel@);
    push_str_chars(&mut h, "::");
    push_str_chars(&mut h, marker);
    let d = decimal_exec(idx);
    push_all(&mut h, d.as_slice());
    assert(h@ =~= rel@ + "::"@ + marker@ + decimal(idx as nat));
    h
}

fn patch_last_route_exec(routes: &mut Vec<DetectedRoute>, q: &[char], marker: &str)
    ensures
        routes_view(final(routes)@) == patch_last_route(routes_view(old(routes)@), q@, marker@),
{
    let n = routes.len();
    if n > 0 {
        let h = to_chars(routes[n - 1].handler_qname.as_str());
        if crate::text::contains_str(h.as_slice(), marker) {
            let last = routes.pop().unwrap();
            let r = DetectedRoute {
                method: last.method,
                path: last.path,
                handler_qname: from_chars(q),
                source_file: last.source_file,
            };
            routes.push(r);
            assert(routes_view(routes@) =~= patch_last_route(routes_view(old(routes)@), q@, marker@));
        }
    }
}

fn decorator_line_exec(
    routes: &mut Vec<DetectedRoute>,
    rel: &[char],
    line: &[char],
    i: usize,
    pats: &Vec<Vec<char>>,
    table: &Vec<(&'static str, &'static str)>,
)
    requires
        views(pats@) == pattern_texts(route_pattern_table()),
        pattern_views(table@) == route_pattern_table(),
    ensures
        routes_view(final(routes)@) == decorator_line(routes_view(old(routes)@), rel@, line@, i as int),
{
    let ghost before = routes_view(routes@);
    let t = trim_exec(line);
    let ghost table_s = route_pattern_table();
    match first_pattern_exec(t.as_slice(), pats) {
        Some(k) => {
            assert(pattern_views(table@)[k as int] == table_s[k as int]);
            assert(views(pats@)[k as int] == pats@[k as int]@);
            assert(pattern_texts(table_s)[k as int] == table_s[k as int].0);
            let after = after_pattern_exec(t.as_slice(), pats[k].as_slice());
            let after_s = from_chars(after.as_slice());
            match extract_string_arg(after_s.as_str()) {
                Some(path) => {
                    let m = to_chars(table[k].1);
                    let p = to_chars(path.as_str());
                    let h = placeholder(rel, "__pending_", i);
                    push_route(routes, m.as_slice(), p.as_slice(), h.as_slice(), rel);
                },
                None => {},
            }
        },
        None => {},
    }
    let ghost pushed = routes_view(routes@);
    if is_route_def_line_exec(t.as_slice()) {
        let ts = from_chars(t.as_slice());
        match extract_fn_name(ts.as_str()) {
            Some(name) => {
                let mut q = sub_chars(rel, 0, rel.len());
                assert(q@ =~= rel@);
                push_str_chars(&mut q, "::");
                push_str_chars(&mut q, name.as_str());
                patch_last_route_exec(routes, q.as_slice(), "__pending_");
            },
            None => {},
        }
    }
}

/// Routes declared through decorators and route-registration calls,
/// line by line; a placeholder handler is filled by the next function
/// definition.
pub fn detect_decorator_routes(relative: &str, content: &str, routes: &mut Vec<DetectedRoute>)
    ensures
        routes_view(final(routes)@) == decorator_fold(
            routes_view(old(routes)@),
            relative@,
            lines(content@),
            lines(content@).len() as int,
        ),
{
    let table = route_patterns();
    let mut pats: Vec<Vec<char>> = Vec::new();
    let mut j: usize = 0;
    while j < table.len()
        invariant
            j <= table@.len(),
            views(pats@) == pattern_texts(pattern_views(table@).take(j as int)),
        decreases table@.len() - j,
    {
        let ghost before = views(pats@);
        let x = to_chars(table[j].0);
        pats.push(x);
        assert(views(pats@) =~= before.push(x@));
        assert(pattern_views(table@).take(j + 1) =~= pattern_views(table@).take(j as int).push(
            pattern_views(table@)[j as int],
        ));
        assert(views(pats@) =~= pattern_texts(pattern_views(table@).take(j + 1)));
        j += 1;
    }
    assert(pattern_views(table@).take(table@.len() as int) =~= pattern_views(table@));
    let ghost pv = pattern_texts(route_pattern_table());
    assert(views(pats@) == pv);
    let rel = to_chars(relative);
    let c = to_chars(content);
    let ls = lines_exec(c.as_slice());
    let ghost lv = lines(content@);
    let ghost start = routes_view(routes@);
    let mut i: usize = 0;
    while i < ls.len()
        invariant
            i <= ls@.len(),
            views(ls@) == lv,
            lv == lines(content@),
            rel@ == relative@,
            views(pats@) == pv,
            pv == pattern_texts(route_pattern_table()),
            pattern_views(table@) == route_pattern_table(),
            routes_view(routes@) == decorator_fold(start, relative@, lv, i as int),
        decreases ls@.len() - i,
    {
        assert(lv[i as int] == ls@[i as int]@);
        decorator_line_exec(routes, rel.as_slice(), ls[i].as_slice(), i, &pats, &table);
        i += 1;
    }
}

// ── MCP tools ───────────────────────────────────────────────────────

/// Tool-registration patterns, tried in order.
pub open spec fn tool_pattern_table() -> Seq<Seq<char>> {
    seq!["server.tool("@, ".tool("@, "Tool::new("@, "@server.tool"@, "@mcp.tool"@, "add_tool("@, "register_tool("@]
}

fn tool_patterns() -> (r: Vec<Vec<char>>)
    ensures
        views(r@) == tool_pattern_table(),
{
    let mut s: Vec<&str> = Vec::new();
    let mut r: Vec<Vec<char>> = Vec::new();
    r.push(to_chars("server.tool("));
    r.push(to_chars(".tool("));
    r.push(to_chars("Tool::new("));
    r.push(to_chars("@server.tool"));
    r.push(to_chars("@mcp.tool"));
    r.push(to_chars("add_tool("));
    r.push(to_chars("register_tool("));
    assert(views(r@) =~= tool_pattern_table());
    r
}

pub open spec fn patch_last_tool(ts: Seq<ToolView>, q: Seq<char>) -> Seq<ToolView> {
    if ts.len() > 0 && contains(ts.last().1, "__tool_pending_"@) {
        ts.update(ts.len() - 1, (ts.last().0, q))
    } else {
        ts
    }
}

/// The tools after line `idx`: a tool with a placeholder handler for
/// the first matching pattern followed by a non-empty quoted name, then
/// the last placeholder filled by a definition on the line.
pub open spec fn tool_line(ts: Seq<ToolView>, rel: Seq<char>, line: Seq<char>, idx: int) -> Seq<ToolView> {
    let t = trim(line);
    let table = tool_pattern_table();
    let pushed = match first_pattern(t, table, 0) {
        Some(k) => match string_arg(after_pattern(t, table[k])) {
            Some(name) => if name.len() > 0 {
                ts.push((name, rel + "::"@ + "__tool_pending_"@ + decimal(idx as nat)))
            } else {
                ts
            },
            None => ts,
        },
        None => ts,
    };
    if is_tool_def_line(t) {
        match fn_name(t) {
            Some(name) => patch_last_tool(pushed, rel + "::"@ + name),
            None => pushed,
        }
    } else {
        pushed
    }
}

pub open spec fn tool_fold(ts: Seq<ToolView>, rel: Seq<char>, ls: Seq<Seq<char>>, n: int) -> Seq<ToolView>
    decreases n,
{
    if n <= 0 {
        ts
    } else {
        tool_line(tool_fold(ts, rel, ls, n - 1), rel, ls[n - 1], n - 1)
    }
}

/// The tools whose handler was resolved.
pub open spec fn resolved_tools(ts: Seq<ToolView>) -> Seq<ToolView> {
    filter_map(ts, |t: ToolView| if contains(t.1, "__tool_pending_"@) { None } else { Some(t) })
}

fn patch_last_tool_exec(tools: &mut Vec<DetectedTool>, q: &[char])
    ensures
        tools_view(final(tools)@) == patch_last_tool(tools_view(old(tools)@), q@),
{
    let n = tools.len();
    if n > 0 {
        let h = to_chars(tools[n - 1].handler_qname.as_str());
        if crate::text::contains_str(h.as_slice(), "__tool_pending_") {
            let last = tools.pop().unwrap();
            tools.push(DetectedTool { name: last.name, handler_qname: from_chars(q) });
            assert(tools_view(tools@) =~= patch_last_tool(tools_view(old(tools)@), q@));
        }
    }
}

fn tool_line_exec(tools: &mut Vec<DetectedTool>, rel: &[char], line: &[char], i: usize, pats: &Vec<Vec<char>>)
    requires
        views(pats@) == tool_pattern_table(),
    ensures
        tools_view(final(tools)@) == tool_line(tools_view(old(tools)@), rel@, line@, i as int),
{
    let t = trim_exec(line);
    match first_pattern_exec(t.as_slice(), pats) {
        Some(k) => {
            assert(views(pats@)[k as int] == pats@[k as int]@);
            let after = after_pattern_exec(t.as_slice(), pats[k].as_slice());
            let after_s = from_chars(after.as_slice());
            match extract_string_arg(after_s.as_str()) {
                Some(name) => {
                    let nc = to_chars(name.as_str());
                    if nc.len() > 0 {
                        let h = placeholder(rel, "__tool_pending_", i);
                        let tool = DetectedTool { name, handler_qname: from_chars(h.as_slice()) };
                        proof {
                            lemma_map_push(tools@, tool, |x: DetectedTool| x@);
                        }
                        tools.push(tool);
                    }
                },
                None => {},
            }
        },
        None => {},
    }
    if is_tool_def_line_exec(t.as_slice()) {
        let ts = from_chars(t.as_slice());
        match extract_fn_name(ts.as_str()) {
            Some(name) => {
                let mut q = sub_chars(rel, 0, rel.len());
                assert(q@ =~= rel@);
                push_str_chars(&mut q, "::");
                push_str_chars(&mut q, name.as_str());
                patch_last_tool_exec(tools, q.as_slice());
            },
            None => {},
        }
    }
}

/// MCP tool registrations, line by line; at the end every tool whose
/// handler is still a placeholder is dropped (from the whole list).
pub fn detect_tool_definitions(relative: &str, content: &str, tools: &mut Vec<DetectedTool>)
    ensures
        tools_view(final(tools)@) == resolved_tools(
            tool_fold(
                tools_view(old(tools)@),
                relative@,
                lines(content@),
                lines(content@).len() as int,
            ),
        ),
{
    let pats = tool_patterns();
    let rel = to_chars(relative);
    let c = to_chars(content);
    let ls = lines_exec(c.as_slice());
    let ghost lv = lines(content@);
    let ghost start = tools_view(tools@);
    let mut i: usize = 0;
    while i < ls.len()
        invariant
            i <= ls@.len(),
            views(ls@) == lv,
            lv == lines(content@),
            rel@ == relative@,
            views(pats@) == tool_pattern_table(),
            tools_view(tools@) == tool_fold(start, relative@, lv, i as int),
        decreases ls@.len() - i,
    {
        assert(lv[i as int] == ls@[i as int]@);
        tool_line_exec(tools, rel.as_slice(), ls[i].as_slice(), i, &pats);
        i += 1;
    }
    let ghost folded = tools_view(tools@);
    let ghost f = |t: ToolView| if contains(t.1, "__tool_pending_"@) { None } else { Some(t) };
    let mut kept: Vec<DetectedTool> = Vec::new();
    let mut all: Vec<DetectedTool> = Vec::new();
    all.append(tools);
    let mut k: usize = 0;
    while k < all.len()
        invariant
            k <= all@.len(),
            tools_view(all@) == folded,
            f == (|t: ToolView| if contains(t.1, "__tool_pending_"@) { None } else { Some(t) }),
            tools_view(kept@) == filter_map(folded.take(k as int), f),
            tools@.len() == 0,
        decreases all@.len() - k,
    {
        proof {
            lemma_filter_map_step(folded, k as int, f);
        }
        assert(folded[k as int] == all@[k as int]@);
        let h = to_chars(all[k].handler_qname.as_str());
        if !crate::text::contains_str(h.as_slice(), "__tool_pending_") {
            let t = DetectedTool { name: from_chars(to_chars(all[k].name.as_str()).as_slice()), handler_qname: from_chars(h.as_slice()) };
            proof {
                lemma_map_push(kept@, t, |x: DetectedTool| x@);
            }
            kept.push(t);
        }
        k += 1;
    }
    proof {
        lemma_take_full(folded);
    }
    tools.append(&mut kept);
    assert(tools_view(tools@) =~= filter_map(folded, f));
}


// ── statements ──────────────────────────────────────────────────────

/// An HTTP call or form found in a file: `(file, method, url)`.
pub type FetchView = (Seq<char>, Seq<char>, Seq<char>);

pub open spec fn fetch_views(v: Seq<(String, String, String)>) -> Seq<FetchView> {
    v.map_values(|f: (String, String, String)| (f.0@, f.1@, f.2@))
}

/// The qualified name of a route: project, method and path.
pub open spec fn route_qname(pid: Seq<char>, r: RouteView) -> Seq<char> {
    pid + "::route::"@ + cypher_escape_spec(r.0) + "::"@ + cypher_escape_spec(r.1)
}

/// The qualified name of a tool.
pub open spec fn tool_qname(pid: Seq<char>, t: ToolView) -> Seq<char> {
    pid + "::tool::"@ + cypher_escape_spec(t.0)
}

pub open spec fn route_node(pid: Seq<char>, r: RouteView) -> Seq<char> {
    "CREATE (:Route {qualified_name: '"@ + cypher_escape_spec(route_qname(pid, r)) + "', name: '"@
        + cypher_escape_spec(r.0 + " "@ + r.1) + "', project_id: '"@ + pid + "', source_file: '"@
        + cypher_escape_spec(r.3)
        + "', line_start: 0, line_end: 0, source: 'pipeline', written_by: 'pipeline', extends_type: '"@
        + cypher_escape_spec(r.0) + "', import_source: '"@ + cypher_escape_spec(r.1)
        + "', declared_type: ''})"@
}

pub open spec fn handles_route(pid: Seq<char>, r: RouteView, label: Seq<char>) -> Seq<char> {
    "MATCH (h:"@ + label + "), (r:Route) WHERE h.qualified_name = '"@ + cypher_escape_spec(r.2)
        + "' AND h.project_id = '"@ + pid + "' AND r.qualified_name = '"@ + cypher_escape_spec(
        route_qname(pid, r),
    )
        + "' CREATE (h)-[:CodeRelation {type: 'HANDLES_ROUTE', confidence: 0.90, reason: 'framework', step: 0}]->(r)"@
}

pub open spec fn tool_node(pid: Seq<char>, t: ToolView) -> Seq<char> {
    "CREATE (:Tool {qualified_name: '"@ + cypher_escape_spec(tool_qname(pid, t)) + "', name: '"@
        + cypher_escape_spec(t.0) + "', project_id: '"@ + pid
        + "', source_file: '', line_start: 0, line_end: 0, source: 'pipeline', written_by: 'pipeline', extends_type: '', import_source: '', declared_type: ''})"@
}

pub open spec fn handles_tool(pid: Seq<char>, t: ToolView, label: Seq<char>) -> Seq<char> {
    "MATCH (h:"@ + label + "), (t:Tool) WHERE h.qualified_name = '"@ + cypher_escape_spec(t.1)
        + "' AND h.project_id = '"@ + pid + "' AND t.qualified_name = '"@ + cypher_escape_spec(
        tool_qname(pid, t),
    ) + "' CREATE (h)-[:CodeRelation {type: 'HANDLES_TOOL', confidence: 0.85, reason: '"@
        + cypher_escape_spec(t.0) + "', step: 0}]->(t)"@
}

pub open spec fn fetches_edge(pid: Seq<char>, file: Seq<char>, rq: Seq<char>) -> Seq<char> {
    "MATCH (f:File), (r:Route) WHERE f.qualified_name = '"@ + cypher_escape_spec(
        pid + "::"@ + cypher_escape_spec(file),
    ) + "' AND f.project_id = '"@ + pid + "' AND r.qualified_name = '"@ + cypher_escape_spec(rq)
        + "' AND r.project_id = '"@ + pid
        + "' CREATE (f)-[:CodeRelation {type: 'FETCHES', confidence: 0.75, reason: 'url match', step: 0}]->(r)"@
}

/// No earlier route has the same qualified name.
pub open spec fn first_route(pid: Seq<char>, rs: Seq<RouteView>, i: int) -> bool {
    forall|j: int| 0 <= j < i ==> route_qname(pid, #[trigger] rs[j]) != route_qname(pid, rs[i])
}

pub open spec fn first_tool(pid: Seq<char>, ts: Seq<ToolView>, i: int) -> bool {
    forall|j: int| 0 <= j < i ==> tool_qname(pid, #[trigger] ts[j]) != tool_qname(pid, ts[i])
}

/// One node per distinct route, in order.
pub open spec fn route_nodes(pid: Seq<char>, rs: Seq<RouteView>, n: int) -> Seq<Seq<char>>
    decreases n,
{
    if n <= 0 {
        Seq::empty()
    } else {
        route_nodes(pid, rs, n - 1) + if first_route(pid, rs, n - 1) {
            seq![route_node(pid, rs[n - 1])]
        } else {
            Seq::empty()
        }
    }
}

/// For each distinct route whose handler is a known function, one edge
/// from a Function and one from a Method of that name.
pub open spec fn route_edges(pid: Seq<char>, rs: Seq<RouteView>, known: Seq<Seq<char>>, n: int) -> Seq<Seq<char>>
    decreases n,
{
    if n <= 0 {
        Seq::empty()
    } else {
        route_edges(pid, rs, known, n - 1) + if first_route(pid, rs, n - 1) && known.contains(rs[n - 1].2) {
            seq![handles_route(pid, rs[n - 1], "Function"@), handles_route(pid, rs[n - 1], "Method"@)]
        } else {
            Seq::empty()
        }
    }
}

pub open spec fn tool_nodes(pid: Seq<char>, ts: Seq<ToolView>, n: int) -> Seq<Seq<char>>
    decreases n,
{
    if n <= 0 {
        Seq::empty()
    } else {
        tool_nodes(pid, ts, n - 1) + if first_tool(pid, ts, n - 1) {
            seq![tool_node(pid, ts[n - 1])]
        } else {
            Seq::empty()
        }
    }
}

pub open spec fn tool_edges(pid: Seq<char>, ts: Seq<ToolView>, known: Seq<Seq<char>>, n: int) -> Seq<Seq<char>>
    decreases n,
{
    if n <= 0 {
        Seq::empty()
    } else {
        tool_edges(pid, ts, known, n - 1) + if first_tool(pid, ts, n - 1) && known.contains(ts[n - 1].1) {
            seq![handles_tool(pid, ts[n - 1], "Function"@), handles_tool(pid, ts[n - 1], "Method"@)]
        } else {
            Seq::empty()
        }
    }
}

/// The first route with this method and path.
pub open spec fn route_with(rs: Seq<RouteView>, m: Seq<char>, p: Seq<char>, from: int) -> Option<int>
    decreases rs.len() - from,
{
    if from < 0 || from >= rs.len() {
        None
    } else if rs[from].0 == m && rs[from].1 == p {
        Some(from)
    } else {
        route_with(rs, m, p, from + 1)
    }
}

/// The route a call reaches: the same method and URL, else a catch-all
/// route with the URL.
pub open spec fn fetch_target(pid: Seq<char>, rs: Seq<RouteView>, f: FetchView) -> Option<Seq<char>> {
    match route_with(rs, f.1, f.2, 0) {
        Some(i) => Some(route_qname(pid, rs[i])),
        None => match route_with(rs, "*"@, f.2, 0) {
            Some(i) => Some(route_qname(pid, rs[i])),
            None => None,
        },
    }
}

/// The call reaches a route no earlier call from the same file reached.
pub open spec fn first_fetch(pid: Seq<char>, rs: Seq<RouteView>, fs: Seq<FetchView>, k: int) -> bool {
    match fetch_target(pid, rs, fs[k]) {
        Some(q) => forall|j: int|
            0 <= j < k ==> !(fs[j].0 == fs[k].0 && #[trigger] fetch_target(pid, rs, fs[j]) == Some(q)),
        None => false,
    }
}

pub open spec fn fetch_edges(pid: Seq<char>, rs: Seq<RouteView>, fs: Seq<FetchView>, n: int) -> Seq<Seq<char>>
    decreases n,
{
    if n <= 0 {
        Seq::empty()
    } else {
        fetch_edges(pid, rs, fs, n - 1) + if first_fetch(pid, rs, fs, n - 1) {
            seq![fetches_edge(pid, fs[n - 1].0, fetch_target(pid, rs, fs[n - 1]).unwrap())]
        } else {
            Seq::empty()
        }
    }
}

/// What a project's routes, tools and calls become: no statements at
/// all without a route; otherwise route then tool nodes, and route,
/// tool and fetch edges.
pub open spec fn route_plan(
    pid: Seq<char>,
    rs: Seq<RouteView>,
    ts: Seq<ToolView>,
    fs: Seq<FetchView>,
    known: Seq<Seq<char>>,
) -> (Seq<Seq<char>>, Seq<Seq<char>>) {
    if rs.len() == 0 {
        (Seq::empty(), Seq::empty())
    } else {
        (
            route_nodes(pid, rs, rs.len() as int) + tool_nodes(pid, ts, ts.len() as int),
            route_edges(pid, rs, known, rs.len() as int) + tool_edges(pid, ts, known, ts.len() as int)
                + fetch_edges(pid, rs, fs, fs.len() as int),
        )
    }
}

fn escape_chars(s: &[char]) -> (r: Vec<char>)
    ensures
        r@ == cypher_escape_spec(s@),
{
    let st = from_chars(s);
    let e = crate::pipeline::imports::cypher_escape(st.as_str());
    to_chars(e.as_str())
}

fn route_qname_exec(pid: &[char], method: &str, path: &str) -> (r: Vec<char>)
    ensures
        r@ == pid@ + "::route::"@ + cypher_escape_spec(method@) + "::"@ + cypher_escape_spec(path@),
{
    let mut q = sub_chars(pid, 0, pid.len());
    assert(q@ =~= pid@);
    push_str_chars(&mut q, "::route::");
    let m = crate::pipeline::imports::cypher_escape(method);
    push_str_chars(&mut q, m.as_str());
    push_str_chars(&mut q, "::");
    let p = crate::pipeline::imports::cypher_escape(path);
    push_str_chars(&mut q, p.as_str());
    q
}

fn route_node_exec(pid: &[char], r: &DetectedRoute) -> (s: String)
    ensures
        s@ == route_node(pid@, r@),
{
    let rq = route_qname_exec(pid, r.method.as_str(), r.path.as_str());
    let mut name = to_chars(r.method.as_str());
    name.push(' ');
    push_str_chars(&mut name, r.path.as_str());
    assert(name@ =~= r.method@ + " "@ + r.path@) by {
        reveal_strlit(" ");
    }
    let mut o = to_chars("CREATE (:Route {qualified_name: '");
    push_all(&mut o, escape_chars(rq.as_slice()).as_slice());
    push_str_chars(&mut o, "', name: '");
    push_all(&mut o, escape_chars(name.as_slice()).as_slice());
    push_str_chars(&mut o, "', project_id: '");
    push_all(&mut o, pid);
    push_str_chars(&mut o, "', source_file: '");
    push_str_chars(&mut o, crate::pipeline::imports::cypher_escape(r.source_file.as_str()).as_str());
    push_str_chars(&mut o, "', line_start: 0, line_end: 0, source: 'pipeline', written_by: 'pipeline', extends_type: '");
    push_str_chars(&mut o, crate::pipeline::imports::cypher_escape(r.method.as_str()).as_str());
    push_str_chars(&mut o, "', import_source: '");
    push_str_chars(&mut o, crate::pipeline::imports::cypher_escape(r.path.as_str()).as_str());
    push_str_chars(&mut o, "', declared_type: ''})");
    assert(o@ =~= route_node(pid@, r@));
    from_chars(o.as_slice())
}

fn handles_route_exec(pid: &[char], r: &DetectedRoute, label: &str) -> (s: String)
    ensures
        s@ == handles_route(pid@, r@, label@),
{
    let rq = route_qname_exec(pid, r.method.as_str(), r.path.as_str());
    let mut o = to_chars("MATCH (h:");
    push_str_chars(&mut o, label);
    push_str_chars(&mut o, "), (r:Route) WHERE h.qualified_name = '");
    push_str_chars(&mut o, crate::pipeline::imports::cypher_escape(r.handler_qname.as_str()).as_str());
    push_str_chars(&mut o, "' AND h.project_id = '");
    push_all(&mut o, pid);
    push_str_chars(&mut o, "' AND r.qualified_name = '");
    push_all(&mut o, escape_chars(rq.as_slice()).as_slice());
    push_str_chars(&mut o, "' CREATE (h)-[:CodeRelation {type: 'HANDLES_ROUTE', confidence: 0.90, reason: 'framework', step: 0}]->(r)");
    assert(o@ =~= handles_route(pid@, r@, label@));
    from_chars(o.as_slice())
}

fn tool_qname_exec(pid: &[char], name: &str) -> (r: Vec<char>)
    ensures
        r@ == pid@ + "::tool::"@ + cypher_escape_spec(name@),
{
    let mut q = sub_chars(pid, 0, pid.len());
    assert(q@ =~= pid@);
    push_str_chars(&mut q, "::tool::");
    push_str_chars(&mut q, crate::pipeline::imports::cypher_escape(name).as_str());
    q
}

fn tool_node_exec(pid: &[char], t: &DetectedTool) -> (s: String)
    ensures
        s@ == tool_node(pid@, t@),
{
    let tq = tool_qname_exec(pid, t.name.as_str());
    let mut o = to_chars("CREATE (:Tool {qualified_name: '");
    push_all(&mut o, escape_chars(tq.as_slice()).as_slice());
    push_str_chars(&mut o, "', name: '");
    push_str_chars(&mut o, crate::pipeline::imports::cypher_escape(t.name.as_str()).as_str());
    push_str_chars(&mut o, "', project_id: '");
    push_all(&mut o, pid);
    push_str_chars(&mut o, "', source_file: '', line_start: 0, line_end: 0, source: 'pipeline', written_by: 'pipeline', extends_type: '', import_source: '', declared_type: ''})");
    assert(o@ =~= tool_node(pid@, t@));
    from_chars(o.as_slice())
}

fn handles_tool_exec(pid: &[char], t: &DetectedTool, label: &str) -> (s: String)
    ensures
        s@ == handles_tool(pid@, t@, label@),
{
    let tq = tool_qname_exec(pid, t.name.as_str());
    let mut o = to_chars("MATCH (h:");
    push_str_chars(&mut o, label);
    push_str_chars(&mut o, "), (t:Tool) WHERE h.qualified_name = '");
    push_str_chars(&mut o, crate::pipeline::imports::cypher_escape(t.handler_qname.as_str()).as_str());
    push_str_chars(&mut o, "' AND h.project_id = '");
    push_all(&mut o, pid);
    push_str_chars(&mut o, "' AND t.qualified_name = '");
    push_all(&mut o, escape_chars(tq.as_slice()).as_slice());
    push_str_chars(&mut o, "' CREATE (h)-[:CodeRelation {type: 'HANDLES_TOOL', confidence: 0.85, reason: '");
    push_str_chars(&mut o, crate::pipeline::imports::cypher_escape(t.name.as_str()).as_str());
    push_str_chars(&mut o, "', step: 0}]->(t)");
    assert(o@ =~= handles_tool(pid@, t@, label@));
    from_chars(o.as_slice())
}

fn fetches_edge_exec(pid: &[char], file: &str, rq: &[char]) -> (s: String)
    ensures
        s@ == fetches_edge(pid@, file@, rq@),
{
    let mut src = sub_chars(pid, 0, pid.len());
    assert(src@ =~= pid@);
    push_str_chars(&mut src, "::");
    push_str_chars(&mut src, crate::pipeline::imports::cypher_escape(file).as_str());
    let mut o = to_chars("MATCH (f:File), (r:Route) WHERE f.qualified_name = '");
    push_all(&mut o, escape_chars(src.as_slice()).as_slice());
    push_str_chars(&mut o, "' AND f.project_id = '");
    push_all(&mut o, pid);
    push_str_chars(&mut o, "' AND r.qualified_name = '");
    push_all(&mut o, escape_chars(rq).as_slice());
    push_str_chars(&mut o, "' AND r.project_id = '");
    push_all(&mut o, pid);
    push_str_chars(&mut o, "' CREATE (f)-[:CodeRelation {type: 'FETCHES', confidence: 0.75, reason: 'url match', step: 0}]->(r)");
    assert(o@ =~= fetches_edge(pid@, file@, rq@));
    from_chars(o.as_slice())
}


fn route_with_exec(routes: &Vec<DetectedRoute>, m: &[char], p: &[char]) -> (r: Option<usize>)
    ensures
        match r {
            Some(i) => route_with(routes_view(routes@), m@, p@, 0) == Some(i as int) && i < routes@.len(),
            None => route_with(routes_view(routes@), m@, p@, 0) is None,
        },
{
    let ghost rv = routes_view(routes@);
    let mut i: usize = 0;
    while i < routes.len()
        invariant
            i <= routes@.len(),
            rv == routes_view(routes@),
            route_with(rv, m@, p@, 0) == route_with(rv, m@, p@, i as int),
        decreases routes@.len() - i,
    {
        assert(rv[i as int] == routes@[i as int]@);
        if crate::text::str_eq_chars(routes[i].method.as_str(), m) && crate::text::str_eq_chars(
            routes[i].path.as_str(),
            p,
        ) {
            return Some(i);
        }
        i += 1;
    }
    None
}

fn fetch_target_exec(pid: &[char], routes: &Vec<DetectedRoute>, method: &str, url: &str) -> (r: Option<Vec<char>>)
    ensures
        crate::text::opt_view(r) == fetch_target(pid@, routes_view(routes@), (Seq::empty(), method@, url@)),
{
    let m = to_chars(method);
    let u = to_chars(url);
    let star = to_chars("*");
    match route_with_exec(routes, m.as_slice(), u.as_slice()) {
        Some(i) => {
            assert(routes_view(routes@)[i as int] == routes@[i as int]@);
            Some(route_qname_exec(pid, routes[i].method.as_str(), routes[i].path.as_str()))
        },
        None => match route_with_exec(routes, star.as_slice(), u.as_slice()) {
            Some(i) => {
                assert(routes_view(routes@)[i as int] == routes@[i as int]@);
                Some(route_qname_exec(pid, routes[i].method.as_str(), routes[i].path.as_str()))
            },
            None => None,
        },
    }
}

fn contains_chars(v: &Vec<Vec<char>>, x: &[char]) -> (b: bool)
    ensures
        b == views(v@).contains(x@),
{
    let mut i: usize = 0;
    while i < v.len()
        invariant
            i <= v@.len(),
            forall|k: int| 0 <= k < i ==> views(v@)[k] != x@,
        decreases v@.len() - i,
    {
        if chars_eq(v[i].as_slice(), x) {
            assert(views(v@)[i as int] == x@);
            return true;
        }
        i += 1;
    }
    false
}

fn plan_route_part(pid: &[char], routes: &Vec<DetectedRoute>, known: &Vec<String>, nodes: &mut Vec<String>, edges: &mut Vec<String>)
    ensures
        crate::text::strings(final(nodes)@) == crate::text::strings(old(nodes)@) + route_nodes(
            pid@,
            routes_view(routes@),
            routes@.len() as int,
        ),
        crate::text::strings(final(edges)@) == crate::text::strings(old(edges)@) + route_edges(
            pid@,
            routes_view(routes@),
            crate::text::strings(known@),
            routes@.len() as int,
        ),
{
    let ghost rv = routes_view(routes@);
    let ghost n0 = crate::text::strings(nodes@);
    let ghost e0 = crate::text::strings(edges@);
    let mut qs: Vec<Vec<char>> = Vec::new();
    let mut i: usize = 0;
    while i < routes.len()
        invariant
            i <= routes@.len(),
            rv == routes_view(routes@),
            views(qs@) == Seq::new(i as nat, |j: int| route_qname(pid@, rv[j])),
            crate::text::strings(nodes@) == n0 + route_nodes(pid@, rv, i as int),
            crate::text::strings(edges@) == e0 + route_edges(pid@, rv, crate::text::strings(known@), i as int),
        decreases routes@.len() - i,
    {
        let r = &routes[i];
        assert(rv[i as int] == r@);
        let q = route_qname_exec(pid, r.method.as_str(), r.path.as_str());
        let seen = contains_chars(&qs, q.as_slice());
        assert(seen == !first_route(pid@, rv, i as int)) by {
            if seen {
                let k = choose|k: int| 0 <= k < views(qs@).len() && views(qs@)[k] == q@;
                assert(route_qname(pid@, rv[k]) == route_qname(pid@, rv[i as int]));
            }
            if !first_route(pid@, rv, i as int) {
                let k = choose|k: int| 0 <= k < i && route_qname(pid@, #[trigger] rv[k]) == route_qname(pid@, rv[i as int]);
                assert(views(qs@)[k] == q@);
            }
        }
        let ghost nb = crate::text::strings(nodes@);
        let ghost eb = crate::text::strings(edges@);
        if !seen {
            crate::text::push_string(nodes, route_node_exec(pid, r));
            if crate::text::strings_contain(known, r.handler_qname.as_str()) {
                crate::text::push_string(edges, handles_route_exec(pid, r, "Function"));
                crate::text::push_string(edges, handles_route_exec(pid, r, "Method"));
            }
        }
        assert(crate::text::strings(nodes@) =~= n0 + route_nodes(pid@, rv, i + 1));
        assert(crate::text::strings(edges@) =~= e0 + route_edges(pid@, rv, crate::text::strings(known@), i + 1));
        let ghost qv = views(qs@);
        let ghost qq = q@;
        qs.push(q);
        assert(views(qs@) =~= qv.push(qq));
        assert(views(qs@) =~= Seq::new((i + 1) as nat, |j: int| route_qname(pid@, rv[j])));
        i += 1;
    }
}

fn plan_tool_part(pid: &[char], tools: &Vec<DetectedTool>, known: &Vec<String>, nodes: &mut Vec<String>, edges: &mut Vec<String>)
    ensures
        crate::text::strings(final(nodes)@) == crate::text::strings(old(nodes)@) + tool_nodes(
            pid@,
            tools_view(tools@),
            tools@.len() as int,
        ),
        crate::text::strings(final(edges)@) == crate::text::strings(old(edges)@) + tool_edges(
            pid@,
            tools_view(tools@),
            crate::text::strings(known@),
            tools@.len() as int,
        ),
{
    let ghost tv = tools_view(tools@);
    let ghost n0 = crate::text::strings(nodes@);
    let ghost e0 = crate::text::strings(edges@);
    let mut qs: Vec<Vec<char>> = Vec::new();
    let mut i: usize = 0;
    while i < tools.len()
        invariant
            i <= tools@.len(),
            tv == tools_view(tools@),
            views(qs@) == Seq::new(i as nat, |j: int| tool_qname(pid@, tv[j])),
            crate::text::strings(nodes@) == n0 + tool_nodes(pid@, tv, i as int),
            crate::text::strings(edges@) == e0 + tool_edges(pid@, tv, crate::text::strings(known@), i as int),
        decreases tools@.len() - i,
    {
        let t = &tools[i];
        assert(tv[i as int] == t@);
        let q = tool_qname_exec(pid, t.name.as_str());
        let seen = contains_chars(&qs, q.as_slice());
        assert(seen == !first_tool(pid@, tv, i as int)) by {
            if seen {
                let k = choose|k: int| 0 <= k < views(qs@).len() && views(qs@)[k] == q@;
                assert(tool_qname(pid@, tv[k]) == tool_qname(pid@, tv[i as int]));
            }
            if !first_tool(pid@, tv, i as int) {
                let k = choose|k: int| 0 <= k < i && tool_qname(pid@, #[trigger] tv[k]) == tool_qname(pid@, tv[i as int]);
                assert(views(qs@)[k] == q@);
            }
        }
        if !seen {
            crate::text::push_string(nodes, tool_node_exec(pid, t));
            if crate::text::strings_contain(known, t.handler_qname.as_str()) {
                crate::text::push_string(edges, handles_tool_exec(pid, t, "Function"));
                crate::text::push_string(edges, handles_tool_exec(pid, t, "Method"));
            }
        }
        assert(crate::text::strings(nodes@) =~= n0 + tool_nodes(pid@, tv, i + 1));
        assert(crate::text::strings(edges@) =~= e0 + tool_edges(pid@, tv, crate::text::strings(known@), i + 1));
        let ghost qv = views(qs@);
        let ghost qq = q@;
        qs.push(q);
        assert(views(qs@) =~= qv.push(qq));
        assert(views(qs@) =~= Seq::new((i + 1) as nat, |j: int| tool_qname(pid@, tv[j])));
        i += 1;
    }
}

fn plan_fetch_part(pid: &[char], routes: &Vec<DetectedRoute>, fetches: &Vec<(String, String, String)>, edges: &mut Vec<String>)
    ensures
        crate::text::strings(final(edges)@) == crate::text::strings(old(edges)@) + fetch_edges(
            pid@,
            routes_view(routes@),
            fetch_views(fetches@),
            fetches@.len() as int,
        ),
{
    let ghost rv = routes_view(routes@);
    let ghost fv = fetch_views(fetches@);
    let ghost e0 = crate::text::strings(edges@);
    let mut files: Vec<Vec<char>> = Vec::new();
    let mut targets: Vec<Option<Vec<char>>> = Vec::new();
    let mut k: usize = 0;
    while k < fetches.len()
        invariant
            k <= fetches@.len(),
            rv == routes_view(routes@),
            fv == fetch_views(fetches@),
            files@.len() == k,
            targets@.len() == k,
            forall|j: int| 0 <= j < k ==> (#[trigger] files@[j])@ == fv[j].0,
            forall|j: int| 0 <= j < k ==> crate::text::opt_view(#[trigger] targets@[j]) == fetch_target(pid@, rv, fv[j]),
            crate::text::strings(edges@) == e0 + fetch_edges(pid@, rv, fv, k as int),
        decreases fetches@.len() - k,
    {
        let f = &fetches[k];
        assert(fv[k as int] == (f.0@, f.1@, f.2@));
        let target = fetch_target_exec(pid, routes, f.1.as_str(), f.2.as_str());
        assert(fetch_target(pid@, rv, (Seq::empty(), f.1@, f.2@)) == fetch_target(pid@, rv, fv[k as int]));
        let file = to_chars(f.0.as_str());
        match &target {
            Some(q) => {
                let mut dup = false;
                let mut j: usize = 0;
                while j < k
                    invariant
                        j <= k,
                        k <= fetches@.len(),
                        files@.len() == k,
                        targets@.len() == k,
                        file@ == fv[k as int].0,
                        crate::text::opt_view(target) == fetch_target(pid@, rv, fv[k as int]),
                        target == Some(*q),
                        forall|i: int| 0 <= i < k ==> (#[trigger] files@[i])@ == fv[i].0,
                        forall|i: int| 0 <= i < k ==> crate::text::opt_view(#[trigger] targets@[i]) == fetch_target(pid@, rv, fv[i]),
                        dup <==> exists|i: int| 0 <= i < j && fv[i].0 == fv[k as int].0 && #[trigger] fetch_target(pid@, rv, fv[i]) == Some(q@),
                    decreases k - j,
                {
                    let same_file = chars_eq(files[j].as_slice(), file.as_slice());
                    let same_target = match &targets[j] {
                        Some(t) => chars_eq(t.as_slice(), q.as_slice()),
                        None => false,
                    };
                    if same_file && same_target {
                        dup = true;
                    }
                    assert(files@[j as int]@ == fv[j as int].0);
                    j += 1;
                }
                assert(dup == !first_fetch(pid@, rv, fv, k as int));
                if !dup {
                    crate::text::push_string(edges, fetches_edge_exec(pid, f.0.as_str(), q.as_slice()));
                }
            },
            None => {
                assert(!first_fetch(pid@, rv, fv, k as int));
            },
        }
        assert(crate::text::strings(edges@) =~= e0 + fetch_edges(pid@, rv, fv, k + 1));
        files.push(file);
        targets.push(target);
        k += 1;
    }
}

/// Plan the statements of the routes phase: Route and Tool nodes (one
/// per distinct qualified name), HANDLES_ROUTE / HANDLES_TOOL edges
/// for handlers among the known functions, and FETCHES edges from files
/// whose calls or forms reach a route. Nothing at all without a route.
pub fn plan_route_statements(
    project_id: &str,
    routes: &Vec<DetectedRoute>,
    tools: &Vec<DetectedTool>,
    fetch_calls: &Vec<(String, String, String)>,
    html_forms: &Vec<(String, String, String)>,
    known_symbols: &Vec<String>,
) -> (r: (Vec<String>, Vec<String>))
    ensures
        (crate::text::strings(r.0@), crate::text::strings(r.1@)) == route_plan(
            cypher_escape_spec(project_id@),
            routes_view(routes@),
            tools_view(tools@),
            fetch_views(fetch_calls@) + fetch_views(html_forms@),
            crate::text::strings(known_symbols@),
        ),
{
    let mut nodes: Vec<String> = Vec::new();
    let mut edges: Vec<String> = Vec::new();
    if routes.len() == 0 {
        assert(crate::text::strings(nodes@) =~= Seq::<Seq<char>>::empty());
        assert(crate::text::strings(edges@) =~= Seq::<Seq<char>>::empty());
        return (nodes, edges);
    }
    let pid_s = crate::pipeline::imports::cypher_escape(project_id);
    let pid = to_chars(pid_s.as_str());
    assert(crate::text::strings(nodes@) =~= Seq::<Seq<char>>::empty());
    assert(crate::text::strings(edges@) =~= Seq::<Seq<char>>::empty());
    plan_route_part(pid.as_slice(), routes, known_symbols, &mut nodes, &mut edges);
    plan_tool_part(pid.as_slice(), tools, known_symbols, &mut nodes, &mut edges);
    let mut all: Vec<(String, String, String)> = Vec::new();
    let mut k: usize = 0;
    while k < fetch_calls.len()
        invariant
            k <= fetch_calls@.len(),
            fetch_views(all@) == fetch_views(fetch_calls@).take(k as int),
        decreases fetch_calls@.len() - k,
    {
        let f = &fetch_calls[k];
        let c = (f.0.as_str().to_owned(), f.1.as_str().to_owned(), f.2.as_str().to_owned());
        let ghost before = fetch_views(all@);
        assert(fetch_views(fetch_calls@)[k as int] == (c.0@, c.1@, c.2@));
        all.push(c);
        assert(fetch_views(all@) =~= before.push((f.0@, f.1@, f.2@)));
        assert(fetch_views(fetch_calls@).take(k + 1) =~= fetch_views(fetch_calls@).take(k as int).push((f.0@, f.1@, f.2@)));
        assert(fetch_views(all@) =~= fetch_views(fetch_calls@).take(k + 1));
        k += 1;
    }
    let mut k: usize = 0;
    while k < html_forms.len()
        invariant
            k <= html_forms@.len(),
            fetch_views(all@) == fetch_views(fetch_calls@) + fetch_views(html_forms@).take(k as int),
        decreases html_forms@.len() - k,
    {
        let f = &html_forms[k];
        let c = (f.0.as_str().to_owned(), f.1.as_str().to_owned(), f.2.as_str().to_owned());
        let ghost before = fetch_views(all@);
        assert(fetch_views(html_forms@)[k as int] == (c.0@, c.1@, c.2@));
        all.push(c);
        assert(fetch_views(all@) =~= before.push((f.0@, f.1@, f.2@)));
        assert(fetch_views(html_forms@).take(k + 1) =~= fetch_views(html_forms@).take(k as int).push((f.0@, f.1@, f.2@)));
        assert(fetch_views(all@) =~= fetch_views(fetch_calls@) + fetch_views(html_forms@).take(k + 1));
        k += 1;
    }
    assert(fetch_views(fetch_calls@).take(fetch_calls@.len() as int) =~= fetch_views(fetch_calls@));
    assert(fetch_views(html_forms@).take(html_forms@.len() as int) =~= fetch_views(html_forms@));
    plan_fetch_part(pid.as_slice(), routes, &all, &mut edges);
    (nodes, edges)
}

// ── one file's findings ─────────────────────────────────────────────

/// A framework extractor's route, its handler qualified by the file it
/// was found in.
pub open spec fn qualified_route(relative: Seq<char>, r: crate::semantic::route_extractors::RouteView) -> RouteView {
    (r.0, r.1, relative + "::"@ + r.2, relative)
}

pub open spec fn qualified_routes(
    relative: Seq<char>,
    rs: Seq<crate::semantic::route_extractors::RouteView>,
) -> Seq<RouteView> {
    rs.map_values(|r: crate::semantic::route_extractors::RouteView| qualified_route(relative, r))
}

/// The routes after scanning a file: the detectors run in order on what
/// was found so far (file-based routing, then decorators and calls,
/// which may give a handler to the last pending route even when an
/// earlier file left it), then the framework extractors.
pub open spec fn scanned_routes(
    before: Seq<RouteView>,
    file_path: Seq<char>,
    relative: Seq<char>,
    content: Seq<char>,
) -> Seq<RouteView> {
    decorator_fold(
        before + nextjs_routes(relative) + expo_routes(relative),
        relative,
        lines(content),
        lines(content).len() as int,
    ) + qualified_routes(relative, crate::semantic::route_extractors::extract_all_spec(file_path, content))
}

/// The MCP tools after scanning a file: its registrations are added and
/// every tool still without a handler is dropped.
pub open spec fn scanned_tools(before: Seq<ToolView>, relative: Seq<char>, content: Seq<char>) -> Seq<ToolView> {
    resolved_tools(tool_fold(before, relative, lines(content), lines(content).len() as int))
}

/// HTTP client calls of a file as `(file, method, url)`.
pub open spec fn file_fetches(
    relative: Seq<char>,
    calls: Seq<crate::semantic::response_shapes::FetchView>,
) -> Seq<FetchView> {
    calls.map_values(|c: crate::semantic::response_shapes::FetchView| (relative, c.0, c.1))
}

/// Form actions of a file as `(file, method, url)`.
pub open spec fn file_forms(relative: Seq<char>, forms: Seq<(Seq<char>, Seq<char>, u32)>) -> Seq<FetchView> {
    forms.map_values(|f: (Seq<char>, Seq<char>, u32)| (relative, f.1, f.0))
}

/// Whether the file's extension is exactly `html` or `htm`.
pub open spec fn is_html_file(file_path: Seq<char>) -> bool {
    let ext = match crate::semantic::route_extractors::extension(file_path) {
        Some(e) => e,
        None => Seq::empty(),
    };
    ext == "html"@ || ext == "htm"@
}

fn push_record(out: &mut Vec<(String, String, String)>, a: &str, b: &str, c: &str)
    ensures
        fetch_views(final(out)@) == fetch_views(old(out)@).push((a@, b@, c@)),
{
    let t = (a.to_owned(), b.to_owned(), c.to_owned());
    proof {
        lemma_map_push(out@, t, |f: (String, String, String)| (f.0@, f.1@, f.2@));
    }
    out.push(t);
}

fn push_qualified_routes(relative: &str, rs: &Vec<crate::semantic::route_extractors::DetectedRoute>, routes: &mut Vec<DetectedRoute>)
    ensures
        routes_view(final(routes)@) == routes_view(old(routes)@) + qualified_routes(
            relative@,
            crate::semantic::route_extractors::routes_view(rs@),
        ),
{
    let ghost start = routes_view(routes@);
    let ghost ev = crate::semantic::route_extractors::routes_view(rs@);
    let rel = to_chars(relative);
    let mut i: usize = 0;
    while i < rs.len()
        invariant
            i <= rs@.len(),
            rel@ == relative@,
            ev == crate::semantic::route_extractors::routes_view(rs@),
            routes_view(routes@) == start + qualified_routes(relative@, ev.take(i as int)),
        decreases rs@.len() - i,
    {
        let r = &rs[i];
        assert(ev[i as int] == r@);
        let mut h = rel.clone();
        push_str_chars(&mut h, "::");
        push_str_chars(&mut h, r.handler_name.as_str());
        let m = to_chars(r.method.as_str());
        let p = to_chars(r.path.as_str());
        push_route(routes, m.as_slice(), p.as_slice(), h.as_slice(), rel.as_slice());
        assert(ev.take(i + 1) =~= ev.take(i as int).push(ev[i as int]));
        assert(qualified_routes(relative@, ev.take(i + 1)) =~= qualified_routes(relative@, ev.take(i as int)).push(
            qualified_route(relative@, ev[i as int]),
        ));
        i += 1;
    }
    assert(ev.take(rs@.len() as int) =~= ev);
}

/// Run every detector on one file and add what it finds to what was
/// found so far: `file_path` picks the framework extractors and whether
/// HTML forms are read; `relative` is the path recorded on each find.
/// Fetch calls and form actions are `(file, method, url)`.
pub fn scan_file(
    file_path: &str,
    relative: &str,
    content: &str,
    routes: &mut Vec<DetectedRoute>,
    tools: &mut Vec<DetectedTool>,
    fetch_calls: &mut Vec<(String, String, String)>,
    html_forms: &mut Vec<(String, String, String)>,
)
    ensures
        routes_view(final(routes)@) == scanned_routes(routes_view(old(routes)@), file_path@, relative@, content@),
        tools_view(final(tools)@) == scanned_tools(tools_view(old(tools)@), relative@, content@),
        fetch_views(final(fetch_calls)@) == fetch_views(old(fetch_calls)@) + file_fetches(
            relative@,
            crate::semantic::response_shapes::fetch_calls(content@),
        ),
        fetch_views(final(html_forms)@) == fetch_views(old(html_forms)@) + (if is_html_file(file_path@) {
            file_forms(
                relative@,
                crate::lang::html::form_actions_from(
                    content@,
                    crate::pattern::all_captures(crate::lang::html::FORM_ACTION_PATTERN@, content@),
                ),
            )
        } else {
            Seq::empty()
        }),
{
    let ghost r0 = routes_view(routes@);
    detect_nextjs_routes(relative, content, routes);
    detect_expo_routes(relative, routes);
    assert(routes_view(routes@) =~= r0 + nextjs_routes(relative@) + expo_routes(relative@));
    detect_decorator_routes(relative, content, routes);
    detect_tool_definitions(relative, content, tools);
    let ext_routes = crate::semantic::route_extractors::extract_all(file_path, content);
    push_qualified_routes(relative, &ext_routes, routes);

    let calls = crate::semantic::response_shapes::extract(content);
    let ghost cv = crate::semantic::response_shapes::fetches_view(calls@);
    let ghost f0 = fetch_views(fetch_calls@);
    let mut i: usize = 0;
    while i < calls.len()
        invariant
            i <= calls@.len(),
            cv == crate::semantic::response_shapes::fetches_view(calls@),
            fetch_views(fetch_calls@) == f0 + file_fetches(relative@, cv.take(i as int)),
        decreases calls@.len() - i,
    {
        assert(cv[i as int] == calls@[i as int]@);
        push_record(fetch_calls, relative, calls[i].method.as_str(), calls[i].url.as_str());
        assert(cv.take(i + 1) =~= cv.take(i as int).push(cv[i as int]));
        assert(file_fetches(relative@, cv.take(i + 1)) =~= file_fetches(relative@, cv.take(i as int)).push(
            (relative@, cv[i as int].0, cv[i as int].1),
        ));
        i += 1;
    }
    assert(cv.take(calls@.len() as int) =~= cv);

    let ghost h0 = fetch_views(html_forms@);
    let ext = match crate::semantic::route_extractors::extension_exec(file_path) {
        Some(e) => e,
        None => Vec::new(),
    };
    let html = crate::text::str_eq_chars("html", ext.as_slice()) || crate::text::str_eq_chars(
        "htm",
        ext.as_slice(),
    );
    if html {
        let forms = crate::lang::html::extract_form_actions(content);
        let ghost fv = forms@.map_values(|a: crate::lang::html::HtmlFormAction| a@);
        let mut j: usize = 0;
        while j < forms.len()
            invariant
                j <= forms@.len(),
                fv == forms@.map_values(|a: crate::lang::html::HtmlFormAction| a@),
                fetch_views(html_forms@) == h0 + file_forms(relative@, fv.take(j as int)),
            decreases forms@.len() - j,
        {
            assert(fv[j as int] == forms@[j as int]@);
            push_record(html_forms, relative, forms[j].method.as_str(), forms[j].url.as_str());
            assert(fv.take(j + 1) =~= fv.take(j as int).push(fv[j as int]));
            assert(file_forms(relative@, fv.take(j + 1)) =~= file_forms(relative@, fv.take(j as int)).push(
                (relative@, fv[j as int].1, fv[j as int].0),
            ));
            j += 1;
        }
        assert(fv.take(forms@.len() as int) =~= fv);
    } else {
        assert(fetch_views(html_forms@) =~= h0 + Seq::<FetchView>::empty());
    }
}

/// The routes phase.
pub struct RoutesPhase;

impl RoutesPhase {
    pub fn label(&self) -> (r: &'static str)
        ensures
            r@ == "routes"@,
    {
        "routes"
    }
}

} // verus!
