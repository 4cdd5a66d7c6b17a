//! Python: FastAPI `Depends(...)` parameters and
//! `dependency_injector` provider assignments.

use vstd::prelude::*;

use crate::pattern::{
    all_captures, cap_view, caps_view, filter_map, find_all, get_group, group, group_or_empty,
    group_or_empty_exec, lemma_filter_map_step, lemma_take_full, line_for_offset, line_of_byte,
    CapView, Captures,
};
use crate::text::{chars_eq, str_eq_chars, to_chars};
use super::{
    append_bindings, bindings_view, make_binding, push_binding, BindingKind, BindingView,
    NamedBinding,
};

verus! {

/// `param: Type = Depends(callable)`.
pub const DEPENDS_PATTERN: &'static str =
    r#"([A-Za-z_][A-Za-z0-9_]*)\s*:\s*[^=]*=\s*Depends\s*\(\s*([A-Za-z_][A-Za-z0-9_.]*)\s*\)"#;

/// `name = providers.Kind(Target`.
pub const PROVIDER_ASSIGN_PATTERN: &'static str =
    r#"([A-Za-z_][A-Za-z0-9_]*)\s*=\s*providers\.(Singleton|Factory|Resource|Callable|ThreadLocalSingleton)\s*\(\s*([A-Za-z_][A-Za-z0-9_.]*)"#;

/// The parameter receives what the callable provides, per request.
pub open spec fn depends_binding(content: Seq<char>, c: CapView) -> Option<BindingView> {
    Some((group_or_empty(c, 1), group_or_empty(c, 2), BindingKind::Scoped, line_of_byte(content, c.0)))
}

pub open spec fn provider_kind(g: Option<Seq<char>>) -> BindingKind {
    match g {
        Some(s) => if s == "Singleton"@ || s == "ThreadLocalSingleton"@ {
            BindingKind::Singleton
        } else if s == "Factory"@ || s == "Callable"@ {
            BindingKind::Factory
        } else if s == "Resource"@ {
            BindingKind::Scoped
        } else {
            BindingKind::Unknown
        },
        None => BindingKind::Unknown,
    }
}

pub open spec fn provider_binding(content: Seq<char>, c: CapView) -> Option<BindingView> {
    Some((group_or_empty(c, 1), group_or_empty(c, 3), provider_kind(group(c, 2)), line_of_byte(content, c.0)))
}

/// `Depends` parameters first, then provider assignments.
pub open spec fn python_bindings(content: Seq<char>, depends: Seq<CapView>, providers: Seq<CapView>) -> Seq<BindingView> {
    filter_map(depends, |c: CapView| depends_binding(content, c)) + filter_map(
        providers,
        |c: CapView| provider_binding(content, c),
    )
}

fn provider_kind_exec(cap: &Captures) -> (k: BindingKind)
    ensures
        k == provider_kind(group(cap_view(*cap), 2)),
{
    match get_group(cap, 2) {
        Some(g) => {
            if str_eq_chars("Singleton", g.as_slice()) || str_eq_chars("ThreadLocalSingleton", g.as_slice()) {
                BindingKind::Singleton
            } else if str_eq_chars("Factory", g.as_slice()) || str_eq_chars("Callable", g.as_slice()) {
                BindingKind::Factory
            } else if str_eq_chars("Resource", g.as_slice()) {
                BindingKind::Scoped
            } else {
                BindingKind::Unknown
            }
        },
        None => BindingKind::Unknown,
    }
}

/// `Depends` parameters from the given matches of [`DEPENDS_PATTERN`].
pub fn depends_from_matches(content: &str, caps: &Vec<Captures>) -> (r: Vec<NamedBinding>)
    ensures
        bindings_view(r@) == filter_map(caps_view(caps@), |c: CapView| depends_binding(content@, c)),
{
    let ghost f = |c: CapView| depends_binding(content@, c);
    let mut out: Vec<NamedBinding> = Vec::new();
    let mut i: usize = 0;
    while i < caps.len()
        invariant
            i <= caps.len(),
            f == (|c: CapView| depends_binding(content@, c)),
            bindings_view(out@) == filter_map(caps_view(caps@).take(i as int), f),
        decreases caps.len() - i,
    {
        let cap = &caps[i];
        proof {
            lemma_filter_map_step(caps_view(caps@), i as int, f);
            assert(caps_view(caps@)[i as int] == cap_view(*cap));
        }
        let a = group_or_empty_exec(cap, 1);
        let p = group_or_empty_exec(cap, 2);
        let b = make_binding(a.as_slice(), p.as_slice(), BindingKind::Scoped, line_for_offset(content, cap.start));
        push_binding(&mut out, b);
        i += 1;
    }
    proof {
        lemma_take_full(caps_view(caps@));
    }
    out
}
/// Provider assignments from the given matches of [`PROVIDER_ASSIGN_PATTERN`].
pub fn providers_from_matches(content: &str, caps: &Vec<Captures>) -> (r: Vec<NamedBinding>)
    ensures
        bindings_view(r@) == filter_map(caps_view(caps@), |c: CapView| provider_binding(content@, c)),
{
    let ghost f = |c: CapView| provider_binding(content@, c);
    let mut out: Vec<NamedBinding> = Vec::new();
    let mut i: usize = 0;
    while i < caps.len()
        invariant
            i <= caps.len(),
            f == (|c: CapView| provider_binding(content@, c)),
            bindings_view(out@) == filter_map(caps_view(caps@).take(i as int), f),
        decreases caps.len() - i,
    {
        let cap = &caps[i];
        proof {
            lemma_filter_map_step(caps_view(caps@), i as int, f);
            assert(caps_view(caps@)[i as int] == cap_view(*cap));
        }
        let a = group_or_empty_exec(cap, 1);
        let p = group_or_empty_exec(cap, 3);
        let kind = provider_kind_exec(cap);
        let b = make_binding(a.as_slice(), p.as_slice(), kind, line_for_offset(content, cap.start));
        push_binding(&mut out, b);
        i += 1;
    }
    proof {
        lemma_take_full(caps_view(caps@));
    }
    out
}

/// Every `Depends` parameter and provider assignment in `content`.
pub fn extract(content: &str) -> (r: Vec<NamedBinding>)
    ensures
        bindings_view(r@) == python_bindings(
            content@,
            all_captures(DEPENDS_PATTERN@, content@),
            all_captures(PROVIDER_ASSIGN_PATTERN@, content@),
        ),
{
    let deps = find_all(DEPENDS_PATTERN, content);
    let provs = find_all(PROVIDER_ASSIGN_PATTERN, content);
    let mut out = depends_from_matches(content, &deps);
    append_bindings(&mut out, providers_from_matches(content, &provs));
    out
}

} // verus!
