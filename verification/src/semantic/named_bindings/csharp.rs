//! C#: `services.AddSingleton<IFoo, Foo>()` and the scoped / transient
//! forms against `IServiceCollection`.

use vstd::prelude::*;

use crate::pattern::{
    all_captures, cap_view, caps_view, filter_map, find_all, get_group, group, group_or_empty,
    group_or_empty_exec, lemma_filter_map_step, lemma_take_full, line_for_offset, line_of_byte,
    CapView, Captures,
};
use crate::text::{chars_eq, to_chars};
use super::{bindings_view, make_binding, push_binding, BindingKind, BindingView, NamedBinding};

verus! {

/// `AddSingleton|AddScoped|AddTransient<First[, Second]>`.
pub const ADD_SERVICE_PATTERN: &'static str =
    r#"Add(Singleton|Scoped|Transient)\s*<\s*([A-Za-z_][A-Za-z0-9_]*)\s*(?:,\s*([A-Za-z_][A-Za-z0-9_]*))?\s*>"#;

pub open spec fn lifetime_kind(g: Option<Seq<char>>) -> BindingKind {
    match g {
        Some(s) => if s == "Singleton"@ {
            BindingKind::Singleton
        } else if s == "Scoped"@ {
            BindingKind::Scoped
        } else if s == "Transient"@ {
            BindingKind::Transient
        } else {
            BindingKind::Unknown
        },
        None => BindingKind::Unknown,
    }
}

/// The binding of one registration: with two type arguments the first
/// is the consumer (interface) and the second the provider; with one,
/// it is both.
pub open spec fn registration(content: Seq<char>, c: CapView) -> Option<BindingView> {
    let first = group_or_empty(c, 2);
    Some(
        (
            first,
            match group(c, 3) {
                Some(s) => s,
                None => first,
            },
            lifetime_kind(group(c, 1)),
            line_of_byte(content, c.0),
        ),
    )
}

pub open spec fn registrations(content: Seq<char>, caps: Seq<CapView>) -> Seq<BindingView> {
    filter_map(caps, |c: CapView| registration(content, c))
}

fn lifetime_kind_exec(cap: &Captures) -> (k: BindingKind)
    ensures
        k == lifetime_kind(group(cap_view(*cap), 1)),
{
    match get_group(cap, 1) {
        Some(g) => {
            let s = to_chars("Singleton");
            let sc = to_chars("Scoped");
            let t = to_chars("Transient");
            if chars_eq(g.as_slice(), s.as_slice()) {
                BindingKind::Singleton
            } else if chars_eq(g.as_slice(), sc.as_slice()) {
                BindingKind::Scoped
            } else if chars_eq(g.as_slice(), t.as_slice()) {
                BindingKind::Transient
            } else {
                BindingKind::Unknown
            }
        },
        None => BindingKind::Unknown,
    }
}

/// Bindings from the given matches of [`ADD_SERVICE_PATTERN`].
pub fn bindings_from_matches(content: &str, caps: &Vec<Captures>) -> (r: Vec<NamedBinding>)
    ensures
        bindings_view(r@) == registrations(content@, caps_view(caps@)),
{
    let ghost f = |c: CapView| registration(content@, c);
    let mut out: Vec<NamedBinding> = Vec::new();
    let mut i: usize = 0;
    while i < caps.len()
        invariant
            i <= caps.len(),
            f == (|c: CapView| registration(content@, c)),
            bindings_view(out@) == filter_map(caps_view(caps@).take(i as int), f),
        decreases caps.len() - i,
    {
        let cap = &caps[i];
        proof {
            lemma_filter_map_step(caps_view(caps@), i as int, f);
            assert(caps_view(caps@)[i as int] == cap_view(*cap));
        }
        let first = group_or_empty_exec(cap, 2);
        let second = match get_group(cap, 3) {
            Some(s) => s,
            None => crate::text::sub_chars(first.as_slice(), 0, first.len()),
        };
        assert(group(cap_view(*cap), 3) is None ==> second@ =~= first@);
        let kind = lifetime_kind_exec(cap);
        let b = make_binding(first.as_slice(), second.as_slice(), kind, line_for_offset(content, cap.start));
        push_binding(&mut out, b);
        i += 1;
    }
    proof {
        lemma_take_full(caps_view(caps@));
    }
    out
}

/// Every `Add*<..>` registration in `content`.
pub fn extract(content: &str) -> (r: Vec<NamedBinding>)
    ensures
        bindings_view(r@) == registrations(content@, all_captures(ADD_SERVICE_PATTERN@, content@)),
{
    let caps = find_all(ADD_SERVICE_PATTERN, content);
    bindings_from_matches(content, &caps)
}

} // verus!
