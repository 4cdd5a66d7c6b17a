//! Spring and Koin registrations (Java and Kotlin): stereotype
//! annotations on a class, and `single { Foo() }`-style module entries.

use vstd::prelude::*;

use crate::pattern::{
    all_captures, cap_view, caps_view, filter_map, find_all, get_group, group, group_or_empty,
    group_or_empty_exec, lemma_filter_map_step, lemma_take_full, line_for_offset, line_of_byte,
    CapView, Captures,
};
use crate::text::{chars_eq, str_eq_chars, to_chars};
use super::{
    append_bindings, bindings_view, make_binding, push_binding, BindingKind, BindingView,
    NamedBinding,
};

verus! {

/// A Spring stereotype annotation followed by the class it marks.
pub const SPRING_CLASS_PATTERN: &'static str =
    r#"(?m)^\s*@\s*(Component|Service|Repository|Controller|RestController|Configuration)\b[^\n]*(?:\r?\n\s*)*(?:public\s+|final\s+)*class\s+([A-Za-z_][A-Za-z0-9_]*)"#;

/// A Koin definition `single|factory|scoped|viewModel { Type(`.
pub const KOIN_PATTERN: &'static str =
    r#"(?m)\b(single|factory|scoped|viewModel)\s*\{\s*([A-Za-z_][A-Za-z0-9_]*)\s*\("#;

/// A Spring bean: the application context provides the class.
pub open spec fn spring_binding(content: Seq<char>, c: CapView) -> Option<BindingView> {
    Some(("ApplicationContext"@, group_or_empty(c, 2), BindingKind::Singleton, line_of_byte(content, c.0)))
}

pub open spec fn koin_kind(g: Option<Seq<char>>) -> BindingKind {
    match g {
        Some(s) => if s == "single"@ {
            BindingKind::Singleton
        } else if s == "factory"@ {
            BindingKind::Factory
        } else if s == "scoped"@ || s == "viewModel"@ {
            BindingKind::Scoped
        } else {
            BindingKind::Unknown
        },
        None => BindingKind::Unknown,
    }
}

/// A Koin definition: the module provides the constructed type.
pub open spec fn koin_binding(content: Seq<char>, c: CapView) -> Option<BindingView> {
    Some(("KoinModule"@, group_or_empty(c, 2), koin_kind(group(c, 1)), line_of_byte(content, c.0)))
}

/// Spring beans first, then Koin definitions.
pub open spec fn jvm_bindings(content: Seq<char>, spring: Seq<CapView>, koin: Seq<CapView>) -> Seq<BindingView> {
    filter_map(spring, |c: CapView| spring_binding(content, c)) + filter_map(
        koin,
        |c: CapView| koin_binding(content, c),
    )
}

fn koin_kind_exec(cap: &Captures) -> (k: BindingKind)
    ensures
        k == koin_kind(group(cap_view(*cap), 1)),
{
    match get_group(cap, 1) {
        Some(g) => {
            if str_eq_chars("single", g.as_slice()) {
                BindingKind::Singleton
            } else if str_eq_chars("factory", g.as_slice()) {
                BindingKind::Factory
            } else if str_eq_chars("scoped", g.as_slice()) || str_eq_chars("viewModel", g.as_slice()) {
                BindingKind::Scoped
            } else {
                BindingKind::Unknown
            }
        },
        None => BindingKind::Unknown,
    }
}

/// Spring beans from the given matches of [`SPRING_CLASS_PATTERN`].
pub fn spring_from_matches(content: &str, caps: &Vec<Captures>) -> (r: Vec<NamedBinding>)
    ensures
        bindings_view(r@) == filter_map(caps_view(caps@), |c: CapView| spring_binding(content@, c)),
{
    let ghost f = |c: CapView| spring_binding(content@, c);
    let mut out: Vec<NamedBinding> = Vec::new();
    let mut i: usize = 0;
    while i < caps.len()
        invariant
            i <= caps.len(),
            f == (|c: CapView| spring_binding(content@, c)),
            bindings_view(out@) == filter_map(caps_view(caps@).take(i as int), f),
        decreases caps.len() - i,
    {
        let cap = &caps[i];
        proof {
            lemma_filter_map_step(caps_view(caps@), i as int, f);
            assert(caps_view(caps@)[i as int] == cap_view(*cap));
        }
        let name = group_or_empty_exec(cap, 2);
        let consumer = to_chars("ApplicationContext");
        let b = make_binding(consumer.as_slice(), name.as_slice(), BindingKind::Singleton, line_for_offset(content, cap.start));
        push_binding(&mut out, b);
        i += 1;
    }
    proof {
        lemma_take_full(caps_view(caps@));
    }
    out
}
/// Koin definitions from the given matches of [`KOIN_PATTERN`].
pub fn koin_from_matches(content: &str, caps: &Vec<Captures>) -> (r: Vec<NamedBinding>)
    ensures
        bindings_view(r@) == filter_map(caps_view(caps@), |c: CapView| koin_binding(content@, c)),
{
    let ghost f = |c: CapView| koin_binding(content@, c);
    let mut out: Vec<NamedBinding> = Vec::new();
    let mut i: usize = 0;
    while i < caps.len()
        invariant
            i <= caps.len(),
            f == (|c: CapView| koin_binding(content@, c)),
            bindings_view(out@) == filter_map(caps_view(caps@).take(i as int), f),
        decreases caps.len() - i,
    {
        let cap = &caps[i];
        proof {
            lemma_filter_map_step(caps_view(caps@), i as int, f);
            assert(caps_view(caps@)[i as int] == cap_view(*cap));
        }
        let name = group_or_empty_exec(cap, 2);
        let consumer = to_chars("KoinModule");
        let kind = koin_kind_exec(cap);
        let b = make_binding(consumer.as_slice(), name.as_slice(), kind, line_for_offset(content, cap.start));
        push_binding(&mut out, b);
        i += 1;
    }
    proof {
        lemma_take_full(caps_view(caps@));
    }
    out
}

/// Every Spring bean and Koin definition in `content`.
pub fn extract(content: &str) -> (r: Vec<NamedBinding>)
    ensures
        bindings_view(r@) == jvm_bindings(
            content@,
            all_captures(SPRING_CLASS_PATTERN@, content@),
            all_captures(KOIN_PATTERN@, content@),
        ),
{
    let spring = find_all(SPRING_CLASS_PATTERN, content);
    let koin = find_all(KOIN_PATTERN, content);
    let mut out = spring_from_matches(content, &spring);
    append_bindings(&mut out, koin_from_matches(content, &koin));
    out
}

} // verus!
