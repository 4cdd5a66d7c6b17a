//! Laravel service-container bindings: `$this->app->bind(A::class,
//! B::class)` and `->singleton(...)`.

use vstd::prelude::*;

use crate::pattern::{
    all_captures, cap_view, caps_view, filter_map, find_all, get_group, group, group_or_empty,
    group_or_empty_exec, lemma_filter_map_step, lemma_take_full, line_for_offset, line_of_byte,
    CapView, Captures,
};
use crate::text::{after_last, after_last_exec, chars_eq, str_eq_chars, to_chars, trim_end_matches, trim_end_matches_exec};
use super::{
    append_bindings, bindings_view, make_binding, push_binding, BindingKind, BindingView,
    NamedBinding,
};

verus! {

/// `$this->app->bind(A, B)` or `app()->bind(A, B)`.
pub const LARAVEL_BIND_PATTERN: &'static str =
    r#"(?:\$this->app|app\(\))\s*->\s*bind\s*\(\s*([A-Za-z_\\][A-Za-z0-9_\\]*(?:::class)?)\s*,\s*([A-Za-z_\\][A-Za-z0-9_\\]*(?:::class)?)"#;

/// The same with `singleton`.
pub const LARAVEL_SINGLETON_PATTERN: &'static str =
    r#"(?:\$this->app|app\(\))\s*->\s*singleton\s*\(\s*([A-Za-z_\\][A-Za-z0-9_\\]*(?:::class)?)\s*,\s*([A-Za-z_\\][A-Za-z0-9_\\]*(?:::class)?)"#;

/// A class reference without its `::class` suffixes and namespace.
pub open spec fn short_class_name(s: Seq<char>) -> Seq<char> {
    after_last(trim_end_matches(s, "::class"@), '\\')
}

pub fn strip_class_suffix(s: &[char]) -> (r: Vec<char>)
    ensures
        r@ == short_class_name(s@),
{
    let suffix = to_chars("::class");
    let t = trim_end_matches_exec(s, suffix.as_slice());
    after_last_exec(t.as_slice(), '\\')
}

pub open spec fn container_binding(content: Seq<char>, c: CapView, kind: BindingKind) -> Option<BindingView> {
    Some((short_class_name(group_or_empty(c, 1)), short_class_name(group_or_empty(c, 2)), kind, line_of_byte(content, c.0)))
}

pub open spec fn bind_binding(content: Seq<char>, c: CapView) -> Option<BindingView> {
    container_binding(content, c, BindingKind::Transient)
}

pub open spec fn singleton_binding(content: Seq<char>, c: CapView) -> Option<BindingView> {
    container_binding(content, c, BindingKind::Singleton)
}

/// `bind` registrations first, then `singleton` ones.
pub open spec fn laravel_bindings(content: Seq<char>, binds: Seq<CapView>, singletons: Seq<CapView>) -> Seq<BindingView> {
    filter_map(binds, |c: CapView| bind_binding(content, c)) + filter_map(
        singletons,
        |c: CapView| singleton_binding(content, c),
    )
}

/// `bind` registrations from the given matches of [`LARAVEL_BIND_PATTERN`].
pub fn binds_from_matches(content: &str, caps: &Vec<Captures>) -> (r: Vec<NamedBinding>)
    ensures
        bindings_view(r@) == filter_map(caps_view(caps@), |c: CapView| bind_binding(content@, c)),
{
    let ghost f = |c: CapView| bind_binding(content@, c);
    let mut out: Vec<NamedBinding> = Vec::new();
    let mut i: usize = 0;
    while i < caps.len()
        invariant
            i <= caps.len(),
            f == (|c: CapView| bind_binding(content@, c)),
            bindings_view(out@) == filter_map(caps_view(caps@).take(i as int), f),
        decreases caps.len() - i,
    {
        let cap = &caps[i];
        proof {
            lemma_filter_map_step(caps_view(caps@), i as int, f);
            assert(caps_view(caps@)[i as int] == cap_view(*cap));
        }
        let a = group_or_empty_exec(cap, 1);
        let b2 = group_or_empty_exec(cap, 2);
        let ca = strip_class_suffix(a.as_slice());
        let cb = strip_class_suffix(b2.as_slice());
        let b = make_binding(ca.as_slice(), cb.as_slice(), BindingKind::Transient, line_for_offset(content, cap.start));
        push_binding(&mut out, b);
        i += 1;
    }
    proof {
        lemma_take_full(caps_view(caps@));
    }
    out
}
/// `singleton` registrations from the given matches of [`LARAVEL_SINGLETON_PATTERN`].
pub fn singletons_from_matches(content: &str, caps: &Vec<Captures>) -> (r: Vec<NamedBinding>)
    ensures
        bindings_view(r@) == filter_map(caps_view(caps@), |c: CapView| singleton_binding(content@, c)),
{
    let ghost f = |c: CapView| singleton_binding(content@, c);
    let mut out: Vec<NamedBinding> = Vec::new();
    let mut i: usize = 0;
    while i < caps.len()
        invariant
            i <= caps.len(),
            f == (|c: CapView| singleton_binding(content@, c)),
            bindings_view(out@) == filter_map(caps_view(caps@).take(i as int), f),
        decreases caps.len() - i,
    {
        let cap = &caps[i];
        proof {
            lemma_filter_map_step(caps_view(caps@), i as int, f);
            assert(caps_view(caps@)[i as int] == cap_view(*cap));
        }
        let a = group_or_empty_exec(cap, 1);
        let b2 = group_or_empty_exec(cap, 2);
        let ca = strip_class_suffix(a.as_slice());
        let cb = strip_class_suffix(b2.as_slice());
        let b = make_binding(ca.as_slice(), cb.as_slice(), BindingKind::Singleton, line_for_offset(content, cap.start));
        push_binding(&mut out, b);
        i += 1;
    }
    proof {
        lemma_take_full(caps_view(caps@));
    }
    out
}

/// Every container registration in `content`.
pub fn extract(content: &str) -> (r: Vec<NamedBinding>)
    ensures
        bindings_view(r@) == laravel_bindings(
            content@,
            all_captures(LARAVEL_BIND_PATTERN@, content@),
            all_captures(LARAVEL_SINGLETON_PATTERN@, content@),
        ),
{
    let binds = find_all(LARAVEL_BIND_PATTERN, content);
    let singles = find_all(LARAVEL_SINGLETON_PATTERN, content);
    let mut out = binds_from_matches(content, &binds);
    append_bindings(&mut out, singletons_from_matches(content, &singles));
    out
}

} // verus!
