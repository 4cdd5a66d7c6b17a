//! TypeScript / JavaScript: `@Injectable()` classes, NestJS
//! `providers: [..]` arrays and InversifyJS `bind<I>(..).to(C)`.

use vstd::prelude::*;

use crate::pattern::{
    all_captures, cap_view, caps_view, filter_map, find_all, flat_map, get_group, group,
    group_or_empty, group_or_empty_exec, lemma_filter_map_step, lemma_flat_map_step,
    lemma_take_full, line_for_offset, line_of_byte, CapView, Captures,
};
use crate::text::{
    first_token, first_token_exec, split_char, split_char_exec, to_chars, trim, trim_end_matches,
    trim_end_matches_exec, trim_exec, views,
};
use crate::chars::{is_alphabetic, unicode_alphabetic};
use super::{
    append_bindings, bindings_view, make_binding, push_binding, BindingKind, BindingView,
    NamedBinding,
};

verus! {

/// `@Injectable(...)` followed by an exported class.
pub const INJECTABLE_CLASS_PATTERN: &'static str =
    r#"(?m)^\s*@\s*Injectable\s*\([^)]*\)\s*(?:\r?\n\s*)+export\s+class\s+([A-Za-z_][A-Za-z0-9_]*)"#;

/// A NestJS `providers: [..]` array.
pub const NEST_PROVIDERS_PATTERN: &'static str = r#"providers\s*:\s*\[([^\]]+)\]"#;

/// `bind<Interface>(..).to(Class)`.
pub const INVERSIFY_BIND_PATTERN: &'static str =
    r#"(?m)bind\s*<\s*([A-Za-z_][A-Za-z0-9_]*)\s*>\s*\([^)]*\)\s*\.\s*to\s*\(\s*([A-Za-z_][A-Za-z0-9_]*)\s*\)"#;

/// The container provides an injectable class.
pub open spec fn injectable_binding(content: Seq<char>, c: CapView) -> Option<BindingView> {
    match group(c, 1) {
        Some(name) => Some(("container"@, name, BindingKind::Singleton, line_of_byte(content, c.0))),
        None => None,
    }
}

/// One provider entry: its first word without trailing commas, kept
/// when it starts with a letter (object-literal entries do not).
pub open spec fn nest_provider_of(content: Seq<char>, start: int, item: Seq<char>) -> Option<BindingView> {
    let name = trim_end_matches(first_token(trim(item)), seq![',']);
    if name.len() > 0 && unicode_alphabetic(name[0]) {
        Some(("module"@, name, BindingKind::Singleton, line_of_byte(content, start)))
    } else {
        None
    }
}

pub open spec fn nest_providers_of(content: Seq<char>, c: CapView) -> Seq<BindingView> {
    filter_map(split_char(group_or_empty(c, 1), ','), |item: Seq<char>| nest_provider_of(content, c.0, item))
}

/// The interface is bound to the implementation class.
pub open spec fn inversify_binding(content: Seq<char>, c: CapView) -> Option<BindingView> {
    Some((group_or_empty(c, 1), group_or_empty(c, 2), BindingKind::Unknown, line_of_byte(content, c.0)))
}

/// Injectable classes, then provider arrays, then Inversify bindings.
pub open spec fn ts_bindings(
    content: Seq<char>,
    injectables: Seq<CapView>,
    providers: Seq<CapView>,
    binds: Seq<CapView>,
) -> Seq<BindingView> {
    filter_map(injectables, |c: CapView| injectable_binding(content, c)) + flat_map(
        providers,
        |c: CapView| nest_providers_of(content, c),
    ) + filter_map(binds, |c: CapView| inversify_binding(content, c))
}

/// Injectable classes from the given matches of [`INJECTABLE_CLASS_PATTERN`].
pub fn injectables_from_matches(content: &str, caps: &Vec<Captures>) -> (r: Vec<NamedBinding>)
    ensures
        bindings_view(r@) == filter_map(caps_view(caps@), |c: CapView| injectable_binding(content@, c)),
{
    let ghost f = |c: CapView| injectable_binding(content@, c);
    let mut out: Vec<NamedBinding> = Vec::new();
    let mut i: usize = 0;
    while i < caps.len()
        invariant
            i <= caps.len(),
            f == (|c: CapView| injectable_binding(content@, c)),
            bindings_view(out@) == filter_map(caps_view(caps@).take(i as int), f),
        decreases caps.len() - i,
    {
        let cap = &caps[i];
        proof {
            lemma_filter_map_step(caps_view(caps@), i as int, f);
            assert(caps_view(caps@)[i as int] == cap_view(*cap));
        }
        match get_group(cap, 1) {
            Some(name) => {
                let consumer = to_chars("container");
                let b = make_binding(consumer.as_slice(), name.as_slice(), BindingKind::Singleton, line_for_offset(content, cap.start));
                push_binding(&mut out, b);
            },
            None => {},
        }
        i += 1;
    }
    proof {
        lemma_take_full(caps_view(caps@));
    }
    out
}
/// Provider entries from the given matches of [`NEST_PROVIDERS_PATTERN`].
pub fn providers_from_matches(content: &str, caps: &Vec<Captures>) -> (r: Vec<NamedBinding>)
    ensures
        bindings_view(r@) == flat_map(caps_view(caps@), |c: CapView| nest_providers_of(content@, c)),
{
    let ghost g = |c: CapView| nest_providers_of(content@, c);
    let mut out: Vec<NamedBinding> = Vec::new();
    let mut i: usize = 0;
    while i < caps.len()
        invariant
            i <= caps.len(),
            g == (|c: CapView| nest_providers_of(content@, c)),
            bindings_view(out@) == flat_map(caps_view(caps@).take(i as int), g),
        decreases caps.len() - i,
    {
        let cap = &caps[i];
        proof {
            lemma_flat_map_step(caps_view(caps@), i as int, g);
            assert(caps_view(caps@)[i as int] == cap_view(*cap));
        }
        let list = group_or_empty_exec(cap, 1);
        let items = split_char_exec(list.as_slice(), ',');
        let line = line_for_offset(content, cap.start);
        let ghost start = cap.start as int;
        let ghost iv = views(items@);
        let ghost f = |item: Seq<char>| nest_provider_of(content@, start, item);
        let ghost before = bindings_view(out@);
        let mut k: usize = 0;
        while k < items.len()
            invariant
                k <= items.len(),
                iv == views(items@),
                start == cap.start as int,
                line == line_of_byte(content@, start),
                f == (|item: Seq<char>| nest_provider_of(content@, start, item)),
                bindings_view(out@) == before + filter_map(iv.take(k as int), f),
            decreases items.len() - k,
        {
            proof {
                lemma_filter_map_step(iv, k as int, f);
            }
            let item = &items[k];
            assert(iv[k as int] == item@);
            let t = trim_exec(item.as_slice());
            let w = first_token_exec(t.as_slice());
            let mut comma: Vec<char> = Vec::new();
            comma.push(',');
            assert(comma@ =~= seq![',']);
            let name = trim_end_matches_exec(w.as_slice(), comma.as_slice());
            if name.len() > 0 && is_alphabetic(name[0]) {
                let consumer = to_chars("module");
                let b = make_binding(consumer.as_slice(), name.as_slice(), BindingKind::Singleton, line);
                push_binding(&mut out, b);
            }
            k += 1;
        }
        proof {
            lemma_take_full(iv);
        }
        i += 1;
    }
    proof {
        lemma_take_full(caps_view(caps@));
    }
    out
}
/// Inversify bindings from the given matches of [`INVERSIFY_BIND_PATTERN`].
pub fn binds_from_matches(content: &str, caps: &Vec<Captures>) -> (r: Vec<NamedBinding>)
    ensures
        bindings_view(r@) == filter_map(caps_view(caps@), |c: CapView| inversify_binding(content@, c)),
{
    let ghost f = |c: CapView| inversify_binding(content@, c);
    let mut out: Vec<NamedBinding> = Vec::new();
    let mut i: usize = 0;
    while i < caps.len()
        invariant
            i <= caps.len(),
            f == (|c: CapView| inversify_binding(content@, c)),
            bindings_view(out@) == filter_map(caps_view(caps@).take(i as int), f),
        decreases caps.len() - i,
    {
        let cap = &caps[i];
        proof {
            lemma_filter_map_step(caps_view(caps@), i as int, f);
            assert(caps_view(caps@)[i as int] == cap_view(*cap));
        }
        let a = group_or_empty_exec(cap, 1);
        let p = group_or_empty_exec(cap, 2);
        let b = make_binding(a.as_slice(), p.as_slice(), BindingKind::Unknown, line_for_offset(content, cap.start));
        push_binding(&mut out, b);
        i += 1;
    }
    proof {
        lemma_take_full(caps_view(caps@));
    }
    out
}

/// Every injectable class, provider entry and Inversify binding in
/// `content`.
pub fn extract(content: &str) -> (r: Vec<NamedBinding>)
    ensures
        bindings_view(r@) == ts_bindings(
            content@,
            all_captures(INJECTABLE_CLASS_PATTERN@, content@),
            all_captures(NEST_PROVIDERS_PATTERN@, content@),
            all_captures(INVERSIFY_BIND_PATTERN@, content@),
        ),
{
    let inj = find_all(INJECTABLE_CLASS_PATTERN, content);
    let provs = find_all(NEST_PROVIDERS_PATTERN, content);
    let binds = find_all(INVERSIFY_BIND_PATTERN, content);
    let mut out = injectables_from_matches(content, &inj);
    append_bindings(&mut out, providers_from_matches(content, &provs));
    append_bindings(&mut out, binds_from_matches(content, &binds));
    out
}

} // verus!
