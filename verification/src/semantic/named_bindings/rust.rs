//! Rust: `shaku` modules, `components = [A, B]`.

use vstd::prelude::*;

use crate::pattern::{
    all_captures, cap_view, caps_view, filter_map, find_all, flat_map, get_group, group,
    group_or_empty, group_or_empty_exec, lemma_filter_map_step, lemma_flat_map_step,
    lemma_take_full, line_for_offset, line_of_byte, CapView, Captures,
};
use crate::text::{
    first_token, first_token_exec, split_char, split_char_exec, to_chars, trim, trim_end_matches,
    trim_end_matches_exec, trim_exec, views,
};
use super::{
    append_bindings, bindings_view, make_binding, push_binding, BindingKind, BindingView,
    NamedBinding,
};

verus! {

/// The component list of a `shaku` module.
pub const SHAKU_COMPONENTS_PATTERN: &'static str = r#"components\s*=\s*\[([^\]]+)\]"#;

/// One listed component: its first word, with trailing commas removed.
pub open spec fn component_of(content: Seq<char>, start: int, item: Seq<char>) -> Option<BindingView> {
    let name = first_token(trim_end_matches(trim(item), seq![',']));
    if name.len() == 0 {
        None
    } else {
        Some(("Module"@, name, BindingKind::Singleton, line_of_byte(content, start)))
    }
}

/// The components of one matched list, in order.
pub open spec fn components_of(content: Seq<char>, c: CapView) -> Seq<BindingView> {
    filter_map(split_char(group_or_empty(c, 1), ','), |item: Seq<char>| component_of(content, c.0, item))
}

/// Components from the given matches of [`SHAKU_COMPONENTS_PATTERN`].
pub fn bindings_from_matches(content: &str, caps: &Vec<Captures>) -> (r: Vec<NamedBinding>)
    ensures
        bindings_view(r@) == flat_map(caps_view(caps@), |c: CapView| components_of(content@, c)),
{
    let ghost g = |c: CapView| components_of(content@, c);
    let mut out: Vec<NamedBinding> = Vec::new();
    let mut i: usize = 0;
    while i < caps.len()
        invariant
            i <= caps.len(),
            g == (|c: CapView| components_of(content@, c)),
            bindings_view(out@) == flat_map(caps_view(caps@).take(i as int), g),
        decreases caps.len() - i,
    {
        let cap = &caps[i];
        proof {
            lemma_flat_map_step(caps_view(caps@), i as int, g);
            assert(caps_view(caps@)[i as int] == cap_view(*cap));
        }
        let list = group_or_empty_exec(cap, 1);
        let items = split_char_exec(list.as_slice(), ',');
        let line = line_for_offset(content, cap.start);
        let ghost start = cap.start as int;
        let ghost iv = views(items@);
        let ghost f = |item: Seq<char>| component_of(content@, start, item);
        let ghost before = bindings_view(out@);
        let mut k: usize = 0;
        while k < items.len()
            invariant
                k <= items.len(),
                iv == views(items@),
                start == cap.start as int,
                line == line_of_byte(content@, start),
                f == (|item: Seq<char>| component_of(content@, start, item)),
                bindings_view(out@) == before + filter_map(iv.take(k as int), f),
            decreases items.len() - k,
        {
            proof {
                lemma_filter_map_step(iv, k as int, f);
            }
            let item = &items[k];
            assert(iv[k as int] == item@);
            let t = trim_exec(item.as_slice());
            let mut comma: Vec<char> = Vec::new();
            comma.push(',');
            assert(comma@ =~= seq![',']);
            let t2 = trim_end_matches_exec(t.as_slice(), comma.as_slice());
            let name = first_token_exec(t2.as_slice());
            if name.len() > 0 {
                let consumer = to_chars("Module");
                let b = make_binding(consumer.as_slice(), name.as_slice(), BindingKind::Singleton, line);
                push_binding(&mut out, b);
            }
            k += 1;
        }
        proof {
            lemma_take_full(iv);
        }
        i += 1;
    }
    proof {
        lemma_take_full(caps_view(caps@));
    }
    out
}

/// Every listed `shaku` component in `content`.
pub fn extract(content: &str) -> (r: Vec<NamedBinding>)
    ensures
        bindings_view(r@) == flat_map(
            all_captures(SHAKU_COMPONENTS_PATTERN@, content@),
            |c: CapView| components_of(content@, c),
        ),
{
    let caps = find_all(SHAKU_COMPONENTS_PATTERN, content);
    bindings_from_matches(content, &caps)
}

} // verus!
