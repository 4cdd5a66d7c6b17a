//! Prisma schemas: each `model` becomes a Class with a Property per
//! field, each `enum` an Enum. Blocks are found by brace counting from
//! the `{` that ends the declaration.

use vstd::prelude::*;

use crate::pattern::{
    all_captures, cap_view, caps_view, find_all, find_first, first_capture, flat_map, get_group,
    group, group_or_empty, group_or_empty_exec, lemma_flat_map_step, lemma_take_full,
    line_for_offset, line_of_byte, opt_cap_view, CapView, Captures,
};
use crate::text::{
    byte_range, byte_slice, from_chars, lines, lines_exec, push_str_chars, sliceable,
    starts_with, starts_with_str, to_chars, trim, trim_exec, utf8, views,
};
use super::languages::SupportedLanguage;
use super::provider::{symbols_view, ExtractedSymbol, NodeLabel, SymbolView};

verus! {

/// `model Name {` at the start of a line.
pub const MODEL_PATTERN: &'static str = r"(?m)^\s*model\s+([A-Za-z_][A-Za-z0-9_]*)\s*\{";

/// `enum Name {` at the start of a line.
pub const ENUM_PATTERN: &'static str = r"(?m)^\s*enum\s+([A-Za-z_][A-Za-z0-9_]*)\s*\{";

/// A field line `name Type ...`.
pub const FIELD_PATTERN: &'static str = r"^\s*([A-Za-z_][A-Za-z0-9_]*)\s+[A-Za-z_][A-Za-z0-9_\[\]?]*";

/// Provider for `.prisma` files.
pub struct PrismaProvider;

// ── blocks ──────────────────────────────────────────────────────────

/// Byte index where brace counting from `i` at `depth` stops: at the
/// end, or just past the brace that closes the block.
pub open spec fn block_scan(b: Seq<u8>, i: int, depth: int) -> int
    decreases b.len() - i,
{
    if i < 0 || i >= b.len() || depth <= 0 {
        i
    } else {
        block_scan(
            b,
            i + 1,
            if b[i] == 123u8 {
                depth + 1
            } else if b[i] == 125u8 {
                depth - 1
            } else {
                depth
            },
        )
    }
}

/// End of a block body opened just before byte `start`: one before
/// where the scan stops (the closing brace), never below zero.
pub open spec fn block_end(content: Seq<char>, start: int) -> int {
    let i = block_scan(utf8(content), start, 1);
    if i > 0 {
        i - 1
    } else {
        0
    }
}

/// The body can be cut out: it starts no later than it ends, both on
/// character boundaries.
pub open spec fn block_ok(content: Seq<char>, start: int) -> bool {
    sliceable(content, start, block_end(content, start))
}

pub open spec fn block_body(content: Seq<char>, start: int) -> Seq<char> {
    byte_range(content, start, block_end(content, start))
}

/// Line numbers as the `u32` additions of the extractor compute them.
pub open spec fn wrapping_line(base: u32, add: int) -> u32 {
    ((base + add) % 0x1_0000_0000) as u32
}

fn wrapping_line_exec(base: u32, add: usize) -> (r: u32)
    ensures
        r == wrapping_line(base, add as int),
{
    let a = (add as u64 % 0x1_0000_0000) as u64;
    let s = base as u64 + a;
    let r = (s % 0x1_0000_0000) as u32;
    assert(r == ((base + add) % 0x1_0000_0000) as u32) by (nonlinear_arith)
        requires
            a == add as int % 0x1_0000_0000,
            s == base + a,
            r == s % 0x1_0000_0000,
    {
    }
    r
}

fn extract_block<'a>(content: &'a str, start: usize) -> (r: (&'a str, u32))
    requires
        block_ok(content@, start as int),
    ensures
        r.0@ == block_body(content@, start as int),
        r.1 == line_of_byte(content@, start as int),
{
    let bytes = content.as_bytes();
    let ghost b = utf8(content@);
    let mut depth: u128 = 1;
    let mut i = start;
    assert(bytes@ == b);
    while i < bytes.len() && depth > 0
        invariant
            bytes@ == b,
            start <= i || i == start,
            0 <= depth,
            depth as int <= 1 + i - start,
            i >= start,
            block_scan(b, start as int, 1) == block_scan(b, i as int, depth as int),
        decreases b.len() - i,
    {
        if bytes[i] == 123u8 {
            depth = depth + 1;
        } else if bytes[i] == 125u8 {
            depth = depth - 1;
        }
        i += 1;
    }
    let body_end = if i > 0 {
        i - 1
    } else {
        0
    };
    let body = byte_slice(content, start, body_end);
    (body, line_for_offset(content, start))
}

// ── symbols ─────────────────────────────────────────────────────────

/// The field a body line declares, given the match of [`FIELD_PATTERN`]
/// on it: none for a blank, comment, attribute or closing-brace line.
pub open spec fn field_from(
    parent: Seq<char>,
    base: u32,
    line: Seq<char>,
    k: int,
    m: Option<CapView>,
) -> Option<SymbolView> {
    let t = trim(line);
    if t.len() == 0 || starts_with(t, "//"@) || starts_with(t, "@"@) || starts_with(t, "}"@) {
        None
    } else {
        match m {
            Some(fc) => {
                let n = group_or_empty(fc, 1);
                let l = wrapping_line(base, k);
                Some((n, parent + "::"@ + n, NodeLabel::Property, l, l, Some(parent), true, None))
            },
            None => None,
        }
    }
}

/// A body line that declares a field: not blank, not a comment, not
/// an attribute or the closing brace, and matched by [`FIELD_PATTERN`].
pub open spec fn field_of(parent: Seq<char>, base: u32, line: Seq<char>, k: int) -> Option<SymbolView> {
    field_from(parent, base, line, k, first_capture(FIELD_PATTERN@, line))
}

pub open spec fn fields_of(parent: Seq<char>, base: u32, ls: Seq<Seq<char>>) -> Seq<SymbolView> {
    crate::pattern::filter_map(
        Seq::new(ls.len(), |k: int| k),
        |k: int| field_of(parent, base, ls[k], k),
    )
}

/// A declaration's node: spanning from its line to the body's start
/// line plus the number of body lines.
pub open spec fn block_symbol(
    file: Seq<char>,
    content: Seq<char>,
    c: CapView,
    kind: Seq<char>,
    label: NodeLabel,
) -> SymbolView {
    let name = group_or_empty(c, 1);
    let base = line_of_byte(content, c.1);
    (
        name,
        file + "::"@ + kind + "::"@ + name,
        label,
        line_of_byte(content, c.0),
        wrapping_line(base, lines(block_body(content, c.1)).len() as int),
        None,
        true,
        Some("public"@),
    )
}

/// A model's Class node, then its fields.
pub open spec fn model_symbols(file: Seq<char>, content: Seq<char>, c: CapView) -> Seq<SymbolView> {
    if group(c, 1) is None {
        Seq::empty()
    } else {
        let cls = block_symbol(file, content, c, "model"@, NodeLabel::Class);
        seq![cls] + fields_of(cls.1, line_of_byte(content, c.1), lines(block_body(content, c.1)))
    }
}

pub open spec fn enum_symbols(file: Seq<char>, content: Seq<char>, c: CapView) -> Seq<SymbolView> {
    if group(c, 1) is None {
        Seq::empty()
    } else {
        seq![block_symbol(file, content, c, "enum"@, NodeLabel::Enum)]
    }
}

/// Every model (with its fields), then every enum.
pub open spec fn prisma_symbols(file: Seq<char>, content: Seq<char>) -> Seq<SymbolView> {
    flat_map(all_captures(MODEL_PATTERN@, content), |c: CapView| model_symbols(file, content, c))
        + flat_map(all_captures(ENUM_PATTERN@, content), |c: CapView| enum_symbols(file, content, c))
}

/// Every declaration's block can be cut out of the text.
pub open spec fn blocks_ok(content: Seq<char>) -> bool {
    &&& forall|k: int|
        0 <= k < all_captures(MODEL_PATTERN@, content).len() && group(
            all_captures(MODEL_PATTERN@, content)[k],
            1,
        ) is Some ==> block_ok(content, (#[trigger] all_captures(MODEL_PATTERN@, content)[k]).1)
    &&& forall|k: int|
        0 <= k < all_captures(ENUM_PATTERN@, content).len() && group(
            all_captures(ENUM_PATTERN@, content)[k],
            1,
        ) is Some ==> block_ok(content, (#[trigger] all_captures(ENUM_PATTERN@, content)[k]).1)
}

fn block_ok_exec(content: &str, start: usize) -> (b: bool)
    ensures
        b == block_ok(content@, start as int),
{
    let bytes = content.as_bytes();
    let ghost bv = utf8(content@);
    let mut depth: u128 = 1;
    let mut i = start;
    while i < bytes.len() && depth > 0
        invariant
            bytes@ == bv,
            0 <= depth,
            i >= start,
            depth as int <= 1 + i - start,
            block_scan(bv, start as int, 1) == block_scan(bv, i as int, depth as int),
        decreases bv.len() - i,
    {
        if bytes[i] == 123u8 {
            depth = depth + 1;
        } else if bytes[i] == 125u8 {
            depth = depth - 1;
        }
        i += 1;
    }
    let end = if i > 0 {
        i - 1
    } else {
        0
    };
    start <= end && end <= bytes.len() && crate::text::is_char_boundary_at(content, start)
        && crate::text::is_char_boundary_at(content, end)
}

/// Whether [`blocks_ok`] holds, so that
/// [`PrismaProvider::extract_symbols`] can run on `content`.
pub fn blocks_sliceable(content: &str) -> (b: bool)
    ensures
        b == blocks_ok(content@),
{
    let models = find_all(MODEL_PATTERN, content);
    let enums = find_all(ENUM_PATTERN, content);
    let ghost mv = caps_view(models@);
    let ghost ev = caps_view(enums@);
    let mut k: usize = 0;
    while k < models.len()
        invariant
            k <= models.len(),
            mv == caps_view(models@),
            mv == all_captures(MODEL_PATTERN@, content@),
            forall|j: int| 0 <= j < k && group(mv[j], 1) is Some ==> block_ok(content@, (#[trigger] mv[j]).1),
        decreases models.len() - k,
    {
        assert(mv[k as int] == cap_view(models@[k as int]));
        if get_group(&models[k], 1).is_some() {
            if !block_ok_exec(content, models[k].end) {
                return false;
            }
        }
        k += 1;
    }
    let mut k: usize = 0;
    while k < enums.len()
        invariant
            k <= enums.len(),
            ev == caps_view(enums@),
            ev == all_captures(ENUM_PATTERN@, content@),
            mv == all_captures(MODEL_PATTERN@, content@),
            forall|j: int| 0 <= j < mv.len() && group(mv[j], 1) is Some ==> block_ok(content@, (#[trigger] mv[j]).1),
            forall|j: int| 0 <= j < k && group(ev[j], 1) is Some ==> block_ok(content@, (#[trigger] ev[j]).1),
        decreases enums.len() - k,
    {
        assert(ev[k as int] == cap_view(enums@[k as int]));
        if get_group(&enums[k], 1).is_some() {
            if !block_ok_exec(content, enums[k].end) {
                return false;
            }
        }
        k += 1;
    }
    true
}

fn push_symbol(out: &mut Vec<ExtractedSymbol>, s: ExtractedSymbol)
    ensures
        symbols_view(final(out)@) == symbols_view(old(out)@).push(s@),
{
    out.push(s);
    assert(symbols_view(out@) =~= symbols_view(old(out)@).push(s@));
}

fn block_symbol_exec<'a>(file_path: &str, content: &'a str, cap: &Captures, kind: &str, label: NodeLabel) -> (r: (ExtractedSymbol, &'a str))
    requires
        block_ok(content@, cap.end as int),
    ensures
        r.0@ == block_symbol(file_path@, content@, cap_view(*cap), kind@, label),
        r.1@ == block_body(content@, cap.end as int),
{
    let name = group_or_empty_exec(cap, 1);
    let line_start = line_for_offset(content, cap.start);
    let (body, base) = extract_block(content, cap.end);
    let bc = to_chars(body);
    let bl = lines_exec(bc.as_slice());
    let line_end = wrapping_line_exec(base, bl.len());
    let mut q = to_chars(file_path);
    push_str_chars(&mut q, "::");
    push_str_chars(&mut q, kind);
    push_str_chars(&mut q, "::");
    crate::text::push_all(&mut q, name.as_slice());
    let s = ExtractedSymbol {
        name: from_chars(name.as_slice()),
        qualified_name: from_chars(q.as_slice()),
        label,
        line_start,
        line_end,
        parent: None,
        is_exported: true,
        visibility: Some("public".to_owned()),
    };
    assert(s@ =~= block_symbol(file_path@, content@, cap_view(*cap), kind@, label));
    (s, body)
}

/// The field a body line (number `line_idx` of the block, 0-based)
/// declares, given the match of [`FIELD_PATTERN`] on it.
pub fn field_from_match(parent: &str, base: u32, line: &str, line_idx: usize, m: Option<Captures>) -> (r:
    Option<ExtractedSymbol>)
    ensures
        match r {
            Some(sym) => field_from(parent@, base, line@, line_idx as int, opt_cap_view(m)) == Some(sym@),
            None => field_from(parent@, base, line@, line_idx as int, opt_cap_view(m)) is None,
        },
{
    let lc = to_chars(line);
    let t = trim_exec(lc.as_slice());
    let skip = t.len() == 0 || starts_with_str(t.as_slice(), "//") || starts_with_str(t.as_slice(), "@")
        || starts_with_str(t.as_slice(), "}");
    if skip {
        return None;
    }
    match m {
        Some(fc) => {
            let n = group_or_empty_exec(&fc, 1);
            let l = wrapping_line_exec(base, line_idx);
            let mut q = to_chars(parent);
            push_str_chars(&mut q, "::");
            crate::text::push_all(&mut q, n.as_slice());
            let s = ExtractedSymbol {
                name: from_chars(n.as_slice()),
                qualified_name: from_chars(q.as_slice()),
                label: NodeLabel::Property,
                line_start: l,
                line_end: l,
                parent: Some(parent.to_owned()),
                is_exported: true,
                visibility: None,
            };
            Some(s)
        },
        None => None,
    }
}

/// A model's Class node and its fields from one match of
/// [`MODEL_PATTERN`].
pub fn model_from_match(file_path: &str, content: &str, cap: &Captures) -> (r: Vec<ExtractedSymbol>)
    requires
        group(cap_view(*cap), 1) is Some ==> block_ok(content@, cap.end as int),
    ensures
        symbols_view(r@) == model_symbols(file_path@, content@, cap_view(*cap)),
{
    let mut out: Vec<ExtractedSymbol> = Vec::new();
    if get_group(cap, 1).is_some() {
        let (cls, body) = block_symbol_exec(file_path, content, cap, "model", NodeLabel::Class);
        let parent = cls.qualified_name.as_str().to_owned();
        let base = line_for_offset(content, cap.end);
        push_symbol(&mut out, cls);
        push_fields(&mut out, parent.as_str(), base, body);
    }
    assert(symbols_view(out@) =~= model_symbols(file_path@, content@, cap_view(*cap)));
    out
}

/// An enum's node from one match of [`ENUM_PATTERN`].
pub fn enum_from_match(file_path: &str, content: &str, cap: &Captures) -> (r: Vec<ExtractedSymbol>)
    requires
        group(cap_view(*cap), 1) is Some ==> block_ok(content@, cap.end as int),
    ensures
        symbols_view(r@) == enum_symbols(file_path@, content@, cap_view(*cap)),
{
    let mut out: Vec<ExtractedSymbol> = Vec::new();
    if get_group(cap, 1).is_some() {
        let (sym, _) = block_symbol_exec(file_path, content, cap, "enum", NodeLabel::Enum);
        push_symbol(&mut out, sym);
    }
    assert(symbols_view(out@) =~= enum_symbols(file_path@, content@, cap_view(*cap)));
    out
}

fn push_fields(out: &mut Vec<ExtractedSymbol>, parent: &str, base: u32, body: &str)
    ensures
        symbols_view(final(out)@) == symbols_view(old(out)@) + fields_of(parent@, base, lines(body@)),
{
    let bc = to_chars(body);
    let ls = lines_exec(bc.as_slice());
    let ghost lv = lines(body@);
    let ghost idx = Seq::new(lv.len(), |k: int| k);
    let ghost f = |k: int| field_of(parent@, base, lv[k], k);
    let ghost start = symbols_view(out@);
    let mut k: usize = 0;
    while k < ls.len()
        invariant
            k <= ls.len(),
            views(ls@) == lv,
            idx == Seq::new(lv.len(), |k: int| k),
            f == (|k: int| field_of(parent@, base, lv[k], k)),
            symbols_view(out@) == start + crate::pattern::filter_map(idx.take(k as int), f),
        decreases ls.len() - k,
    {
        proof {
            crate::pattern::lemma_filter_map_step(idx, k as int, f);
        }
        let line = from_chars(ls[k].as_slice());
        assert(line@ == lv[k as int]);
        let m = find_first(FIELD_PATTERN, line.as_str());
        match field_from_match(parent, base, line.as_str(), k, m) {
            Some(sym) => push_symbol(out, sym),
            None => {},
        }
        k += 1;
    }
    proof {
        lemma_take_full(idx);
    }
}

impl PrismaProvider {
    pub fn language(&self) -> (l: SupportedLanguage)
        ensures
            l == SupportedLanguage::Prisma,
    {
        SupportedLanguage::Prisma
    }

    pub fn file_extensions(&self) -> (r: Vec<&'static str>)
        ensures
            r@.len() == 1,
            r@[0]@ == "prisma"@,
    {
        let mut r: Vec<&'static str> = Vec::new();
        r.push("prisma");
        r
    }

    pub fn supported_labels(&self) -> (r: Vec<NodeLabel>)
        ensures
            r@ == seq![NodeLabel::Class, NodeLabel::Enum, NodeLabel::Property],
    {
        let mut r: Vec<NodeLabel> = Vec::new();
        r.push(NodeLabel::Class);
        r.push(NodeLabel::Enum);
        r.push(NodeLabel::Property);
        assert(r@ =~= seq![NodeLabel::Class, NodeLabel::Enum, NodeLabel::Property]);
        r
    }

    /// Models (each followed by its fields), then enums.
    pub fn extract_symbols(&self, file_path: &str, content: &str) -> (r: Vec<ExtractedSymbol>)
        requires
            blocks_ok(content@),
        ensures
            symbols_view(r@) == prisma_symbols(file_path@, content@),
    {
        let models = find_all(MODEL_PATTERN, content);
        let ghost mv = caps_view(models@);
        let ghost g = |c: CapView| model_symbols(file_path@, content@, c);
        let mut out: Vec<ExtractedSymbol> = Vec::new();
        let mut i: usize = 0;
        while i < models.len()
            invariant
                i <= models.len(),
                mv == caps_view(models@),
                mv == all_captures(MODEL_PATTERN@, content@),
                blocks_ok(content@),
                g == (|c: CapView| model_symbols(file_path@, content@, c)),
                symbols_view(out@) == flat_map(mv.take(i as int), g),
            decreases models.len() - i,
        {
            proof {
                lemma_flat_map_step(mv, i as int, g);
            }
            let cap = &models[i];
            assert(mv[i as int] == cap_view(*cap));
            let ghost before = symbols_view(out@);
            let mut more = model_from_match(file_path, content, cap);
            let ghost added = more@;
            out.append(&mut more);
            assert(symbols_view(out@) =~= before + symbols_view(added));
            i += 1;
        }
        proof {
            lemma_take_full(mv);
        }
        let ghost first = symbols_view(out@);
        let enums = find_all(ENUM_PATTERN, content);
        let ghost ev = caps_view(enums@);
        let ghost h = |c: CapView| enum_symbols(file_path@, content@, c);
        let mut i: usize = 0;
        while i < enums.len()
            invariant
                i <= enums.len(),
                ev == caps_view(enums@),
                ev == all_captures(ENUM_PATTERN@, content@),
                blocks_ok(content@),
                h == (|c: CapView| enum_symbols(file_path@, content@, c)),
                symbols_view(out@) == first + flat_map(ev.take(i as int), h),
            decreases enums.len() - i,
        {
            proof {
                lemma_flat_map_step(ev, i as int, h);
            }
            let cap = &enums[i];
            assert(ev[i as int] == cap_view(*cap));
            let ghost before = symbols_view(out@);
            let mut more = enum_from_match(file_path, content, cap);
            let ghost added = more@;
            out.append(&mut more);
            assert(symbols_view(out@) =~= before + symbols_view(added));
            i += 1;
        }
        proof {
            lemma_take_full(ev);
        }
        out
    }
}

} // verus!
