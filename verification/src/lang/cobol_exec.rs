//! COBOL `EXEC SQL` / `EXEC CICS` / `EXEC DLI` blocks.
//!
//! Mainframe programs embed SQL, CICS and DL/I through
//! `EXEC <dialect> ... END-EXEC` blocks; each becomes a record with its
//! body normalised to single spaces.

use vstd::prelude::*;

use crate::pattern::{
    all_captures, cap_view, caps_view, filter_map, find_all, group_or_empty, group_or_empty_exec,
    lemma_filter_map_order, lemma_filter_map_step, lemma_line_of_byte_monotone, lemma_take_full,
    line_for_offset, line_of_byte, CapView, Captures,
};
use crate::text::{
    ascii_upper, ascii_upper_exec, from_chars, join_words, join_words_exec, lemma_join_words_idempotent,
    lemma_join_words_normalized, str_eq_chars, utf8, words_normalized,
};

verus! {

/// `EXEC <dialect> body END-EXEC`, case-insensitive, across lines.
pub const EXEC_PATTERN: &'static str = r#"(?i)\bEXEC\s+(SQL|CICS|DLI)\b([\s\S]*?)END-EXEC"#;

/// The language of an `EXEC` block.
#[derive(Debug, Clone, Copy, PartialEq, Eq, Structural)]
pub enum ExecDialect {
    Sql,
    Cics,
    Dli,
}

pub open spec fn dialect_label(d: ExecDialect) -> Seq<char> {
    match d {
        ExecDialect::Sql => "SqlQuery"@,
        ExecDialect::Cics => "CicsCall"@,
        ExecDialect::Dli => "DliCall"@,
    }
}

impl ExecDialect {
    /// Node label of this dialect's blocks.
    pub fn node_label(self) -> (r: &'static str)
        ensures
            r@ == dialect_label(self),
    {
        match self {
            ExecDialect::Sql => "SqlQuery",
            ExecDialect::Cics => "CicsCall",
            ExecDialect::Dli => "DliCall",
        }
    }
}

/// One `EXEC ... END-EXEC` block.
#[derive(Debug, Clone, PartialEq, Eq)]
pub struct ExecBlock {
    pub dialect: ExecDialect,
    /// The body between the dialect keyword and `END-EXEC`, its words
    /// joined by single spaces.
    pub body: String,
    /// 1-based line of the `EXEC` keyword.
    pub line: u32,
}

pub type ExecBlockView = (ExecDialect, Seq<char>, u32);

impl View for ExecBlock {
    type V = ExecBlockView;

    open spec fn view(&self) -> ExecBlockView {
        (self.dialect, self.body@, self.line)
    }
}

/// The dialect a keyword names, ignoring ASCII case.
pub open spec fn dialect_of(keyword: Seq<char>) -> Option<ExecDialect> {
    let k = ascii_upper(keyword);
    if k == "SQL"@ {
        Some(ExecDialect::Sql)
    } else if k == "CICS"@ {
        Some(ExecDialect::Cics)
    } else if k == "DLI"@ {
        Some(ExecDialect::Dli)
    } else {
        None
    }
}

pub open spec fn exec_block_of(content: Seq<char>, c: CapView) -> Option<ExecBlockView> {
    match dialect_of(group_or_empty(c, 1)) {
        Some(d) => Some((d, join_words(group_or_empty(c, 2)), line_of_byte(content, c.0))),
        None => None,
    }
}

pub open spec fn exec_blocks(content: Seq<char>, caps: Seq<CapView>) -> Seq<ExecBlockView> {
    filter_map(caps, |c: CapView| exec_block_of(content, c))
}

/// Every block body is whitespace-normalised: its words joined by
/// single spaces, with no whitespace at either end, so joining its
/// words again gives it back.
pub proof fn law_exec_bodies_normalized(content: Seq<char>, caps: Seq<CapView>)
    ensures
        forall|j: int|
            0 <= j < exec_blocks(content, caps).len() ==> words_normalized(
                #[trigger] exec_blocks(content, caps)[j].1,
            ) && join_words(exec_blocks(content, caps)[j].1) == exec_blocks(content, caps)[j].1,
{
    let f = |c: CapView| exec_block_of(content, c);
    let bs = exec_blocks(content, caps);
    crate::pattern::lemma_filter_map_members(caps, f);
    assert forall|j: int| 0 <= j < bs.len() implies words_normalized(#[trigger] bs[j].1) && join_words(
        bs[j].1,
    ) == bs[j].1 by {
        let i = choose|i: int| 0 <= i < caps.len() && f(caps[i]) == Some(bs[j]);
        let raw = group_or_empty(caps[i], 2);
        assert(bs[j].1 == join_words(raw));
        lemma_join_words_normalized(raw);
        lemma_join_words_idempotent(raw);
    }
}

/// Block `b` is what match `c` gives: `c`'s dialect, `c`'s body with
/// its words joined by single spaces (so whitespace-normalised), and
/// the line one more than the number of newline bytes before `c`
/// (UTF-8 encodes exactly the newline characters as that byte).
pub open spec fn block_from_match(content: Seq<char>, b: ExecBlockView, c: CapView) -> bool {
    let bytes = utf8(content);
    &&& dialect_of(group_or_empty(c, 1)) == Some(b.0)
    &&& b.1 == join_words(group_or_empty(c, 2))
    &&& words_normalized(b.1)
    &&& b.2 as int == 1 + crate::pattern::count_byte(
        bytes.take(if c.0 < bytes.len() { c.0 } else { bytes.len() as int }),
        10u8,
    )
}

/// The index of a match that block `j` comes from.
pub open spec fn block_source(content: Seq<char>, caps: Seq<CapView>, j: int) -> int {
    choose|i: int| 0 <= i < caps.len() && block_from_match(content, exec_blocks(content, caps)[j], caps[i])
}

/// Every block comes from one of the matches, as [`block_from_match`]
/// says.
pub proof fn law_exec_block_fields(content: Seq<char>, caps: Seq<CapView>)
    requires
        forall|i: int| 0 <= i < caps.len() ==> 0 <= (#[trigger] caps[i]).0,
        utf8(content).len() < 0xFFFF_FFFF,
    ensures
        forall|j: int|
            0 <= j < exec_blocks(content, caps).len() ==> 0 <= #[trigger] block_source(content, caps, j)
                < caps.len() && block_from_match(
                content,
                exec_blocks(content, caps)[j],
                caps[block_source(content, caps, j)],
            ),
{
    let f = |c: CapView| exec_block_of(content, c);
    let bs = exec_blocks(content, caps);
    crate::pattern::lemma_filter_map_members(caps, f);
    assert forall|j: int| 0 <= j < bs.len() implies 0 <= #[trigger] block_source(content, caps, j)
        < caps.len() && block_from_match(content, bs[j], caps[block_source(content, caps, j)]) by {
        let i = choose|i: int| 0 <= i < caps.len() && f(caps[i]) == Some(bs[j]);
        let c = caps[i];
        lemma_join_words_normalized(group_or_empty(c, 2));
        let bytes = utf8(content);
        let e = if c.0 < bytes.len() { c.0 } else { bytes.len() as int };
        crate::pattern::lemma_count_byte_bound(bytes, 10u8, e);
        assert(block_from_match(content, bs[j], caps[i]));
    }
}

/// Blocks from the given matches of [`EXEC_PATTERN`].
pub fn blocks_from_matches(content: &str, caps: &Vec<Captures>) -> (r: Vec<ExecBlock>)
    ensures
        r@.map_values(|b: ExecBlock| b@) == exec_blocks(content@, caps_view(caps@)),
{
    let ghost f = |c: CapView| exec_block_of(content@, c);
    let mut out: Vec<ExecBlock> = Vec::new();
    let mut i: usize = 0;
    while i < caps.len()
        invariant
            i <= caps.len(),
            f == (|c: CapView| exec_block_of(content@, c)),
            out@.map_values(|b: ExecBlock| b@) == filter_map(caps_view(caps@).take(i as int), f),
        decreases caps.len() - i,
    {
        let cap = &caps[i];
        proof {
            lemma_filter_map_step(caps_view(caps@), i as int, f);
            assert(caps_view(caps@)[i as int] == cap_view(*cap));
        }
        let kw = group_or_empty_exec(cap, 1);
        let k = ascii_upper_exec(kw.as_slice());
        let dialect = if str_eq_chars("SQL", k.as_slice()) {
            Some(ExecDialect::Sql)
        } else if str_eq_chars("CICS", k.as_slice()) {
            Some(ExecDialect::Cics)
        } else if str_eq_chars("DLI", k.as_slice()) {
            Some(ExecDialect::Dli)
        } else {
            None
        };
        match dialect {
            Some(d) => {
                let raw = group_or_empty_exec(cap, 2);
                let body = join_words_exec(raw.as_slice());
                let b = ExecBlock { dialect: d, body: from_chars(body.as_slice()), line: line_for_offset(content, cap.start) };
                let ghost before = out@;
                out.push(b);
                assert(out@.map_values(|b: ExecBlock| b@) =~= before.map_values(|b: ExecBlock| b@).push(b@));
            },
            None => {},
        }
        i += 1;
    }
    proof {
        lemma_take_full(caps_view(caps@));
    }
    out
}

/// Every `EXEC` block of a (preprocessed) COBOL source, in source
/// order: the matches do not overlap, so line numbers never decrease.
pub fn extract(content: &str) -> (r: Vec<ExecBlock>)
    ensures
        r@.map_values(|b: ExecBlock| b@) == exec_blocks(content@, all_captures(EXEC_PATTERN@, content@)),
        crate::pattern::matches_ordered(all_captures(EXEC_PATTERN@, content@), utf8(content@).len() as int),
        utf8(content@).len() < 0xFFFF_FFFF ==> forall|i: int, j: int|
            0 <= i < j < r@.len() ==> (#[trigger] r@[i]).line <= (#[trigger] r@[j]).line,
{
    let caps = find_all(EXEC_PATTERN, content);
    let r = blocks_from_matches(content, &caps);
    proof {
        let cv = caps_view(caps@);
        let f = |c: CapView| exec_block_of(content@, c);
        let bs = exec_blocks(content@, cv);
        if utf8(content@).len() < 0xFFFF_FFFF {
            assert forall|i: int, j: int| 0 <= i < j < r@.len() implies (#[trigger] r@[i]).line
                <= (#[trigger] r@[j]).line by {
                assert(r@.map_values(|b: ExecBlock| b@)[i] == r@[i]@);
                assert(r@.map_values(|b: ExecBlock| b@)[j] == r@[j]@);
                lemma_filter_map_order(cv, f, i, j);
                let (i1, i2) = choose|i1: int, i2: int|
                    0 <= i1 < i2 < cv.len() && f(#[trigger] cv[i1]) == Some(bs[i]) && f(#[trigger] cv[i2])
                        == Some(bs[j]);
                assert(cv[i1].1 <= cv[i2].0);
                lemma_line_of_byte_monotone(content@, cv[i1].0, cv[i2].0);
            }
        }
    }
    r
}

} // verus!
