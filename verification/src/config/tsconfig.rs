//! `tsconfig.json`: path aliases (`compilerOptions.paths`) and
//! `compilerOptions.baseUrl`, following the `extends` chain.
//!
//! Real-world tsconfigs contain JSONC comments and trailing commas;
//! [`strip_jsonc`] removes both so a strict JSON parser accepts them.
//! The JSON parse and the file reads belong to the caller; the merge of
//! an `extends` chain (root first, leaf last, last writer wins per
//! pattern) is [`merge_chain`].

use vstd::prelude::*;

use super::{
    is_fresh_except, only_slot_changed, prior_workspace, workspace_slot, workspace_slot_exec,
    ConfigContext, TsPathAlias, WorkspaceConfig,
};
use crate::paths::{path_eq, path_eq_exec};
use crate::text::{
    clone_strings, lemma_seq_lt_asym, lemma_seq_lt_irreflexive, lemma_seq_lt_total,
    lemma_seq_lt_transitive, seq_lt, seq_lt_exec, strings, find_from, find_from_exec, index_of_char_from, index_of_char_from_exec, is_whitespace, is_ws,
    lemma_find_from_bounds, lemma_index_of_char_from, to_chars,
};

verus! {

/// Hard cap on `extends` chain length.
pub const MAX_EXTENDS_DEPTH: usize = 8;

// ── JSONC cleanup ───────────────────────────────────────────────────

/// Comment removal from index `i` on, in string state `in_str` with a
/// pending escape `esc`: `//` comments are dropped up to (not including)
/// their newline, `/* */` comments entirely; string contents are kept
/// verbatim.
pub open spec fn uncomment(s: Seq<char>, i: int, in_str: bool, esc: bool) -> Seq<char>
    decreases s.len() - i,
{
    if i < 0 || i >= s.len() {
        Seq::empty()
    } else {
        let c = s[i];
        if in_str {
            seq![c] + uncomment(s, i + 1, esc || c != '"', !esc && c == '\\')
        } else if c == '"' {
            seq![c] + uncomment(s, i + 1, true, esc)
        } else if c == '/' && i + 1 < s.len() && s[i + 1] == '/' {
            match index_of_char_from(s, '\n', i + 2) {
                Some(k) => if i < k && k < s.len() {
                    seq!['\n'] + uncomment(s, k + 1, false, esc)
                } else {
                    Seq::empty()
                },
                None => Seq::empty(),
            }
        } else if c == '/' && i + 1 < s.len() && s[i + 1] == '*' {
            match find_from(s, seq!['*', '/'], i + 2) {
                Some(k) => if i < k && k + 2 <= s.len() {
                    uncomment(s, k + 2, false, esc)
                } else {
                    Seq::empty()
                },
                None => Seq::empty(),
            }
        } else {
            seq![c] + uncomment(s, i + 1, false, esc)
        }
    }
}

/// Index of the first non-whitespace char at or after `j` (`s.len()`
/// when none).
pub open spec fn skip_ws(s: Seq<char>, j: int) -> int
    decreases s.len() - j,
{
    if j < 0 || j >= s.len() {
        j
    } else if is_ws(s[j]) {
        skip_ws(s, j + 1)
    } else {
        j
    }
}

/// Trailing-comma removal from index `i` on: a `,` outside strings whose
/// next non-whitespace char is `]` or `}` is dropped.
pub open spec fn uncomma(s: Seq<char>, i: int, in_str: bool, esc: bool) -> Seq<char>
    decreases s.len() - i,
{
    if i < 0 || i >= s.len() {
        Seq::empty()
    } else {
        let c = s[i];
        if in_str {
            seq![c] + uncomma(s, i + 1, esc || c != '"', !esc && c == '\\')
        } else if c == '"' {
            seq![c] + uncomma(s, i + 1, true, esc)
        } else if c == ',' && skip_ws(s, i + 1) < s.len() && (s[skip_ws(s, i + 1)] == ']'
            || s[skip_ws(s, i + 1)] == '}') {
            uncomma(s, i + 1, false, esc)
        } else {
            seq![c] + uncomma(s, i + 1, false, esc)
        }
    }
}

pub open spec fn strip_trailing_commas_spec(s: Seq<char>) -> Seq<char> {
    uncomma(s, 0, false, false)
}

pub open spec fn strip_jsonc_spec(s: Seq<char>) -> Seq<char> {
    strip_trailing_commas_spec(uncomment(s, 0, false, false))
}

fn skip_ws_exec(s: &[char], j: usize) -> (r: usize)
    requires
        j <= s@.len(),
    ensures
        r == skip_ws(s@, j as int),
        j <= r <= s@.len(),
{
    let mut k = j;
    while k < s.len() && is_whitespace(s[k])
        invariant
            j <= k <= s@.len(),
            skip_ws(s@, j as int) == skip_ws(s@, k as int),
        decreases s.len() - k,
    {
        k += 1;
    }
    k
}

/// Remove trailing commas before `]` and `}`, preserving string
/// contents.
pub fn strip_trailing_commas(src: &str) -> (r: String)
    ensures
        r@ == strip_trailing_commas_spec(src@),
{
    let s = to_chars(src);
    let mut out = String::new();
    let mut in_str = false;
    let mut esc = false;
    let mut i: usize = 0;
    while i < s.len()
        invariant
            i <= s@.len(),
            s@ == src@,
            out@ + uncomma(s@, i as int, in_str, esc) == strip_trailing_commas_spec(src@),
        decreases s.len() - i,
    {
        let c = s[i];
        let ghost before = out@;
        if in_str {
            out.push(c);
            let nin = esc || c != '"';
            let nesc = !esc && c == '\\';
            in_str = nin;
            esc = nesc;
            assert(before.push(c) + uncomma(s@, i + 1, in_str, esc) =~= before + (seq![c] + uncomma(
                s@,
                i + 1,
                in_str,
                esc,
            )));
        } else if c == '"' {
            out.push(c);
            in_str = true;
            assert(before.push(c) + uncomma(s@, i + 1, in_str, esc) =~= before + (seq![c] + uncomma(
                s@,
                i + 1,
                in_str,
                esc,
            )));
        } else {
            let mut drop = false;
            if c == ',' {
                let j = skip_ws_exec(s.as_slice(), i + 1);
                if j < s.len() && (s[j] == ']' || s[j] == '}') {
                    drop = true;
                }
            }
            if !drop {
                out.push(c);
                assert(before.push(c) + uncomma(s@, i + 1, false, esc) =~= before + (seq![c]
                    + uncomma(s@, i + 1, false, esc)));
            }
            in_str = false;
        }
        i += 1;
    }
    assert(out@ + Seq::<char>::empty() =~= out@);
    out
}

/// Strip `// line` and `/* block */` comments and trailing commas from
/// a JSONC string.
pub fn strip_jsonc(src: &str) -> (r: String)
    ensures
        r@ == strip_jsonc_spec(src@),
{
    let s = to_chars(src);
    let mut star_slash: Vec<char> = Vec::new();
    star_slash.push('*');
    star_slash.push('/');
    assert(star_slash@ =~= seq!['*', '/']);
    let mut out = String::new();
    let mut in_str = false;
    let mut esc = false;
    let mut i: usize = 0;
    while i < s.len()
        invariant
            i <= s@.len(),
            s@ == src@,
            star_slash@ == seq!['*', '/'],
            out@ + uncomment(s@, i as int, in_str, esc) == uncomment(src@, 0, false, false),
        decreases s.len() - i,
    {
        let c = s[i];
        let ghost before = out@;
        if in_str {
            out.push(c);
            let nin = esc || c != '"';
            let nesc = !esc && c == '\\';
            in_str = nin;
            esc = nesc;
            assert(before.push(c) + uncomment(s@, i + 1, in_str, esc) =~= before + (seq![c]
                + uncomment(s@, i + 1, in_str, esc)));
            i += 1;
        } else if c == '"' {
            out.push(c);
            in_str = true;
            assert(before.push(c) + uncomment(s@, i + 1, in_str, esc) =~= before + (seq![c]
                + uncomment(s@, i + 1, in_str, esc)));
            i += 1;
        } else if c == '/' && i + 1 < s.len() && s[i + 1] == '/' {
            let nl = index_of_char_from_exec(s.as_slice(), '\n', i + 2);
            proof {
                lemma_index_of_char_from(s@, '\n', i + 2);
            }
            match nl {
                Some(k) => {
                    out.push('\n');
                    assert(before.push('\n') + uncomment(s@, k + 1, false, esc) =~= before + (
                    seq!['\n'] + uncomment(s@, k + 1, false, esc)));
                    i = k + 1;
                },
                None => {
                    i = s.len();
                    assert(out@ + uncomment(s@, i as int, in_str, esc) =~= before);
                },
            }
        } else if c == '/' && i + 1 < s.len() && s[i + 1] == '*' {
            let end = find_from_exec(s.as_slice(), star_slash.as_slice(), i + 2);
            proof {
                lemma_find_from_bounds(s@, star_slash@, i + 2);
            }
            match end {
                Some(k) => {
                    assert(k + 2 <= s@.len());
                    i = k + 2;
                },
                None => {
                    i = s.len();
                    assert(out@ + uncomment(s@, i as int, in_str, esc) =~= before);
                },
            }
            in_str = false;
        } else {
            out.push(c);
            assert(before.push(c) + uncomment(s@, i + 1, false, esc) =~= before + (seq![c]
                + uncomment(s@, i + 1, false, esc)));
            i += 1;
        }
    }
    assert(out@ + Seq::<char>::empty() =~= out@);
    strip_trailing_commas(out.as_str())
}

// ── merging an extends chain ────────────────────────────────────────

/// `compilerOptions` of one parsed tsconfig: `baseUrl` and the `paths`
/// map as `(pattern, targets)` rows in key order.
pub struct RawCompilerOptions {
    pub base_url: Option<String>,
    pub paths: Option<Vec<(String, Vec<String>)>>,
}

/// One parsed tsconfig file.
pub struct RawTsconfig {
    pub extends: Option<String>,
    pub compiler_options: Option<RawCompilerOptions>,
}

impl View for TsPathAlias {
    type V = (Seq<char>, Seq<Seq<char>>);

    open spec fn view(&self) -> Self::V {
        (self.pattern@, strings(self.targets@))
    }
}

pub open spec fn path_rows(raw: RawTsconfig) -> Seq<(Seq<char>, Seq<Seq<char>>)> {
    match raw.compiler_options {
        Some(co) => match co.paths {
            Some(v) => v@.map_values(|r: (String, Vec<String>)| (r.0@, strings(r.1@))),
            None => Seq::empty(),
        },
        None => Seq::empty(),
    }
}

pub open spec fn base_url_of(raw: RawTsconfig) -> Option<Seq<char>> {
    match raw.compiler_options {
        Some(co) => match co.base_url {
            Some(b) => Some(b@),
            None => None,
        },
        None => None,
    }
}

pub open spec fn insert_rows(
    m: Map<Seq<char>, Seq<Seq<char>>>,
    rows: Seq<(Seq<char>, Seq<Seq<char>>)>,
) -> Map<Seq<char>, Seq<Seq<char>>>
    decreases rows.len(),
{
    if rows.len() == 0 {
        m
    } else {
        insert_rows(m, rows.drop_last()).insert(rows.last().0, rows.last().1)
    }
}

/// The `paths` map of a chain (leaf first): ancestors are applied
/// first, so a nearer tsconfig overrides a pattern.
pub open spec fn merged_paths(chain: Seq<RawTsconfig>) -> Map<Seq<char>, Seq<Seq<char>>>
    decreases chain.len(),
{
    if chain.len() == 0 {
        Map::empty()
    } else {
        insert_rows(merged_paths(chain.drop_first()), path_rows(chain[0]))
    }
}

/// The `baseUrl` of the nearest tsconfig in the chain that sets one.
pub open spec fn merged_base_url(chain: Seq<RawTsconfig>) -> Option<Seq<char>>
    decreases chain.len(),
{
    if chain.len() == 0 {
        None
    } else {
        match base_url_of(chain[0]) {
            Some(b) => Some(b),
            None => merged_base_url(chain.drop_first()),
        }
    }
}

/// `aliases` lists exactly the entries of `m`, in strictly increasing
/// pattern order (the iteration order of a `BTreeMap`).
pub open spec fn lists_map_sorted(
    aliases: Seq<(Seq<char>, Seq<Seq<char>>)>,
    m: Map<Seq<char>, Seq<Seq<char>>>,
) -> bool {
    &&& forall|i: int, j: int| 0 <= i < j < aliases.len() ==> seq_lt(aliases[i].0, aliases[j].0)
    &&& forall|i: int| 0 <= i < aliases.len() ==> m.contains_key(#[trigger] aliases[i].0) && m[aliases[i].0] == aliases[i].1
    &&& forall|k: Seq<char>| #[trigger] m.contains_key(k) ==> exists|i: int| 0 <= i < aliases.len() && aliases[i].0 == k
}

pub open spec fn alias_views(v: Seq<TsPathAlias>) -> Seq<(Seq<char>, Seq<Seq<char>>)> {
    v.map_values(|a: TsPathAlias| a@)
}

/// Insert or replace `(pattern, targets)` in a sorted alias list.
fn upsert_alias(acc: &mut Vec<TsPathAlias>, pattern: &String, targets: &Vec<String>)
    ensures
        forall|m: Map<Seq<char>, Seq<Seq<char>>>|
            lists_map_sorted(alias_views(old(acc)@), m) ==> lists_map_sorted(
                alias_views(final(acc)@),
                #[trigger] m.insert(pattern@, strings(targets@)),
            ),
{
    let key = crate::text::to_chars(pattern.as_str());
    let mut p: usize = 0;
    while p < acc.len() && seq_lt_exec(crate::text::to_chars(acc[p].pattern.as_str()).as_slice(), key.as_slice())
        invariant
            p <= acc.len(),
            key@ == pattern@,
            forall|j: int| 0 <= j < p ==> seq_lt(#[trigger] acc@[j].pattern@, key@),
        decreases acc.len() - p,
    {
        p += 1;
    }
    let ghost before = alias_views(acc@);
    let item = TsPathAlias { pattern: pattern.as_str().to_owned(), targets: clone_strings(targets) };
    assert(item@ == (pattern@, strings(targets@)));
    if p < acc.len() && crate::text::str_eq_chars(acc[p].pattern.as_str(), key.as_slice()) {
        acc.set(p, item);
        let ghost after = alias_views(acc@);
        assert(after =~= before.update(p as int, item@));
        assert(forall|i: int| 0 <= i < after.len() ==> #[trigger] after[i].0 == before[i].0);
        assert forall|m: Map<Seq<char>, Seq<Seq<char>>>|
            lists_map_sorted(before, m) implies lists_map_sorted(
                after,
                #[trigger] m.insert(pattern@, strings(targets@)),
            ) by {
            let m2 = m.insert(pattern@, strings(targets@));
            assert forall|i: int| 0 <= i < after.len() implies m2.contains_key(#[trigger] after[i].0)
                && m2[after[i].0] == after[i].1 by {
                if i != p {
                    assert(seq_lt(before[i].0, before[p as int].0) || seq_lt(before[p as int].0, before[i].0));
                    lemma_seq_lt_irreflexive(before[i].0);
                }
            }
            assert forall|k: Seq<char>| #[trigger] m2.contains_key(k) implies exists|i: int|
                0 <= i < after.len() && after[i].0 == k by {
                if k != pattern@ {
                    let i = choose|i: int| 0 <= i < before.len() && before[i].0 == k;
                    assert(after[i].0 == k);
                } else {
                    assert(after[p as int].0 == k);
                }
            }
        }
    } else {
        proof {
            if p < acc.len() {
                lemma_seq_lt_total(acc@[p as int].pattern@, key@);
            }
        }
        acc.insert(p, item);
        let ghost after = alias_views(acc@);
        assert(after =~= before.insert(p as int, item@));
        assert forall|m: Map<Seq<char>, Seq<Seq<char>>>|
            lists_map_sorted(before, m) implies lists_map_sorted(
                after,
                #[trigger] m.insert(pattern@, strings(targets@)),
            ) by {
            let m2 = m.insert(pattern@, strings(targets@));
            assert forall|i: int, j: int| 0 <= i < j < after.len() implies seq_lt(after[i].0, after[j].0) by {
                if j < p {
                } else if j == p {
                    assert(after[i].0 == before[i].0);
                } else if i == p {
                    assert(after[j].0 == before[j - 1].0);
                    if j - 1 > p {
                        lemma_seq_lt_transitive(key@, before[p as int].0, before[j - 1].0);
                    }
                } else if i < p {
                    assert(after[j].0 == before[j - 1].0);
                    if j - 1 >= p {
                        lemma_seq_lt_transitive(before[i].0, key@, before[p as int].0);
                        if j - 1 > p {
                            lemma_seq_lt_transitive(before[i].0, before[p as int].0, before[j - 1].0);
                        }
                    }
                } else {
                    assert(after[i].0 == before[i - 1].0);
                    assert(after[j].0 == before[j - 1].0);
                }
            }
            assert forall|i: int| 0 <= i < after.len() implies m2.contains_key(#[trigger] after[i].0)
                && m2[after[i].0] == after[i].1 by {
                if i < p {
                    assert(after[i] == before[i]);
                    lemma_seq_lt_irreflexive(key@);
                } else if i > p {
                    assert(after[i] == before[i - 1]);
                    if before[i - 1].0 == key@ {
                        if i - 1 > p {
                            lemma_seq_lt_transitive(key@, before[p as int].0, before[i - 1].0);
                        }
                        lemma_seq_lt_irreflexive(key@);
                    }
                }
            }
            assert forall|k: Seq<char>| #[trigger] m2.contains_key(k) implies exists|i: int|
                0 <= i < after.len() && after[i].0 == k by {
                if k != pattern@ {
                    let i = choose|i: int| 0 <= i < before.len() && before[i].0 == k;
                    if i < p {
                        assert(after[i].0 == k);
                    } else {
                        assert(after[i + 1].0 == k);
                    }
                } else {
                    assert(after[p as int].0 == k);
                }
            }
        }
    }
}

pub open spec fn opt_string_view(o: Option<String>) -> Option<Seq<char>> {
    match o {
        Some(s) => Some(s@),
        None => None,
    }
}

/// Merge an `extends` chain (leaf first) into its effective `paths`
/// aliases (sorted by pattern) and `baseUrl`.
pub fn merge_chain(chain: &Vec<RawTsconfig>) -> (r: (Vec<TsPathAlias>, Option<String>))
    ensures
        lists_map_sorted(alias_views(r.0@), merged_paths(chain@)),
        opt_string_view(r.1) == merged_base_url(chain@),
{
    let mut acc: Vec<TsPathAlias> = Vec::new();
    let mut base: Option<String> = None;
    let mut i: usize = chain.len();
    assert(chain@.skip(chain.len() as int) =~= Seq::<RawTsconfig>::empty());
    assert(alias_views(acc@) =~= Seq::<(Seq<char>, Seq<Seq<char>>)>::empty());
    while i > 0
        invariant
            i <= chain.len(),
            lists_map_sorted(alias_views(acc@), merged_paths(chain@.skip(i as int))),
            opt_string_view(base) == merged_base_url(chain@.skip(i as int)),
        decreases i,
    {
        i -= 1;
        let raw = &chain[i];
        assert(chain@.skip(i as int).drop_first() =~= chain@.skip(i + 1));
        assert(chain@.skip(i as int)[0] == *raw);
        let ghost m0 = merged_paths(chain@.skip(i + 1));
        let ghost rows = path_rows(*raw);
        match &raw.compiler_options {
            Some(co) => {
                match &co.base_url {
                    Some(b) => {
                        base = Some(b.as_str().to_owned());
                    },
                    None => {},
                }
                match &co.paths {
                    Some(v) => {
                        let mut k: usize = 0;
                        assert(rows.take(0) =~= Seq::<(Seq<char>, Seq<Seq<char>>)>::empty());
                        while k < v.len()
                            invariant
                                k <= v.len(),
                                rows == v@.map_values(
                                    |r: (String, Vec<String>)| (r.0@, strings(r.1@)),
                                ),
                                lists_map_sorted(alias_views(acc@), insert_rows(m0, rows.take(k as int))),
                            decreases v.len() - k,
                        {
                            assert(rows.take(k + 1).drop_last() =~= rows.take(k as int));
                            let ghost m_k = insert_rows(m0, rows.take(k as int));
                            upsert_alias(&mut acc, &v[k].0, &v[k].1);
                            assert(lists_map_sorted(
                                alias_views(acc@),
                                m_k.insert(v@[k as int].0@, strings(v@[k as int].1@)),
                            ));
                            k += 1;
                        }
                        assert(rows.take(v.len() as int) =~= rows);
                    },
                    None => {},
                }
            },
            None => {},
        }
    }
    assert(chain@.skip(0) =~= chain@);
    (acc, base)
}

/// Record the merged `paths` and `baseUrl` of an `extends` chain (leaf
/// first) on the workspace rooted at `workspace_root`. The workspace is
/// registered even when neither is set.
pub fn load(chain: &Vec<RawTsconfig>, workspace_root: &str, ctx: &mut ConfigContext)
    ensures
        ({
            let slot = workspace_slot(old(ctx).workspaces@, workspace_root@);
            let w = final(ctx).workspaces@[slot];
            let m = merged_paths(chain@);
            let b = merged_base_url(chain@);
            &&& only_slot_changed(old(ctx).workspaces@, final(ctx).workspaces@, workspace_root@)
            &&& match prior_workspace(old(ctx).workspaces@, workspace_root@) {
                Some(p) => {
                    &&& w == (WorkspaceConfig { ts_paths: w.ts_paths, ts_base_url: w.ts_base_url, ..p })
                    &&& m.dom().len() == 0 ==> w.ts_paths == p.ts_paths
                    &&& b is None ==> w.ts_base_url == p.ts_base_url
                },
                None => {
                    &&& is_fresh_except(
                        WorkspaceConfig { ts_base_url: None, ..w },
                        workspace_root@,
                        true,
                        false,
                        false,
                        false,
                    )
                    &&& m.dom().len() == 0 ==> w.ts_paths@.len() == 0
                    &&& b is None ==> w.ts_base_url is None
                },
            }
            &&& m.dom().len() > 0 ==> lists_map_sorted(alias_views(w.ts_paths@), m)
            &&& b is Some ==> opt_string_view(w.ts_base_url) == b
        }),
{
    let (paths, base) = merge_chain(chain);
    proof {
        lemma_merged_paths_finite(chain@);
        let m = merged_paths(chain@);
        if paths@.len() == 0 && m.dom().len() > 0 {
            let k = m.dom().choose();
            assert(m.contains_key(k));
        }
        if paths@.len() > 0 {
            assert(m.contains_key(alias_views(paths@)[0].0));
        }
    }
    let i = workspace_slot_exec(ctx, workspace_root);
    if paths.len() > 0 {
        ctx.workspaces[i].ts_paths = paths;
    }
    match base {
        Some(b) => {
            ctx.workspaces[i].ts_base_url = Some(b);
        },
        None => {},
    }
}

pub proof fn lemma_insert_rows_finite(m: Map<Seq<char>, Seq<Seq<char>>>, rows: Seq<(Seq<char>, Seq<Seq<char>>)>)
    requires
        m.dom().finite(),
    ensures
        insert_rows(m, rows).dom().finite(),
    decreases rows.len(),
{
    if rows.len() > 0 {
        lemma_insert_rows_finite(m, rows.drop_last());
    }
}

pub proof fn lemma_merged_paths_finite(chain: Seq<RawTsconfig>)
    ensures
        merged_paths(chain).dom().finite(),
    decreases chain.len(),
{
    if chain.len() > 0 {
        lemma_merged_paths_finite(chain.drop_first());
        lemma_insert_rows_finite(merged_paths(chain.drop_first()), path_rows(chain[0]));
    }
}

/// Whether the `extends` walk reads `candidate` next: the chain is
/// shorter than [`MAX_EXTENDS_DEPTH`] and the file was not visited
/// before (a cycle).
pub fn should_follow(chain_len: usize, visited: &Vec<String>, candidate: &str) -> (r: bool)
    ensures
        r == (chain_len < MAX_EXTENDS_DEPTH && forall|j: int|
            0 <= j < visited@.len() ==> !path_eq(#[trigger] visited@[j]@, candidate@)),
{
    if chain_len >= MAX_EXTENDS_DEPTH {
        return false;
    }
    let c = to_chars(candidate);
    let mut j: usize = 0;
    while j < visited.len()
        invariant
            j <= visited.len(),
            c@ == candidate@,
            forall|k: int| 0 <= k < j ==> !path_eq(#[trigger] visited@[k]@, candidate@),
        decreases visited.len() - j,
    {
        let v = to_chars(visited[j].as_str());
        if path_eq_exec(v.as_slice(), c.as_slice()) {
            return false;
        }
        j += 1;
    }
    true
}

/// Whether an `extends` value names a file path that is followed: a
/// relative path (starting with `.`) or an absolute one. Bare package
/// specifiers, resolved from `node_modules`, are not followed.
pub fn extends_is_path(extends: &str) -> (r: bool)
    ensures
        r == (crate::text::starts_with(extends@, seq!['.']) || crate::text::starts_with(
            extends@,
            seq!['/'],
        )),
{
    let c = to_chars(extends);
    proof {
        crate::text::lemma_starts_with_char(extends@, '.');
        crate::text::lemma_starts_with_char(extends@, '/');
    }
    c.len() > 0 && (c[0] == '.' || c[0] == '/')
}

/// The targets the last row for `pattern` gives, if a row names it.
pub open spec fn last_row(rows: Seq<(Seq<char>, Seq<Seq<char>>)>, pattern: Seq<char>) -> Option<Seq<Seq<char>>>
    decreases rows.len(),
{
    if rows.len() == 0 {
        None
    } else if rows.last().0 == pattern {
        Some(rows.last().1)
    } else {
        last_row(rows.drop_last(), pattern)
    }
}

proof fn lemma_insert_rows_at(
    m: Map<Seq<char>, Seq<Seq<char>>>,
    rows: Seq<(Seq<char>, Seq<Seq<char>>)>,
    pattern: Seq<char>,
)
    ensures
        match last_row(rows, pattern) {
            Some(t) => insert_rows(m, rows).contains_key(pattern) && insert_rows(m, rows)[pattern] == t,
            None => insert_rows(m, rows).contains_key(pattern) == m.contains_key(pattern) && (m.contains_key(
                pattern,
            ) ==> insert_rows(m, rows)[pattern] == m[pattern]),
        },
    decreases rows.len(),
{
    if rows.len() > 0 {
        lemma_insert_rows_at(m, rows.drop_last(), pattern);
    }
}

/// The nearest tsconfig wins: a pattern the leaf sets maps to the
/// leaf's targets (its last row for the pattern), a pattern it does not
/// set keeps what its ancestors give it, and a `baseUrl` it sets is the
/// one used.
pub proof fn law_leaf_tsconfig_wins(chain: Seq<RawTsconfig>, pattern: Seq<char>)
    requires
        chain.len() > 0,
    ensures
        match last_row(path_rows(chain[0]), pattern) {
            Some(t) => merged_paths(chain).contains_key(pattern) && merged_paths(chain)[pattern] == t,
            None => merged_paths(chain).contains_key(pattern) == merged_paths(
                chain.drop_first(),
            ).contains_key(pattern) && (merged_paths(chain.drop_first()).contains_key(pattern)
                ==> merged_paths(chain)[pattern] == merged_paths(chain.drop_first())[pattern]),
        },
        base_url_of(chain[0]) is Some ==> merged_base_url(chain) == base_url_of(chain[0]),
{
    lemma_insert_rows_at(merged_paths(chain.drop_first()), path_rows(chain[0]), pattern);
}

/// `s` without its commas.
pub open spec fn drop_commas(s: Seq<char>) -> Seq<char>
    decreases s.len(),
{
    if s.len() == 0 {
        s
    } else if s[0] == ',' {
        drop_commas(s.drop_first())
    } else {
        seq![s[0]] + drop_commas(s.drop_first())
    }
}

proof fn lemma_uncomma_drops_commas(s: Seq<char>, i: int, in_str: bool, esc: bool)
    requires
        0 <= i <= s.len(),
    ensures
        drop_commas(uncomma(s, i, in_str, esc)) == drop_commas(s.skip(i)),
    decreases s.len() - i,
{
    if i < s.len() {
        let c = s[i];
        assert(s.skip(i).drop_first() =~= s.skip(i + 1));
        assert(s.skip(i)[0] == c);
        let n_in = if in_str {
            esc || c != '"'
        } else if c == '"' {
            true
        } else {
            false
        };
        let n_esc = if in_str {
            !esc && c == '\\'
        } else {
            esc
        };
        lemma_uncomma_drops_commas(s, i + 1, n_in, n_esc);
        let rest = uncomma(s, i + 1, n_in, n_esc);
        assert((seq![c] + rest).drop_first() =~= rest);
        assert((seq![c] + rest)[0] == c);
    } else {
        assert(s.skip(i) =~= Seq::<char>::empty());
    }
}

/// Removing trailing commas deletes commas and nothing else: every other
/// character is kept, in order.
pub proof fn law_trailing_commas_only_drop_commas(s: Seq<char>)
    ensures
        drop_commas(strip_trailing_commas_spec(s)) == drop_commas(s),
{
    lemma_uncomma_drops_commas(s, 0, false, false);
    assert(s.skip(0) =~= s);
}

} // verus!
