//! Tiered call-site resolver.
//!
//! Six tiers, from most to least certain: same file, receiver type,
//! one imported match, several imported matches, one match in the
//! project, several matches in the project. The first tier that
//! matches decides; among several candidates the lexicographically
//! smallest qualified name wins.

use vstd::prelude::*;

use crate::pattern::{filter_map, lemma_filter_map_step};
use crate::text::{from_chars, push_str_chars, seq_lt, seq_lt_exec, strings, strings_contain, to_chars};
use super::kind_label;
use super::symbol_table::{
    find_qname, last_in_file, simple_hits, unique_qnames, EntryView, SymbolEntry, SymbolTable,
};
use super::type_env::TypeEnv;

verus! {

/// Resolution tier of a call site; later variants are more certain
/// (`SameFile` is the greatest).
#[derive(Debug, Clone, Copy, PartialEq, Eq, PartialOrd, Ord, Structural)]
pub enum Tier {
    ProjectMultiMatch,
    ProjectUnique,
    ImportedAlias,
    ImportedExact,
    ReceiverResolved,
    SameFile,
}

/// Position of a tier in the certainty order.
pub open spec fn tier_rank(t: Tier) -> int {
    match t {
        Tier::ProjectMultiMatch => 0,
        Tier::ProjectUnique => 1,
        Tier::ImportedAlias => 2,
        Tier::ImportedExact => 3,
        Tier::ReceiverResolved => 4,
        Tier::SameFile => 5,
    }
}

pub open spec fn tier_reason(t: Tier) -> Seq<char> {
    match t {
        Tier::SameFile => "same-file"@,
        Tier::ReceiverResolved => "receiver-resolved"@,
        Tier::ImportedExact => "import-exact"@,
        Tier::ImportedAlias => "import-alias"@,
        Tier::ProjectUnique => "project-unique"@,
        Tier::ProjectMultiMatch => "project-multi"@,
    }
}

impl Tier {
    /// Short label stored on CALLS edges' `reason` field.
    pub fn reason(self) -> (r: &'static str)
        ensures
            r@ == tier_reason(self),
    {
        match self {
            Tier::SameFile => "same-file",
            Tier::ReceiverResolved => "receiver-resolved",
            Tier::ImportedExact => "import-exact",
            Tier::ImportedAlias => "import-alias",
            Tier::ProjectUnique => "project-unique",
            Tier::ProjectMultiMatch => "project-multi",
        }
    }

    /// Position in the certainty order, as the derived ordering has it.
    pub fn rank(self) -> (r: u8)
        ensures
            r == tier_rank(self),
    {
        match self {
            Tier::ProjectMultiMatch => 0,
            Tier::ProjectUnique => 1,
            Tier::ImportedAlias => 2,
            Tier::ImportedExact => 3,
            Tier::ReceiverResolved => 4,
            Tier::SameFile => 5,
        }
    }
}

/// Outcome of resolving one call site.
#[derive(Debug, Clone, PartialEq, Eq)]
pub struct ResolvedCall {
    pub callee_qname: String,
    pub callee_label: String,
    pub tier: Tier,
}

impl View for ResolvedCall {
    type V = (Seq<char>, Seq<char>, Tier);

    open spec fn view(&self) -> Self::V {
        (self.callee_qname@, self.callee_label@, self.tier)
    }
}

/// What the resolver knows about one call site.
pub struct CallSiteQuery<'a> {
    /// File of the caller.
    pub caller_file: &'a str,
    /// The bare name being called.
    pub call_name: &'a str,
    /// Files the caller imports.
    pub imported_files: &'a Vec<String>,
    /// The receiver's type for a method call, when known.
    pub receiver_type: Option<&'a str>,
}

/// Resolver over a symbol table and a type environment.
pub struct CallResolver<'a> {
    symbols: &'a SymbolTable,
    types: &'a TypeEnv,
}

/// The result an entry yields at a tier.
pub open spec fn resolved_at(e: EntryView, tier: Tier) -> (Seq<char>, Seq<char>, Tier) {
    (e.0, kind_label(e.3), tier)
}

/// The entry with the lexicographically smallest qualified name; the
/// earliest among equals.
pub open spec fn qname_min(s: Seq<EntryView>) -> EntryView
    decreases s.len(),
{
    if s.len() <= 1 {
        s[0]
    } else {
        let m = qname_min(s.drop_last());
        if seq_lt(s.last().0, m.0) {
            s.last()
        } else {
            m
        }
    }
}

/// The simple-name hits declared in an imported file.
pub open spec fn imported_hits(t: Seq<EntryView>, name: Seq<char>, imported: Seq<Seq<char>>) -> Seq<
    EntryView,
> {
    filter_map(
        simple_hits(t, name),
        |e: EntryView|
            if imported.contains(e.2) {
                Some(e)
            } else {
                None
            },
    )
}

/// The entry [`qname_min`] picks is in the list, and no entry of the
/// list has a smaller qualified name.
pub proof fn lemma_qname_min(s: Seq<EntryView>)
    requires
        s.len() > 0,
    ensures
        s.contains(qname_min(s)),
        forall|i: int| 0 <= i < s.len() ==> !seq_lt(#[trigger] s[i].0, qname_min(s).0),
    decreases s.len(),
{
    if s.len() == 1 {
        assert(s[0] == qname_min(s));
        crate::text::lemma_seq_lt_irreflexive(s[0].0);
    } else {
        let r = s.drop_last();
        lemma_qname_min(r);
        let m = qname_min(r);
        let k = choose|k: int| 0 <= k < r.len() && r[k] == m;
        assert(s[k] == m);
        assert forall|i: int| 0 <= i < s.len() implies !seq_lt(#[trigger] s[i].0, qname_min(s).0) by {
            if i < s.len() - 1 {
                assert(s[i] == r[i]);
                if seq_lt(s.last().0, m.0) {
                    crate::text::lemma_seq_lt_asym(s[i].0, s.last().0);
                    if seq_lt(s[i].0, s.last().0) {
                        crate::text::lemma_seq_lt_transitive(s[i].0, s.last().0, m.0);
                    }
                }
            } else {
                if seq_lt(s.last().0, m.0) {
                    crate::text::lemma_seq_lt_irreflexive(s.last().0);
                }
            }
        }
        if seq_lt(s.last().0, m.0) {
            assert(s[s.len() - 1] == s.last());
        }
    }
}

/// The two tiers that pick among several matches: the multi-match tier
/// means two or more simple-name hits, none declared in an imported
/// file, and the callee has the least qualified name among them; the
/// alias tier means two or more hits in imported files, and the callee
/// has the least qualified name among those.
pub proof fn law_resolve_picks_least(
    t: Seq<EntryView>,
    file: Seq<char>,
    name: Seq<char>,
    imported: Seq<Seq<char>>,
    receiver: Option<Seq<char>>,
)
    ensures
        ({
            let hits = simple_hits(t, name);
            resolve_spec(t, file, name, imported, receiver) matches Some(c) ==> (c.2
                == Tier::ProjectMultiMatch ==> {
                &&& hits.len() >= 2
                &&& forall|i: int| 0 <= i < hits.len() ==> !imported.contains(#[trigger] hits[i].2)
                &&& exists|i: int| 0 <= i < hits.len() && #[trigger] hits[i].0 == c.0
                &&& forall|i: int| 0 <= i < hits.len() ==> !seq_lt(#[trigger] hits[i].0, c.0)
            })
        }),
        ({
            let imp = imported_hits(t, name, imported);
            resolve_spec(t, file, name, imported, receiver) matches Some(c) ==> (c.2
                == Tier::ImportedAlias ==> {
                &&& imp.len() >= 2
                &&& forall|i: int| 0 <= i < imp.len() ==> imported.contains(#[trigger] imp[i].2)
                    && simple_hits(t, name).contains(imp[i])
                &&& forall|i: int|
                    0 <= i < simple_hits(t, name).len() && imported.contains(
                        #[trigger] simple_hits(t, name)[i].2,
                    ) ==> imp.contains(simple_hits(t, name)[i])
                &&& exists|i: int| 0 <= i < imp.len() && #[trigger] imp[i].0 == c.0
                &&& forall|i: int| 0 <= i < imp.len() ==> !seq_lt(#[trigger] imp[i].0, c.0)
            })
        }),
{
    let hits = simple_hits(t, name);
    let imp = imported_hits(t, name, imported);
    let g = |e: EntryView|
        if imported.contains(e.2) {
            Some(e)
        } else {
            None
        };
    crate::pattern::lemma_filter_map_members(hits, g);
    assert forall|i: int| 0 <= i < imp.len() implies imported.contains(#[trigger] imp[i].2)
        && hits.contains(imp[i]) by {
        let k = choose|k: int| 0 <= k < hits.len() && g(hits[k]) == Some(imp[i]);
    }
    assert forall|i: int| 0 <= i < hits.len() && imported.contains(#[trigger] hits[i].2) implies imp.contains(
        hits[i],
    ) by {
        assert(g(hits[i]) == Some(hits[i]));
    }
    if imp.len() == 0 {
        assert forall|i: int| 0 <= i < hits.len() implies !imported.contains(#[trigger] hits[i].2) by {
            if imported.contains(hits[i].2) {
                assert(g(hits[i]) is Some);
                assert(imp.contains(hits[i]));
            }
        }
    }
    if imp.len() > 1 {
        lemma_qname_min(imp);
    }
    if hits.len() > 1 {
        lemma_qname_min(hits);
    }
}

proof fn lemma_no_same_file(t: Seq<EntryView>, file: Seq<char>, name: Seq<char>, n: int)
    requires
        n <= t.len(),
        forall|i: int| 0 <= i < t.len() ==> !((#[trigger] t[i]).2 == file && t[i].1 == name),
    ensures
        last_in_file(t, file, name, n) is None,
    decreases n,
{
    if n > 0 {
        lemma_no_same_file(t, file, name, n - 1);
    }
}

/// The ladder is ordered: when the caller's file declares nothing under
/// the name and the receiver type `R` has a symbol `R::name`, the call
/// resolves to that symbol at the receiver tier, whatever the imported
/// files hold.
pub proof fn law_receiver_before_imports(
    t: Seq<EntryView>,
    file: Seq<char>,
    name: Seq<char>,
    imported: Seq<Seq<char>>,
    r: Seq<char>,
    k: int,
)
    requires
        unique_qnames(t),
        forall|i: int| 0 <= i < t.len() ==> !((#[trigger] t[i]).2 == file && t[i].1 == name),
        0 <= k < t.len(),
        t[k].0 == r + "::"@ + name,
    ensures
        resolve_spec(t, file, name, imported, Some(r)) == Some(
            (t[k].0, kind_label(t[k].3), Tier::ReceiverResolved),
        ),
{
    lemma_no_same_file(t, file, name, t.len() as int);
    reveal_strlit("::");
    assert(receiver_qname(r, name) == r + "::"@ + name);
    let i = find_qname(t, receiver_qname(r, name))->0;
    assert(find_qname(t, receiver_qname(r, name)) is Some);
    assert(t[i].0 == t[k].0);
}

/// A symbol declared in the caller's file under the called name wins
/// over every other tier: the call resolves to the last such symbol.
pub proof fn law_same_file_first(
    t: Seq<EntryView>,
    file: Seq<char>,
    name: Seq<char>,
    imported: Seq<Seq<char>>,
    receiver: Option<Seq<char>>,
    k: int,
)
    requires
        0 <= k < t.len(),
        t[k].2 == file,
        t[k].1 == name,
        forall|i: int| k < i < t.len() ==> !((#[trigger] t[i]).2 == file && t[i].1 == name),
    ensures
        resolve_spec(t, file, name, imported, receiver) == Some(
            (t[k].0, kind_label(t[k].3), Tier::SameFile),
        ),
{
    lemma_last_in_file_is(t, file, name, k, t.len() as int);
}

/// Below the receiver tier, a single match in an imported file beats
/// the project-wide matches: with nothing in the caller's file and no
/// receiver symbol, exactly one simple-name hit declared in an imported
/// file is the callee, at the exact-import tier.
pub proof fn law_single_import_wins(
    t: Seq<EntryView>,
    file: Seq<char>,
    name: Seq<char>,
    imported: Seq<Seq<char>>,
    k: int,
)
    requires
        forall|i: int| 0 <= i < t.len() ==> !((#[trigger] t[i]).2 == file && t[i].1 == name),
        0 <= k < simple_hits(t, name).len(),
        imported.contains(simple_hits(t, name)[k].2),
        forall|i: int|
            0 <= i < simple_hits(t, name).len() && i != k ==> !imported.contains(
                (#[trigger] simple_hits(t, name)[i]).2,
            ),
    ensures
        resolve_spec(t, file, name, imported, None) == Some(
            (simple_hits(t, name)[k].0, kind_label(simple_hits(t, name)[k].3), Tier::ImportedExact),
        ),
{
    lemma_no_same_file(t, file, name, t.len() as int);
    let hits = simple_hits(t, name);
    let imp = imported_hits(t, name, imported);
    let g = |e: EntryView|
        if imported.contains(e.2) {
            Some(e)
        } else {
            None
        };
    crate::pattern::lemma_filter_map_members(hits, g);
    assert(g(hits[k]) == Some(hits[k]));
    assert(imp.contains(hits[k]));
    assert forall|j: int| 0 <= j < imp.len() implies imp[j] == hits[k] by {
        let i = choose|i: int| 0 <= i < hits.len() && g(hits[i]) == Some(#[trigger] imp[j]);
        if i != k {
            assert(!imported.contains(hits[i].2));
        }
    }
    if imp.len() > 1 {
        assert(imp[0] == hits[k] && imp[1] == hits[k]);
        lemma_filter_map_distinct_positions(hits, g, k);
    }
}

/// `filter_map` keeps an element at most once when the function keeps
/// only that position.
proof fn lemma_filter_map_distinct_positions(
    s: Seq<EntryView>,
    g: spec_fn(EntryView) -> Option<EntryView>,
    k: int,
)
    requires
        0 <= k < s.len(),
        forall|i: int| 0 <= i < s.len() && i != k ==> g(#[trigger] s[i]) is None,
    ensures
        filter_map(s, g).len() <= 1,
    decreases s.len(),
{
    if s.len() > 0 {
        let r = s.drop_last();
        if k < s.len() - 1 {
            assert forall|i: int| 0 <= i < r.len() && i != k implies g(#[trigger] r[i]) is None by {
                assert(r[i] == s[i]);
            }
            lemma_filter_map_distinct_positions(r, g, k);
            assert(g(s[s.len() - 1]) is None);
        } else {
            assert forall|i: int| 0 <= i < r.len() implies g(#[trigger] r[i]) is None by {
                assert(r[i] == s[i]);
            }
            lemma_filter_map_none(r, g);
        }
    }
}

proof fn lemma_filter_map_none(s: Seq<EntryView>, g: spec_fn(EntryView) -> Option<EntryView>)
    requires
        forall|i: int| 0 <= i < s.len() ==> g(#[trigger] s[i]) is None,
    ensures
        filter_map(s, g).len() == 0,
    decreases s.len(),
{
    if s.len() > 0 {
        let r = s.drop_last();
        assert forall|i: int| 0 <= i < r.len() implies g(#[trigger] r[i]) is None by {
            assert(r[i] == s[i]);
        }
        lemma_filter_map_none(r, g);
        assert(g(s[s.len() - 1]) is None);
    }
}

/// With nothing in the caller's file, no receiver and no hit in an
/// imported file, a name that matches exactly one symbol of the project
/// resolves to it at the project-unique tier.
pub proof fn law_unique_project_match(
    t: Seq<EntryView>,
    file: Seq<char>,
    name: Seq<char>,
    imported: Seq<Seq<char>>,
)
    requires
        forall|i: int| 0 <= i < t.len() ==> !((#[trigger] t[i]).2 == file && t[i].1 == name),
        simple_hits(t, name).len() == 1,
        !imported.contains(simple_hits(t, name)[0].2),
    ensures
        resolve_spec(t, file, name, imported, None) == Some(
            (simple_hits(t, name)[0].0, kind_label(simple_hits(t, name)[0].3), Tier::ProjectUnique),
        ),
{
    lemma_no_same_file(t, file, name, t.len() as int);
    let hits = simple_hits(t, name);
    let g = |e: EntryView|
        if imported.contains(e.2) {
            Some(e)
        } else {
            None
        };
    assert forall|i: int| 0 <= i < hits.len() implies g(#[trigger] hits[i]) is None by {}
    lemma_filter_map_none(hits, g);
}

proof fn lemma_last_in_file_is(t: Seq<EntryView>, file: Seq<char>, name: Seq<char>, k: int, n: int)
    requires
        0 <= k < n <= t.len(),
        t[k].2 == file,
        t[k].1 == name,
        forall|i: int| k < i < t.len() ==> !((#[trigger] t[i]).2 == file && t[i].1 == name),
    ensures
        last_in_file(t, file, name, n) == Some(k),
    decreases n,
{
    if n - 1 > k {
        lemma_last_in_file_is(t, file, name, k, n - 1);
    }
}

/// The receiver-qualified name `Receiver::name`.
pub open spec fn receiver_qname(receiver: Seq<char>, name: Seq<char>) -> Seq<char> {
    receiver + "::"@ + name
}

/// The tier ladder, top down.
pub open spec fn resolve_spec(
    t: Seq<EntryView>,
    file: Seq<char>,
    name: Seq<char>,
    imported: Seq<Seq<char>>,
    receiver: Option<Seq<char>>,
) -> Option<(Seq<char>, Seq<char>, Tier)> {
    match last_in_file(t, file, name, t.len() as int) {
        Some(i) => Some(resolved_at(t[i], Tier::SameFile)),
        None => match (
            match receiver {
                Some(r) => find_qname(t, receiver_qname(r, name)),
                None => None,
            }
        ) {
            Some(i) => Some(resolved_at(t[i], Tier::ReceiverResolved)),
            None => {
                let hits = simple_hits(t, name);
                let imp = imported_hits(t, name, imported);
                if imp.len() == 1 {
                    Some(resolved_at(imp[0], Tier::ImportedExact))
                } else if imp.len() > 1 {
                    Some(resolved_at(qname_min(imp), Tier::ImportedAlias))
                } else if hits.len() == 1 {
                    Some(resolved_at(hits[0], Tier::ProjectUnique))
                } else if hits.len() > 0 {
                    Some(resolved_at(qname_min(hits), Tier::ProjectMultiMatch))
                } else {
                    None
                }
            },
        },
    }
}

pub open spec fn opt_str_view(o: Option<&str>) -> Option<Seq<char>> {
    match o {
        Some(s) => Some(s@),
        None => None,
    }
}

fn into_resolved(entry: &SymbolEntry, tier: Tier) -> (r: ResolvedCall)
    ensures
        r@ == resolved_at(entry@, tier),
{
    ResolvedCall {
        callee_qname: crate::text::str_to_string(entry.qualified_name.as_str()),
        callee_label: crate::text::str_to_string(entry.kind.label()),
        tier,
    }
}

/// Index of [`qname_min`] in a non-empty list.
fn min_by_qname(v: &Vec<SymbolEntry>) -> (r: usize)
    requires
        v@.len() > 0,
    ensures
        r < v@.len(),
        v@[r as int]@ == qname_min(v@.map_values(|e: SymbolEntry| e@)),
{
    let ghost vs = v@.map_values(|e: SymbolEntry| e@);
    let mut best: usize = 0;
    let mut bq = to_chars(v[0].qualified_name.as_str());
    let mut i: usize = 1;
    assert(vs.take(1).len() == 1);
    assert(vs.take(1)[0] == vs[0]);
    while i < v.len()
        invariant
            1 <= i <= v@.len(),
            best < i,
            vs == v@.map_values(|e: SymbolEntry| e@),
            bq@ == vs[best as int].0,
            vs[best as int] == qname_min(vs.take(i as int)),
        decreases v@.len() - i,
    {
        let q = to_chars(v[i].qualified_name.as_str());
        assert(vs.take(i + 1).drop_last() =~= vs.take(i as int));
        assert(vs.take(i + 1).last() == vs[i as int]);
        if seq_lt_exec(q.as_slice(), bq.as_slice()) {
            best = i;
            bq = q;
        }
        i += 1;
    }
    assert(vs.take(v@.len() as int) =~= vs);
    best
}

fn keep_imported(hits: &Vec<SymbolEntry>, imported: &Vec<String>) -> (r: Vec<SymbolEntry>)
    ensures
        r@.map_values(|e: SymbolEntry| e@) == filter_map(
            hits@.map_values(|e: SymbolEntry| e@),
            |e: EntryView|
                if strings(imported@).contains(e.2) {
                    Some(e)
                } else {
                    None
                },
        ),
{
    let ghost hv = hits@.map_values(|e: SymbolEntry| e@);
    let ghost f = |e: EntryView|
        if strings(imported@).contains(e.2) {
            Some(e)
        } else {
            None
        };
    let mut out: Vec<SymbolEntry> = Vec::new();
    let mut i: usize = 0;
    while i < hits.len()
        invariant
            i <= hits@.len(),
            hv == hits@.map_values(|e: SymbolEntry| e@),
            f == (|e: EntryView|
                if strings(imported@).contains(e.2) {
                    Some(e)
                } else {
                    None
                }),
            out@.map_values(|e: SymbolEntry| e@) == filter_map(hv.take(i as int), f),
        decreases hits@.len() - i,
    {
        proof {
            lemma_filter_map_step(hv, i as int, f);
        }
        assert(hv[i as int] == hits@[i as int]@);
        if strings_contain(imported, hits[i].source_file.as_str()) {
            let d = hits[i].duplicate();
            let ghost before = out@;
            out.push(d);
            assert(out@.map_values(|e: SymbolEntry| e@) =~= before.map_values(|e: SymbolEntry| e@).push(
                hits@[i as int]@,
            ));
        }
        i += 1;
    }
    assert(hv.take(hits@.len() as int) =~= hv);
    out
}

impl<'a> CallResolver<'a> {
    /// Both indexes are well formed.
    pub closed spec fn wf(&self) -> bool {
        self.symbols.wf() && self.types.wf()
    }

    /// The symbols this resolver searches.
    pub closed spec fn table(&self) -> Seq<EntryView> {
        self.symbols@
    }

    pub fn new(symbols: &'a SymbolTable, types: &'a TypeEnv) -> (r: CallResolver<'a>)
        requires
            symbols.wf(),
            types.wf(),
        ensures
            r.wf(),
            r.table() == symbols@,
    {
        CallResolver { symbols, types }
    }

    /// Walk the tier ladder top-down and return the first match; `None`
    /// when every tier misses.
    pub fn resolve(&self, query: &CallSiteQuery<'_>) -> (r: Option<ResolvedCall>)
        requires
            self.wf(),
        ensures
            match r {
                Some(c) => resolve_spec(
                    self.table(),
                    query.caller_file@,
                    query.call_name@,
                    strings(query.imported_files@),
                    opt_str_view(query.receiver_type),
                ) == Some(c@),
                None => resolve_spec(
                    self.table(),
                    query.caller_file@,
                    query.call_name@,
                    strings(query.imported_files@),
                    opt_str_view(query.receiver_type),
                ) is None,
            },
    {
        let ghost t = self.symbols@;
        if let Some(entry) = self.symbols.find_in_file(query.caller_file, query.call_name) {
            return Some(into_resolved(entry, Tier::SameFile));
        }
        if let Some(receiver) = query.receiver_type {
            let mut cand = to_chars(receiver);
            push_str_chars(&mut cand, "::");
            push_str_chars(&mut cand, query.call_name);
            let candidate = from_chars(cand.as_slice());
            assert(candidate@ == receiver_qname(receiver@, query.call_name@));
            if let Some(entry) = self.symbols.find_exact(candidate.as_str()) {
                return Some(into_resolved(entry, Tier::ReceiverResolved));
            }
            if self.types.member_type(receiver, query.call_name).is_some() {
                if let Some(entry) = self.symbols.find_exact(candidate.as_str()) {
                    return Some(into_resolved(entry, Tier::ReceiverResolved));
                }
            }
        }
        let hits = self.symbols.find_by_simple_name(query.call_name);
        let imported_hits_v = keep_imported(&hits, query.imported_files);
        let ghost imp = imported_hits(t, query.call_name@, strings(query.imported_files@));
        assert(imported_hits_v@.map_values(|e: SymbolEntry| e@) == imp);
        assert(hits@.map_values(|e: SymbolEntry| e@) == simple_hits(t, query.call_name@));
        if imported_hits_v.len() == 1 {
            assert(imp[0] == imported_hits_v@[0]@);
            return Some(into_resolved(&imported_hits_v[0], Tier::ImportedExact));
        }
        if imported_hits_v.len() > 1 {
            let k = min_by_qname(&imported_hits_v);
            return Some(into_resolved(&imported_hits_v[k], Tier::ImportedAlias));
        }
        if hits.len() == 1 {
            assert(simple_hits(t, query.call_name@)[0] == hits@[0]@);
            return Some(into_resolved(&hits[0], Tier::ProjectUnique));
        }
        if hits.len() > 0 {
            let k = min_by_qname(&hits);
            return Some(into_resolved(&hits[k], Tier::ProjectMultiMatch));
        }
        None
    }
}

} // verus!
