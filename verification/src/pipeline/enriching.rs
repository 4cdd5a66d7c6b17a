//! Community enrichment: each community's description gains a tag
//! naming the dominant file extension among its member files and how
//! many members have it.

use vstd::prelude::*;

use crate::pipeline::imports::{cypher_escape, cypher_escape_spec};
use crate::text::{
    after_last, after_last_exec, ascii_lower, ascii_lower_exec, chars_eq, contains, contains_str,
    decimal, decimal_exec, from_chars, lemma_find_from_bounds, lemma_seq_lt_asym, lemma_seq_lt_irreflexive,
    lemma_seq_lt_total, lemma_seq_lt_transitive, occurs_at, push_all, push_str_chars, seq_lt, seq_lt_exec,
    to_chars,
};

verus! {

// ── extensions of the members ───────────────────────────────────────

/// The extension key of a member file: what follows its last `.` (the
/// whole path when there is none), ASCII-lowercased.
pub open spec fn member_extension(path: Seq<char>) -> Seq<char> {
    ascii_lower(after_last(path, '.'))
}

/// The non-empty extension keys of the members, in order.
pub open spec fn member_extensions(paths: Seq<Seq<char>>) -> Seq<Seq<char>>
    decreases paths.len(),
{
    if paths.len() == 0 {
        Seq::empty()
    } else {
        let e = member_extension(paths.last());
        if e.len() == 0 {
            member_extensions(paths.drop_last())
        } else {
            member_extensions(paths.drop_last()).push(e)
        }
    }
}

/// How many times `e` occurs in `es`.
pub open spec fn count_of(es: Seq<Seq<char>>, e: Seq<char>) -> nat
    decreases es.len(),
{
    if es.len() == 0 {
        0
    } else {
        count_of(es.drop_last(), e) + if es.last() == e {
            1nat
        } else {
            0nat
        }
    }
}

/// `d` occurs `c` times in `es`, no key occurs more often, and `d` is
/// the alphabetically first (in `String` order) of the keys that occur
/// `c` times.
pub open spec fn is_dominant(es: Seq<Seq<char>>, d: Seq<char>, c: nat) -> bool {
    &&& es.contains(d)
    &&& count_of(es, d) == c
    &&& forall|e: Seq<char>|
        #![trigger es.contains(e)]
        es.contains(e) ==> count_of(es, e) <= c && (count_of(es, e) == c ==> !seq_lt(e, d))
}

proof fn lemma_count_of_contains(es: Seq<Seq<char>>, e: Seq<char>)
    ensures
        count_of(es, e) > 0 <==> es.contains(e),
        count_of(es, e) <= es.len(),
    decreases es.len(),
{
    if es.len() > 0 {
        lemma_count_of_contains(es.drop_last(), e);
        if es.drop_last().contains(e) {
            let k = choose|k: int| 0 <= k < es.drop_last().len() && es.drop_last()[k] == e;
            assert(es[k] == e);
        }
        if es.contains(e) && es.last() != e {
            let k = choose|k: int| 0 <= k < es.len() && es[k] == e;
            assert(es.drop_last()[k] == e);
        }
        if es.last() == e {
            assert(es[es.len() - 1] == e);
        }
    }
}

/// There is one dominant key, however it is found.
pub proof fn law_dominant_unique(es: Seq<Seq<char>>, d1: Seq<char>, c1: nat, d2: Seq<char>, c2: nat)
    requires
        is_dominant(es, d1, c1),
        is_dominant(es, d2, c2),
    ensures
        d1 == d2,
        c1 == c2,
{
    assert(es.contains(d1));
    assert(es.contains(d2));
    lemma_seq_lt_total(d1, d2);
}

fn member_extension_exec(path: &str) -> (r: Vec<char>)
    ensures
        r@ == member_extension(path@),
{
    let p = to_chars(path);
    let tail = after_last_exec(p.as_slice(), '.');
    ascii_lower_exec(tail.as_slice())
}

spec fn keys_of(counts: Seq<(Vec<char>, u32)>) -> Seq<Seq<char>> {
    counts.map_values(|p: (Vec<char>, u32)| p.0@)
}

/// The counted keys hold exactly the keys of `es`, once each, with their
/// counts.
spec fn counts_ok(counts: Seq<(Vec<char>, u32)>, es: Seq<Seq<char>>) -> bool {
    &&& forall|i: int, j: int| 0 <= i < j < counts.len() ==> counts[i].0@ != counts[j].0@
    &&& forall|i: int| 0 <= i < counts.len() ==> #[trigger] counts[i].1 == count_of(es, counts[i].0@)
    &&& forall|i: int| 0 <= i < counts.len() ==> es.contains(#[trigger] counts[i].0@)
    &&& forall|e: Seq<char>| #![trigger es.contains(e)] es.contains(e) ==> keys_of(counts).contains(e)
}

fn count_extensions(paths: &Vec<String>) -> (r: Vec<(Vec<char>, u32)>)
    requires
        paths@.len() <= u32::MAX,
    ensures
        counts_ok(r@, member_extensions(paths@.map_values(|s: String| s@))),
{
    let ghost pv = paths@.map_values(|s: String| s@);
    let mut counts: Vec<(Vec<char>, u32)> = Vec::new();
    let mut i: usize = 0;
    assert(pv.take(0) =~= Seq::<Seq<char>>::empty());
    while i < paths.len()
        invariant
            i <= paths@.len(),
            paths@.len() <= u32::MAX,
            pv == paths@.map_values(|s: String| s@),
            counts_ok(counts@, member_extensions(pv.take(i as int))),
            member_extensions(pv.take(i as int)).len() <= i,
        decreases paths@.len() - i,
    {
        let ghost es0 = member_extensions(pv.take(i as int));
        let ghost t = pv.take(i + 1);
        assert(t.drop_last() =~= pv.take(i as int));
        assert(t.last() == paths@[i as int]@);
        let e = member_extension_exec(paths[i].as_str());
        if e.len() > 0 {
            let ghost es1 = es0.push(e@);
            assert(member_extensions(t) == es1);
            assert forall|x: Seq<char>| #![auto] count_of(es1, x) == count_of(es0, x) + if x == e@ { 1nat } else { 0nat } by {
                assert(es1.drop_last() =~= es0);
            }
            let mut j: usize = 0;
            while j < counts.len() && !chars_eq(counts[j].0.as_slice(), e.as_slice())
                invariant
                    j <= counts@.len(),
                    counts_ok(counts@, es0),
                    forall|k: int| 0 <= k < j ==> counts@[k].0@ != e@,
                decreases counts@.len() - j,
            {
                j += 1;
            }
            proof {
                lemma_count_of_contains(es0, e@);
            }
            if j < counts.len() {
                assert(counts@[j as int].0@ == e@);
                let old_n = counts[j].1;
                let key = counts[j].0.clone();
                assert(key@ == e@);
                let ghost c0 = counts@;
                counts.set(j, (key, old_n + 1));
                assert(keys_of(counts@) =~= keys_of(c0));
                assert forall|x: Seq<char>| #![trigger es1.contains(x)] es1.contains(x) implies keys_of(counts@).contains(x) by {
                    if x != e@ {
                        let k = choose|k: int| 0 <= k < es1.len() && es1[k] == x;
                        assert(es0[k] == x);
                        assert(es0.contains(x));
                        assert(keys_of(c0).contains(x));
                    } else {
                        assert(keys_of(counts@)[j as int] == x);
                    }
                }
                assert forall|k: int| 0 <= k < counts@.len() implies es1.contains(#[trigger] counts@[k].0@) by {
                    assert(es0.contains(c0[k].0@));
                    let m = choose|m: int| 0 <= m < es0.len() && es0[m] == c0[k].0@;
                    assert(es1[m] == c0[k].0@);
                }
            } else {
                let ghost c0 = counts@;
                assert(!keys_of(c0).contains(e@)) by {
                    if keys_of(c0).contains(e@) {
                        let k = choose|k: int| 0 <= k < keys_of(c0).len() && keys_of(c0)[k] == e@;
                        assert(c0[k].0@ == e@);
                    }
                }
                assert(!es0.contains(e@));
                let ghost ev = e@;
                counts.push((e, 1));
                assert(keys_of(counts@) =~= keys_of(c0).push(ev));
                assert forall|x: Seq<char>| #![trigger es1.contains(x)] es1.contains(x) implies keys_of(counts@).contains(x) by {
                    if x != ev {
                        let k = choose|k: int| 0 <= k < es1.len() && es1[k] == x;
                        assert(es0[k] == x);
                        assert(es0.contains(x));
                        assert(keys_of(c0).contains(x));
                        let m = choose|m: int| 0 <= m < keys_of(c0).len() && keys_of(c0)[m] == x;
                        assert(keys_of(counts@)[m] == x);
                    } else {
                        assert(keys_of(counts@)[c0.len() as int] == x);
                    }
                }
                assert forall|k: int| 0 <= k < counts@.len() implies es1.contains(#[trigger] counts@[k].0@) by {
                    if k < c0.len() {
                        assert(es0.contains(c0[k].0@));
                        let m = choose|m: int| 0 <= m < es0.len() && es0[m] == c0[k].0@;
                        assert(es1[m] == c0[k].0@);
                    } else {
                        assert(es1[es0.len() as int] == ev);
                    }
                }
                assert forall|a: int, b: int| 0 <= a < b < counts@.len() implies counts@[a].0@ != counts@[b].0@ by {
                    if b == c0.len() {
                        assert(keys_of(c0)[a] == c0[a].0@);
                    }
                }
            }
        } else {
            assert(member_extensions(t) == es0);
        }
        i += 1;
    }
    assert(pv.take(paths@.len() as int) =~= pv);
    counts
}

/// The dominant extension of the members and its count; `None` when no
/// member has an extension key.
pub fn dominant_extension(member_paths: &Vec<String>) -> (r: Option<(String, u32)>)
    requires
        member_paths@.len() <= u32::MAX,
    ensures
        r is None <==> member_extensions(member_paths@.map_values(|s: String| s@)).len() == 0,
        r matches Some((d, c)) ==> is_dominant(
            member_extensions(member_paths@.map_values(|s: String| s@)),
            d@,
            c as nat,
        ),
{
    let ghost es = member_extensions(member_paths@.map_values(|s: String| s@));
    let counts = count_extensions(member_paths);
    if counts.len() == 0 {
        proof {
            if es.len() > 0 {
                assert(es.contains(es[0]));
                assert(keys_of(counts@).contains(es[0]));
            }
        }
        return None;
    }
    assert(es.contains(counts@[0].0@));
    proof {
        lemma_seq_lt_irreflexive(counts@[0].0@);
    }
    let mut best: usize = 0;
    let mut i: usize = 1;
    while i < counts.len()
        invariant
            1 <= i <= counts@.len(),
            best < i,
            counts_ok(counts@, es),
            forall|k: int|
                0 <= k < i ==> counts@[k].1 <= counts@[best as int].1 && (counts@[k].1
                    == counts@[best as int].1 ==> !seq_lt(#[trigger] counts@[k].0@, counts@[best as int].0@)),
        decreases counts@.len() - i,
    {
        let better = counts[i].1 > counts[best].1 || (counts[i].1 == counts[best].1 && seq_lt_exec(
            counts[i].0.as_slice(),
            counts[best].0.as_slice(),
        ));
        if better {
            proof {
                assert forall|k: int| 0 <= k < i + 1 implies counts@[k].1 <= counts@[i as int].1 && (counts@[k].1
                    == counts@[i as int].1 ==> !seq_lt(#[trigger] counts@[k].0@, counts@[i as int].0@)) by {
                    if k < i && counts@[k].1 == counts@[i as int].1 {
                        let b = counts@[best as int].0@;
                        let x = counts@[k].0@;
                        let y = counts@[i as int].0@;
                        lemma_seq_lt_total(x, b);
                        if seq_lt(b, x) {
                            lemma_seq_lt_transitive(y, b, x);
                        }
                        lemma_seq_lt_asym(y, x);
                    }
                    if k == i {
                        lemma_seq_lt_irreflexive(counts@[k].0@);
                    }
                }
            }
            best = i;
        } else {
        }
        i += 1;
    }
    let d = from_chars(counts[best].0.as_slice());
    let c = counts[best].1;
    proof {
        assert forall|e: Seq<char>| #![trigger es.contains(e)] es.contains(e) implies count_of(es, e) <= c && (count_of(es, e) == c
            ==> !seq_lt(e, d@)) by {
            assert(keys_of(counts@).contains(e));
            let k = choose|k: int| 0 <= k < keys_of(counts@).len() && keys_of(counts@)[k] == e;
            assert(counts@[k].0@ == e);
        }
    }
    Some((d, c))
}

// ── the description ─────────────────────────────────────────────────

/// The tag: `lang={ext};files={count}`.
pub open spec fn language_tag(d: Seq<char>, c: nat) -> Seq<char> {
    "lang="@ + d + ";files="@ + decimal(c)
}

/// The description after enrichment given the dominant key and count:
/// the tag alone when there was none, unchanged (`None`) when it
/// already carries a tag, else the old text, `; ` and the tag.
pub open spec fn merged_description(existing: Seq<char>, d: Seq<char>, c: nat) -> Option<Seq<char>> {
    if existing.len() == 0 {
        Some(language_tag(d, c))
    } else if contains(existing, "lang="@) {
        None
    } else {
        Some(existing + "; "@ + language_tag(d, c))
    }
}

/// The new description of a community from its current one and its
/// member files; `None` when it is left as it is: no member has an
/// extension key, or it was enriched before.
pub fn enriched_description(existing: &str, member_paths: &Vec<String>) -> (r: Option<String>)
    requires
        member_paths@.len() <= u32::MAX,
    ensures
        ({
            let es = member_extensions(member_paths@.map_values(|s: String| s@));
            &&& es.len() == 0 ==> r is None
            &&& es.len() > 0 ==> exists|d: Seq<char>, c: nat|
                #![trigger is_dominant(es, d, c)]
                is_dominant(es, d, c) && crate::pattern::opt_string_view(r) == merged_description(
                    existing@,
                    d,
                    c,
                )
        }),
{
    match dominant_extension(member_paths) {
        None => None,
        Some((d, c)) => {
            let e = to_chars(existing);
            if e.len() == 0 {
                let mut out: Vec<char> = Vec::new();
                push_language_tag(&mut out, d.as_str(), c);
                Some(from_chars(out.as_slice()))
            } else if contains_str(e.as_slice(), "lang=") {
                None
            } else {
                let mut out = e.clone();
                push_str_chars(&mut out, "; ");
                push_language_tag(&mut out, d.as_str(), c);
                Some(from_chars(out.as_slice()))
            }
        },
    }
}

fn push_language_tag(out: &mut Vec<char>, d: &str, c: u32)
    ensures
        final(out)@ == old(out)@ + language_tag(d@, c as nat),
{
    push_str_chars(out, "lang=");
    push_str_chars(out, d);
    push_str_chars(out, ";files=");
    let n = decimal_exec(c as usize);
    push_all(out, n.as_slice());
}

/// Enrichment is idempotent: a description that [`enriched_description`]
/// produced (its result is [`merged_description`] of the dominant
/// extension) already carries a tag, so a second run answers `None` and
/// leaves the description unchanged, whatever the members are then.
pub proof fn law_enrichment_idempotent(existing: Seq<char>, d: Seq<char>, c: nat, d2: Seq<char>, c2: nat)
    requires
        merged_description(existing, d, c) is Some,
    ensures
        merged_description(merged_description(existing, d, c)->0, d2, c2) is None,
{
    reveal_strlit("lang=");
    let x = merged_description(existing, d, c)->0;
    let pre = if existing.len() == 0 {
        Seq::<char>::empty()
    } else {
        existing + "; "@
    };
    let rest = d + ";files="@ + decimal(c);
    assert(x =~= pre + "lang="@ + rest);
    assert(x.subrange(pre.len() as int, (pre.len() + "lang="@.len()) as int) =~= "lang="@);
    assert(occurs_at(x, "lang="@, pre.len() as int));
    lemma_find_from_bounds(x, "lang="@, 0);
}


// ── statements ──────────────────────────────────────────────────────

/// The query for a project's communities and their descriptions.
pub open spec fn communities_query_spec(project_id: Seq<char>) -> Seq<char> {
    "MATCH (c:Community) WHERE c.project_id = '"@ + cypher_escape_spec(project_id)
        + "' RETURN c.qualified_name, c.description"@
}

pub fn communities_query(project_id: &str) -> (r: String)
    ensures
        r@ == communities_query_spec(project_id@),
{
    let p = cypher_escape(project_id);
    let mut out: Vec<char> = Vec::new();
    push_str_chars(&mut out, "MATCH (c:Community) WHERE c.project_id = '");
    push_str_chars(&mut out, p.as_str());
    push_str_chars(&mut out, "' RETURN c.qualified_name, c.description");
    assert(out@ =~= communities_query_spec(project_id@));
    from_chars(out.as_slice())
}

/// The query for the source files of a community's member files.
pub open spec fn members_query_spec(project_id: Seq<char>, community: Seq<char>) -> Seq<char> {
    "MATCH (f:File)-[r:CodeRelation]->(c:Community) WHERE r.type = 'MEMBER_OF' AND c.qualified_name = '"@
        + cypher_escape_spec(community) + "' AND c.project_id = '"@ + cypher_escape_spec(project_id)
        + "' RETURN f.source_file"@
}

pub fn members_query(project_id: &str, community: &str) -> (r: String)
    ensures
        r@ == members_query_spec(project_id@, community@),
{
    let p = cypher_escape(project_id);
    let q = cypher_escape(community);
    let mut out: Vec<char> = Vec::new();
    push_str_chars(
        &mut out,
        "MATCH (f:File)-[r:CodeRelation]->(c:Community) WHERE r.type = 'MEMBER_OF' AND c.qualified_name = '",
    );
    push_str_chars(&mut out, q.as_str());
    push_str_chars(&mut out, "' AND c.project_id = '");
    push_str_chars(&mut out, p.as_str());
    push_str_chars(&mut out, "' RETURN f.source_file");
    assert(out@ =~= members_query_spec(project_id@, community@));
    from_chars(out.as_slice())
}

/// The statement that sets a community's description.
pub open spec fn set_description_spec(project_id: Seq<char>, community: Seq<char>, description: Seq<char>) -> Seq<char> {
    "MATCH (c:Community) WHERE c.qualified_name = '"@ + cypher_escape_spec(community)
        + "' AND c.project_id = '"@ + cypher_escape_spec(project_id) + "' SET c.description = '"@
        + cypher_escape_spec(description) + "'"@
}

pub fn set_description_statement(project_id: &str, community: &str, description: &str) -> (r: String)
    ensures
        r@ == set_description_spec(project_id@, community@, description@),
{
    let p = cypher_escape(project_id);
    let q = cypher_escape(community);
    let d = cypher_escape(description);
    let mut out: Vec<char> = Vec::new();
    push_str_chars(&mut out, "MATCH (c:Community) WHERE c.qualified_name = '");
    push_str_chars(&mut out, q.as_str());
    push_str_chars(&mut out, "' AND c.project_id = '");
    push_str_chars(&mut out, p.as_str());
    push_str_chars(&mut out, "' SET c.description = '");
    push_str_chars(&mut out, d.as_str());
    push_str_chars(&mut out, "'");
    assert(out@ =~= set_description_spec(project_id@, community@, description@));
    from_chars(out.as_slice())
}

/// The enrichment phase.
pub struct EnrichingPhase;

impl EnrichingPhase {
    pub fn label(&self) -> (r: &'static str)
        ensures
            r@ == "enriching"@,
    {
        "enriching"
    }
}

} // verus!
