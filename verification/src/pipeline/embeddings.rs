//! Symbol embeddings: which nodes are embedded, the text each one is
//! embedded from, the size limit, and the statements that store the
//! vectors.

use vstd::prelude::*;

use crate::pipeline::imports::{cypher_escape, cypher_escape_spec};
use crate::text::{from_chars, push_str_chars};

verus! {

/// Above this many nodes a project is not embedded at all.
pub const EMBEDDING_NODE_LIMIT: usize = 50000;

/// Texts are embedded in batches of this size.
pub const EMBEDDING_BATCH_SIZE: usize = 256;

/// Embedding rows are written in batches of this size.
pub const EMBEDDING_INSERT_BATCH: usize = 50;

/// The node tables whose nodes are embedded, in order.
pub open spec fn embeddable_labels_spec() -> Seq<Seq<char>> {
    seq![
        "Function"@, "Method"@, "Class"@, "Interface"@, "Struct"@, "Trait"@, "File"@, "Enum"@,
        "TypeAlias"@, "Module"@, "Route"@, "Constructor"@, "UnionType"@,
    ]
}

pub fn embeddable_labels() -> (r: Vec<&'static str>)
    ensures
        r@.map_values(|s: &str| s@) == embeddable_labels_spec(),
{
    let r = vec![
        "Function", "Method", "Class", "Interface", "Struct", "Trait", "File", "Enum", "TypeAlias",
        "Module", "Route", "Constructor", "UnionType",
    ];
    assert(r@.map_values(|s: &str| s@) =~= embeddable_labels_spec());
    r
}

/// What the embedding pass did.
#[derive(Debug, Clone, Copy)]
pub struct EmbeddingStats {
    pub embedded: u64,
    pub skipped: u64,
}

impl Default for EmbeddingStats {
    fn default() -> (r: EmbeddingStats)
        ensures
            r.embedded == 0,
            r.skipped == 0,
    {
        EmbeddingStats { embedded: 0, skipped: 0 }
    }
}

/// The text a node is embedded from: `{label} {name} in {file}`.
pub open spec fn embedding_text_spec(label: Seq<char>, name: Seq<char>, source_file: Seq<char>) -> Seq<char> {
    label + " "@ + name + " in "@ + source_file
}

pub fn embedding_text(label: &str, name: &str, source_file: &str) -> (r: String)
    ensures
        r@ == embedding_text_spec(label@, name@, source_file@),
{
    let mut out: Vec<char> = Vec::new();
    push_str_chars(&mut out, label);
    push_str_chars(&mut out, " ");
    push_str_chars(&mut out, name);
    push_str_chars(&mut out, " in ");
    push_str_chars(&mut out, source_file);
    assert(out@ =~= embedding_text_spec(label@, name@, source_file@));
    from_chars(out.as_slice())
}

/// The `(qualified name, text)` pairs of one table's rows, each row
/// given as `(qualified name, name, source file)`.
pub open spec fn embedding_inputs_spec(label: Seq<char>, rows: Seq<(Seq<char>, Seq<char>, Seq<char>)>) -> Seq<
    (Seq<char>, Seq<char>),
> {
    rows.map_values(
        |r: (Seq<char>, Seq<char>, Seq<char>)| (r.0, embedding_text_spec(label, r.1, r.2)),
    )
}

pub open spec fn rows_view(rows: Seq<(String, String, String)>) -> Seq<(Seq<char>, Seq<char>, Seq<char>)> {
    rows.map_values(|r: (String, String, String)| (r.0@, r.1@, r.2@))
}

pub open spec fn pairs_view(v: Seq<(String, String)>) -> Seq<(Seq<char>, Seq<char>)> {
    v.map_values(|p: (String, String)| (p.0@, p.1@))
}

/// Append the embedding inputs of one table's rows to `texts`.
pub fn push_embedding_inputs(label: &str, rows: &Vec<(String, String, String)>, texts: &mut Vec<(String, String)>)
    ensures
        pairs_view(final(texts)@) == pairs_view(old(texts)@) + embedding_inputs_spec(
            label@,
            rows_view(rows@),
        ),
{
    let ghost start = pairs_view(texts@);
    let ghost rv = rows_view(rows@);
    let mut i: usize = 0;
    while i < rows.len()
        invariant
            i <= rows@.len(),
            rv == rows_view(rows@),
            pairs_view(texts@) == start + embedding_inputs_spec(label@, rv.take(i as int)),
        decreases rows@.len() - i,
    {
        let row = &rows[i];
        assert(rv[i as int] == (row.0@, row.1@, row.2@));
        let text = embedding_text(label, row.1.as_str(), row.2.as_str());
        let pair = (row.0.as_str().to_owned(), text);
        let ghost pv = (pair.0@, pair.1@);
        let ghost before = texts@;
        texts.push(pair);
        assert(pairs_view(texts@) =~= pairs_view(before).push(pv));
        assert(rv.take(i + 1) =~= rv.take(i as int).push(rv[i as int]));
        assert(embedding_inputs_spec(label@, rv.take(i + 1)) =~= embedding_inputs_spec(
            label@,
            rv.take(i as int),
        ).push(pv));
        i += 1;
    }
    assert(rv.take(rows@.len() as int) =~= rv);
}

/// The stats a project ends with when it has too many nodes to embed
/// (every node skipped, none embedded); `None` when it is within the
/// limit.
pub fn oversized_stats(node_count: usize) -> (r: Option<EmbeddingStats>)
    ensures
        node_count > EMBEDDING_NODE_LIMIT ==> r == Some(
            EmbeddingStats { embedded: 0, skipped: node_count as u64 },
        ),
        node_count <= EMBEDDING_NODE_LIMIT ==> r is None,
{
    if node_count > EMBEDDING_NODE_LIMIT {
        Some(EmbeddingStats { embedded: 0, skipped: node_count as u64 })
    } else {
        None
    }
}

/// The statement that clears a project's embeddings: every embedding
/// whose node id starts with the escaped project id.
pub open spec fn clear_embeddings_spec(project_id: Seq<char>) -> Seq<char> {
    "MATCH (e:CodeEmbedding) WHERE e.nodeId STARTS WITH '"@ + cypher_escape_spec(project_id)
        + "' DELETE e"@
}

pub fn clear_embeddings_statement(project_id: &str) -> (r: String)
    ensures
        r@ == clear_embeddings_spec(project_id@),
{
    let p = cypher_escape(project_id);
    let mut out: Vec<char> = Vec::new();
    push_str_chars(&mut out, "MATCH (e:CodeEmbedding) WHERE e.nodeId STARTS WITH '");
    push_str_chars(&mut out, p.as_str());
    push_str_chars(&mut out, "' DELETE e");
    assert(out@ =~= clear_embeddings_spec(project_id@));
    from_chars(out.as_slice())
}

/// The query for the nodes of one table of a project.
pub open spec fn embeddable_nodes_spec(label: Seq<char>, project_id: Seq<char>) -> Seq<char> {
    "MATCH (n:"@ + label + ") WHERE n.project_id = '"@ + cypher_escape_spec(project_id)
        + "' RETURN n.qualified_name, n.name, n.source_file"@
}

pub fn embeddable_nodes_query(label: &str, project_id: &str) -> (r: String)
    ensures
        r@ == embeddable_nodes_spec(label@, project_id@),
{
    let p = cypher_escape(project_id);
    let mut out: Vec<char> = Vec::new();
    push_str_chars(&mut out, "MATCH (n:");
    push_str_chars(&mut out, label);
    push_str_chars(&mut out, ") WHERE n.project_id = '");
    push_str_chars(&mut out, p.as_str());
    push_str_chars(&mut out, "' RETURN n.qualified_name, n.name, n.source_file");
    assert(out@ =~= embeddable_nodes_spec(label@, project_id@));
    from_chars(out.as_slice())
}

/// The statement that stores one node's vector, given as the text of
/// its comma-separated components.
pub open spec fn insert_embedding_spec(qualified_name: Seq<char>, vector: Seq<char>) -> Seq<char> {
    "CREATE (:CodeEmbedding {nodeId: '"@ + cypher_escape_spec(qualified_name)
        + "', embedding: CAST(["@ + vector + "] AS FLOAT[384])})"@
}

pub fn insert_embedding_statement(qualified_name: &str, vector: &str) -> (r: String)
    ensures
        r@ == insert_embedding_spec(qualified_name@, vector@),
{
    let q = cypher_escape(qualified_name);
    let mut out: Vec<char> = Vec::new();
    push_str_chars(&mut out, "CREATE (:CodeEmbedding {nodeId: '");
    push_str_chars(&mut out, q.as_str());
    push_str_chars(&mut out, "', embedding: CAST([");
    push_str_chars(&mut out, vector);
    push_str_chars(&mut out, "] AS FLOAT[384])})");
    assert(out@ =~= insert_embedding_spec(qualified_name@, vector@));
    from_chars(out.as_slice())
}

/// The statement that builds the cosine-similarity vector index.
pub fn vector_index_statement() -> (r: &'static str)
    ensures
        r@ == "CALL CREATE_VECTOR_INDEX('CodeEmbedding', 'code_embedding_idx', 'embedding', metric := 'cosine')"@,
{
    "CALL CREATE_VECTOR_INDEX('CodeEmbedding', 'code_embedding_idx', 'embedding', metric := 'cosine')"
}

} // verus!
