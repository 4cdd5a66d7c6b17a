//! Keyword search over the graph: the query text handed to the
//! full-text indexes, and the statements that run it.

use vstd::prelude::*;

use crate::chars::{is_alphanumeric, unicode_alphanumeric};
use crate::pipeline::fts::searchable_labels_spec;
use crate::pipeline::imports::{cypher_escape, cypher_escape_spec};
use crate::text::{
    ascii_lower, decimal, decimal_exec, from_chars, is_whitespace, is_ws, join_words, join_words_exec,
    push_str_chars, to_chars,
};

verus! {

/// A character a search query keeps: whitespace (which separates the
/// words), Unicode alphanumerics and `_`.
pub open spec fn query_char(c: char) -> bool {
    is_ws(c) || unicode_alphanumeric(c) || c == '_'
}

/// `s` without the characters a query drops.
pub open spec fn keep_query_chars(s: Seq<char>) -> Seq<char>
    decreases s.len(),
{
    if s.len() == 0 {
        Seq::empty()
    } else if query_char(s.last()) {
        keep_query_chars(s.drop_last()).push(s.last())
    } else {
        keep_query_chars(s.drop_last())
    }
}

/// The sanitised query: each whitespace-separated word keeps only its
/// alphanumerics and underscores, words left empty are dropped, and the
/// rest are joined by single spaces. Dropping characters from inside a
/// word never splits or merges words, so this is the word-joining of
/// the text with those characters removed.
pub open spec fn sanitized_query(s: Seq<char>) -> Seq<char> {
    join_words(keep_query_chars(s))
}

pub fn sanitize_fts_query(query: &str) -> (r: String)
    ensures
        r@ == sanitized_query(query@),
{
    let q = to_chars(query);
    let mut kept: Vec<char> = Vec::new();
    let mut i: usize = 0;
    assert(q@.take(0) =~= Seq::<char>::empty());
    while i < q.len()
        invariant
            i <= q@.len(),
            q@ == query@,
            kept@ == keep_query_chars(q@.take(i as int)),
        decreases q@.len() - i,
    {
        let c = q[i];
        let ghost t = q@.take(i + 1);
        assert(t.drop_last() =~= q@.take(i as int));
        assert(t.last() == c);
        if is_whitespace(c) || is_alphanumeric(c) || c == '_' {
            kept.push(c);
        }
        i += 1;
    }
    assert(q@.take(q@.len() as int) =~= q@);
    let joined = join_words_exec(kept.as_slice());
    from_chars(joined.as_slice())
}

/// Each searchable node table with the name of its full-text index.
pub open spec fn search_indexes_spec() -> Seq<(Seq<char>, Seq<char>)> {
    seq![
        ("Function"@, "function_fts"@),
        ("Method"@, "method_fts"@),
        ("Class"@, "class_fts"@),
        ("Interface"@, "interface_fts"@),
        ("Struct"@, "struct_fts"@),
        ("Trait"@, "trait_fts"@),
        ("Enum"@, "enum_fts"@),
        ("TypeAlias"@, "typealias_fts"@),
        ("Const"@, "const_fts"@),
        ("Module"@, "module_fts"@),
        ("Route"@, "route_fts"@),
        ("Variable"@, "variable_fts"@),
        ("Import"@, "import_fts"@),
        ("Decorator"@, "decorator_fts"@),
        ("File"@, "file_fts"@),
        ("Constructor"@, "constructor_fts"@),
        ("Property"@, "property_fts"@),
        ("UnionType"@, "uniontype_fts"@),
        ("Typedef"@, "typedef_fts"@),
        ("Static"@, "static_fts"@),
        ("Delegate"@, "delegate_fts"@),
    ]
}

pub fn search_indexes() -> (r: Vec<(&'static str, &'static str)>)
    ensures
        r@.map_values(|p: (&str, &str)| (p.0@, p.1@)) == search_indexes_spec(),
{
    let r = vec![
        ("Function", "function_fts"),
        ("Method", "method_fts"),
        ("Class", "class_fts"),
        ("Interface", "interface_fts"),
        ("Struct", "struct_fts"),
        ("Trait", "trait_fts"),
        ("Enum", "enum_fts"),
        ("TypeAlias", "typealias_fts"),
        ("Const", "const_fts"),
        ("Module", "module_fts"),
        ("Route", "route_fts"),
        ("Variable", "variable_fts"),
        ("Import", "import_fts"),
        ("Decorator", "decorator_fts"),
        ("File", "file_fts"),
        ("Constructor", "constructor_fts"),
        ("Property", "property_fts"),
        ("UnionType", "uniontype_fts"),
        ("Typedef", "typedef_fts"),
        ("Static", "static_fts"),
        ("Delegate", "delegate_fts"),
    ];
    assert(r@.map_values(|p: (&str, &str)| (p.0@, p.1@)) =~= search_indexes_spec());
    r
}

/// The keyword query on one index: disjunctive over the words, best
/// score first, at most `limit` rows.
pub open spec fn bm25_query_spec(label: Seq<char>, index: Seq<char>, sanitized: Seq<char>, limit: nat) -> Seq<char> {
    "CALL QUERY_FTS_INDEX('"@ + label + "', '"@ + index + "', '"@ + cypher_escape_spec(sanitized)
        + "', conjunctive := false) RETURN node.qualified_name, node.name, node.source_file, score ORDER BY score DESC LIMIT "@
        + decimal(limit)
}

pub fn bm25_query(label: &str, index: &str, sanitized: &str, limit: usize) -> (r: String)
    ensures
        r@ == bm25_query_spec(label@, index@, sanitized@, limit as nat),
{
    let escaped = cypher_escape(sanitized);
    let mut out: Vec<char> = Vec::new();
    push_str_chars(&mut out, "CALL QUERY_FTS_INDEX('");
    push_str_chars(&mut out, label);
    push_str_chars(&mut out, "', '");
    push_str_chars(&mut out, index);
    push_str_chars(&mut out, "', '");
    push_str_chars(&mut out, escaped.as_str());
    push_str_chars(
        &mut out,
        "', conjunctive := false) RETURN node.qualified_name, node.name, node.source_file, score ORDER BY score DESC LIMIT ",
    );
    let n = decimal_exec(limit);
    let ghost before = out@;
    let mut i: usize = 0;
    while i < n.len()
        invariant
            i <= n@.len(),
            out@ == before + n@.take(i as int),
        decreases n@.len() - i,
    {
        out.push(n[i]);
        assert(n@.take(i + 1) =~= n@.take(i as int).push(n@[i as int]));
        i += 1;
    }
    assert(n@.take(n@.len() as int) =~= n@);
    assert(out@ =~= bm25_query_spec(label@, index@, sanitized@, limit as nat));
    from_chars(out.as_slice())
}

/// The node tables a vector hit is looked up in, in order.
pub open spec fn lookup_labels_spec() -> Seq<Seq<char>> {
    seq![
        "Function"@, "Method"@, "Class"@, "Interface"@, "Struct"@, "Trait"@, "File"@, "Enum"@,
        "Module"@, "Route"@,
    ]
}

pub fn lookup_labels() -> (r: Vec<&'static str>)
    ensures
        r@.map_values(|s: &str| s@) == lookup_labels_spec(),
{
    let r = vec![
        "Function", "Method", "Class", "Interface", "Struct", "Trait", "File", "Enum", "Module",
        "Route",
    ];
    assert(r@.map_values(|s: &str| s@) =~= lookup_labels_spec());
    r
}

/// The query for the name and file of the node with a qualified name in
/// one table of a project.
pub open spec fn node_lookup_spec(label: Seq<char>, qualified_name: Seq<char>, project_id: Seq<char>) -> Seq<char> {
    "MATCH (n:"@ + label + ") WHERE n.qualified_name = '"@ + cypher_escape_spec(qualified_name)
        + "' AND n.project_id = '"@ + cypher_escape_spec(project_id)
        + "' RETURN n.name, n.source_file"@
}

pub fn node_lookup_query(label: &str, qualified_name: &str, project_id: &str) -> (r: String)
    ensures
        r@ == node_lookup_spec(label@, qualified_name@, project_id@),
{
    let q = cypher_escape(qualified_name);
    let p = cypher_escape(project_id);
    let mut out: Vec<char> = Vec::new();
    push_str_chars(&mut out, "MATCH (n:");
    push_str_chars(&mut out, label);
    push_str_chars(&mut out, ") WHERE n.qualified_name = '");
    push_str_chars(&mut out, q.as_str());
    push_str_chars(&mut out, "' AND n.project_id = '");
    push_str_chars(&mut out, p.as_str());
    push_str_chars(&mut out, "' RETURN n.name, n.source_file");
    assert(out@ =~= node_lookup_spec(label@, qualified_name@, project_id@));
    from_chars(out.as_slice())
}

/// The keyword search queries exactly the indexes the index build
/// creates: the same tables in the same order, each index named as the
/// build names an ASCII label (lower-cased, then `_fts`).
#[verifier::rlimit(50)]
pub proof fn law_search_uses_built_indexes()
    ensures
        search_indexes_spec().len() == searchable_labels_spec().len(),
        forall|i: int|
            0 <= i < search_indexes_spec().len() ==> search_indexes_spec()[i].0
                == searchable_labels_spec()[i] && search_indexes_spec()[i].1 == ascii_lower(
                search_indexes_spec()[i].0,
            ) + "_fts"@,
{
    reveal_strlit("_fts");
    reveal_strlit("Function");
    reveal_strlit("function_fts");
    assert(ascii_lower("Function"@) + "_fts"@ =~= "function_fts"@);
    reveal_strlit("Method");
    reveal_strlit("method_fts");
    assert(ascii_lower("Method"@) + "_fts"@ =~= "method_fts"@);
    reveal_strlit("Class");
    reveal_strlit("class_fts");
    assert(ascii_lower("Class"@) + "_fts"@ =~= "class_fts"@);
    reveal_strlit("Interface");
    reveal_strlit("interface_fts");
    assert(ascii_lower("Interface"@) + "_fts"@ =~= "interface_fts"@);
    reveal_strlit("Struct");
    reveal_strlit("struct_fts");
    assert(ascii_lower("Struct"@) + "_fts"@ =~= "struct_fts"@);
    reveal_strlit("Trait");
    reveal_strlit("trait_fts");
    assert(ascii_lower("Trait"@) + "_fts"@ =~= "trait_fts"@);
    reveal_strlit("Enum");
    reveal_strlit("enum_fts");
    assert(ascii_lower("Enum"@) + "_fts"@ =~= "enum_fts"@);
    reveal_strlit("TypeAlias");
    reveal_strlit("typealias_fts");
    assert(ascii_lower("TypeAlias"@) + "_fts"@ =~= "typealias_fts"@);
    reveal_strlit("Const");
    reveal_strlit("const_fts");
    assert(ascii_lower("Const"@) + "_fts"@ =~= "const_fts"@);
    reveal_strlit("Module");
    reveal_strlit("module_fts");
    assert(ascii_lower("Module"@) + "_fts"@ =~= "module_fts"@);
    reveal_strlit("Route");
    reveal_strlit("route_fts");
    assert(ascii_lower("Route"@) + "_fts"@ =~= "route_fts"@);
    reveal_strlit("Variable");
    reveal_strlit("variable_fts");
    assert(ascii_lower("Variable"@) + "_fts"@ =~= "variable_fts"@);
    reveal_strlit("Import");
    reveal_strlit("import_fts");
    assert(ascii_lower("Import"@) + "_fts"@ =~= "import_fts"@);
    reveal_strlit("Decorator");
    reveal_strlit("decorator_fts");
    assert(ascii_lower("Decorator"@) + "_fts"@ =~= "decorator_fts"@);
    reveal_strlit("File");
    reveal_strlit("file_fts");
    assert(ascii_lower("File"@) + "_fts"@ =~= "file_fts"@);
    reveal_strlit("Constructor");
    reveal_strlit("constructor_fts");
    assert(ascii_lower("Constructor"@) + "_fts"@ =~= "constructor_fts"@);
    reveal_strlit("Property");
    reveal_strlit("property_fts");
    assert(ascii_lower("Property"@) + "_fts"@ =~= "property_fts"@);
    reveal_strlit("UnionType");
    reveal_strlit("uniontype_fts");
    assert(ascii_lower("UnionType"@) + "_fts"@ =~= "uniontype_fts"@);
    reveal_strlit("Typedef");
    reveal_strlit("typedef_fts");
    assert(ascii_lower("Typedef"@) + "_fts"@ =~= "typedef_fts"@);
    reveal_strlit("Static");
    reveal_strlit("static_fts");
    assert(ascii_lower("Static"@) + "_fts"@ =~= "static_fts"@);
    reveal_strlit("Delegate");
    reveal_strlit("delegate_fts");
    assert(ascii_lower("Delegate"@) + "_fts"@ =~= "delegate_fts"@);
}

} // verus!
