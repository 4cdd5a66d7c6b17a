//! Full-text search indexes: one per searchable node table, over the
//! name, qualified name and source file of its nodes, with the porter
//! stemmer.

use vstd::prelude::*;

use crate::chars::{lowercase_text, str_to_lowercase};
use crate::text::{ascii_lower, from_chars, push_all, push_str_chars, to_chars};

verus! {

/// The node tables that get a full-text index, in the order they are
/// built.
pub open spec fn searchable_labels_spec() -> Seq<Seq<char>> {
    seq![
        "Function"@, "Method"@, "Class"@, "Interface"@, "Struct"@, "Trait"@, "Enum"@,
        "TypeAlias"@, "Const"@, "Module"@, "Route"@, "Variable"@, "Import"@, "Decorator"@,
        "File"@, "Constructor"@, "Property"@, "UnionType"@, "Typedef"@, "Static"@, "Delegate"@,
    ]
}

pub fn searchable_labels() -> (r: Vec<&'static str>)
    ensures
        r@.map_values(|s: &str| s@) == searchable_labels_spec(),
{
    let r = vec![
        "Function", "Method", "Class", "Interface", "Struct", "Trait", "Enum", "TypeAlias",
        "Const", "Module", "Route", "Variable", "Import", "Decorator", "File", "Constructor",
        "Property", "UnionType", "Typedef", "Static", "Delegate",
    ];
    assert(r@.map_values(|s: &str| s@) =~= searchable_labels_spec());
    r
}

/// The node properties each index covers.
pub open spec fn fts_properties_spec() -> Seq<Seq<char>> {
    seq!["name"@, "qualified_name"@, "source_file"@]
}

pub fn fts_properties() -> (r: Vec<&'static str>)
    ensures
        r@.map_values(|s: &str| s@) == fts_properties_spec(),
{
    let r = vec!["name", "qualified_name", "source_file"];
    assert(r@.map_values(|s: &str| s@) =~= fts_properties_spec());
    r
}

/// `'a', 'b', ...`: each item in single quotes, separated by `, `.
pub open spec fn quoted_list(items: Seq<Seq<char>>) -> Seq<char>
    decreases items.len(),
{
    if items.len() == 0 {
        Seq::empty()
    } else if items.len() == 1 {
        "'"@ + items[0] + "'"@
    } else {
        quoted_list(items.drop_last()) + ", '"@ + items.last() + "'"@
    }
}

pub fn quoted_list_exec(items: &Vec<&str>) -> (r: Vec<char>)
    ensures
        r@ == quoted_list(items@.map_values(|s: &str| s@)),
{
    let ghost iv = items@.map_values(|s: &str| s@);
    let mut out: Vec<char> = Vec::new();
    let mut i: usize = 0;
    assert(iv.take(0) =~= Seq::<Seq<char>>::empty());
    while i < items.len()
        invariant
            i <= items@.len(),
            iv == items@.map_values(|s: &str| s@),
            out@ == quoted_list(iv.take(i as int)),
        decreases items@.len() - i,
    {
        let ghost t = iv.take(i + 1);
        assert(t.drop_last() =~= iv.take(i as int));
        assert(t.last() == items@[i as int]@);
        if i == 0 {
            push_str_chars(&mut out, "'");
        } else {
            push_str_chars(&mut out, ", '");
        }
        push_str_chars(&mut out, items[i]);
        push_str_chars(&mut out, "'");
        proof {
            if i == 0 {
                assert(t =~= seq![items@[0]@]);
                assert(out@ =~= "'"@ + t[0] + "'"@);
            } else {
                assert(out@ =~= quoted_list(iv.take(i as int)) + ", '"@ + t.last() + "'"@);
            }
        }
        i += 1;
    }
    assert(iv.take(items@.len() as int) =~= iv);
    out
}

/// The index of a table: its label lower-cased, then `_fts`.
pub open spec fn index_name_spec(label: Seq<char>) -> Seq<char> {
    lowercase_text(label) + "_fts"@
}

pub fn index_name(label: &str) -> (r: String)
    ensures
        r@ == index_name_spec(label@),
        (forall|i: int| 0 <= i < label@.len() ==> (label@[i] as u32) < 128) ==> r@ == ascii_lower(
            label@,
        ) + "_fts"@,
{
    let lower = str_to_lowercase(label);
    let mut out = to_chars(lower.as_str());
    push_str_chars(&mut out, "_fts");
    from_chars(out.as_slice())
}

/// The statement that drops a table's index (it may not exist).
pub open spec fn drop_index_spec(label: Seq<char>) -> Seq<char> {
    "CALL DROP_FTS_INDEX('"@ + label + "', '"@ + index_name_spec(label) + "')"@
}

pub fn drop_index_statement(label: &str) -> (r: String)
    ensures
        r@ == drop_index_spec(label@),
{
    let idx = index_name(label);
    let mut out: Vec<char> = Vec::new();
    push_str_chars(&mut out, "CALL DROP_FTS_INDEX('");
    push_str_chars(&mut out, label);
    push_str_chars(&mut out, "', '");
    push_str_chars(&mut out, idx.as_str());
    push_str_chars(&mut out, "')");
    assert(out@ =~= drop_index_spec(label@));
    from_chars(out.as_slice())
}

/// The statement that builds a table's index over the given properties
/// with the porter stemmer.
pub open spec fn create_index_spec(label: Seq<char>, properties: Seq<Seq<char>>) -> Seq<char> {
    "CALL CREATE_FTS_INDEX('"@ + label + "', '"@ + index_name_spec(label) + "', ["@ + quoted_list(
        properties,
    ) + "], stemmer := 'porter')"@
}

pub fn create_index_statement(label: &str) -> (r: String)
    ensures
        r@ == create_index_spec(label@, fts_properties_spec()),
{
    let idx = index_name(label);
    let props = fts_properties();
    let list = quoted_list_exec(&props);
    let mut out: Vec<char> = Vec::new();
    push_str_chars(&mut out, "CALL CREATE_FTS_INDEX('");
    push_str_chars(&mut out, label);
    push_str_chars(&mut out, "', '");
    push_str_chars(&mut out, idx.as_str());
    push_str_chars(&mut out, "', [");
    push_all(&mut out, list.as_slice());
    push_str_chars(&mut out, "], stemmer := 'porter')");
    assert(out@ =~= create_index_spec(label@, fts_properties_spec()));
    from_chars(out.as_slice())
}

/// The drop and create statements of every searchable table, in order.
pub fn index_statements() -> (r: Vec<(String, String)>)
    ensures
        r@.len() == searchable_labels_spec().len(),
        forall|i: int|
            0 <= i < r@.len() ==> (#[trigger] r@[i]).0@ == drop_index_spec(searchable_labels_spec()[i])
                && r@[i].1@ == create_index_spec(searchable_labels_spec()[i], fts_properties_spec()),
{
    let labels = searchable_labels();
    let ghost lv = labels@.map_values(|s: &str| s@);
    let mut out: Vec<(String, String)> = Vec::new();
    let mut i: usize = 0;
    while i < labels.len()
        invariant
            i <= labels@.len(),
            lv == labels@.map_values(|s: &str| s@),
            lv == searchable_labels_spec(),
            out@.len() == i,
            forall|k: int|
                0 <= k < i ==> (#[trigger] out@[k]).0@ == drop_index_spec(lv[k]) && out@[k].1@
                    == create_index_spec(lv[k], fts_properties_spec()),
        decreases labels@.len() - i,
    {
        assert(lv[i as int] == labels@[i as int]@);
        let d = drop_index_statement(labels[i]);
        let c = create_index_statement(labels[i]);
        out.push((d, c));
        i += 1;
    }
    out
}

} // verus!
