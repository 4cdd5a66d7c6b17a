//! Semantic layer: symbol lookup, declared types, call resolution and
//! the per-language rules the providers share.

use vstd::prelude::*;

pub mod frameworks;
pub mod markdown_links;
pub mod named_bindings;
pub mod member_rules;
pub mod resolver;
pub mod response_shapes;
pub mod route_extractors;
pub mod symbol_table;
pub mod type_env;

verus! {

/// Node label categories the semantic layer works with.
#[derive(Debug, Clone, Copy, PartialEq, Eq, Hash, Structural)]
pub enum SymbolKind {
    Function,
    Method,
    Class,
    Interface,
    Struct,
    Trait,
    Enum,
    TypeAlias,
    Const,
    Variable,
    Property,
}

/// The graph label of each kind: the variant's own name.
pub open spec fn kind_label(k: SymbolKind) -> Seq<char> {
    match k {
        SymbolKind::Function => "Function"@,
        SymbolKind::Method => "Method"@,
        SymbolKind::Class => "Class"@,
        SymbolKind::Interface => "Interface"@,
        SymbolKind::Struct => "Struct"@,
        SymbolKind::Trait => "Trait"@,
        SymbolKind::Enum => "Enum"@,
        SymbolKind::TypeAlias => "TypeAlias"@,
        SymbolKind::Const => "Const"@,
        SymbolKind::Variable => "Variable"@,
        SymbolKind::Property => "Property"@,
    }
}

impl SymbolKind {
    /// The Cypher label string used for this kind in the graph.
    pub fn label(self) -> (r: &'static str)
        ensures
            r@ == kind_label(self),
    {
        match self {
            SymbolKind::Function => "Function",
            SymbolKind::Method => "Method",
            SymbolKind::Class => "Class",
            SymbolKind::Interface => "Interface",
            SymbolKind::Struct => "Struct",
            SymbolKind::Trait => "Trait",
            SymbolKind::Enum => "Enum",
            SymbolKind::TypeAlias => "TypeAlias",
            SymbolKind::Const => "Const",
            SymbolKind::Variable => "Variable",
            SymbolKind::Property => "Property",
        }
    }
}

} // verus!
