//! What a language provider reports: graph node labels and the
//! symbols extracted from one file.

use vstd::prelude::*;

verus! {

/// Graph node labels that the providers here emit.
#[derive(Debug, Clone, Copy, PartialEq, Eq, Hash, Structural)]
pub enum NodeLabel {
    Class,
    Enum,
    Function,
    Property,
}

/// One symbol declared in a file.
#[derive(Debug, Clone, PartialEq, Eq)]
pub struct ExtractedSymbol {
    pub name: String,
    pub qualified_name: String,
    pub label: NodeLabel,
    pub line_start: u32,
    pub line_end: u32,
    /// Qualified name of the enclosing symbol, if any.
    pub parent: Option<String>,
    pub is_exported: bool,
    pub visibility: Option<String>,
}

pub type SymbolView = (
    Seq<char>,
    Seq<char>,
    NodeLabel,
    u32,
    u32,
    Option<Seq<char>>,
    bool,
    Option<Seq<char>>,
);

impl View for ExtractedSymbol {
    type V = SymbolView;

    open spec fn view(&self) -> SymbolView {
        (
            self.name@,
            self.qualified_name@,
            self.label,
            self.line_start,
            self.line_end,
            crate::pattern::opt_string_view(self.parent),
            self.is_exported,
            crate::pattern::opt_string_view(self.visibility),
        )
    }
}

pub open spec fn symbols_view(v: Seq<ExtractedSymbol>) -> Seq<SymbolView> {
    v.map_values(|s: ExtractedSymbol| s@)
}

} // verus!
