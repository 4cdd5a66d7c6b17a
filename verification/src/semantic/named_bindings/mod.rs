//! Dependency-injection bindings: `consumer → provider` ties declared
//! through DI containers and registration decorators rather than
//! constructor calls. Each submodule reads one language's dialects
//! with regular expressions.

use vstd::prelude::*;

use crate::pattern::{cap_view, caps_view, filter_map, lemma_filter_map_step, CapView, Captures};
use crate::text::from_chars;

pub mod csharp;
pub mod java_kotlin;
pub mod php;
pub mod python;
pub mod rust;
pub mod typescript;

verus! {

/// Lifecycle of a binding.
#[derive(Debug, Clone, Copy, PartialEq, Eq, Hash, Structural)]
pub enum BindingKind {
    /// Built once per request / operation.
    Scoped,
    /// Built once and shared.
    Singleton,
    /// Built anew for every injection site.
    Transient,
    /// Resolved through a factory function.
    Factory,
    /// A DI binding of unknown lifetime.
    Unknown,
}

pub open spec fn binding_kind_name(k: BindingKind) -> Seq<char> {
    match k {
        BindingKind::Scoped => "scoped"@,
        BindingKind::Singleton => "singleton"@,
        BindingKind::Transient => "transient"@,
        BindingKind::Factory => "factory"@,
        BindingKind::Unknown => "unknown"@,
    }
}

impl BindingKind {
    pub fn as_str(self) -> (r: &'static str)
        ensures
            r@ == binding_kind_name(self),
    {
        match self {
            BindingKind::Scoped => "scoped",
            BindingKind::Singleton => "singleton",
            BindingKind::Transient => "transient",
            BindingKind::Factory => "factory",
            BindingKind::Unknown => "unknown",
        }
    }
}

/// One `consumer → provider` binding with its 1-based line.
#[derive(Debug, Clone, PartialEq, Eq)]
pub struct NamedBinding {
    pub consumer: String,
    pub provider: String,
    pub kind: BindingKind,
    pub line: u32,
}

pub type BindingView = (Seq<char>, Seq<char>, BindingKind, u32);

impl View for NamedBinding {
    type V = BindingView;

    open spec fn view(&self) -> BindingView {
        (self.consumer@, self.provider@, self.kind, self.line)
    }
}

pub open spec fn bindings_view(v: Seq<NamedBinding>) -> Seq<BindingView> {
    v.map_values(|b: NamedBinding| b@)
}

pub fn make_binding(consumer: &[char], provider: &[char], kind: BindingKind, line: u32) -> (b:
    NamedBinding)
    ensures
        b@ == (consumer@, provider@, kind, line),
{
    NamedBinding {
        consumer: from_chars(consumer),
        provider: from_chars(provider),
        kind,
        line,
    }
}

pub fn push_binding(out: &mut Vec<NamedBinding>, b: NamedBinding)
    ensures
        bindings_view(final(out)@) == bindings_view(old(out)@).push(b@),
{
    out.push(b);
    assert(bindings_view(out@) =~= bindings_view(old(out)@).push(b@));
}

pub fn append_bindings(out: &mut Vec<NamedBinding>, more: Vec<NamedBinding>)
    ensures
        bindings_view(final(out)@) == bindings_view(old(out)@) + bindings_view(more@),
{
    let ghost added = more@;
    let mut more = more;
    out.append(&mut more);
    assert(bindings_view(out@) =~= bindings_view(old(out)@) + bindings_view(added));
}

} // verus!
