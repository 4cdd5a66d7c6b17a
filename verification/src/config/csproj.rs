//! `.csproj` parser (C# / .NET): `<RootNamespace>` and
//! `<AssemblyName>`, each found by a regular expression over the
//! MSBuild XML.

use vstd::prelude::*;

use super::{
    is_fresh_workspace, only_slot_changed, prior_workspace, workspace_slot, workspace_slot_exec,
    ConfigContext, WorkspaceConfig,
};
use crate::pattern::{
    cap_view, find_first, first_capture, get_group, group, opt_cap_view, CapView, Captures,
};
use crate::text::{from_chars, trim, trim_exec};

verus! {

pub const ROOT_NAMESPACE_PATTERN: &'static str =
    r"(?s)<\s*RootNamespace\s*>([^<]+)<\s*/\s*RootNamespace\s*>";

pub const ASSEMBLY_NAME_PATTERN: &'static str =
    r"(?s)<\s*AssemblyName\s*>([^<]+)<\s*/\s*AssemblyName\s*>";

/// Group 1 of a match, trimmed, if there is one.
pub open spec fn trimmed_group(m: Option<CapView>) -> Option<Seq<char>> {
    match m {
        Some(c) => match group(c, 1) {
            Some(g) => Some(trim(g)),
            None => None,
        },
        None => None,
    }
}

/// Group 1 of a match, untrimmed, if there is one.
pub open spec fn plain_group(m: Option<CapView>) -> Option<Seq<char>> {
    match m {
        Some(c) => group(c, 1),
        None => None,
    }
}

/// Group 1 of the first match of `pattern`, trimmed.
pub open spec fn first_group_trimmed(pattern: Seq<char>, src: Seq<char>) -> Option<Seq<char>> {
    trimmed_group(first_capture(pattern, src))
}

/// Group 1 of the first match of `pattern`, untrimmed.
pub open spec fn first_group(pattern: Seq<char>, src: Seq<char>) -> Option<Seq<char>> {
    plain_group(first_capture(pattern, src))
}

/// Group 1 of a match, trimmed or not, if there is one.
pub fn group_value(m: Option<Captures>, trimmed: bool) -> (r: Option<String>)
    ensures
        crate::pattern::opt_string_view(r) == if trimmed {
            trimmed_group(opt_cap_view(m))
        } else {
            plain_group(opt_cap_view(m))
        },
{
    match m {
        Some(c) => match get_group(&c, 1) {
            Some(g) => {
                if trimmed {
                    let t = trim_exec(g.as_slice());
                    Some(from_chars(t.as_slice()))
                } else {
                    Some(from_chars(g.as_slice()))
                }
            },
            None => None,
        },
        None => None,
    }
}

pub fn first_group_exec(pattern: &str, src: &str, trimmed: bool) -> (r: Option<String>)
    ensures
        match r {
            Some(s) => Some(s@) == if trimmed {
                first_group_trimmed(pattern@, src@)
            } else {
                first_group(pattern@, src@)
            },
            None => (if trimmed {
                first_group_trimmed(pattern@, src@)
            } else {
                first_group(pattern@, src@)
            }) is None,
        },
{
    let m = find_first(pattern, src);
    group_value(m, trimmed)
}

pub open spec fn opt_string_is(o: Option<String>, v: Option<Seq<char>>) -> bool {
    match (o, v) {
        (Some(s), Some(t)) => s@ == t,
        (None, None) => true,
        _ => false,
    }
}

/// The `(RootNamespace, AssemblyName)` pair of a `.csproj` source, each
/// trimmed.
pub fn extract_namespace_fields(src: &str) -> (r: (Option<String>, Option<String>))
    ensures
        opt_string_is(r.0, first_group_trimmed(ROOT_NAMESPACE_PATTERN@, src@)),
        opt_string_is(r.1, first_group_trimmed(ASSEMBLY_NAME_PATTERN@, src@)),
{
    let ns = find_first(ROOT_NAMESPACE_PATTERN, src);
    let assembly = find_first(ASSEMBLY_NAME_PATTERN, src);
    namespace_fields_from_matches(ns, assembly)
}

/// The `(RootNamespace, AssemblyName)` pair from the matches of
/// [`ROOT_NAMESPACE_PATTERN`] and [`ASSEMBLY_NAME_PATTERN`], each
/// trimmed.
pub fn namespace_fields_from_matches(ns: Option<Captures>, assembly: Option<Captures>) -> (r: (
    Option<String>,
    Option<String>,
))
    ensures
        opt_string_is(r.0, trimmed_group(opt_cap_view(ns))),
        opt_string_is(r.1, trimmed_group(opt_cap_view(assembly))),
{
    (group_value(ns, true), group_value(assembly, true))
}

/// Record `RootNamespace` / `AssemblyName` of a `.csproj` source. The
/// workspace is registered even when neither field is present.
pub fn load(src: &str, workspace_root: &str, ctx: &mut ConfigContext)
    ensures
        ({
            let slot = workspace_slot(old(ctx).workspaces@, workspace_root@);
            let w = final(ctx).workspaces@[slot];
            let ns = first_group_trimmed(ROOT_NAMESPACE_PATTERN@, src@);
            let assembly = first_group_trimmed(ASSEMBLY_NAME_PATTERN@, src@);
            &&& only_slot_changed(old(ctx).workspaces@, final(ctx).workspaces@, workspace_root@)
            &&& match prior_workspace(old(ctx).workspaces@, workspace_root@) {
                Some(p) => {
                    &&& w == (WorkspaceConfig {
                        csharp_root_namespace: w.csharp_root_namespace,
                        csharp_assembly_name: w.csharp_assembly_name,
                        ..p
                    })
                    &&& ns is None ==> w.csharp_root_namespace == p.csharp_root_namespace
                    &&& assembly is None ==> w.csharp_assembly_name == p.csharp_assembly_name
                },
                None => {
                    &&& is_fresh_workspace(
                        WorkspaceConfig {
                            csharp_root_namespace: None,
                            csharp_assembly_name: None,
                            ..w
                        },
                        workspace_root@,
                    )
                    &&& ns is None ==> w.csharp_root_namespace is None
                    &&& assembly is None ==> w.csharp_assembly_name is None
                },
            }
            &&& ns is Some ==> opt_string_is(w.csharp_root_namespace, ns)
            &&& assembly is Some ==> opt_string_is(w.csharp_assembly_name, assembly)
        }),
{
    let (ns, assembly) = extract_namespace_fields(src);
    let i = workspace_slot_exec(ctx, workspace_root);
    match ns {
        Some(n) => {
            ctx.workspaces[i].csharp_root_namespace = Some(n);
        },
        None => {},
    }
    match assembly {
        Some(a) => {
            ctx.workspaces[i].csharp_assembly_name = Some(a);
        },
        None => {},
    }
}

} // verus!
