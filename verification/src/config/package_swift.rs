//! `Package.swift` parser: target names and optional `path:`
//! overrides, found by regular expressions over the manifest.

use vstd::prelude::*;

use super::csproj::{first_group, first_group_exec, opt_string_is};
use super::{
    is_fresh_except, only_slot_changed, prior_workspace, workspace_slot, workspace_slot_exec,
    ConfigContext, SwiftTarget, WorkspaceConfig,
};
use crate::pattern::{
    all_captures, cap_view, caps_view, filter_map, find_all, get_group, group,
    lemma_filter_map_step, lemma_map_push, lemma_take_full, CapView, Captures,
};
use crate::text::from_chars;

verus! {

/// A `.target(...)` / `.testTarget(...)` call; group 1 is the argument list.
pub const TARGET_BLOCK_PATTERN: &'static str = r"(?s)\.(?:test)?[Tt]arget\s*\(([^)]*)\)";

pub const NAME_FIELD_PATTERN: &'static str = r#"name\s*:\s*"([^"]+)""#;

pub const PATH_FIELD_PATTERN: &'static str = r#"path\s*:\s*"([^"]+)""#;

impl View for SwiftTarget {
    type V = (Seq<char>, Option<Seq<char>>);

    open spec fn view(&self) -> Self::V {
        (
            self.name@,
            match self.path {
                Some(p) => Some(p@),
                None => None,
            },
        )
    }
}

/// The target one block match declares: its `name:` (required) and
/// `path:` fields.
pub open spec fn target_of(c: CapView) -> Option<(Seq<char>, Option<Seq<char>>)> {
    match group(c, 1) {
        Some(args) => match first_group(NAME_FIELD_PATTERN@, args) {
            Some(name) => Some((name, first_group(PATH_FIELD_PATTERN@, args))),
            None => None,
        },
        None => None,
    }
}

pub open spec fn targets_from(caps: Seq<CapView>) -> Seq<(Seq<char>, Option<Seq<char>>)> {
    filter_map(caps, |c: CapView| target_of(c))
}

pub open spec fn swift_targets(src: Seq<char>) -> Seq<(Seq<char>, Option<Seq<char>>)> {
    targets_from(all_captures(TARGET_BLOCK_PATTERN@, src))
}

/// Targets declared by the given matches of [`TARGET_BLOCK_PATTERN`].
pub fn targets_from_matches(caps: &Vec<Captures>) -> (r: Vec<SwiftTarget>)
    ensures
        r@.map_values(|t: SwiftTarget| t@) == targets_from(caps_view(caps@)),
{
    let ghost f = |c: CapView| target_of(c);
    let mut out: Vec<SwiftTarget> = Vec::new();
    let mut i: usize = 0;
    while i < caps.len()
        invariant
            i <= caps.len(),
            f == (|c: CapView| target_of(c)),
            out@.map_values(|t: SwiftTarget| t@) == filter_map(caps_view(caps@).take(i as int), f),
        decreases caps.len() - i,
    {
        let cap = &caps[i];
        proof {
            lemma_filter_map_step(caps_view(caps@), i as int, f);
            assert(caps_view(caps@)[i as int] == cap_view(*cap));
        }
        match get_group(cap, 1) {
            Some(args) => {
                let args_s = from_chars(args.as_slice());
                match first_group_exec(NAME_FIELD_PATTERN, args_s.as_str(), false) {
                    Some(name) => {
                        let path = first_group_exec(PATH_FIELD_PATTERN, args_s.as_str(), false);
                        let t = SwiftTarget { name, path };
                        assert(t@.1 == first_group(PATH_FIELD_PATTERN@, args@));
                        proof {
                            lemma_map_push(out@, t, |t: SwiftTarget| t@);
                        }
                        out.push(t);
                    },
                    None => {},
                }
            },
            None => {},
        }
        i += 1;
    }
    proof {
        lemma_take_full(caps_view(caps@));
    }
    out
}

/// Every target a `Package.swift` source declares with a name.
pub fn extract_targets(src: &str) -> (r: Vec<SwiftTarget>)
    ensures
        r@.map_values(|t: SwiftTarget| t@) == swift_targets(src@),
{
    let caps = find_all(TARGET_BLOCK_PATTERN, src);
    targets_from_matches(&caps)
}

/// Record the targets of a `Package.swift` source, when it declares any.
pub fn load(src: &str, workspace_root: &str, ctx: &mut ConfigContext)
    ensures
        if swift_targets(src@).len() == 0 {
            *final(ctx) == *old(ctx)
        } else {
            let slot = workspace_slot(old(ctx).workspaces@, workspace_root@);
            let w = final(ctx).workspaces@[slot];
            &&& only_slot_changed(old(ctx).workspaces@, final(ctx).workspaces@, workspace_root@)
            &&& w.swift_targets@.map_values(|t: SwiftTarget| t@) == swift_targets(src@)
            &&& match prior_workspace(old(ctx).workspaces@, workspace_root@) {
                Some(p) => w == (WorkspaceConfig { swift_targets: w.swift_targets, ..p }),
                None => is_fresh_except(w, workspace_root@, false, false, true, false),
            }
        },
{
    let targets = extract_targets(src);
    if targets.len() > 0 {
        let i = workspace_slot_exec(ctx, workspace_root);
        ctx.workspaces[i].swift_targets = targets;
    }
}

} // verus!
