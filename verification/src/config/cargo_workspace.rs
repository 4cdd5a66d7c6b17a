//! `Cargo.toml` workspace members: which subdirectories are crates.
//! The TOML itself is parsed by the caller.

use vstd::prelude::*;

use super::{
    is_fresh_except, only_slot_changed, prior_workspace, workspace_slot, workspace_slot_exec,
    ConfigContext, WorkspaceConfig,
};

verus! {

/// Record the `[workspace] members` of a parsed `Cargo.toml` on the
/// workspace rooted at `workspace_root`, when there are any.
pub fn load(members: Vec<String>, workspace_root: &str, ctx: &mut ConfigContext)
    ensures
        if members@.len() == 0 {
            *final(ctx) == *old(ctx)
        } else {
            let slot = workspace_slot(old(ctx).workspaces@, workspace_root@);
            let w = final(ctx).workspaces@[slot];
            &&& only_slot_changed(old(ctx).workspaces@, final(ctx).workspaces@, workspace_root@)
            &&& w.cargo_workspace_members == members
            &&& match prior_workspace(old(ctx).workspaces@, workspace_root@) {
                Some(p) => w == (WorkspaceConfig {
                    cargo_workspace_members: w.cargo_workspace_members,
                    ..p
                }),
                None => is_fresh_except(w, workspace_root@, false, false, false, true),
            }
        },
{
    if members.len() > 0 {
        let i = workspace_slot_exec(ctx, workspace_root);
        ctx.workspaces[i].cargo_workspace_members = members;
    }
}

} // verus!
