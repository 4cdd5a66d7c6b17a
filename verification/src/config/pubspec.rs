//! `pubspec.yaml` parser (Dart / Flutter): the top-level `name:` field
//! is the package name Dart uses as the import prefix for `lib/`.

use vstd::prelude::*;

use super::{
    is_fresh_workspace, only_slot_changed, prior_workspace, workspace_slot, workspace_slot_exec,
    ConfigContext, WorkspaceConfig,
};
use crate::pattern::{first_some, lemma_first_some_step};
use crate::text::{
    before_first, before_first_str, from_chars, is_whitespace, is_ws, lines, lines_exec, opt_view,
    quotes, strip_prefix, strip_prefix_str, trim, trim_class, trim_exec, trim_quotes_exec, views,
};

verus! {

/// The package name one line declares: only unindented lines count, a
/// `#` comment is cut off, and quotes around the value are dropped.
pub open spec fn package_name_of_line(line: Seq<char>) -> Option<Seq<char>> {
    if line.len() > 0 && is_ws(line[0]) {
        None
    } else {
        match strip_prefix(before_first(line, "#"@), "name:"@) {
            Some(rest) => {
                let value = trim_class(trim(rest), false, quotes());
                if value.len() == 0 {
                    None
                } else {
                    Some(value)
                }
            },
            None => None,
        }
    }
}

pub open spec fn package_name(src: Seq<char>) -> Option<Seq<char>> {
    first_some(lines(src), |l: Seq<char>| package_name_of_line(l))
}

fn package_name_of_line_exec(line: &[char]) -> (r: Option<Vec<char>>)
    ensures
        opt_view(r) == package_name_of_line(line@),
{
    if line.len() > 0 && is_whitespace(line[0]) {
        return None;
    }
    let head = before_first_str(line, "#");
    match strip_prefix_str(head.as_slice(), "name:") {
        Some(rest) => {
            let t = trim_exec(rest.as_slice());
            let value = trim_quotes_exec(t.as_slice());
            if value.len() == 0 {
                None
            } else {
                Some(value)
            }
        },
        None => None,
    }
}

/// Pull the top-level `name:` value out of a pubspec.yaml.
pub fn extract_package_name(src: &str) -> (r: Option<String>)
    ensures
        match r {
            Some(m) => package_name(src@) == Some(m@),
            None => package_name(src@) is None,
        },
{
    let chars = crate::text::to_chars(src);
    let ls = lines_exec(chars.as_slice());
    let ghost f = |l: Seq<char>| package_name_of_line(l);
    let mut i: usize = 0;
    assert(views(ls@).skip(0) =~= views(ls@));
    while i < ls.len()
        invariant
            i <= ls.len(),
            views(ls@) == lines(src@),
            f == (|l: Seq<char>| package_name_of_line(l)),
            package_name(src@) == first_some(views(ls@).skip(i as int), f),
        decreases ls.len() - i,
    {
        proof {
            lemma_first_some_step(views(ls@), i as int, f);
        }
        match package_name_of_line_exec(ls[i].as_slice()) {
            Some(p) => {
                return Some(from_chars(p.as_slice()));
            },
            None => {},
        }
        i += 1;
    }
    None
}

/// Record the package name of a `pubspec.yaml` source on the workspace
/// rooted at `workspace_root`; nothing changes when there is none.
pub fn load(src: &str, workspace_root: &str, ctx: &mut ConfigContext)
    ensures
        match package_name(src@) {
            None => *final(ctx) == *old(ctx),
            Some(m) => {
                let slot = workspace_slot(old(ctx).workspaces@, workspace_root@);
                let w = final(ctx).workspaces@[slot];
                &&& only_slot_changed(old(ctx).workspaces@, final(ctx).workspaces@, workspace_root@)
                &&& w.dart_package matches Some(g) && g@ == m
                &&& match prior_workspace(old(ctx).workspaces@, workspace_root@) {
                    Some(p) => w == (WorkspaceConfig { dart_package: w.dart_package, ..p }),
                    None => is_fresh_workspace(
                        WorkspaceConfig { dart_package: None, ..w },
                        workspace_root@,
                    ),
                }
            },
        },
{
    match extract_package_name(src) {
        Some(m) => {
            let i = workspace_slot_exec(ctx, workspace_root);
            ctx.workspaces[i].dart_package = Some(m);
        },
        None => {},
    }
}

} // verus!
