//! `go.mod` parser: only the `module` directive matters — the path
//! every non-stdlib import in the module is prefixed with.

use vstd::prelude::*;

use super::{
    is_fresh_workspace, only_slot_changed, prior_workspace, workspace_slot, workspace_slot_exec,
    ConfigContext, WorkspaceConfig,
};
use crate::text::{
    before_first, before_first_str, from_chars, lines, lines_exec, quotes, strip_prefix,
    strip_prefix_str, trim, trim_class, trim_exec, trim_quotes_exec, views,
};

verus! {

/// A `go.mod` line cut at `//` and trimmed.
pub open spec fn go_clean(line: Seq<char>) -> Seq<char> {
    trim(before_first(trim(line), "//"@))
}

/// A path as written: surrounding quotes dropped, then trimmed; none
/// when nothing is left.
pub open spec fn go_unquote(t: Seq<char>) -> Option<Seq<char>> {
    let path = trim(trim_class(t, false, quotes()));
    if path.len() == 0 {
        None
    } else {
        Some(path)
    }
}

/// The argument of a `module` directive on one line, if the line holds
/// one: the cleaned line must start with `module` and have text after
/// it.
pub open spec fn go_module_of_line(line: Seq<char>) -> Option<Seq<char>> {
    match strip_prefix(go_clean(line), "module"@) {
        Some(rest) => {
            let rest = trim(rest);
            if rest.len() == 0 {
                None
            } else {
                go_unquote(rest)
            }
        },
        None => None,
    }
}

/// The path inside a `module ( ... )` block whose lines start at `j`:
/// the first line with text, unless that line closes the block.
pub open spec fn block_module_path(ls: Seq<Seq<char>>, j: int) -> Option<Seq<char>>
    decreases ls.len() - j,
{
    if j < 0 || j >= ls.len() {
        None
    } else {
        let t = go_clean(ls[j]);
        if t.len() == 0 {
            block_module_path(ls, j + 1)
        } else if t == ")"@ {
            None
        } else {
            go_unquote(t)
        }
    }
}

/// The module path line `k` declares: its argument, or for `module (`
/// the path inside the block.
pub open spec fn go_module_at(ls: Seq<Seq<char>>, k: int) -> Option<Seq<char>> {
    match go_module_of_line(ls[k]) {
        Some(p) => if p == "("@ {
            block_module_path(ls, k + 1)
        } else {
            Some(p)
        },
        None => None,
    }
}

/// The first module path declared at or after line `k`.
pub open spec fn go_module_from(ls: Seq<Seq<char>>, k: int) -> Option<Seq<char>>
    decreases ls.len() - k,
{
    if k < 0 || k >= ls.len() {
        None
    } else {
        match go_module_at(ls, k) {
            Some(p) => Some(p),
            None => go_module_from(ls, k + 1),
        }
    }
}

/// The first `module` directive of a `go.mod` source, also in its
/// `module ( path )` block form.
pub open spec fn go_module_path(src: Seq<char>) -> Option<Seq<char>> {
    go_module_from(lines(src), 0)
}

fn go_clean_exec(line: &[char]) -> (r: Vec<char>)
    ensures
        r@ == go_clean(line@),
{
    let t0 = trim_exec(line);
    let head = before_first_str(t0.as_slice(), "//");
    trim_exec(head.as_slice())
}

fn go_unquote_exec(t: &[char]) -> (r: Option<Vec<char>>)
    ensures
        crate::text::opt_view(r) == go_unquote(t@),
{
    let unq = trim_quotes_exec(t);
    let path = trim_exec(unq.as_slice());
    if path.len() == 0 {
        None
    } else {
        Some(path)
    }
}

fn go_module_of_line_exec(line: &[char]) -> (r: Option<Vec<char>>)
    ensures
        crate::text::opt_view(r) == go_module_of_line(line@),
{
    let t = go_clean_exec(line);
    match strip_prefix_str(t.as_slice(), "module") {
        Some(rest) => {
            let rest = trim_exec(rest.as_slice());
            if rest.len() == 0 {
                None
            } else {
                go_unquote_exec(rest.as_slice())
            }
        },
        None => None,
    }
}

fn block_module_path_exec(ls: &Vec<Vec<char>>, j: usize) -> (r: Option<Vec<char>>)
    requires
        j <= ls@.len(),
    ensures
        crate::text::opt_view(r) == block_module_path(views(ls@), j as int),
{
    let ghost lv = views(ls@);
    let mut k = j;
    while k < ls.len()
        invariant
            j <= k <= ls@.len(),
            lv == views(ls@),
            block_module_path(lv, j as int) == block_module_path(lv, k as int),
        decreases ls.len() - k,
    {
        assert(lv[k as int] == ls@[k as int]@);
        let t = go_clean_exec(ls[k].as_slice());
        if t.len() > 0 {
            if crate::text::str_eq_chars(")", t.as_slice()) {
                return None;
            }
            return go_unquote_exec(t.as_slice());
        }
        k += 1;
    }
    None
}

/// Extract the `module X` directive from a go.mod source string; for
/// the block form `module (` the path is the block's first line.
pub fn extract_module_path(src: &str) -> (r: Option<String>)
    ensures
        match r {
            Some(m) => go_module_path(src@) == Some(m@),
            None => go_module_path(src@) is None,
        },
{
    let chars = crate::text::to_chars(src);
    let ls = lines_exec(chars.as_slice());
    let ghost lv = views(ls@);
    let mut i: usize = 0;
    while i < ls.len()
        invariant
            i <= ls.len(),
            lv == views(ls@),
            lv == lines(src@),
            go_module_path(src@) == go_module_from(lv, i as int),
        decreases ls.len() - i,
    {
        assert(lv[i as int] == ls@[i as int]@);
        match go_module_of_line_exec(ls[i].as_slice()) {
            Some(p) => {
                if crate::text::str_eq_chars("(", p.as_slice()) {
                    match block_module_path_exec(&ls, i + 1) {
                        Some(q) => {
                            return Some(from_chars(q.as_slice()));
                        },
                        None => {},
                    }
                } else {
                    return Some(from_chars(p.as_slice()));
                }
            },
            None => {},
        }
        i += 1;
    }
    None
}

/// Record the `module` path of a `go.mod` source on the workspace
/// rooted at `workspace_root`. Nothing changes when the source declares
/// no module.
pub fn load(src: &str, workspace_root: &str, ctx: &mut ConfigContext)
    ensures
        match go_module_path(src@) {
            None => *final(ctx) == *old(ctx),
            Some(m) => {
                let slot = workspace_slot(old(ctx).workspaces@, workspace_root@);
                let w = final(ctx).workspaces@[slot];
                &&& only_slot_changed(old(ctx).workspaces@, final(ctx).workspaces@, workspace_root@)
                &&& w.go_module matches Some(g) && g@ == m
                &&& match prior_workspace(old(ctx).workspaces@, workspace_root@) {
                    Some(p) => w == (WorkspaceConfig { go_module: w.go_module, ..p }),
                    None => is_fresh_workspace(
                        WorkspaceConfig { go_module: None, ..w },
                        workspace_root@,
                    ),
                }
            },
        },
{
    match extract_module_path(src) {
        Some(m) => {
            let i = workspace_slot_exec(ctx, workspace_root);
            ctx.workspaces[i].go_module = Some(m);
        },
        None => {},
    }
}

} // verus!
