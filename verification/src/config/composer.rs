//! `composer.json` autoload maps (PHP). PSR-4 / PSR-0 rows say how a
//! namespace prefix maps to directories. The JSON itself is parsed by
//! the caller; this module flattens the parsed rows into mappings.

use vstd::prelude::*;

use super::{
    is_fresh_except, only_slot_changed, prior_workspace, workspace_slot, workspace_slot_exec,
    ConfigContext, Psr4Mapping, WorkspaceConfig,
};
use crate::pattern::{flat_map, lemma_flat_map_step, lemma_map_push, lemma_take_full};

verus! {

/// A PSR target: a single directory or a list of directories.
pub enum AutoloadTarget {
    One(String),
    Many(Vec<String>),
}

/// One parsed `autoload` / `autoload-dev` object: its `psr-4` and
/// `psr-0` maps as `(namespace, target)` rows in key order.
pub struct RawAutoload {
    pub psr4: Option<Vec<(String, AutoloadTarget)>>,
    pub psr0: Option<Vec<(String, AutoloadTarget)>>,
}

pub open spec fn target_dirs(t: AutoloadTarget) -> Seq<Seq<char>> {
    match t {
        AutoloadTarget::One(s) => seq![s@],
        AutoloadTarget::Many(v) => v@.map_values(|s: String| s@),
    }
}

impl View for Psr4Mapping {
    type V = (Seq<char>, Seq<char>);

    open spec fn view(&self) -> Self::V {
        (self.namespace@, self.directory@)
    }
}

/// The directories a target names, in order.
pub fn targets_to_vec(t: &AutoloadTarget) -> (r: Vec<String>)
    ensures
        r@.map_values(|s: String| s@) == target_dirs(*t),
{
    let mut out: Vec<String> = Vec::new();
    match t {
        AutoloadTarget::One(s) => {
            out.push(s.as_str().to_owned());
            assert(out@.map_values(|s: String| s@) =~= seq![s@]);
        },
        AutoloadTarget::Many(v) => {
            let mut i: usize = 0;
            while i < v.len()
                invariant
                    i <= v.len(),
                    out@.map_values(|s: String| s@) == v@.take(i as int).map_values(|s: String| s@),
                decreases v.len() - i,
            {
                let s = v[i].as_str().to_owned();
                assert(s@ == v@[i as int]@);
                let ghost before = out@;
                proof {
                    lemma_map_push(before, s, |s: String| s@);
                }
                out.push(s);
                assert(v@.take(i + 1) =~= v@.take(i as int).push(v@[i as int]));
                proof {
                    lemma_map_push(v@.take(i as int), v@[i as int], |s: String| s@);
                }
                assert(out@.map_values(|s: String| s@) =~= v@.take(i + 1).map_values(|s: String| s@));
                i += 1;
            }
            assert(v@.take(v.len() as int) =~= v@);
        },
    }
    out
}

/// `(namespace, directory)` for every directory of one row.
pub open spec fn row_mappings(row: (String, AutoloadTarget)) -> Seq<(Seq<char>, Seq<char>)> {
    target_dirs(row.1).map_values(|d: Seq<char>| (row.0@, d))
}

pub open spec fn rows_mappings(rows: Seq<(String, AutoloadTarget)>) -> Seq<(Seq<char>, Seq<char>)> {
    flat_map(rows, |row: (String, AutoloadTarget)| row_mappings(row))
}

pub open spec fn opt_rows_mappings(rows: Option<Vec<(String, AutoloadTarget)>>) -> Seq<(Seq<char>, Seq<char>)> {
    match rows {
        Some(v) => rows_mappings(v@),
        None => Seq::empty(),
    }
}

pub open spec fn opt_psr4(a: Option<&RawAutoload>) -> Seq<(Seq<char>, Seq<char>)> {
    match a {
        Some(x) => opt_rows_mappings(x.psr4),
        None => Seq::empty(),
    }
}

pub open spec fn opt_psr0(a: Option<&RawAutoload>) -> Seq<(Seq<char>, Seq<char>)> {
    match a {
        Some(x) => opt_rows_mappings(x.psr0),
        None => Seq::empty(),
    }
}

fn append_rows(out: &mut Vec<Psr4Mapping>, rows: &Option<Vec<(String, AutoloadTarget)>>)
    ensures
        final(out)@.map_values(|m: Psr4Mapping| m@) == old(out)@.map_values(|m: Psr4Mapping| m@)
            + opt_rows_mappings(*rows),
{
    match rows {
        None => {
            assert(old(out)@.map_values(|m: Psr4Mapping| m@) + Seq::empty() =~= old(
                out,
            )@.map_values(|m: Psr4Mapping| m@));
        },
        Some(v) => {
            let ghost start = out@.map_values(|m: Psr4Mapping| m@);
            let ghost f = |row: (String, AutoloadTarget)| row_mappings(row);
            let mut i: usize = 0;
            assert(flat_map(v@.take(0), f) =~= Seq::<(Seq<char>, Seq<char>)>::empty());
            assert(start + Seq::<(Seq<char>, Seq<char>)>::empty() =~= start);
            while i < v.len()
                invariant
                    i <= v.len(),
                    f == (|row: (String, AutoloadTarget)| row_mappings(row)),
                    out@.map_values(|m: Psr4Mapping| m@) == start + flat_map(v@.take(i as int), f),
                decreases v.len() - i,
            {
                proof {
                    lemma_flat_map_step(v@, i as int, f);
                }
                let ns = &v[i].0;
                let dirs = targets_to_vec(&v[i].1);
                let ghost row_start = out@.map_values(|m: Psr4Mapping| m@);
                let ghost rm = row_mappings(v@[i as int]);
                assert(rm == target_dirs(v@[i as int].1).map_values(|d: Seq<char>| (ns@, d)));
                let mut k: usize = 0;
                while k < dirs.len()
                    invariant
                        k <= dirs.len(),
                        i < v.len(),
                        dirs@.map_values(|s: String| s@) == target_dirs(v@[i as int].1),
                        rm == target_dirs(v@[i as int].1).map_values(|d: Seq<char>| (ns@, d)),
                        out@.map_values(|m: Psr4Mapping| m@) == row_start + rm.take(k as int),
                    decreases dirs.len() - k,
                {
                    let m = Psr4Mapping {
                        namespace: ns.as_str().to_owned(),
                        directory: dirs[k].as_str().to_owned(),
                    };
                    assert(m@ == rm[k as int]);
                    proof {
                        lemma_map_push(out@, m, |m: Psr4Mapping| m@);
                    }
                    out.push(m);
                    assert(out@.map_values(|m: Psr4Mapping| m@) =~= row_start + rm.take(k + 1));
                    k += 1;
                }
                assert(rm.take(dirs.len() as int) =~= rm);
                assert(start + flat_map(v@.take(i as int), f) + rm =~= start + (flat_map(
                    v@.take(i as int),
                    f,
                ) + rm));
                i += 1;
            }
            proof {
                lemma_take_full(v@);
            }
        },
    }
}

/// The PSR-4 and PSR-0 mappings of the `autoload` and `autoload-dev`
/// objects, in that order.
pub fn collect_mappings(autoload: Option<&RawAutoload>, autoload_dev: Option<&RawAutoload>) -> (r: (
    Vec<Psr4Mapping>,
    Vec<Psr4Mapping>,
))
    ensures
        r.0@.map_values(|m: Psr4Mapping| m@) == opt_psr4(autoload) + opt_psr4(autoload_dev),
        r.1@.map_values(|m: Psr4Mapping| m@) == opt_psr0(autoload) + opt_psr0(autoload_dev),
{
    let mut psr4: Vec<Psr4Mapping> = Vec::new();
    let mut psr0: Vec<Psr4Mapping> = Vec::new();
    assert(psr4@.map_values(|m: Psr4Mapping| m@) =~= Seq::<(Seq<char>, Seq<char>)>::empty());
    assert(psr0@.map_values(|m: Psr4Mapping| m@) =~= Seq::<(Seq<char>, Seq<char>)>::empty());
    match autoload {
        Some(a) => {
            append_rows(&mut psr4, &a.psr4);
            append_rows(&mut psr0, &a.psr0);
        },
        None => {},
    }
    let ghost mid4 = psr4@.map_values(|m: Psr4Mapping| m@);
    let ghost mid0 = psr0@.map_values(|m: Psr4Mapping| m@);
    assert(mid4 =~= opt_psr4(autoload));
    assert(mid0 =~= opt_psr0(autoload));
    match autoload_dev {
        Some(a) => {
            append_rows(&mut psr4, &a.psr4);
            append_rows(&mut psr0, &a.psr0);
        },
        None => {
            assert(mid4 + Seq::empty() =~= mid4);
            assert(mid0 + Seq::empty() =~= mid0);
        },
    }
    (psr4, psr0)
}

/// Store the PSR-4 / PSR-0 mappings of a parsed `composer.json` on the
/// workspace rooted at `workspace_root`. The workspace is registered
/// even when the file has no autoload maps; a non-empty list replaces
/// the stored one.
pub fn load(
    autoload: Option<&RawAutoload>,
    autoload_dev: Option<&RawAutoload>,
    workspace_root: &str,
    ctx: &mut ConfigContext,
)
    ensures
        ({
            let slot = workspace_slot(old(ctx).workspaces@, workspace_root@);
            let w = final(ctx).workspaces@[slot];
            let p4 = opt_psr4(autoload) + opt_psr4(autoload_dev);
            let p0 = opt_psr0(autoload) + opt_psr0(autoload_dev);
            &&& only_slot_changed(old(ctx).workspaces@, final(ctx).workspaces@, workspace_root@)
            &&& match prior_workspace(old(ctx).workspaces@, workspace_root@) {
                Some(p) => {
                    &&& w == (WorkspaceConfig { php_psr4: w.php_psr4, php_psr0: w.php_psr0, ..p })
                    &&& p4.len() == 0 ==> w.php_psr4 == p.php_psr4
                    &&& p0.len() == 0 ==> w.php_psr0 == p.php_psr0
                },
                None => {
                    &&& is_fresh_except(w, workspace_root@, false, true, false, false)
                    &&& p4.len() == 0 ==> w.php_psr4@.len() == 0
                    &&& p0.len() == 0 ==> w.php_psr0@.len() == 0
                },
            }
            &&& p4.len() > 0 ==> w.php_psr4@.map_values(|m: Psr4Mapping| m@) == p4
            &&& p0.len() > 0 ==> w.php_psr0@.map_values(|m: Psr4Mapping| m@) == p0
        }),
{
    let (psr4, psr0) = collect_mappings(autoload, autoload_dev);
    let i = workspace_slot_exec(ctx, workspace_root);
    if psr4.len() > 0 {
        ctx.workspaces[i].php_psr4 = psr4;
    }
    if psr0.len() > 0 {
        ctx.workspaces[i].php_psr0 = psr0;
    }
}

} // verus!
