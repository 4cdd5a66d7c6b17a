//! Project-configuration model.
//!
//! Real projects are monorepos, so configuration is kept per
//! workspace: one [`WorkspaceConfig`] per manifest-containing
//! directory. [`ConfigContext::workspace_for`] returns the
//! nearest-ancestor workspace of a source file, so every import is
//! resolved against its local build system. The parsers in the
//! submodules fill these records in from manifest text.

use vstd::prelude::*;

use crate::paths::{
    component_count, components, path_eq, path_eq_exec, path_starts_with, path_starts_with_exec,
};
use crate::text::{ends_with, ends_with_str, str_eq_chars, to_chars};

pub mod cargo_workspace;
pub mod composer;
pub mod csproj;
pub mod go_mod;
pub mod maven_gradle;
pub mod package_swift;
pub mod pubspec;
pub mod tsconfig;

verus! {

/// All build-system configuration discovered under a project root,
/// grouped by workspace directory.
pub struct ConfigContext {
    /// Workspaces in registration order.
    pub workspaces: Vec<WorkspaceConfig>,
}

/// Build-system configuration rooted at one manifest-containing
/// directory. Every field is optional.
pub struct WorkspaceConfig {
    /// Project-root-relative directory of this workspace; empty means
    /// the project root.
    pub root: String,
    /// TypeScript/JavaScript path aliases from `tsconfig.json`.
    pub ts_paths: Vec<TsPathAlias>,
    /// `compilerOptions.baseUrl`, relative to `root`.
    pub ts_base_url: Option<String>,
    /// Go module path prefix from `go.mod`.
    pub go_module: Option<String>,
    /// PHP PSR-4 autoload mappings from `composer.json`.
    pub php_psr4: Vec<Psr4Mapping>,
    /// PHP PSR-0 autoload mappings from `composer.json`.
    pub php_psr0: Vec<Psr4Mapping>,
    /// C# `<RootNamespace>` from `.csproj`.
    pub csharp_root_namespace: Option<String>,
    /// C# `<AssemblyName>`.
    pub csharp_assembly_name: Option<String>,
    /// Swift `Package.swift` targets.
    pub swift_targets: Vec<SwiftTarget>,
    /// Dart package name from `pubspec.yaml`.
    pub dart_package: Option<String>,
    /// JVM coordinates from `pom.xml` / `build.gradle(.kts)`.
    pub jvm_coords: Option<JvmCoords>,
    /// Cargo workspace member paths (relative to `root`).
    pub cargo_workspace_members: Vec<String>,
}

/// One row of a `tsconfig.json` `compilerOptions.paths` map.
pub struct TsPathAlias {
    pub pattern: String,
    pub targets: Vec<String>,
}

/// One PSR-4 or PSR-0 autoload row.
pub struct Psr4Mapping {
    pub namespace: String,
    pub directory: String,
}

/// One `Package.swift` target declaration.
pub struct SwiftTarget {
    pub name: String,
    /// Target source directory, usually `Sources/<name>` unless overridden.
    pub path: Option<String>,
}

/// Maven / Gradle coordinates.
pub struct JvmCoords {
    pub group_id: Option<String>,
    pub artifact_id: Option<String>,
}

/// A workspace with the given root and nothing else recorded, ignoring
/// the list-valued fields named by the flags (a parser that fills one
/// of them in states the rest this way).
pub open spec fn is_fresh_except(
    w: WorkspaceConfig,
    root: Seq<char>,
    skip_ts: bool,
    skip_php: bool,
    skip_swift: bool,
    skip_cargo: bool,
) -> bool {
    &&& w.root@ == root
    &&& skip_ts || w.ts_paths@.len() == 0
    &&& w.ts_base_url is None
    &&& w.go_module is None
    &&& skip_php || w.php_psr4@.len() == 0
    &&& skip_php || w.php_psr0@.len() == 0
    &&& w.csharp_root_namespace is None
    &&& w.csharp_assembly_name is None
    &&& skip_swift || w.swift_targets@.len() == 0
    &&& w.dart_package is None
    &&& w.jvm_coords is None
    &&& skip_cargo || w.cargo_workspace_members@.len() == 0
}

/// A workspace with the given root and nothing else recorded.
pub open spec fn is_fresh_workspace(w: WorkspaceConfig, root: Seq<char>) -> bool {
    is_fresh_except(w, root, false, false, false, false)
}

impl WorkspaceConfig {
    /// An empty workspace rooted at `root`.
    pub fn with_root(root: String) -> (w: WorkspaceConfig)
        ensures
            is_fresh_workspace(w, root@),
    {
        WorkspaceConfig {
            root,
            ts_paths: Vec::new(),
            ts_base_url: None,
            go_module: None,
            php_psr4: Vec::new(),
            php_psr0: Vec::new(),
            csharp_root_namespace: None,
            csharp_assembly_name: None,
            swift_targets: Vec::new(),
            dart_package: None,
            jvm_coords: None,
            cargo_workspace_members: Vec::new(),
        }
    }
}

impl Default for WorkspaceConfig {
    fn default() -> (w: WorkspaceConfig)
        ensures
            is_fresh_workspace(w, Seq::empty()),
    {
        WorkspaceConfig::with_root(String::new())
    }
}

impl Default for ConfigContext {
    fn default() -> (c: ConfigContext)
        ensures
            c.workspaces@.len() == 0,
    {
        ConfigContext { workspaces: Vec::new() }
    }
}

/// The roots of a list of workspaces.
pub open spec fn roots_of(ws: Seq<WorkspaceConfig>) -> Seq<Seq<char>> {
    ws.map_values(|w: WorkspaceConfig| w.root@)
}

/// Index of the workspace among the first `n` whose root is an ancestor
/// of `file` with the most components; among equally deep ones the
/// last (`Iterator::max_by_key`).
pub open spec fn nearest_workspace(roots: Seq<Seq<char>>, file: Seq<char>, n: int) -> Option<int>
    decreases n,
{
    if n <= 0 {
        None
    } else {
        let best = nearest_workspace(roots, file, n - 1);
        let i = n - 1;
        if path_starts_with(file, roots[i]) && match best {
            None => true,
            Some(b) => components(roots[i]).len() >= components(roots[b]).len(),
        } {
            Some(i)
        } else {
            best
        }
    }
}

pub proof fn lemma_nearest_in_range(roots: Seq<Seq<char>>, file: Seq<char>, n: int)
    ensures
        nearest_workspace(roots, file, n) matches Some(i) ==> 0 <= i < n,
    decreases n,
{
    if n > 0 {
        lemma_nearest_in_range(roots, file, n - 1);
    }
}

/// The nearest-ancestor lookup in full: no workspace is found exactly
/// when no root is an ancestor of the file; a found one is an ancestor
/// with at least as many components as every other ancestor (and the
/// last such among equals).
pub proof fn law_nearest_workspace(roots: Seq<Seq<char>>, file: Seq<char>, n: int)
    requires
        0 <= n <= roots.len(),
    ensures
        nearest_workspace(roots, file, n) is None <==> forall|k: int|
            0 <= k < n ==> !path_starts_with(file, #[trigger] roots[k]),
        nearest_workspace(roots, file, n) matches Some(i) ==> {
            &&& 0 <= i < n
            &&& path_starts_with(file, roots[i])
            &&& forall|k: int|
                0 <= k < n && path_starts_with(file, #[trigger] roots[k]) ==> components(roots[k]).len()
                    <= components(roots[i]).len() && (k > i ==> components(roots[k]).len()
                    < components(roots[i]).len())
        },
    decreases n,
{
    if n > 0 {
        law_nearest_workspace(roots, file, n - 1);
    }
}

/// First workspace whose root equals `root` as a path.
pub open spec fn find_workspace(ws: Seq<WorkspaceConfig>, root: Seq<char>) -> Option<int> {
    find_root(roots_of(ws), root, 0)
}

pub open spec fn find_root(roots: Seq<Seq<char>>, root: Seq<char>, from: int) -> Option<int>
    decreases roots.len() - from,
{
    if from < 0 || from >= roots.len() {
        None
    } else if path_eq(roots[from], root) {
        Some(from)
    } else {
        find_root(roots, root, from + 1)
    }
}

pub proof fn lemma_find_root(roots: Seq<Seq<char>>, root: Seq<char>, from: int)
    requires
        0 <= from,
    ensures
        find_root(roots, root, from) matches Some(i) ==> from <= i < roots.len() && path_eq(
            roots[i],
            root,
        ),
        find_root(roots, root, from) is None ==> forall|k: int|
            from <= k < roots.len() ==> !path_eq(#[trigger] roots[k], root),
    decreases roots.len() - from,
{
    if from < roots.len() && !path_eq(roots[from], root) {
        lemma_find_root(roots, root, from + 1);
    }
}

/// Slot the workspace for `root` occupies after [`workspace_slot_exec`]:
/// the existing one, or a new one at the end.
pub open spec fn workspace_slot(ws: Seq<WorkspaceConfig>, root: Seq<char>) -> int {
    match find_workspace(ws, root) {
        Some(i) => i,
        None => ws.len() as int,
    }
}

/// The workspace a parser starts from for `root`: the registered one,
/// or none when a fresh one will be created.
pub open spec fn prior_workspace(ws: Seq<WorkspaceConfig>, root: Seq<char>) -> Option<
    WorkspaceConfig,
> {
    match find_workspace(ws, root) {
        Some(i) => Some(ws[i]),
        None => None,
    }
}

/// `after` is `before` with the workspace for `root` present at its
/// slot (appended when missing) and every other entry unchanged.
pub open spec fn only_slot_changed(
    before: Seq<WorkspaceConfig>,
    after: Seq<WorkspaceConfig>,
    root: Seq<char>,
) -> bool {
    let slot = workspace_slot(before, root);
    &&& after.len() == if find_workspace(before, root) is Some {
        before.len() as int
    } else {
        before.len() + 1int
    }
    &&& forall|j: int| 0 <= j < before.len() && j != slot ==> after[j] == before[j]
}

impl ConfigContext {
    /// The workspace whose root is the nearest ancestor of
    /// `source_file_rel`; `None` when no workspace contains the file.
    pub fn workspace_for(&self, source_file_rel: &str) -> (r: Option<&WorkspaceConfig>)
        ensures
            match nearest_workspace(
                roots_of(self.workspaces@),
                source_file_rel@,
                self.workspaces@.len() as int,
            ) {
                Some(i) => r == Some(&self.workspaces@[i]),
                None => r is None,
            },
    {
        let file = to_chars(source_file_rel);
        let ghost roots = roots_of(self.workspaces@);
        let mut best: Option<usize> = None;
        let mut best_count: usize = 0;
        let mut i: usize = 0;
        while i < self.workspaces.len()
            invariant
                i <= self.workspaces.len(),
                roots == roots_of(self.workspaces@),
                file@ == source_file_rel@,
                match nearest_workspace(roots, file@, i as int) {
                    Some(b) => best == Some(b as usize) && best_count == components(roots[b]).len(),
                    None => best is None,
                },
            decreases self.workspaces.len() - i,
        {
            proof {
                lemma_nearest_in_range(roots, file@, i as int);
            }
            let root = to_chars(self.workspaces[i].root.as_str());
            assert(root@ == roots[i as int]);
            if path_starts_with_exec(file.as_slice(), root.as_slice()) {
                let count = component_count(root.as_slice());
                match best {
                    None => {
                        best = Some(i);
                        best_count = count;
                    },
                    Some(_) => {
                        if count >= best_count {
                            best = Some(i);
                            best_count = count;
                        }
                    },
                }
            }
            i += 1;
        }
        match best {
            Some(b) => {
                proof {
                    lemma_nearest_in_range(roots, file@, i as int);
                }
                Some(&self.workspaces[b])
            },
            None => None,
        }
    }

    /// Append a workspace entry unless one with the same root (as a
    /// path) is already registered — the first registration wins.
    pub fn add_workspace(&mut self, workspace: WorkspaceConfig)
        ensures
            match find_workspace(old(self).workspaces@, workspace.root@) {
                Some(_) => final(self).workspaces@ == old(self).workspaces@,
                None => final(self).workspaces@ == old(self).workspaces@.push(workspace),
            },
    {
        let root = to_chars(workspace.root.as_str());
        match find_workspace_exec(&self.workspaces, root.as_slice()) {
            Some(_) => {},
            None => {
                self.workspaces.push(workspace);
            },
        }
    }
}

/// [`find_workspace`] of `root`.
pub fn find_workspace_exec(ws: &Vec<WorkspaceConfig>, root: &[char]) -> (r: Option<usize>)
    ensures
        match r {
            Some(i) => find_workspace(ws@, root@) == Some(i as int),
            None => find_workspace(ws@, root@) is None,
        },
{
    let ghost roots = roots_of(ws@);
    let mut i: usize = 0;
    while i < ws.len()
        invariant
            i <= ws.len(),
            roots == roots_of(ws@),
            find_root(roots, root@, 0) == find_root(roots, root@, i as int),
        decreases ws.len() - i,
    {
        let r = to_chars(ws[i].root.as_str());
        assert(r@ == roots[i as int]);
        if path_eq_exec(r.as_slice(), root) {
            return Some(i);
        }
        i += 1;
    }
    None
}

/// Index of the workspace rooted at `root`, appending a fresh one when
/// none exists. Parsers use this so several manifests in one directory
/// all contribute to a single workspace.
pub fn workspace_slot_exec(ctx: &mut ConfigContext, root: &str) -> (r: usize)
    ensures
        r == workspace_slot(old(ctx).workspaces@, root@),
        r < final(ctx).workspaces@.len(),
        match find_workspace(old(ctx).workspaces@, root@) {
            Some(_) => final(ctx).workspaces@ == old(ctx).workspaces@,
            None => {
                &&& final(ctx).workspaces@.len() == old(ctx).workspaces@.len() + 1
                &&& final(ctx).workspaces@.take(old(ctx).workspaces@.len() as int)
                    == old(ctx).workspaces@
                &&& is_fresh_workspace(final(ctx).workspaces@[r as int], root@)
            },
        },
{
    let rv = to_chars(root);
    match find_workspace_exec(&ctx.workspaces, rv.as_slice()) {
        Some(i) => {
            proof {
                lemma_find_root(roots_of(ctx.workspaces@), root@, 0);
            }
            i
        },
        None => {
            let n = ctx.workspaces.len();
            let w = WorkspaceConfig::with_root(root.to_owned());
            ctx.workspaces.push(w);
            assert(ctx.workspaces@.take(n as int) =~= old(ctx).workspaces@);
            n
        },
    }
}

/// The kind of manifest a file name denotes.
pub enum ManifestKind {
    TsConfig,
    GoMod,
    Composer,
    PackageSwift,
    Pubspec,
    Jvm,
    Cargo,
    Csproj,
}

pub open spec fn manifest_kind_spec(name: Seq<char>) -> Option<ManifestKind> {
    if name == "tsconfig.json"@ {
        Some(ManifestKind::TsConfig)
    } else if name == "go.mod"@ {
        Some(ManifestKind::GoMod)
    } else if name == "composer.json"@ {
        Some(ManifestKind::Composer)
    } else if name == "Package.swift"@ {
        Some(ManifestKind::PackageSwift)
    } else if name == "pubspec.yaml"@ {
        Some(ManifestKind::Pubspec)
    } else if name == "pom.xml"@ || name == "build.gradle"@ || name == "build.gradle.kts"@ {
        Some(ManifestKind::Jvm)
    } else if name == "Cargo.toml"@ {
        Some(ManifestKind::Cargo)
    } else if ends_with(name, ".csproj"@) {
        Some(ManifestKind::Csproj)
    } else {
        None
    }
}

/// Which parser a manifest file name is dispatched to while the
/// project's configuration is loaded; `None` for any other file.
pub fn manifest_kind(name: &str) -> (r: Option<ManifestKind>)
    ensures
        r == manifest_kind_spec(name@),
{
    let n = to_chars(name);
    if str_eq_chars("tsconfig.json", n.as_slice()) {
        Some(ManifestKind::TsConfig)
    } else if str_eq_chars("go.mod", n.as_slice()) {
        Some(ManifestKind::GoMod)
    } else if str_eq_chars("composer.json", n.as_slice()) {
        Some(ManifestKind::Composer)
    } else if str_eq_chars("Package.swift", n.as_slice()) {
        Some(ManifestKind::PackageSwift)
    } else if str_eq_chars("pubspec.yaml", n.as_slice()) {
        Some(ManifestKind::Pubspec)
    } else if str_eq_chars("pom.xml", n.as_slice()) || str_eq_chars("build.gradle", n.as_slice())
        || str_eq_chars("build.gradle.kts", n.as_slice()) {
        Some(ManifestKind::Jvm)
    } else if str_eq_chars("Cargo.toml", n.as_slice()) {
        Some(ManifestKind::Cargo)
    } else if ends_with_str(n.as_slice(), ".csproj") {
        Some(ManifestKind::Csproj)
    } else {
        None
    }
}

} // verus!
