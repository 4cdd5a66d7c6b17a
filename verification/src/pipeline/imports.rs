//! Import resolution: build-system aliases, the candidate paths an
//! import source may name, and the IMPORTS edges between files.

use vstd::prelude::*;

use crate::config::{
    nearest_workspace, roots_of, ConfigContext, Psr4Mapping, SwiftTarget, TsPathAlias,
    WorkspaceConfig,
};
use crate::paths::{join_rel, join_rel_exec, path_join, path_join_exec};
use crate::text::{
    ends_with, ends_with_exec, from_chars, index_of_char_from, index_of_char_from_exec,
    lemma_index_of_char_from, lemma_starts_with_char, push_string, replace_char, replace_char_exec, replace_char_with,
    replace_char_with_exec, starts_with, starts_with_exec, strings, strip_prefix,
    strip_prefix_exec, strip_prefix_str, sub_chars, to_chars, trim_end_matches,
    trim_end_matches_exec, trim_start_matches, trim_start_matches_exec, chars_eq, opt_view,
};

verus! {

// ── tsconfig path aliases ───────────────────────────────────────────

/// The `*` of an alias pattern splits it into a prefix and a suffix.
/// Matching an import that carries both, but is shorter than the two
/// together, has no captured text to cut out.
pub open spec fn ts_alias_overlaps(import: Seq<char>, pattern: Seq<char>) -> bool {
    match index_of_char_from(pattern, '*', 0) {
        Some(star) => {
            let prefix = pattern.take(star);
            let suffix = pattern.skip(star + 1);
            starts_with(import, prefix) && ends_with(import, suffix) && prefix.len() + suffix.len()
                > import.len()
        },
        None => false,
    }
}

/// Candidates one `paths` entry yields for an import: with a `*`, the
/// text between prefix and suffix replaces every `*` of each target;
/// without one, an exact match yields every target as is.
pub open spec fn ts_alias_expansion(
    import: Seq<char>,
    pattern: Seq<char>,
    targets: Seq<Seq<char>>,
    root: Seq<char>,
) -> Seq<Seq<char>> {
    match index_of_char_from(pattern, '*', 0) {
        Some(star) => {
            let prefix = pattern.take(star);
            let suffix = pattern.skip(star + 1);
            if starts_with(import, prefix) && ends_with(import, suffix) {
                let captured = import.subrange(prefix.len() as int, import.len() - suffix.len());
                targets.map_values(|t: Seq<char>| join_rel(root, replace_char_with(t, '*', captured)))
            } else {
                Seq::empty()
            }
        },
        None => if import == pattern {
            targets.map_values(|t: Seq<char>| join_rel(root, t))
        } else {
            Seq::empty()
        },
    }
}

fn expand_targets(
    targets: &Vec<String>,
    wildcard: Option<&[char]>,
    root: &[char],
    out: &mut Vec<String>,
)
    ensures
        strings(final(out)@) == strings(old(out)@) + match wildcard {
            Some(c) => strings(targets@).map_values(
                |t: Seq<char>| join_rel(root@, replace_char_with(t, '*', c@)),
            ),
            None => strings(targets@).map_values(|t: Seq<char>| join_rel(root@, t)),
        },
{
    let ghost start = strings(out@);
    let ghost f = |t: Seq<char>|
        match wildcard {
            Some(c) => join_rel(root@, replace_char_with(t, '*', c@)),
            None => join_rel(root@, t),
        };
    let mut i: usize = 0;
    while i < targets.len()
        invariant
            i <= targets.len(),
            f == (|t: Seq<char>|
                match wildcard {
                    Some(c) => join_rel(root@, replace_char_with(t, '*', c@)),
                    None => join_rel(root@, t),
                }),
            strings(out@) == start + strings(targets@).take(i as int).map_values(f),
        decreases targets.len() - i,
    {
        let t = to_chars(targets[i].as_str());
        let rel = match wildcard {
            Some(c) => replace_char_with_exec(t.as_slice(), '*', c),
            None => t,
        };
        let j = join_rel_exec(root, rel.as_slice());
        let ghost before = strings(out@);
        push_string(out, from_chars(j.as_slice()));
        assert(strings(targets@).take(i + 1) =~= strings(targets@).take(i as int).push(
            targets@[i as int]@,
        ));
        i += 1;
        assert(strings(out@) =~= start + strings(targets@).take(i as int).map_values(f));
    }
    assert(strings(targets@).take(targets.len() as int) =~= strings(targets@));
    match wildcard {
        Some(c) => {
            assert(strings(targets@).map_values(f) =~= strings(targets@).map_values(
                |t: Seq<char>| join_rel(root@, replace_char_with(t, '*', c@)),
            ));
        },
        None => {
            assert(strings(targets@).map_values(f) =~= strings(targets@).map_values(
                |t: Seq<char>| join_rel(root@, t),
            ));
        },
    }
}

/// Whether matching `import_source` against `pattern` hits
/// [`ts_alias_overlaps`].
pub fn ts_alias_overlaps_exec(import_source: &[char], pattern: &[char]) -> (b: bool)
    ensures
        b == ts_alias_overlaps(import_source@, pattern@),
{
    proof {
        lemma_index_of_char_from(pattern@, '*', 0);
    }
    let plen = pattern.len();
    match index_of_char_from_exec(pattern, '*', 0) {
        Some(star) => {
            let prefix = sub_chars(pattern, 0, star);
            let suffix = sub_chars(pattern, star + 1, pattern.len());
            assert(prefix@ =~= pattern@.take(star as int));
            assert(suffix@ =~= pattern@.skip(star + 1));
            starts_with_exec(import_source, prefix.as_slice()) && ends_with_exec(
                import_source,
                suffix.as_slice(),
            ) && prefix.len() + suffix.len() > import_source.len()
        },
        None => false,
    }
}

/// Expand one tsconfig `paths` entry against an import source; an
/// alias may name several target directories.
pub fn expand_ts_alias(import_source: &[char], alias: &TsPathAlias, ws_root: &[char]) -> (r: Vec<
    String,
>)
    requires
        !ts_alias_overlaps(import_source@, alias.pattern@),
    ensures
        strings(r@) == ts_alias_expansion(
            import_source@,
            alias.pattern@,
            strings(alias.targets@),
            ws_root@,
        ),
{
    let mut out: Vec<String> = Vec::new();
    let pattern = to_chars(alias.pattern.as_str());
    proof {
        lemma_index_of_char_from(pattern@, '*', 0);
    }
    match index_of_char_from_exec(pattern.as_slice(), '*', 0) {
        Some(star) => {
            let prefix = sub_chars(pattern.as_slice(), 0, star);
            let suffix = sub_chars(pattern.as_slice(), star + 1, pattern.len());
            assert(prefix@ =~= pattern@.take(star as int));
            assert(suffix@ =~= pattern@.skip(star + 1));
            if starts_with_exec(import_source, prefix.as_slice()) && ends_with_exec(
                import_source,
                suffix.as_slice(),
            ) {
                let captured = sub_chars(
                    import_source,
                    prefix.len(),
                    import_source.len() - suffix.len(),
                );
                expand_targets(&alias.targets, Some(captured.as_slice()), ws_root, &mut out);
            }
        },
        None => {
            if chars_eq(import_source, pattern.as_slice()) {
                expand_targets(&alias.targets, None, ws_root, &mut out);
            }
        },
    }
    assert(strings(out@) == ts_alias_expansion(
        import_source@,
        alias.pattern@,
        strings(alias.targets@),
        ws_root@,
    ));
    out
}

// ── the workspace's alias candidates ────────────────────────────────

/// Candidates of every `paths` entry, in order.
pub open spec fn ts_path_candidates(
    import: Seq<char>,
    aliases: Seq<TsPathAlias>,
    root: Seq<char>,
) -> Seq<Seq<char>>
    decreases aliases.len(),
{
    if aliases.len() == 0 {
        Seq::empty()
    } else {
        ts_path_candidates(import, aliases.drop_last(), root) + ts_alias_expansion(
            import,
            aliases.last().pattern@,
            strings(aliases.last().targets@),
            root,
        )
    }
}

/// Some `paths` entry of `aliases` overlaps the import.
pub open spec fn some_alias_overlaps(import: Seq<char>, aliases: Seq<TsPathAlias>) -> bool {
    exists|k: int| 0 <= k < aliases.len() && ts_alias_overlaps(import, #[trigger] aliases[k].pattern@)
}

/// `compilerOptions.baseUrl`: a non-relative import resolves from it.
pub open spec fn base_url_candidates(import: Seq<char>, ws: WorkspaceConfig) -> Seq<Seq<char>> {
    match ws.ts_base_url {
        Some(base) => if !starts_with(import, seq!['.']) && !starts_with(import, seq!['/']) {
            seq![join_rel(ws.root@, path_join(base@, import))]
        } else {
            Seq::empty()
        },
        None => Seq::empty(),
    }
}

/// The rest of `s` after `prefix` and then one optional `sep`.
pub open spec fn strip_prefix_then_sep(s: Seq<char>, prefix: Seq<char>, sep: char) -> Option<
    Seq<char>,
> {
    match strip_prefix(s, prefix) {
        Some(rest) => Some(
            if starts_with(rest, seq![sep]) {
                rest.skip(1)
            } else {
                rest
            },
        ),
        None => None,
    }
}

/// Go: the module prefix stripped leaves a path under the root.
pub open spec fn go_candidates(import: Seq<char>, ws: WorkspaceConfig) -> Seq<Seq<char>> {
    match ws.go_module {
        Some(module) => match strip_prefix_then_sep(import, module@, '/') {
            Some(stripped) => if stripped.len() > 0 {
                seq![join_rel(ws.root@, stripped)]
            } else {
                Seq::empty()
            },
            None => Seq::empty(),
        },
        None => Seq::empty(),
    }
}

/// A PSR-4 / PSR-0 namespace prefix removed from a class name; a
/// namespace configured without its trailing `\` still matches, and
/// the separators after it are dropped too.
pub open spec fn strip_php_namespace_spec(import: Seq<char>, namespace: Seq<char>) -> Option<
    Seq<char>,
> {
    match strip_prefix(import, namespace) {
        Some(rest) => Some(rest),
        None => {
            let bare = trim_end_matches(namespace, seq!['\\']);
            if bare.len() > 0 && starts_with(import, bare) {
                Some(trim_start_matches(import.skip(bare.len() as int), seq!['\\']))
            } else {
                None
            }
        },
    }
}

/// Candidates of PHP autoload rows, in order.
pub open spec fn php_candidates(
    import: Seq<char>,
    mappings: Seq<Psr4Mapping>,
    root: Seq<char>,
) -> Seq<Seq<char>>
    decreases mappings.len(),
{
    if mappings.len() == 0 {
        Seq::empty()
    } else {
        let m = mappings.last();
        php_candidates(import, mappings.drop_last(), root) + match strip_php_namespace_spec(
            import,
            m.namespace@,
        ) {
            Some(stripped) => seq![
                join_rel(root, path_join(m.directory@, replace_char(stripped, '\\', '/'))),
            ],
            None => Seq::empty(),
        }
    }
}

/// C#: the root namespace stripped, dots become directories.
pub open spec fn csharp_candidates(import: Seq<char>, ws: WorkspaceConfig) -> Seq<Seq<char>> {
    match ws.csharp_root_namespace {
        Some(ns) => match strip_prefix_then_sep(import, ns@, '.') {
            Some(stripped) => if stripped.len() > 0 {
                seq![join_rel(ws.root@, replace_char(stripped, '.', '/'))]
            } else {
                Seq::empty()
            },
            None => Seq::empty(),
        },
        None => Seq::empty(),
    }
}

/// Dart: `package:<name>/rest` lives at `lib/rest`.
pub open spec fn dart_candidates(import: Seq<char>, ws: WorkspaceConfig) -> Seq<Seq<char>> {
    match ws.dart_package {
        Some(pkg) => match strip_prefix(import, "package:"@ + pkg@ + seq!['/']) {
            Some(rest) => seq![join_rel(ws.root@, path_join("lib"@, rest))],
            None => Seq::empty(),
        },
        None => Seq::empty(),
    }
}

/// The directory of a Swift target: its `path:` or `Sources/<name>`.
pub open spec fn swift_target_dir(t: SwiftTarget) -> Seq<char> {
    match t.path {
        Some(p) => p@,
        None => path_join("Sources"@, t.name@),
    }
}

/// Swift: an import naming a target resolves to that target's directory.
pub open spec fn swift_candidates(
    import: Seq<char>,
    targets: Seq<SwiftTarget>,
    root: Seq<char>,
) -> Seq<Seq<char>>
    decreases targets.len(),
{
    if targets.len() == 0 {
        Seq::empty()
    } else {
        swift_candidates(import, targets.drop_last(), root) + if targets.last().name@ == import {
            seq![join_rel(root, swift_target_dir(targets.last()))]
        } else {
            Seq::empty()
        }
    }
}

/// Every alias candidate of one workspace, in priority order: tsconfig
/// paths, baseUrl, Go module, PSR-4 then PSR-0, C# root namespace, Dart
/// package, Swift targets.
pub open spec fn alias_candidates(import: Seq<char>, ws: WorkspaceConfig) -> Seq<Seq<char>> {
    ts_path_candidates(import, ws.ts_paths@, ws.root@) + base_url_candidates(import, ws)
        + go_candidates(import, ws) + php_candidates(import, ws.php_psr4@, ws.root@)
        + php_candidates(import, ws.php_psr0@, ws.root@) + csharp_candidates(import, ws)
        + dart_candidates(import, ws) + swift_candidates(import, ws.swift_targets@, ws.root@)
}

/// The workspace that governs `file`, if any.
pub open spec fn governing_workspace(config: ConfigContext, file: Seq<char>) -> Option<
    WorkspaceConfig,
> {
    match nearest_workspace(roots_of(config.workspaces@), file, config.workspaces@.len() as int) {
        Some(i) => Some(config.workspaces@[i]),
        None => None,
    }
}

/// The alias candidates for an import in `file`: those of its
/// governing workspace, none without one.
pub open spec fn apply_aliases_spec(
    import: Seq<char>,
    file: Seq<char>,
    config: ConfigContext,
) -> Seq<Seq<char>> {
    match governing_workspace(config, file) {
        Some(ws) => alias_candidates(import, ws),
        None => Seq::empty(),
    }
}

/// Expanding the import against the governing workspace's `paths` hits
/// [`ts_alias_overlaps`].
pub open spec fn aliases_overlap(import: Seq<char>, file: Seq<char>, config: ConfigContext) -> bool {
    match governing_workspace(config, file) {
        Some(ws) => some_alias_overlaps(import, ws.ts_paths@),
        None => false,
    }
}

fn push_joined(out: &mut Vec<String>, root: &[char], rel: &[char])
    ensures
        strings(final(out)@) == strings(old(out)@).push(join_rel(root@, rel@)),
{
    let j = join_rel_exec(root, rel);
    push_string(out, from_chars(j.as_slice()));
}

/// [`strip_prefix_then_sep`].
pub fn strip_prefix_then_sep_exec(s: &[char], prefix: &[char], sep: char) -> (r: Option<Vec<char>>)
    ensures
        opt_view(r) == strip_prefix_then_sep(s@, prefix@, sep),
{
    match strip_prefix_exec(s, prefix) {
        Some(rest) => {
            if rest.len() > 0 && rest[0] == sep {
                let t = sub_chars(rest.as_slice(), 1, rest.len());
                assert(starts_with(rest@, seq![sep])) by {
                    assert(rest@.take(1) =~= seq![sep]);
                }
                assert(t@ =~= rest@.skip(1));
                Some(t)
            } else {
                assert(!starts_with(rest@, seq![sep])) by {
                    if rest@.len() > 0 {
                        assert(rest@.take(1)[0] == rest@[0]);
                    }
                }
                Some(rest)
            }
        },
        None => None,
    }
}

/// Strip a PSR-4 / PSR-0 namespace prefix from a class-style import.
pub fn strip_php_namespace(import_source: &[char], namespace: &[char]) -> (r: Option<Vec<char>>)
    ensures
        opt_view(r) == strip_php_namespace_spec(import_source@, namespace@),
{
    match strip_prefix_exec(import_source, namespace) {
        Some(rest) => Some(rest),
        None => {
            let mut bs: Vec<char> = Vec::new();
            bs.push('\\');
            assert(bs@ =~= seq!['\\']);
            let bare = trim_end_matches_exec(namespace, bs.as_slice());
            if bare.len() > 0 && starts_with_exec(import_source, bare.as_slice()) {
                let rest = sub_chars(import_source, bare.len(), import_source.len());
                assert(rest@ =~= import_source@.skip(bare@.len() as int));
                Some(trim_start_matches_exec(rest.as_slice(), bs.as_slice()))
            } else {
                None
            }
        },
    }
}

fn push_ts_candidates(import_source: &[char], ws: &WorkspaceConfig, root: &[char], out: &mut Vec<String>)
    requires
        root@ == ws.root@,
        !some_alias_overlaps(import_source@, ws.ts_paths@),
    ensures
        strings(final(out)@) == strings(old(out)@) + ts_path_candidates(
            import_source@,
            ws.ts_paths@,
            ws.root@,
        ),
{
    let ghost start = strings(out@);
    let mut i: usize = 0;
    assert(ws.ts_paths@.take(0) =~= Seq::<TsPathAlias>::empty());
    while i < ws.ts_paths.len()
        invariant
            i <= ws.ts_paths.len(),
            root@ == ws.root@,
            !some_alias_overlaps(import_source@, ws.ts_paths@),
            strings(out@) == start + ts_path_candidates(
                import_source@,
                ws.ts_paths@.take(i as int),
                ws.root@,
            ),
        decreases ws.ts_paths.len() - i,
    {
        assert(!ts_alias_overlaps(import_source@, ws.ts_paths@[i as int].pattern@));
        let more = expand_ts_alias(import_source, &ws.ts_paths[i], root);
        let mut k: usize = 0;
        let ghost mid = strings(out@);
        while k < more.len()
            invariant
                k <= more.len(),
                strings(out@) == mid + strings(more@).take(k as int),
            decreases more.len() - k,
        {
            let s = more[k].as_str().to_owned();
            push_string(out, s);
            assert(strings(more@).take(k + 1) =~= strings(more@).take(k as int).push(
                more@[k as int]@,
            ));
            k += 1;
        }
        assert(strings(more@).take(more.len() as int) =~= strings(more@));
        assert(ws.ts_paths@.take(i + 1).drop_last() =~= ws.ts_paths@.take(i as int));
        i += 1;
    }
    assert(ws.ts_paths@.take(ws.ts_paths.len() as int) =~= ws.ts_paths@);
}

fn push_php_candidates(
    import_source: &[char],
    mappings: &Vec<Psr4Mapping>,
    root: &[char],
    out: &mut Vec<String>,
)
    ensures
        strings(final(out)@) == strings(old(out)@) + php_candidates(
            import_source@,
            mappings@,
            root@,
        ),
{
    let ghost start = strings(out@);
    let mut i: usize = 0;
    assert(mappings@.take(0) =~= Seq::<Psr4Mapping>::empty());
    while i < mappings.len()
        invariant
            i <= mappings.len(),
            strings(out@) == start + php_candidates(import_source@, mappings@.take(i as int), root@),
        decreases mappings.len() - i,
    {
        let m = &mappings[i];
        let ns = to_chars(m.namespace.as_str());
        assert(mappings@.take(i + 1).drop_last() =~= mappings@.take(i as int));
        assert(mappings@.take(i + 1).last() == mappings@[i as int]);
        match strip_php_namespace(import_source, ns.as_slice()) {
            Some(stripped) => {
                let dir = to_chars(m.directory.as_str());
                let fixed = replace_char_exec(stripped.as_slice(), '\\', '/');
                let rel = path_join_exec(dir.as_slice(), fixed.as_slice());
                push_joined(out, root, rel.as_slice());
            },
            None => {},
        }
        i += 1;
    }
    assert(mappings@.take(mappings.len() as int) =~= mappings@);
}

fn push_swift_candidates(
    import_source: &[char],
    targets: &Vec<SwiftTarget>,
    root: &[char],
    out: &mut Vec<String>,
)
    ensures
        strings(final(out)@) == strings(old(out)@) + swift_candidates(
            import_source@,
            targets@,
            root@,
        ),
{
    let ghost start = strings(out@);
    let mut i: usize = 0;
    assert(targets@.take(0) =~= Seq::<SwiftTarget>::empty());
    while i < targets.len()
        invariant
            i <= targets.len(),
            strings(out@) == start + swift_candidates(import_source@, targets@.take(i as int), root@),
        decreases targets.len() - i,
    {
        let t = &targets[i];
        assert(targets@.take(i + 1).drop_last() =~= targets@.take(i as int));
        assert(targets@.take(i + 1).last() == targets@[i as int]);
        let name = to_chars(t.name.as_str());
        if chars_eq(name.as_slice(), import_source) {
            let dir = match &t.path {
                Some(p) => to_chars(p.as_str()),
                None => {
                    let sources = to_chars("Sources");
                    path_join_exec(sources.as_slice(), name.as_slice())
                },
            };
            push_joined(out, root, dir.as_slice());
        }
        i += 1;
    }
    assert(targets@.take(targets.len() as int) =~= targets@);
}

/// Map an import source through the aliases of the workspace
/// that governs `source_file` into root-relative candidate paths. The
/// list is empty when no workspace governs the file or nothing matches.
pub fn apply_aliases(import_source: &str, source_file: &str, config: &ConfigContext) -> (r: Vec<
    String,
>)
    requires
        !aliases_overlap(import_source@, source_file@, *config),
    ensures
        strings(r@) == apply_aliases_spec(import_source@, source_file@, *config),
{
    let mut out: Vec<String> = Vec::new();
    let ws = match config.workspace_for(source_file) {
        Some(w) => w,
        None => {
            return out;
        },
    };
    let import = to_chars(import_source);
    let root = to_chars(ws.root.as_str());
    let ghost w = *ws;
    assert(governing_workspace(*config, source_file@) == Some(w));
    push_ts_candidates(import.as_slice(), ws, root.as_slice(), &mut out);
    let ghost s1 = strings(out@);
    match &ws.ts_base_url {
        Some(base) => {
            if !(import.len() > 0 && import[0] == '.') && !(import.len() > 0 && import[0] == '/') {
                let b = to_chars(base.as_str());
                let rel = path_join_exec(b.as_slice(), import.as_slice());
                push_joined(&mut out, root.as_slice(), rel.as_slice());
            }
            proof {
                lemma_starts_with_char(import@, '.');
                lemma_starts_with_char(import@, '/');
            }
        },
        None => {},
    }
    assert(strings(out@) == s1 + base_url_candidates(import@, w));
    let ghost s2 = strings(out@);
    match &ws.go_module {
        Some(module) => {
            let m = to_chars(module.as_str());
            match strip_prefix_then_sep_exec(import.as_slice(), m.as_slice(), '/') {
                Some(stripped) => {
                    if stripped.len() > 0 {
                        push_joined(&mut out, root.as_slice(), stripped.as_slice());
                    }
                },
                None => {},
            }
        },
        None => {},
    }
    assert(strings(out@) =~= s2 + go_candidates(import@, w));
    push_php_candidates(import.as_slice(), &ws.php_psr4, root.as_slice(), &mut out);
    push_php_candidates(import.as_slice(), &ws.php_psr0, root.as_slice(), &mut out);
    let ghost s3 = strings(out@);
    match &ws.csharp_root_namespace {
        Some(ns) => {
            let n = to_chars(ns.as_str());
            match strip_prefix_then_sep_exec(import.as_slice(), n.as_slice(), '.') {
                Some(stripped) => {
                    if stripped.len() > 0 {
                        let rel = replace_char_exec(stripped.as_slice(), '.', '/');
                        push_joined(&mut out, root.as_slice(), rel.as_slice());
                    }
                },
                None => {},
            }
        },
        None => {},
    }
    assert(strings(out@) =~= s3 + csharp_candidates(import@, w));
    let ghost s4 = strings(out@);
    match &ws.dart_package {
        Some(pkg) => {
            let mut prefix = to_chars("package:");
            let p = to_chars(pkg.as_str());
            crate::text::push_all(&mut prefix, p.as_slice());
            prefix.push('/');
            assert(prefix@ =~= "package:"@ + pkg@ + seq!['/']);
            match strip_prefix_exec(import.as_slice(), prefix.as_slice()) {
                Some(rest) => {
                    let lib = to_chars("lib");
                    let rel = path_join_exec(lib.as_slice(), rest.as_slice());
                    push_joined(&mut out, root.as_slice(), rel.as_slice());
                },
                None => {},
            }
        },
        None => {},
    }
    assert(strings(out@) =~= s4 + dart_candidates(import@, w));
    push_swift_candidates(import.as_slice(), &ws.swift_targets, root.as_slice(), &mut out);
    out
}


// ── escaping ────────────────────────────────────────────────────────

/// A Cypher string literal body: backslashes doubled, then quotes
/// escaped.
pub open spec fn cypher_escape_spec(s: Seq<char>) -> Seq<char> {
    replace_char_with(replace_char_with(s, '\\', seq!['\\', '\\']), '\'', seq!['\\', '\''])
}

/// Escape a string for use in a Cypher string literal.
pub fn cypher_escape(s: &str) -> (r: String)
    ensures
        r@ == cypher_escape_spec(s@),
{
    let c = to_chars(s);
    let mut two: Vec<char> = Vec::new();
    two.push('\\');
    two.push('\\');
    assert(two@ =~= seq!['\\', '\\']);
    let a = replace_char_with_exec(c.as_slice(), '\\', two.as_slice());
    let mut q: Vec<char> = Vec::new();
    q.push('\\');
    q.push('\'');
    assert(q@ =~= seq!['\\', '\'']);
    let b = replace_char_with_exec(a.as_slice(), '\'', q.as_slice());
    from_chars(b.as_slice())
}

// ── rows read from the graph ────────────────────────────────────────

/// An `Import` node: the file it sits in, the imported path as written,
/// the local name bound and, for an aliased import, the original name
/// (empty when there is none).
pub struct ImportRow {
    pub source_file: String,
    pub import_source: String,
    pub name: String,
    pub original_name: String,
}

/// A `File` node: its project-relative path and qualified name.
pub struct FileRow {
    pub path: String,
    pub qualified_name: String,
}

/// A symbol an import can bind: the file defining it, its name, its
/// qualified name and its node label.
pub struct SymbolRow {
    pub source_file: String,
    pub name: String,
    pub qualified_name: String,
    pub label: String,
}

/// The node labels whose symbols an import can target, in lookup order.
pub open spec fn import_target_labels_spec() -> Seq<Seq<char>> {
    seq![
        "Function"@, "Method"@, "Class"@, "Interface"@, "Struct"@, "Trait"@, "Variable"@, "Enum"@,
        "TypeAlias"@, "Const"@,
    ]
}

pub fn import_target_labels() -> (r: Vec<&'static str>)
    ensures
        r@.map_values(|s: &str| s@) == import_target_labels_spec(),
{
    let r = vec![
        "Function", "Method", "Class", "Interface", "Struct", "Trait", "Variable", "Enum",
        "TypeAlias", "Const",
    ];
    assert(r@.map_values(|s: &str| s@) =~= import_target_labels_spec());
    r
}

// ── the file index ──────────────────────────────────────────────────

/// Extensions whose removal also indexes a file, in the order tried.
pub open spec fn stem_exts() -> Seq<Seq<char>> {
    seq![".ts"@, ".tsx"@, ".js"@, ".jsx"@, ".rs"@, ".py"@]
}

pub open spec fn stem_from(path: Seq<char>, exts: Seq<Seq<char>>, k: int) -> Option<Seq<char>>
    decreases exts.len() - k,
{
    if k < 0 || k >= exts.len() {
        None
    } else {
        match crate::text::strip_suffix(path, exts[k]) {
            Some(stem) => Some(stem),
            None => stem_from(path, exts, k + 1),
        }
    }
}

/// The path without the first of [`stem_exts`] it ends with.
pub open spec fn file_stem(path: Seq<char>) -> Option<Seq<char>> {
    stem_from(path, stem_exts(), 0)
}

/// `key` reaches the file at `path` through its stem: the bare stem or
/// the stem's `index.ts`.
pub open spec fn stem_key(path: Seq<char>, key: Seq<char>) -> bool {
    match file_stem(path) {
        Some(stem) => key == stem || key == stem + "/index.ts"@,
        None => false,
    }
}

/// Last of the first `n` files whose path is `key`.
pub open spec fn last_exact_file(files: Seq<FileRow>, key: Seq<char>, n: int) -> Option<int>
    decreases n,
{
    if n <= 0 {
        None
    } else if files[n - 1].path@ == key {
        Some(n - 1)
    } else {
        last_exact_file(files, key, n - 1)
    }
}

/// First file at or after `from` that `key` reaches through its stem.
pub open spec fn first_stem_file(files: Seq<FileRow>, key: Seq<char>, from: int) -> Option<int>
    decreases files.len() - from,
{
    if from < 0 || from >= files.len() {
        None
    } else if stem_key(files[from].path@, key) {
        Some(from)
    } else {
        first_stem_file(files, key, from + 1)
    }
}

/// The qualified name a path resolves to: an exact path wins (the last
/// file registered under it); otherwise the first file reached through
/// its stem.
pub open spec fn file_lookup(files: Seq<FileRow>, key: Seq<char>) -> Option<Seq<char>> {
    match last_exact_file(files, key, files.len() as int) {
        Some(i) => Some(files[i].qualified_name@),
        None => match first_stem_file(files, key, 0) {
            Some(i) => Some(files[i].qualified_name@),
            None => None,
        },
    }
}

/// One of the script and source extensions a file is also found
/// without: `.ts`, `.tsx`, `.js`, `.jsx`, `.rs` or `.py`.
pub open spec fn lookup_ext(e: Seq<char>) -> bool {
    e == ".ts"@ || e == ".tsx"@ || e == ".js"@ || e == ".jsx"@ || e == ".rs"@ || e == ".py"@
}

proof fn lemma_suffix_char(s: Seq<char>, e: Seq<char>, m: int)
    requires
        ends_with(s, e),
        0 <= m < e.len(),
    ensures
        s[s.len() - 1 - m] == e[e.len() - 1 - m],
{
    assert(s.skip(s.len() - e.len())[e.len() - 1 - m] == s[s.len() - 1 - m]);
}

/// A path ends with at most one of the lookup extensions.
proof fn lemma_ext_distinct(s: Seq<char>, a: Seq<char>, b: Seq<char>)
    requires
        lookup_ext(a),
        lookup_ext(b),
        a != b,
        ends_with(s, a),
    ensures
        !ends_with(s, b),
{
    reveal_strlit(".ts");
    reveal_strlit(".tsx");
    reveal_strlit(".js");
    reveal_strlit(".jsx");
    reveal_strlit(".rs");
    reveal_strlit(".py");
    if ends_with(s, b) {
        lemma_suffix_char(s, a, 0);
        lemma_suffix_char(s, a, 1);
        lemma_suffix_char(s, a, 2);
        lemma_suffix_char(s, b, 0);
        lemma_suffix_char(s, b, 1);
        lemma_suffix_char(s, b, 2);
    }
}

proof fn lemma_stem_from_at(path: Seq<char>, exts: Seq<Seq<char>>, k: int, j: int)
    requires
        0 <= k <= j < exts.len(),
        forall|q: int| k <= q < j ==> !ends_with(path, #[trigger] exts[q]),
        ends_with(path, exts[j]),
    ensures
        stem_from(path, exts, k) == Some(path.take(path.len() - exts[j].len())),
    decreases j - k,
{
    if k < j {
        lemma_stem_from_at(path, exts, k + 1, j);
    }
}

proof fn lemma_no_exact_file(files: Seq<FileRow>, key: Seq<char>, n: int)
    requires
        n <= files.len(),
        forall|j: int| 0 <= j < files.len() ==> (#[trigger] files[j]).path@ != key,
    ensures
        last_exact_file(files, key, n) is None,
    decreases n,
{
    if n > 0 {
        lemma_no_exact_file(files, key, n - 1);
    }
}

proof fn lemma_first_stem_file_at(files: Seq<FileRow>, key: Seq<char>, from: int, i: int)
    requires
        0 <= from <= i < files.len(),
        forall|j: int| from <= j < i ==> !stem_key((#[trigger] files[j]).path@, key),
        stem_key(files[i].path@, key),
    ensures
        first_stem_file(files, key, from) == Some(i),
    decreases i - from,
{
    if from < i {
        lemma_first_stem_file_at(files, key, from + 1, i);
    }
}

proof fn lemma_last_exact_at(files: Seq<FileRow>, key: Seq<char>, i: int, n: int)
    requires
        0 <= i < n <= files.len(),
        files[i].path@ == key,
        forall|j: int| i < j < files.len() ==> (#[trigger] files[j]).path@ != key,
    ensures
        last_exact_file(files, key, n) == Some(i),
    decreases n,
{
    if n - 1 > i {
        lemma_last_exact_at(files, key, i, n - 1);
    }
}

/// A file is always found under its own path: the last file registered
/// under a path is what the path resolves to, whatever other files reach
/// the same key through a stem.
pub proof fn law_file_found_by_path(files: Seq<FileRow>, i: int)
    requires
        0 <= i < files.len(),
        forall|j: int| i < j < files.len() ==> (#[trigger] files[j]).path@ != files[i].path@,
    ensures
        file_lookup(files, files[i].path@) == Some(files[i].qualified_name@),
{
    lemma_last_exact_at(files, files[i].path@, i, files.len() as int);
}

/// A file whose path ends in `.ts`, `.tsx`, `.js`, `.jsx`, `.rs` or
/// `.py` is found under its path with that extension removed, unless a
/// file registered under exactly that key, or an earlier file reached
/// through the same key, claims it first.
pub proof fn law_file_found_without_ext(files: Seq<FileRow>, i: int, ext: Seq<char>)
    requires
        0 <= i < files.len(),
        lookup_ext(ext),
        ends_with(files[i].path@, ext),
        forall|j: int|
            0 <= j < files.len() ==> (#[trigger] files[j]).path@ != files[i].path@.take(
                files[i].path@.len() - ext.len(),
            ),
        forall|j: int|
            0 <= j < i ==> !stem_key(
                (#[trigger] files[j]).path@,
                files[i].path@.take(files[i].path@.len() - ext.len()),
            ),
    ensures
        file_lookup(files, files[i].path@.take(files[i].path@.len() - ext.len())) == Some(
            files[i].qualified_name@,
        ),
{
    let path = files[i].path@;
    let stem = path.take(path.len() - ext.len());
    let exts = stem_exts();
    reveal_strlit(".ts");
    reveal_strlit(".tsx");
    reveal_strlit(".js");
    reveal_strlit(".jsx");
    reveal_strlit(".rs");
    reveal_strlit(".py");
    let j: int = if ext == ".ts"@ {
        0
    } else if ext == ".tsx"@ {
        1
    } else if ext == ".js"@ {
        2
    } else if ext == ".jsx"@ {
        3
    } else if ext == ".rs"@ {
        4
    } else {
        5
    };
    assert(exts[j] == ext);
    assert(".ts"@[1] == 't' && ".tsx"@[1] == 't' && ".js"@[1] == 'j' && ".jsx"@[1] == 'j'
        && ".rs"@[1] == 'r' && ".py"@[1] == 'p');
    assert forall|q: int| 0 <= q < j implies !ends_with(path, #[trigger] exts[q]) by {
        let e = exts[q];
        assert(lookup_ext(e));
        assert(e.len() != ext.len() || e[1] != ext[1]);
        lemma_ext_distinct(path, ext, e);
    }
    lemma_stem_from_at(path, exts, 0, j);
    assert(file_stem(path) == Some(stem));
    assert(stem_key(path, stem));
    lemma_no_exact_file(files, stem, files.len() as int);
    lemma_first_stem_file_at(files, stem, 0, i);
}

fn stem_exts_exec() -> (r: Vec<Vec<char>>)
    ensures
        crate::text::views(r@) == stem_exts(),
{
    let mut r: Vec<Vec<char>> = Vec::new();
    r.push(to_chars(".ts"));
    r.push(to_chars(".tsx"));
    r.push(to_chars(".js"));
    r.push(to_chars(".jsx"));
    r.push(to_chars(".rs"));
    r.push(to_chars(".py"));
    assert(crate::text::views(r@) =~= stem_exts());
    r
}

/// [`file_stem`] of `path`.
pub fn file_stem_exec(path: &[char]) -> (r: Option<Vec<char>>)
    ensures
        opt_view(r) == file_stem(path@),
{
    let exts = stem_exts_exec();
    let mut k: usize = 0;
    while k < exts.len()
        invariant
            k <= exts.len(),
            crate::text::views(exts@) == stem_exts(),
            stem_from(path@, stem_exts(), k as int) == file_stem(path@),
        decreases exts.len() - k,
    {
        assert(exts@[k as int]@ == stem_exts()[k as int]);
        match crate::text::strip_suffix_exec(path, exts[k].as_slice()) {
            Some(stem) => {
                return Some(stem);
            },
            None => {},
        }
        k += 1;
    }
    None
}

fn stem_key_exec(path: &[char], key: &[char]) -> (b: bool)
    ensures
        b == stem_key(path@, key@),
{
    match file_stem_exec(path) {
        Some(stem) => {
            if chars_eq(key, stem.as_slice()) {
                true
            } else {
                let mut idx = stem;
                crate::text::push_str_chars(&mut idx, "/index.ts");
                chars_eq(key, idx.as_slice())
            }
        },
        None => false,
    }
}

/// [`file_lookup`] of `key`.
pub fn lookup_file(files: &Vec<FileRow>, key: &[char]) -> (r: Option<String>)
    ensures
        match r {
            Some(q) => file_lookup(files@, key@) == Some(q@),
            None => file_lookup(files@, key@) is None,
        },
{
    let mut n = files.len();
    while n > 0
        invariant
            n <= files.len(),
            last_exact_file(files@, key@, files@.len() as int) == last_exact_file(
                files@,
                key@,
                n as int,
            ),
        decreases n,
    {
        let p = to_chars(files[n - 1].path.as_str());
        if chars_eq(p.as_slice(), key) {
            return Some(files[n - 1].qualified_name.as_str().to_owned());
        }
        n -= 1;
    }
    let mut i: usize = 0;
    while i < files.len()
        invariant
            i <= files.len(),
            last_exact_file(files@, key@, files@.len() as int) is None,
            first_stem_file(files@, key@, 0) == first_stem_file(files@, key@, i as int),
        decreases files.len() - i,
    {
        let p = to_chars(files[i].path.as_str());
        if stem_key_exec(p.as_slice(), key) {
            return Some(files[i].qualified_name.as_str().to_owned());
        }
        i += 1;
    }
    None
}

// ── the symbol index ────────────────────────────────────────────────

/// First symbol at or after `from` defined in `file` under `name`.
pub open spec fn first_symbol(syms: Seq<SymbolRow>, file: Seq<char>, name: Seq<char>, from: int) -> Option<
    int,
>
    decreases syms.len() - from,
{
    if from < 0 || from >= syms.len() {
        None
    } else if syms[from].source_file@ == file && syms[from].name@ == name {
        Some(from)
    } else {
        first_symbol(syms, file, name, from + 1)
    }
}

pub proof fn lemma_first_symbol(syms: Seq<SymbolRow>, file: Seq<char>, name: Seq<char>, from: int)
    requires
        0 <= from,
    ensures
        first_symbol(syms, file, name, from) matches Some(i) ==> from <= i < syms.len()
            && syms[i].source_file@ == file && syms[i].name@ == name,
    decreases syms.len() - from,
{
    if from < syms.len() && !(syms[from].source_file@ == file && syms[from].name@ == name) {
        lemma_first_symbol(syms, file, name, from + 1);
    }
}

/// The symbol an import binds: the first registered under the key.
pub open spec fn symbol_lookup(syms: Seq<SymbolRow>, file: Seq<char>, name: Seq<char>) -> Option<
    int,
> {
    first_symbol(syms, file, name, 0)
}

/// [`symbol_lookup`] of `(file, name)`.
pub fn lookup_symbol(syms: &Vec<SymbolRow>, file: &[char], name: &[char]) -> (r: Option<usize>)
    ensures
        match r {
            Some(i) => symbol_lookup(syms@, file@, name@) == Some(i as int),
            None => symbol_lookup(syms@, file@, name@) is None,
        },
{
    let mut i: usize = 0;
    while i < syms.len()
        invariant
            i <= syms.len(),
            first_symbol(syms@, file@, name@, 0) == first_symbol(syms@, file@, name@, i as int),
        decreases syms.len() - i,
    {
        let f = to_chars(syms[i].source_file.as_str());
        let n = to_chars(syms[i].name.as_str());
        if chars_eq(f.as_slice(), file) && chars_eq(n.as_slice(), name) {
            return Some(i);
        }
        i += 1;
    }
    None
}

// ── edge statements ─────────────────────────────────────────────────

/// File-to-file IMPORTS edge between two qualified names.
pub open spec fn file_edge(src: Seq<char>, tgt: Seq<char>) -> Seq<char> {
    "MATCH (s:File), (t:File) WHERE s.qualified_name = '"@ + cypher_escape_spec(src)
        + "' AND t.qualified_name = '"@ + cypher_escape_spec(tgt)
        + "' CREATE (s)-[:CodeRelation {type: 'IMPORTS', confidence: 1.0, reason: 'import statement', step: 0}]->(t)"@
}

/// The relation properties of a symbol edge: a named or a wildcard import.
pub open spec fn symbol_edge_tail(wildcard: bool) -> Seq<char> {
    if wildcard {
        "' CREATE (s)-[:CodeRelation {type: 'IMPORTS', confidence: 0.80, reason: 'wildcard import', step: 0}]->(t)"@
    } else {
        "' CREATE (s)-[:CodeRelation {type: 'IMPORTS', confidence: 0.95, reason: 'symbol import', step: 0}]->(t)"@
    }
}

/// File-to-symbol IMPORTS edge.
pub open spec fn symbol_edge(src: Seq<char>, sym: SymbolRow, wildcard: bool) -> Seq<char> {
    "MATCH (s:File), (t:"@ + sym.label@ + ") WHERE s.qualified_name = '"@ + cypher_escape_spec(src)
        + "' AND t.qualified_name = '"@ + cypher_escape_spec(sym.qualified_name@)
        + symbol_edge_tail(wildcard)
}

fn file_edge_exec(src: &str, tgt: &str) -> (r: String)
    ensures
        r@ == file_edge(src@, tgt@),
{
    let mut e = String::new();
    e.push_str("MATCH (s:File), (t:File) WHERE s.qualified_name = '");
    let a = cypher_escape(src);
    e.push_str(a.as_str());
    e.push_str("' AND t.qualified_name = '");
    let b = cypher_escape(tgt);
    e.push_str(b.as_str());
    e.push_str(
        "' CREATE (s)-[:CodeRelation {type: 'IMPORTS', confidence: 1.0, reason: 'import statement', step: 0}]->(t)",
    );
    assert(e@ =~= file_edge(src@, tgt@));
    e
}

fn symbol_edge_exec(src: &str, sym: &SymbolRow, wildcard: bool) -> (r: String)
    ensures
        r@ == symbol_edge(src@, *sym, wildcard),
{
    let mut e = String::new();
    e.push_str("MATCH (s:File), (t:");
    e.push_str(sym.label.as_str());
    e.push_str(") WHERE s.qualified_name = '");
    let a = cypher_escape(src);
    e.push_str(a.as_str());
    e.push_str("' AND t.qualified_name = '");
    let b = cypher_escape(sym.qualified_name.as_str());
    e.push_str(b.as_str());
    if wildcard {
        e.push_str(
            "' CREATE (s)-[:CodeRelation {type: 'IMPORTS', confidence: 0.80, reason: 'wildcard import', step: 0}]->(t)",
        );
    } else {
        e.push_str(
            "' CREATE (s)-[:CodeRelation {type: 'IMPORTS', confidence: 0.95, reason: 'symbol import', step: 0}]->(t)",
        );
    }
    assert(e@ =~= symbol_edge(src@, *sym, wildcard));
    e
}

/// The symbols a wildcard import of `file` binds: among the first `n`,
/// those defined in `file` that are the first under their name.
pub open spec fn wildcard_edges(syms: Seq<SymbolRow>, file: Seq<char>, src: Seq<char>, n: int) -> Seq<
    Seq<char>,
>
    decreases n,
{
    if n <= 0 {
        Seq::empty()
    } else {
        let s = syms[n - 1];
        wildcard_edges(syms, file, src, n - 1) + if s.source_file@ == file && symbol_lookup(
            syms,
            file,
            s.name@,
        ) == Some(n - 1) {
            seq![symbol_edge(src, s, true)]
        } else {
            Seq::empty()
        }
    }
}

/// Symbol edges of an import resolved to the file `target`: the bound
/// name (or, failing that, the original name of an aliased import) for
/// a named import; every symbol of the file for `*`.
pub open spec fn symbol_edges(
    syms: Seq<SymbolRow>,
    target: Seq<char>,
    src: Seq<char>,
    name: Seq<char>,
    original: Seq<char>,
) -> Seq<Seq<char>> {
    if name.len() > 0 && name != seq!['*'] {
        match symbol_lookup(syms, target, name) {
            Some(i) => seq![symbol_edge(src, syms[i], false)],
            None => if original.len() > 0 {
                match symbol_lookup(syms, target, original) {
                    Some(i) => seq![symbol_edge(src, syms[i], false)],
                    None => Seq::empty(),
                }
            } else {
                Seq::empty()
            },
        }
    } else if name == seq!['*'] {
        wildcard_edges(syms, target, src, syms.len() as int)
    } else {
        Seq::empty()
    }
}

// ── candidate paths ─────────────────────────────────────────────────

/// The import source without quotes and `use ` keywords, trimmed.
pub open spec fn clean_import_source(s: Seq<char>) -> Seq<char> {
    crate::text::trim(crate::text::remove_all(crate::text::trim_class(s, false, crate::text::quotes()), "use "@))
}

/// The directory part of a file path (before its last separator).
pub open spec fn source_dir(file: Seq<char>) -> Seq<char> {
    match crate::text::rfind_any(file, seq!['/', '\\']) {
        Some(i) => file.take(i),
        None => Seq::empty(),
    }
}

/// The fallback candidates after the alias candidates.
pub open spec fn fallback_candidates(cleaned: Seq<char>, dir: Seq<char>) -> Seq<Seq<char>> {
    let rel = dir + seq!['/'] + cleaned;
    seq![
        cleaned,
        rel,
        rel + ".ts"@,
        rel + ".tsx"@,
        rel + ".rs"@,
        rel + ".py"@,
        cleaned + ".ts"@,
        cleaned + ".tsx"@,
        cleaned + ".rs"@,
        cleaned + ".py"@,
        cleaned + "/mod.rs"@,
    ]
}

/// Every candidate path of a cleaned import in `file`, in the order tried.
pub open spec fn import_candidates(cleaned: Seq<char>, file: Seq<char>, config: ConfigContext) -> Seq<
    Seq<char>,
> {
    apply_aliases_spec(cleaned, file, config) + fallback_candidates(cleaned, source_dir(file))
}

/// A candidate as a file-index key: forward slashes, no leading `./`.
pub open spec fn normalize_candidate(c: Seq<char>) -> Seq<char> {
    trim_start_matches(replace_char(c, '\\', '/'), "./"@)
}

/// First candidate at or after `k` whose key names a file.
pub open spec fn first_known(cands: Seq<Seq<char>>, files: Seq<FileRow>, k: int) -> Option<Seq<char>>
    decreases cands.len() - k,
{
    if k < 0 || k >= cands.len() {
        None
    } else if file_lookup(files, normalize_candidate(cands[k])) is Some {
        Some(normalize_candidate(cands[k]))
    } else {
        first_known(cands, files, k + 1)
    }
}


// ── one import ──────────────────────────────────────────────────────

/// The import's file is in the scope set, or there is no scope.
pub open spec fn in_scope(row: ImportRow, scope: Option<Seq<Seq<char>>>) -> bool {
    match scope {
        Some(s) => s.contains(row.source_file@),
        None => true,
    }
}

/// The import is processed at all: its source is non-empty and its file
/// in scope.
pub open spec fn considered(row: ImportRow, scope: Option<Seq<Seq<char>>>) -> bool {
    row.import_source@.len() > 0 && in_scope(row, scope)
}

/// How an import resolves: the first candidate that names a known file,
/// together with the qualified name of the importing file; `None` when
/// it is not considered, no candidate is known, or its own file is not.
pub open spec fn import_resolution(
    row: ImportRow,
    files: Seq<FileRow>,
    config: ConfigContext,
    scope: Option<Seq<Seq<char>>>,
) -> Option<(Seq<char>, Seq<char>)> {
    if !considered(row, scope) {
        None
    } else {
        let cleaned = clean_import_source(row.import_source@);
        match first_known(import_candidates(cleaned, row.source_file@, config), files, 0) {
            Some(target) => match file_lookup(files, row.source_file@) {
                Some(src) => Some((target, src)),
                None => None,
            },
            None => None,
        }
    }
}

/// Expanding this import's source against the `paths` of its workspace
/// would cut an empty-or-negative capture (see [`ts_alias_overlaps`]).
pub open spec fn row_alias_overlap(
    row: ImportRow,
    config: ConfigContext,
    scope: Option<Seq<Seq<char>>>,
) -> bool {
    considered(row, scope) && aliases_overlap(
        clean_import_source(row.import_source@),
        row.source_file@,
        config,
    )
}

/// The statements one import contributes: the file edge, then its
/// symbol edges.
pub open spec fn row_edges(
    row: ImportRow,
    files: Seq<FileRow>,
    syms: Seq<SymbolRow>,
    config: ConfigContext,
    scope: Option<Seq<Seq<char>>>,
) -> Seq<Seq<char>> {
    match import_resolution(row, files, config, scope) {
        Some((target, src)) => seq![file_edge(src, file_lookup(files, target).unwrap())]
            + symbol_edges(syms, target, src, row.name@, row.original_name@),
        None => Seq::empty(),
    }
}

/// Statements of the first `n` imports, in order.
pub open spec fn plan_edges(
    rows: Seq<ImportRow>,
    files: Seq<FileRow>,
    syms: Seq<SymbolRow>,
    config: ConfigContext,
    scope: Option<Seq<Seq<char>>>,
    n: int,
) -> Seq<Seq<char>>
    decreases n,
{
    if n <= 0 {
        Seq::empty()
    } else {
        plan_edges(rows, files, syms, config, scope, n - 1) + row_edges(
            rows[n - 1],
            files,
            syms,
            config,
            scope,
        )
    }
}

/// Import-map pairs `(importing file, imported file)` of the first `n`
/// imports, each recorded once, in order of first resolution.
pub open spec fn plan_pairs(
    rows: Seq<ImportRow>,
    files: Seq<FileRow>,
    config: ConfigContext,
    scope: Option<Seq<Seq<char>>>,
    n: int,
) -> Seq<(Seq<char>, Seq<char>)>
    decreases n,
{
    if n <= 0 {
        Seq::empty()
    } else {
        let prev = plan_pairs(rows, files, config, scope, n - 1);
        match import_resolution(rows[n - 1], files, config, scope) {
            Some((target, _)) => {
                let p = (rows[n - 1].source_file@, target);
                if prev.contains(p) {
                    prev
                } else {
                    prev.push(p)
                }
            },
            None => prev,
        }
    }
}

pub open spec fn pair_views(v: Seq<(String, String)>) -> Seq<(Seq<char>, Seq<char>)> {
    v.map_values(|p: (String, String)| (p.0@, p.1@))
}

pub open spec fn scope_view(scope: Option<&Vec<String>>) -> Option<Seq<Seq<char>>> {
    match scope {
        Some(s) => Some(strings(s@)),
        None => None,
    }
}

/// What import resolution decides: the statements to run and the
/// import map, as `(importing file, imported file)` pairs.
pub struct ImportPlan {
    pub edge_stmts: Vec<String>,
    pub import_map: Vec<(String, String)>,
}

fn clean_import_source_exec(s: &str) -> (r: Vec<char>)
    ensures
        r@ == clean_import_source(s@),
{
    let c = to_chars(s);
    let a = crate::text::trim_quotes_exec(c.as_slice());
    let u = to_chars("use ");
    let b = crate::text::remove_all_exec(a.as_slice(), u.as_slice());
    crate::text::trim_exec(b.as_slice())
}

fn source_dir_exec(file: &[char]) -> (r: Vec<char>)
    ensures
        r@ == source_dir(file@),
{
    let mut seps: Vec<char> = Vec::new();
    seps.push('/');
    seps.push('\\');
    assert(seps@ =~= seq!['/', '\\']);
    proof {
        crate::text::lemma_rfind_any(file@, seps@);
    }
    match crate::text::rfind_any_exec(file, seps.as_slice()) {
        Some(i) => sub_chars(file, 0, i),
        None => Vec::new(),
    }
}

fn with_suffix(base: &[char], suffix: &str) -> (r: Vec<char>)
    ensures
        r@ == base@ + suffix@,
{
    let mut r = sub_chars(base, 0, base.len());
    crate::text::push_str_chars(&mut r, suffix);
    r
}

fn candidates_exec(cleaned: &[char], file: &str, config: &ConfigContext) -> (r: Vec<Vec<char>>)
    requires
        !aliases_overlap(cleaned@, file@, *config),
    ensures
        crate::text::views(r@) == import_candidates(cleaned@, file@, *config),
{
    let cs = from_chars(cleaned);
    let aliased = apply_aliases(cs.as_str(), file, config);
    let mut r: Vec<Vec<char>> = Vec::new();
    let mut i: usize = 0;
    while i < aliased.len()
        invariant
            i <= aliased.len(),
            crate::text::views(r@) == strings(aliased@).take(i as int),
        decreases aliased.len() - i,
    {
        let ghost before = crate::text::views(r@);
        let x = to_chars(aliased[i].as_str());
        r.push(x);
        assert(crate::text::views(r@) =~= before.push(aliased@[i as int]@));
        assert(strings(aliased@).take(i + 1) =~= strings(aliased@).take(i as int).push(
            aliased@[i as int]@,
        ));
        i += 1;
    }
    assert(strings(aliased@).take(aliased.len() as int) =~= strings(aliased@));
    let fc = to_chars(file);
    let dir = source_dir_exec(fc.as_slice());
    let mut rel = dir;
    rel.push('/');
    crate::text::push_all(&mut rel, cleaned);
    let ghost start = crate::text::views(r@);
    let c0 = sub_chars(cleaned, 0, cleaned.len());
    assert(c0@ =~= cleaned@);
    let c1 = sub_chars(rel.as_slice(), 0, rel.len());
    assert(c1@ =~= rel@);
    r.push(c0);
    r.push(c1);
    r.push(with_suffix(rel.as_slice(), ".ts"));
    r.push(with_suffix(rel.as_slice(), ".tsx"));
    r.push(with_suffix(rel.as_slice(), ".rs"));
    r.push(with_suffix(rel.as_slice(), ".py"));
    r.push(with_suffix(cleaned, ".ts"));
    r.push(with_suffix(cleaned, ".tsx"));
    r.push(with_suffix(cleaned, ".rs"));
    r.push(with_suffix(cleaned, ".py"));
    r.push(with_suffix(cleaned, "/mod.rs"));
    assert(rel@ =~= source_dir(file@) + seq!['/'] + cleaned@);
    assert(crate::text::views(r@) =~= start + fallback_candidates(cleaned@, source_dir(file@)));
    r
}

fn normalize_candidate_exec(c: &[char]) -> (r: Vec<char>)
    ensures
        r@ == normalize_candidate(c@),
{
    let a = replace_char_exec(c, '\\', '/');
    let dot = to_chars("./");
    trim_start_matches_exec(a.as_slice(), dot.as_slice())
}

/// Whether [`row_alias_overlap`] holds of an import.
pub fn row_alias_overlaps(row: &ImportRow, config: &ConfigContext, scope: Option<&Vec<String>>) -> (b:
    bool)
    ensures
        b == row_alias_overlap(*row, *config, scope_view(scope)),
{
    let src = to_chars(row.import_source.as_str());
    if src.len() == 0 {
        return false;
    }
    match scope {
        Some(s) => {
            if !crate::text::strings_contain(s, row.source_file.as_str()) {
                return false;
            }
        },
        None => {},
    }
    let cleaned = clean_import_source_exec(row.import_source.as_str());
    let ws = match config.workspace_for(row.source_file.as_str()) {
        Some(w) => w,
        None => {
            return false;
        },
    };
    assert(governing_workspace(*config, row.source_file@) == Some(*ws));
    let mut i: usize = 0;
    while i < ws.ts_paths.len()
        invariant
            i <= ws.ts_paths.len(),
            governing_workspace(*config, row.source_file@) == Some(*ws),
            cleaned@ == clean_import_source(row.import_source@),
            considered(*row, scope_view(scope)),
            forall|k: int| 0 <= k < i ==> !ts_alias_overlaps(cleaned@, #[trigger] ws.ts_paths@[k].pattern@),
        decreases ws.ts_paths.len() - i,
    {
        let p = to_chars(ws.ts_paths[i].pattern.as_str());
        if ts_alias_overlaps_exec(cleaned.as_slice(), p.as_slice()) {
            assert(ts_alias_overlaps(cleaned@, ws.ts_paths@[i as int].pattern@));
            assert(some_alias_overlaps(cleaned@, ws.ts_paths@));
            return true;
        }
        i += 1;
    }
    false
}

fn resolve_row(
    row: &ImportRow,
    files: &Vec<FileRow>,
    config: &ConfigContext,
    scope: Option<&Vec<String>>,
) -> (r: Option<(Vec<char>, String, String)>)
    requires
        !row_alias_overlap(*row, *config, scope_view(scope)),
    ensures
        match r {
            Some((t, tq, sq)) => import_resolution(*row, files@, *config, scope_view(scope)) == Some(
                (t@, sq@),
            ) && file_lookup(files@, t@) == Some(tq@),
            None => import_resolution(*row, files@, *config, scope_view(scope)) is None,
        },
{
    let src = to_chars(row.import_source.as_str());
    if src.len() == 0 {
        return None;
    }
    match scope {
        Some(s) => {
            if !crate::text::strings_contain(s, row.source_file.as_str()) {
                return None;
            }
        },
        None => {},
    }
    let cleaned = clean_import_source_exec(row.import_source.as_str());
    let cands = candidates_exec(cleaned.as_slice(), row.source_file.as_str(), config);
    let ghost cv = crate::text::views(cands@);
    let mut k: usize = 0;
    while k < cands.len()
        invariant
            k <= cands.len(),
            considered(*row, scope_view(scope)),
            cv == import_candidates(clean_import_source(row.import_source@), row.source_file@, *config),
            cv == crate::text::views(cands@),
            first_known(cv, files@, 0) == first_known(cv, files@, k as int),
        decreases cands.len() - k,
    {
        let key = normalize_candidate_exec(cands[k].as_slice());
        assert(cv[k as int] == cands@[k as int]@);
        match lookup_file(files, key.as_slice()) {
            Some(tq) => {
                assert(first_known(cv, files@, k as int) == Some(key@));
                let sf = to_chars(row.source_file.as_str());
                match lookup_file(files, sf.as_slice()) {
                    Some(sq) => {
                        return Some((key, tq, sq));
                    },
                    None => {
                        return None;
                    },
                }
            },
            None => {},
        }
        k += 1;
    }
    None
}

fn push_wildcard_edges(syms: &Vec<SymbolRow>, target: &[char], src: &str, out: &mut Vec<String>)
    ensures
        strings(final(out)@) == strings(old(out)@) + wildcard_edges(
            syms@,
            target@,
            src@,
            syms@.len() as int,
        ),
{
    let ghost start = strings(out@);
    let mut i: usize = 0;
    while i < syms.len()
        invariant
            i <= syms.len(),
            strings(out@) == start + wildcard_edges(syms@, target@, src@, i as int),
        decreases syms.len() - i,
    {
        let sf = to_chars(syms[i].source_file.as_str());
        if chars_eq(sf.as_slice(), target) {
            let nm = to_chars(syms[i].name.as_str());
            match lookup_symbol(syms, target, nm.as_slice()) {
                Some(j) => {
                    if j == i {
                        push_string(out, symbol_edge_exec(src, &syms[i], true));
                    }
                },
                None => {},
            }
        }
        i += 1;
        assert(strings(out@) =~= start + wildcard_edges(syms@, target@, src@, i as int));
    }
}

fn push_symbol_edges(
    syms: &Vec<SymbolRow>,
    target: &[char],
    src: &str,
    name: &str,
    original: &str,
    out: &mut Vec<String>,
)
    ensures
        strings(final(out)@) == strings(old(out)@) + symbol_edges(
            syms@,
            target@,
            src@,
            name@,
            original@,
        ),
{
    proof {
        lemma_first_symbol(syms@, target@, name@, 0);
        lemma_first_symbol(syms@, target@, original@, 0);
    }
    let nm = to_chars(name);
    let star = nm.len() == 1 && nm[0] == '*';
    assert(star == (name@ == seq!['*'])) by {
        if name@ == seq!['*'] {
            assert(name@[0] == '*');
        }
        if star {
            assert(name@ =~= seq!['*']);
        }
    }
    if nm.len() > 0 && !star {
        match lookup_symbol(syms, target, nm.as_slice()) {
            Some(i) => {
                push_string(out, symbol_edge_exec(src, &syms[i], false));
            },
            None => {
                let og = to_chars(original);
                if og.len() > 0 {
                    match lookup_symbol(syms, target, og.as_slice()) {
                        Some(i) => {
                            push_string(out, symbol_edge_exec(src, &syms[i], false));
                        },
                        None => {},
                    }
                }
            },
        }
    } else if star {
        push_wildcard_edges(syms, target, src, out);
    }
    assert(strings(out@) =~= strings(old(out)@) + symbol_edges(
        syms@,
        target@,
        src@,
        name@,
        original@,
    ));
}

fn pairs_contain(pairs: &Vec<(String, String)>, a: &str, b: &[char]) -> (r: bool)
    ensures
        r == pair_views(pairs@).contains((a@, b@)),
{
    let ac = to_chars(a);
    let mut i: usize = 0;
    while i < pairs.len()
        invariant
            i <= pairs.len(),
            ac@ == a@,
            forall|k: int| 0 <= k < i ==> pair_views(pairs@)[k] != (a@, b@),
        decreases pairs.len() - i,
    {
        if crate::text::str_eq_chars(pairs[i].0.as_str(), ac.as_slice())
            && crate::text::str_eq_chars(pairs[i].1.as_str(), b) {
            assert(pair_views(pairs@)[i as int] == (a@, b@));
            return true;
        }
        i += 1;
    }
    false
}

/// Resolve every import to a target file and plan the IMPORTS edges:
/// a file edge per resolved import, then symbol edges for its bound
/// name or, for `*`, for every symbol of the target. A scope, when
/// given, limits the work to imports from the files it lists.
pub fn plan_import_edges(
    rows: &Vec<ImportRow>,
    files: &Vec<FileRow>,
    syms: &Vec<SymbolRow>,
    config: &ConfigContext,
    scope: Option<&Vec<String>>,
) -> (r: ImportPlan)
    requires
        forall|i: int|
            0 <= i < rows@.len() ==> !row_alias_overlap(#[trigger] rows@[i], *config, scope_view(scope)),
    ensures
        strings(r.edge_stmts@) == plan_edges(
            rows@,
            files@,
            syms@,
            *config,
            scope_view(scope),
            rows@.len() as int,
        ),
        pair_views(r.import_map@) == plan_pairs(
            rows@,
            files@,
            *config,
            scope_view(scope),
            rows@.len() as int,
        ),
{
    let mut edges: Vec<String> = Vec::new();
    let mut pairs: Vec<(String, String)> = Vec::new();
    let ghost sv = scope_view(scope);
    let mut i: usize = 0;
    while i < rows.len()
        invariant
            i <= rows.len(),
            sv == scope_view(scope),
            forall|k: int| 0 <= k < rows@.len() ==> !row_alias_overlap(#[trigger] rows@[k], *config, sv),
            strings(edges@) == plan_edges(rows@, files@, syms@, *config, sv, i as int),
            pair_views(pairs@) == plan_pairs(rows@, files@, *config, sv, i as int),
        decreases rows.len() - i,
    {
        let row = &rows[i];
        assert(!row_alias_overlap(rows@[i as int], *config, sv));
        let ghost before = strings(edges@);
        match resolve_row(row, files, config, scope) {
            Some((target, tq, sq)) => {
                push_string(&mut edges, file_edge_exec(sq.as_str(), tq.as_str()));
                push_symbol_edges(
                    syms,
                    target.as_slice(),
                    sq.as_str(),
                    row.name.as_str(),
                    row.original_name.as_str(),
                    &mut edges,
                );
                assert(strings(edges@) =~= before + row_edges(rows@[i as int], files@, syms@, *config, sv));
                if !pairs_contain(&pairs, row.source_file.as_str(), target.as_slice()) {
                    let ghost pv = pair_views(pairs@);
                    pairs.push((row.source_file.as_str().to_owned(), from_chars(target.as_slice())));
                    assert(pair_views(pairs@) =~= pv.push((row.source_file@, target@)));
                }
            },
            None => {
                assert(strings(edges@) =~= before + row_edges(rows@[i as int], files@, syms@, *config, sv));
            },
        }
        i += 1;
    }
    ImportPlan { edge_stmts: edges, import_map: pairs }
}


// ── import cycles ───────────────────────────────────────────────────

/// Every file an import pair mentions.
pub open spec fn graph_nodes(pairs: Seq<(Seq<char>, Seq<char>)>) -> Set<Seq<char>> {
    Set::new(
        |f: Seq<char>| exists|i: int| 0 <= i < pairs.len() && (pairs[i].0 == f || pairs[i].1 == f),
    )
}

/// One peeling round: the files all of whose importers are in `done`.
pub open spec fn peel_step(pairs: Seq<(Seq<char>, Seq<char>)>, done: Set<Seq<char>>) -> Set<
    Seq<char>,
> {
    graph_nodes(pairs).filter(
        |v: Seq<char>|
            forall|i: int| 0 <= i < pairs.len() && pairs[i].1 == v ==> done.contains(pairs[i].0),
    )
}

/// The files peeled off after `k` rounds (Kahn's algorithm removes a
/// file once every file importing it has been removed).
pub open spec fn peeled(pairs: Seq<(Seq<char>, Seq<char>)>, k: nat) -> Set<Seq<char>>
    decreases k,
{
    if k == 0 {
        Set::empty()
    } else {
        peel_step(pairs, peeled(pairs, (k - 1) as nat))
    }
}

/// The files Kahn's algorithm never peels off: those on an import
/// cycle or reachable from one.
pub open spec fn unpeeled_files(pairs: Seq<(Seq<char>, Seq<char>)>) -> Set<Seq<char>> {
    graph_nodes(pairs).difference(peeled(pairs, graph_nodes(pairs).len()))
}

/// Once a round changes nothing, no later round does.
pub proof fn lemma_peeled_stable(pairs: Seq<(Seq<char>, Seq<char>)>, k: nat, m: nat)
    requires
        peeled(pairs, k + 1) == peeled(pairs, k),
        k <= m,
    ensures
        peeled(pairs, m) == peeled(pairs, k),
    decreases m - k,
{
    if m > k {
        lemma_peeled_stable(pairs, k, (m - 1) as nat);
        assert(peeled(pairs, m) == peel_step(pairs, peeled(pairs, (m - 1) as nat)));
    }
}

/// The files flagged in `flags`.
pub open spec fn flagged(nodes: Seq<Seq<char>>, flags: Seq<bool>) -> Set<Seq<char>> {
    Set::new(|v: Seq<char>| exists|j: int| 0 <= j < nodes.len() && flags[j] && nodes[j] == v)
}

/// The node list and the endpoints of each pair as indices into it.
pub open spec fn indexed_graph(
    pairs: Seq<(Seq<char>, Seq<char>)>,
    nodes: Seq<Seq<char>>,
    src: Seq<usize>,
    dst: Seq<usize>,
) -> bool {
    &&& nodes.no_duplicates()
    &&& src.len() == pairs.len()
    &&& dst.len() == pairs.len()
    &&& forall|e: int|
        0 <= e < pairs.len() ==> src[e] < nodes.len() && dst[e] < nodes.len() && nodes[src[e] as int]
            == pairs[e].0 && nodes[dst[e] as int] == pairs[e].1
}

fn node_index(nodes: &mut Vec<Vec<char>>, x: &[char]) -> (j: usize)
    ensures
        crate::text::views(old(nodes)@).contains(x@) ==> crate::text::views(final(nodes)@)
            == crate::text::views(old(nodes)@),
        !crate::text::views(old(nodes)@).contains(x@) ==> crate::text::views(final(nodes)@)
            == crate::text::views(old(nodes)@).push(x@),
        j < final(nodes)@.len(),
        crate::text::views(final(nodes)@)[j as int] == x@,
{
    let mut i: usize = 0;
    while i < nodes.len()
        invariant
            i <= nodes.len(),
            nodes@ == old(nodes)@,
            forall|k: int| 0 <= k < i ==> crate::text::views(nodes@)[k] != x@,
        decreases nodes.len() - i,
    {
        if chars_eq(nodes[i].as_slice(), x) {
            assert(crate::text::views(nodes@)[i as int] == x@);
            assert(crate::text::views(nodes@).contains(x@));
            return i;
        }
        i += 1;
    }
    let ghost before = crate::text::views(nodes@);
    let c = sub_chars(x, 0, x.len());
    assert(c@ =~= x@);
    nodes.push(c);
    assert(crate::text::views(nodes@) =~= before.push(x@));
    nodes.len() - 1
}

fn build_graph(pairs: &Vec<(String, String)>) -> (r: (Vec<Vec<char>>, Vec<usize>, Vec<usize>))
    ensures
        indexed_graph(pair_views(pairs@), crate::text::views(r.0@), r.1@, r.2@),
        crate::text::views(r.0@).to_set() == graph_nodes(pair_views(pairs@)),
{
    let ghost pv = pair_views(pairs@);
    let mut nodes: Vec<Vec<char>> = Vec::new();
    let mut src: Vec<usize> = Vec::new();
    let mut dst: Vec<usize> = Vec::new();
    let mut i: usize = 0;
    while i < pairs.len()
        invariant
            i <= pairs.len(),
            pv == pair_views(pairs@),
            indexed_graph(pv.take(i as int), crate::text::views(nodes@), src@, dst@),
            forall|v: Seq<char>|
                crate::text::views(nodes@).contains(v) <==> graph_nodes(pv.take(i as int)).contains(v),
        decreases pairs.len() - i,
    {
        let ghost n0 = crate::text::views(nodes@);
        let a = to_chars(pairs[i].0.as_str());
        let b = to_chars(pairs[i].1.as_str());
        let ja = node_index(&mut nodes, a.as_slice());
        let ghost n1 = crate::text::views(nodes@);
        let jb = node_index(&mut nodes, b.as_slice());
        let ghost n2 = crate::text::views(nodes@);
        src.push(ja);
        dst.push(jb);
        let ghost t = pv.take(i + 1);
        assert(t =~= pv.take(i as int).push(pv[i as int]));
        assert(pv[i as int] == (a@, b@));
        assert(forall|k: int| 0 <= k < n0.len() ==> n2[k] == n0[k]);
        assert(forall|k: int| 0 <= k < n1.len() ==> n2[k] == n1[k]);
        assert(n2.no_duplicates()) by {
            assert(n1.no_duplicates()) by {
                if !n0.contains(a@) {
                    assert forall|p: int, q: int| 0 <= p < n1.len() && 0 <= q < n1.len() && p != q implies n1[p] != n1[q] by {
                        if p == n0.len() as int {
                            assert(n1[p] == a@);
                            assert(n0[q] == n1[q]);
                        } else if q == n0.len() as int {
                            assert(n0[p] == n1[p]);
                        }
                    }
                }
            }
            if !n1.contains(b@) {
                assert forall|p: int, q: int| 0 <= p < n2.len() && 0 <= q < n2.len() && p != q implies n2[p] != n2[q] by {
                    if p == n1.len() as int {
                        assert(n1[q] == n2[q]);
                    } else if q == n1.len() as int {
                        assert(n1[p] == n2[p]);
                    }
                }
            }
        }
        assert forall|v: Seq<char>| n2.contains(v) <==> graph_nodes(t).contains(v) by {
            if n2.contains(v) {
                let k = choose|k: int| 0 <= k < n2.len() && n2[k] == v;
                if v == a@ {
                    assert(t[i as int].0 == v);
                } else if v == b@ {
                    assert(t[i as int].1 == v);
                } else {
                    assert(k < n0.len());
                    assert(n0[k] == v);
                    assert(n0.contains(v));
                    let e = choose|e: int| 0 <= e < i && (pv.take(i as int)[e].0 == v || pv.take(i as int)[e].1 == v);
                    assert(t[e] == pv.take(i as int)[e]);
                }
            }
            if graph_nodes(t).contains(v) {
                let e = choose|e: int| 0 <= e < t.len() && (t[e].0 == v || t[e].1 == v);
                if e == i as int {
                    if v == a@ {
                        assert(n2[ja as int] == v);
                    } else {
                        assert(n2[jb as int] == v);
                    }
                } else {
                    assert(t[e] == pv.take(i as int)[e]);
                    assert(graph_nodes(pv.take(i as int)).contains(v));
                    assert(n0.contains(v));
                    let k = choose|k: int| 0 <= k < n0.len() && n0[k] == v;
                    assert(n2[k] == v);
                }
            }
        }
        assert(indexed_graph(t, n2, src@, dst@)) by {
            assert forall|e: int| 0 <= e < t.len() implies src@[e] < n2.len() && dst@[e] < n2.len()
                && n2[src@[e] as int] == t[e].0 && n2[dst@[e] as int] == t[e].1 by {
                if e < i as int {
                    assert(t[e] == pv.take(i as int)[e]);
                }
            }
        }
        i += 1;
    }
    assert(pv.take(pairs.len() as int) =~= pv);
    assert(crate::text::views(nodes@).to_set() =~= graph_nodes(pv));
    (nodes, src, dst)
}

fn peel_round(n: usize, src: &Vec<usize>, dst: &Vec<usize>, cur: &Vec<bool>) -> (next: Vec<bool>)
    requires
        cur@.len() == n,
        src@.len() == dst@.len(),
        forall|e: int| 0 <= e < src@.len() ==> src@[e] < n && dst@[e] < n,
    ensures
        next@.len() == n,
        forall|j: int|
            0 <= j < n ==> (next@[j] <==> forall|e: int|
                0 <= e < dst@.len() && dst@[e] == j ==> cur@[src@[e] as int]),
{
    let mut next: Vec<bool> = Vec::new();
    let mut j: usize = 0;
    while j < n
        invariant
            j <= n,
            next@.len() == j,
            forall|k: int| 0 <= k < j ==> next@[k],
        decreases n - j,
    {
        next.push(true);
        j += 1;
    }
    let mut e: usize = 0;
    while e < src.len()
        invariant
            e <= src@.len(),
            src@.len() == dst@.len(),
            cur@.len() == n,
            next@.len() == n,
            forall|f: int| 0 <= f < src@.len() ==> src@[f] < n && dst@[f] < n,
            forall|k: int|
                0 <= k < n ==> (next@[k] <==> forall|f: int|
                    0 <= f < e && dst@[f] == k ==> cur@[src@[f] as int]),
        decreases src@.len() - e,
    {
        if !cur[src[e]] {
            next.set(dst[e], false);
        }
        e += 1;
    }
    next
}

proof fn lemma_round_matches(
    pairs: Seq<(Seq<char>, Seq<char>)>,
    nodes: Seq<Seq<char>>,
    src: Seq<usize>,
    dst: Seq<usize>,
    cur: Seq<bool>,
    next: Seq<bool>,
)
    requires
        indexed_graph(pairs, nodes, src, dst),
        nodes.to_set() == graph_nodes(pairs),
        cur.len() == nodes.len(),
        next.len() == nodes.len(),
        forall|j: int|
            0 <= j < nodes.len() ==> (next[j] <==> forall|e: int|
                0 <= e < dst.len() && dst[e] == j ==> cur[src[e] as int]),
    ensures
        flagged(nodes, next) == peel_step(pairs, flagged(nodes, cur)),
{
    let p = flagged(nodes, cur);
    assert forall|v: Seq<char>| flagged(nodes, next).contains(v) <==> peel_step(pairs, p).contains(v) by {
        if flagged(nodes, next).contains(v) {
            let j = choose|j: int| 0 <= j < nodes.len() && next[j] && nodes[j] == v;
            assert(nodes.to_set().contains(v));
            assert forall|e: int| 0 <= e < pairs.len() && pairs[e].1 == v implies p.contains(pairs[e].0) by {
                assert(nodes[dst[e] as int] == nodes[j]);
                assert(dst[e] == j);
                assert(cur[src[e] as int]);
            }
        }
        if peel_step(pairs, p).contains(v) {
            assert(nodes.to_set().contains(v));
            let j = choose|j: int| 0 <= j < nodes.len() && nodes[j] == v;
            assert forall|e: int| 0 <= e < dst.len() && dst[e] == j implies cur[src[e] as int] by {
                assert(pairs[e].1 == v);
                assert(p.contains(pairs[e].0));
                let k = choose|k: int| 0 <= k < nodes.len() && cur[k] && nodes[k] == pairs[e].0;
                assert(nodes[k] == nodes[src[e] as int]);
            }
        }
    }
    assert(flagged(nodes, next) =~= peel_step(pairs, p));
}

/// Kahn's peeling: flags the files that are removed once every file
/// importing them has been removed, over as many rounds as there are
/// files.
fn kahn_peeled(
    nodes: &Vec<Vec<char>>,
    src: &Vec<usize>,
    dst: &Vec<usize>,
    Ghost(pv): Ghost<Seq<(Seq<char>, Seq<char>)>>,
) -> (cur: Vec<bool>)
    requires
        indexed_graph(pv, crate::text::views(nodes@), src@, dst@),
        crate::text::views(nodes@).to_set() == graph_nodes(pv),
    ensures
        cur@.len() == nodes@.len(),
        flagged(crate::text::views(nodes@), cur@) == peeled(pv, nodes@.len() as nat),
{
    let ghost nv = crate::text::views(nodes@);
    let n = nodes.len();
    let mut cur: Vec<bool> = Vec::new();
    let mut j: usize = 0;
    while j < n
        invariant
            j <= n,
            cur@.len() == j,
            forall|k: int| 0 <= k < j ==> !cur@[k],
        decreases n - j,
    {
        cur.push(false);
        j += 1;
    }
    assert(flagged(nv, cur@) =~= peeled(pv, 0));
    let mut k: usize = 0;
    while k < n
        invariant
            k <= n,
            n == nv.len(),
            nv == crate::text::views(nodes@),
            nv.no_duplicates(),
            indexed_graph(pv, nv, src@, dst@),
            nv.to_set() == graph_nodes(pv),
            cur@.len() == n,
            flagged(nv, cur@) == peeled(pv, k as nat),
            k < n ==> true,
        ensures
            flagged(nv, cur@) == peeled(pv, n as nat),
            cur@.len() == n,
        decreases n - k,
    {
        let next = peel_round(n, &src, &dst, &cur);
        proof {
            lemma_round_matches(pv, nv, src@, dst@, cur@, next@);
        }
        assert(flagged(nv, next@) == peeled(pv, (k + 1) as nat));
        let mut same = true;
        let mut q: usize = 0;
        while q < n
            invariant
                q <= n,
                cur@.len() == n,
                next@.len() == n,
                same <==> forall|z: int| 0 <= z < q ==> cur@[z] == next@[z],
            decreases n - q,
        {
            if cur[q] != next[q] {
                same = false;
            }
            q += 1;
        }
        if same {
            assert(cur@ =~= next@);
            proof {
                lemma_peeled_stable(pv, k as nat, n as nat);
            }
            break;
        }
        cur = next;
        k += 1;
    }
    cur
}

/// How many flags are set.
spec fn count_true(s: Seq<bool>) -> nat
    decreases s.len(),
{
    if s.len() == 0 {
        0
    } else {
        count_true(s.drop_last()) + if s.last() {
            1nat
        } else {
            0nat
        }
    }
}

proof fn lemma_count_true_zero(s: Seq<bool>, t: int)
    requires
        0 <= t <= s.len(),
        forall|k: int| 0 <= k < s.len() ==> !s[k],
    ensures
        count_true(s.take(t)) == 0,
    decreases t,
{
    if t > 0 {
        lemma_count_true_zero(s, t - 1);
        assert(s.take(t).drop_last() =~= s.take(t - 1));
    }
}

proof fn lemma_count_true_bound(s: Seq<bool>)
    ensures
        count_true(s) <= s.len(),
    decreases s.len(),
{
    if s.len() > 0 {
        lemma_count_true_bound(s.drop_last());
    }
}

proof fn lemma_count_true_set(s: Seq<bool>, i: int)
    requires
        0 <= i < s.len(),
        !s[i],
    ensures
        count_true(s.update(i, true)) == count_true(s) + 1,
    decreases s.len(),
{
    let u = s.update(i, true);
    if i == s.len() - 1 {
        assert(u.drop_last() =~= s.drop_last());
    } else {
        lemma_count_true_set(s.drop_last(), i);
        assert(u.drop_last() =~= s.drop_last().update(i, true));
    }
}

proof fn lemma_flagged_at(nodes: Seq<Seq<char>>, flags: Seq<bool>, k: int)
    requires
        nodes.no_duplicates(),
        flags.len() == nodes.len(),
        0 <= k < nodes.len(),
    ensures
        flagged(nodes, flags).contains(nodes[k]) <==> flags[k],
{
    if flagged(nodes, flags).contains(nodes[k]) {
        let j = choose|j: int| 0 <= j < nodes.len() && flags[j] && nodes[j] == nodes[k];
        assert(j == k);
    }
}

/// Whether the file at index `v` imports itself through one or more
/// imports: the files its imports reach are marked round after round
/// until a round marks nothing new.
fn reaches_itself(
    v: usize,
    nodes: &Vec<Vec<char>>,
    src: &Vec<usize>,
    dst: &Vec<usize>,
    Ghost(pv): Ghost<Seq<(Seq<char>, Seq<char>)>>,
) -> (b: bool)
    requires
        indexed_graph(pv, crate::text::views(nodes@), src@, dst@),
        crate::text::views(nodes@).to_set() == graph_nodes(pv),
        v < nodes@.len(),
    ensures
        b == on_cycle(pv, crate::text::views(nodes@)[v as int]),
{
    let ghost nv = crate::text::views(nodes@);
    let ghost s = imported_by(pv, set![nv[v as int]]);
    let ghost big = reach(pv, s, graph_nodes(pv).len());
    proof {
        lemma_imported_by_in_graph(pv, set![nv[v as int]]);
        lemma_reach_fixpoint(pv, s);
        lemma_reach_monotone(pv, s, graph_nodes(pv).len());
    }
    let n = nodes.len();
    let m = src.len();
    let mut seen: Vec<bool> = Vec::new();
    let mut j: usize = 0;
    while j < n
        invariant
            j <= n,
            seen@.len() == j,
            forall|k: int| 0 <= k < j ==> !seen@[k],
        decreases n - j,
    {
        seen.push(false);
        j += 1;
    }
    assert(count_true(seen@) == 0) by {
        assert forall|t: int| 0 <= t <= seen@.len() implies count_true(#[trigger] seen@.take(t)) == 0 by {
            lemma_count_true_zero(seen@, t);
        }
        assert(seen@.take(seen@.len() as int) =~= seen@);
    }
    let mut count: usize = 0;
    let mut e: usize = 0;
    while e < m
        invariant
            e <= m,
            m == pv.len(),
            n == nv.len(),
            nv == crate::text::views(nodes@),
            indexed_graph(pv, nv, src@, dst@),
            v < n,
            s == imported_by(pv, set![nv[v as int]]),
            seen@.len() == n,
            count == count_true(seen@),
            count <= n,
            forall|x: Seq<char>|
                flagged(nv, seen@).contains(x) <==> exists|i: int|
                    0 <= i < e && pv[i].0 == nv[v as int] && pv[i].1 == x,
        decreases m - e,
    {
        let d = dst[e];
        let ghost before = seen@;
        if src[e] == v && !seen[d] {
            proof {
                lemma_count_true_set(seen@, d as int);
                lemma_count_true_bound(seen@.update(d as int, true));
            }
            seen.set(d, true);
            count += 1;
        }
        proof {
            assert forall|x: Seq<char>|
                flagged(nv, seen@).contains(x) <==> exists|i: int|
                    0 <= i < e + 1 && pv[i].0 == nv[v as int] && pv[i].1 == x by {
                if flagged(nv, seen@).contains(x) {
                    let y = choose|y: int| 0 <= y < nv.len() && seen@[y] && nv[y] == x;
                    if before[y] {
                        assert(flagged(nv, before).contains(x));
                        let i = choose|i: int| 0 <= i < e && pv[i].0 == nv[v as int] && pv[i].1 == x;
                        assert(0 <= i < e + 1 && pv[i].0 == nv[v as int] && pv[i].1 == x);
                    } else {
                        assert(y == d as int && src@[e as int] == v);
                        assert(pv[e as int].1 == x);
                        assert(pv[e as int].0 == nv[v as int]);
                    }
                }
                if exists|i: int| 0 <= i < e + 1 && pv[i].0 == nv[v as int] && pv[i].1 == x {
                    let i = choose|i: int| 0 <= i < e + 1 && pv[i].0 == nv[v as int] && pv[i].1 == x;
                    if i == e {
                        assert(nv[src@[e as int] as int] == nv[v as int]);
                        assert(src@[e as int] == v);
                        assert(seen@[d as int]);
                        assert(nv[d as int] == x);
                    } else {
                        assert(flagged(nv, before).contains(x));
                        let y = choose|y: int| 0 <= y < nv.len() && before[y] && nv[y] == x;
                        assert(seen@[y]);
                    }
                }
            }
        }
        e += 1;
    }
    assert(flagged(nv, seen@) =~= s) by {
        assert forall|x: Seq<char>| s.contains(x) implies flagged(nv, seen@).contains(x) by {
            let i = choose|i: int| 0 <= i < pv.len() && set![nv[v as int]].contains(pv[i].0) && pv[i].1 == x;
        }
    }
    let mut changed = true;
    while changed
        invariant
            m == pv.len(),
            n == nv.len(),
            nv == crate::text::views(nodes@),
            indexed_graph(pv, nv, src@, dst@),
            v < n,
            seen@.len() == n,
            count == count_true(seen@),
            count <= n,
            s.subset_of(flagged(nv, seen@)),
            flagged(nv, seen@).subset_of(big),
            imported_by(pv, big).subset_of(big),
            !changed ==> imported_by(pv, flagged(nv, seen@)).subset_of(flagged(nv, seen@)),
        decreases 2 * (n - count) + if changed {
            1int
        } else {
            0int
        },
    {
        let ghost start = seen@;
        let ghost count0 = count;
        changed = false;
        let mut e: usize = 0;
        while e < m
            invariant
                e <= m,
                m == pv.len(),
                n == nv.len(),
                nv == crate::text::views(nodes@),
                indexed_graph(pv, nv, src@, dst@),
                seen@.len() == n,
                count == count_true(seen@),
                count <= n,
                count >= count0,
                changed ==> count > count0,
                !changed ==> seen@ == start,
                s.subset_of(flagged(nv, seen@)),
                flagged(nv, seen@).subset_of(big),
                imported_by(pv, big).subset_of(big),
                !changed ==> forall|i: int| 0 <= i < e ==> (seen@[src@[i] as int] ==> #[trigger] seen@[dst@[i] as int]),
            decreases m - e,
        {
            let a = src[e];
            let d = dst[e];
            if seen[a] && !seen[d] {
                proof {
                    lemma_count_true_set(seen@, d as int);
                    lemma_count_true_bound(seen@.update(d as int, true));
                    lemma_flagged_at(nv, seen@, a as int);
                    assert(imported_by(pv, big).contains(pv[e as int].1)) by {
                        assert(big.contains(pv[e as int].0));
                    }
                }
                let ghost before = seen@;
                seen.set(d, true);
                count += 1;
                changed = true;
                proof {
                    assert(flagged(nv, seen@) =~= flagged(nv, before).insert(nv[d as int])) by {
                        assert forall|x: Seq<char>| flagged(nv, seen@).contains(x) implies flagged(nv, before).insert(nv[d as int]).contains(x) by {
                            let y = choose|y: int| 0 <= y < nv.len() && seen@[y] && nv[y] == x;
                            if y != d as int {
                                assert(before[y]);
                            }
                        }
                        assert forall|x: Seq<char>| flagged(nv, before).contains(x) implies flagged(nv, seen@).contains(x) by {
                            let y = choose|y: int| 0 <= y < nv.len() && before[y] && nv[y] == x;
                            assert(seen@[y]);
                        }
                        assert(seen@[d as int]);
                    }
                }
            }
            e += 1;
        }
        proof {
            if !changed {
                assert forall|x: Seq<char>| imported_by(pv, flagged(nv, seen@)).contains(x) implies flagged(nv, seen@).contains(x) by {
                    let i = choose|i: int| 0 <= i < pv.len() && flagged(nv, seen@).contains(pv[i].0) && pv[i].1 == x;
                    lemma_flagged_at(nv, seen@, src@[i] as int);
                    assert(seen@[src@[i] as int]);
                    assert(seen@[dst@[i] as int]);
                    lemma_flagged_at(nv, seen@, dst@[i] as int);
                }
            }
        }
    }
    proof {
        lemma_reach_in_closed(pv, s, flagged(nv, seen@), graph_nodes(pv).len());
        lemma_flagged_at(nv, seen@, v as int);
    }
    seen[v]
}

/// Count the files that sit on an import cycle. Kahn's peeling first
/// sets aside every file that cannot be on one; each remaining file is
/// counted when it imports itself through one or more imports.
pub fn count_import_cycle_files(import_map: &Vec<(String, String)>) -> (r: u32)
    ensures
        r == cycle_files(pair_views(import_map@)).len() as u32,
{
    let ghost pv = pair_views(import_map@);
    let (nodes, src, dst) = build_graph(import_map);
    let ghost nv = crate::text::views(nodes@);
    proof {
        nv.unique_seq_to_set();
    }
    let n = nodes.len();
    let cur = kahn_peeled(&nodes, &src, &dst, Ghost(pv));
    let mut on: Vec<bool> = Vec::new();
    let mut z: usize = 0;
    while z < n
        invariant
            z <= n,
            n == nv.len(),
            nv == crate::text::views(nodes@),
            nv.no_duplicates(),
            indexed_graph(pv, nv, src@, dst@),
            nv.to_set() == graph_nodes(pv),
            cur@.len() == n,
            flagged(nv, cur@) == peeled(pv, n as nat),
            on@.len() == z,
            forall|y: int| 0 <= y < z ==> on@[y] == on_cycle(pv, #[trigger] nv[y]),
        decreases n - z,
    {
        let b = if cur[z] {
            proof {
                assert(flagged(nv, cur@).contains(nv[z as int]));
                if on_cycle(pv, nv[z as int]) {
                    let cyc = lemma_on_cycle_has_cycle(pv, nv[z as int]);
                    lemma_cycle_members_unpeeled(pv, cyc);
                    let j = choose|j: int| 0 <= j < cyc.len() && cyc[j] == nv[z as int];
                    assert(unpeeled_files(pv).contains(cyc[j]));
                    assert(nv.len() == graph_nodes(pv).len()) by {
                        nv.unique_seq_to_set();
                    }
                }
            }
            false
        } else {
            reaches_itself(z, &nodes, &src, &dst, Ghost(pv))
        };
        on.push(b);
        z += 1;
    }
    let mut count: usize = 0;
    let ghost mut left: Seq<Seq<char>> = Seq::empty();
    let mut i: usize = 0;
    while i < n
        invariant
            i <= n,
            n == nv.len(),
            nv.no_duplicates(),
            on@.len() == n,
            count == left.len(),
            left.len() <= i,
            left.no_duplicates(),
            forall|v: Seq<char>|
                left.contains(v) <==> exists|z: int| 0 <= z < i && on@[z] && nv[z] == v,
        decreases n - i,
    {
        if on[i] {
            proof {
                if left.contains(nv[i as int]) {
                    let z = choose|z: int| 0 <= z < i && on@[z] && nv[z] == nv[i as int];
                }
                let old_left = left;
                left = left.push(nv[i as int]);
                assert forall|p: int, q: int| 0 <= p < left.len() && 0 <= q < left.len() && p != q implies left[p] != left[q] by {
                    if p == old_left.len() as int {
                        assert(old_left.contains(left[q]));
                    } else if q == old_left.len() as int {
                        assert(old_left.contains(left[p]));
                    }
                }
                assert forall|v: Seq<char>| left.contains(v) <==> exists|z: int| 0 <= z < i + 1 && on@[z] && nv[z] == v by {
                    if left.contains(v) && v != nv[i as int] {
                        let y = choose|y: int| 0 <= y < left.len() && left[y] == v;
                        assert(old_left.contains(v)) by {
                            assert(old_left[y] == v);
                        }
                    }
                    if exists|z: int| 0 <= z < i + 1 && on@[z] && nv[z] == v {
                        if v != nv[i as int] {
                            let z = choose|z: int| 0 <= z < i + 1 && on@[z] && nv[z] == v;
                            assert(old_left.contains(v));
                            let y = choose|y: int| 0 <= y < old_left.len() && old_left[y] == v;
                            assert(left[y] == v);
                        } else {
                            assert(left[old_left.len() as int] == v);
                        }
                    }
                }
            }
            count += 1;
        }
        i += 1;
    }
    proof {
        left.unique_seq_to_set();
        assert(left.to_set() =~= cycle_files(pv)) by {
            assert forall|v: Seq<char>| left.to_set().contains(v) <==> cycle_files(pv).contains(v) by {
                if left.contains(v) {
                    let z = choose|z: int| 0 <= z < n && on@[z] && nv[z] == v;
                    assert(nv.to_set().contains(v));
                }
                if cycle_files(pv).contains(v) {
                    assert(nv.to_set().contains(v));
                    let z = choose|z: int| 0 <= z < nv.len() && nv[z] == v;
                    assert(on@[z]);
                }
            }
        }
    }
    count as u32
}

// ── what the cycle count means ──────────────────────────────────────

proof fn lemma_graph_nodes_finite(pairs: Seq<(Seq<char>, Seq<char>)>)
    ensures
        graph_nodes(pairs).finite(),
    decreases pairs.len(),
{
    if pairs.len() == 0 {
        assert(graph_nodes(pairs) =~= Set::empty());
    } else {
        let rest = pairs.drop_last();
        lemma_graph_nodes_finite(rest);
        assert(graph_nodes(pairs) =~= graph_nodes(rest).insert(pairs.last().0).insert(
            pairs.last().1,
        )) by {
            assert forall|f: Seq<char>| graph_nodes(pairs).contains(f) implies graph_nodes(
                rest,
            ).insert(pairs.last().0).insert(pairs.last().1).contains(f) by {
                let i = choose|i: int| 0 <= i < pairs.len() && (pairs[i].0 == f || pairs[i].1 == f);
                if i < rest.len() {
                    assert(rest[i] == pairs[i]);
                }
            }
            assert forall|f: Seq<char>| graph_nodes(rest).contains(f) implies graph_nodes(
                pairs,
            ).contains(f) by {
                let i = choose|i: int| 0 <= i < rest.len() && (rest[i].0 == f || rest[i].1 == f);
                assert(pairs[i] == rest[i]);
            }
            assert(graph_nodes(pairs).contains(pairs.last().0)) by {
                assert(pairs[pairs.len() - 1] == pairs.last());
            }
            assert(graph_nodes(pairs).contains(pairs.last().1)) by {
                assert(pairs[pairs.len() - 1] == pairs.last());
            }
        }
    }
}

/// Each consecutive pair of `cyc`, wrapping around, is an import.
pub open spec fn is_import_cycle(pairs: Seq<(Seq<char>, Seq<char>)>, cyc: Seq<Seq<char>>) -> bool {
    &&& cyc.len() > 0
    &&& forall|j: int|
        0 <= j < cyc.len() ==> #[trigger] pairs.contains((cyc[j], cyc[(j + 1) % (cyc.len() as int)]))
}

/// Kahn's peeling never removes a file on an import cycle.
proof fn lemma_cycle_members_unpeeled(pairs: Seq<(Seq<char>, Seq<char>)>, cyc: Seq<Seq<char>>)
    requires
        is_import_cycle(pairs, cyc),
    ensures
        forall|j: int| 0 <= j < cyc.len() ==> unpeeled_files(pairs).contains(#[trigger] cyc[j]),
{
    let n = graph_nodes(pairs).len();
    lemma_never_peeled(pairs, cyc, n);
    assert forall|j: int| 0 <= j < cyc.len() implies unpeeled_files(pairs).contains(#[trigger] cyc[j]) by {
        assert(pairs.contains((cyc[j], cyc[(j + 1) % (cyc.len() as int)])));
        let i = choose|i: int| 0 <= i < pairs.len() && pairs[i] == (cyc[j], cyc[(j + 1) % (cyc.len() as int)]);
        assert(graph_nodes(pairs).contains(cyc[j]));
    }
}

proof fn lemma_never_peeled(pairs: Seq<(Seq<char>, Seq<char>)>, cyc: Seq<Seq<char>>, k: nat)
    requires
        is_import_cycle(pairs, cyc),
    ensures
        forall|j: int| 0 <= j < cyc.len() ==> !peeled(pairs, k).contains(#[trigger] cyc[j]),
    decreases k,
{
    if k > 0 {
        lemma_never_peeled(pairs, cyc, (k - 1) as nat);
        let m = cyc.len() as int;
        assert forall|j: int| 0 <= j < m implies !peeled(pairs, k).contains(#[trigger] cyc[j]) by {
            let pj = if j == 0 { m - 1 } else { j - 1 };
            assert((pj + 1) % m == j) by {
                if j == 0 {
                    assert((m - 1 + 1) % m == 0) by (nonlinear_arith)
                        requires m > 0;
                } else {
                    assert((j - 1 + 1) % m == j) by (nonlinear_arith)
                        requires 0 < j < m;
                }
            }
            assert(pairs.contains((cyc[pj], cyc[(pj + 1) % m])));
            let i = choose|i: int| 0 <= i < pairs.len() && pairs[i] == (cyc[pj], cyc[(pj + 1) % m]);
            assert(!peeled(pairs, (k - 1) as nat).contains(cyc[pj]));
        }
    }
}


// ── files on a cycle ────────────────────────────────────────────────

/// The files imported by some file of `s`.
pub open spec fn imported_by(pairs: Seq<(Seq<char>, Seq<char>)>, s: Set<Seq<char>>) -> Set<Seq<char>> {
    Set::new(
        |f: Seq<char>| exists|i: int| 0 <= i < pairs.len() && s.contains(pairs[i].0) && pairs[i].1 == f,
    )
}

/// The files reached from `s` in at most `k` import steps.
pub open spec fn reach(pairs: Seq<(Seq<char>, Seq<char>)>, s: Set<Seq<char>>, k: nat) -> Set<Seq<char>>
    decreases k,
{
    if k == 0 {
        s
    } else {
        let r = reach(pairs, s, (k - 1) as nat);
        r.union(imported_by(pairs, r))
    }
}

/// `v` imports itself through one or more imports.
pub open spec fn on_cycle(pairs: Seq<(Seq<char>, Seq<char>)>, v: Seq<char>) -> bool {
    reach(pairs, imported_by(pairs, set![v]), graph_nodes(pairs).len()).contains(v)
}

/// The files that sit on an import cycle.
pub open spec fn cycle_files(pairs: Seq<(Seq<char>, Seq<char>)>) -> Set<Seq<char>> {
    graph_nodes(pairs).filter(|v: Seq<char>| on_cycle(pairs, v))
}

/// Consecutive files of `w` are imports.
pub open spec fn is_walk(pairs: Seq<(Seq<char>, Seq<char>)>, w: Seq<Seq<char>>) -> bool {
    forall|i: int| 0 <= i < w.len() - 1 ==> #[trigger] pairs.contains((w[i], w[i + 1]))
}

proof fn lemma_imported_by_in_graph(pairs: Seq<(Seq<char>, Seq<char>)>, s: Set<Seq<char>>)
    ensures
        imported_by(pairs, s).subset_of(graph_nodes(pairs)),
{
    assert forall|f: Seq<char>| imported_by(pairs, s).contains(f) implies graph_nodes(pairs).contains(f) by {
        let i = choose|i: int| 0 <= i < pairs.len() && s.contains(pairs[i].0) && pairs[i].1 == f;
    }
}

proof fn lemma_reach_monotone(pairs: Seq<(Seq<char>, Seq<char>)>, s: Set<Seq<char>>, k: nat)
    ensures
        reach(pairs, s, k).subset_of(reach(pairs, s, k + 1)),
        s.subset_of(reach(pairs, s, k)),
        s.subset_of(graph_nodes(pairs)) ==> reach(pairs, s, k).subset_of(graph_nodes(pairs)),
    decreases k,
{
    lemma_imported_by_in_graph(pairs, reach(pairs, s, k));
    if k > 0 {
        lemma_reach_monotone(pairs, s, (k - 1) as nat);
    }
}

proof fn lemma_reach_monotone_to(pairs: Seq<(Seq<char>, Seq<char>)>, s: Set<Seq<char>>, k: nat, m: nat)
    requires
        k <= m,
    ensures
        reach(pairs, s, k).subset_of(reach(pairs, s, m)),
    decreases m - k,
{
    if k < m {
        lemma_reach_monotone_to(pairs, s, k, (m - 1) as nat);
        lemma_reach_monotone(pairs, s, (m - 1) as nat);
    }
}

proof fn lemma_reach_stable(pairs: Seq<(Seq<char>, Seq<char>)>, s: Set<Seq<char>>, k: nat, m: nat)
    requires
        reach(pairs, s, k + 1) == reach(pairs, s, k),
        k <= m,
    ensures
        reach(pairs, s, m) == reach(pairs, s, k),
    decreases m - k,
{
    if m > k {
        lemma_reach_stable(pairs, s, k, (m - 1) as nat);
    }
}

proof fn lemma_reach_grows(pairs: Seq<(Seq<char>, Seq<char>)>, s: Set<Seq<char>>, k: nat)
    requires
        s.subset_of(graph_nodes(pairs)),
        forall|j: nat| j < k ==> #[trigger] reach(pairs, s, j) != reach(pairs, s, j + 1),
    ensures
        reach(pairs, s, k).finite(),
        reach(pairs, s, k).len() >= k,
    decreases k,
{
    lemma_graph_nodes_finite(pairs);
    lemma_reach_monotone(pairs, s, k);
    vstd::set_lib::lemma_len_subset(reach(pairs, s, k), graph_nodes(pairs));
    if k > 0 {
        let j = (k - 1) as nat;
        lemma_reach_grows(pairs, s, j);
        lemma_reach_monotone(pairs, s, j);
        assert(reach(pairs, s, j) != reach(pairs, s, j + 1));
        let a = reach(pairs, s, j);
        let b = reach(pairs, s, k);
        assert(exists|x: Seq<char>| b.contains(x) && !a.contains(x)) by {
            if !(exists|x: Seq<char>| b.contains(x) && !a.contains(x)) {
                assert(a =~= b);
            }
        }
        let x = choose|x: Seq<char>| b.contains(x) && !a.contains(x);
        assert(a.subset_of(b.remove(x)));
        vstd::set_lib::lemma_len_subset(a, b.remove(x));
    }
}

/// After as many steps as there are files, a further step reaches
/// nothing new.
proof fn lemma_reach_fixpoint(pairs: Seq<(Seq<char>, Seq<char>)>, s: Set<Seq<char>>)
    requires
        s.subset_of(graph_nodes(pairs)),
    ensures
        imported_by(pairs, reach(pairs, s, graph_nodes(pairs).len())).subset_of(
            reach(pairs, s, graph_nodes(pairs).len()),
        ),
{
    let n = graph_nodes(pairs).len();
    lemma_graph_nodes_finite(pairs);
    lemma_reach_monotone(pairs, s, n);
    lemma_reach_monotone(pairs, s, n + 1);
    if exists|j: nat| j < n && #[trigger] reach(pairs, s, j) == reach(pairs, s, j + 1) {
        let j = choose|j: nat| j < n && #[trigger] reach(pairs, s, j) == reach(pairs, s, j + 1);
        lemma_reach_stable(pairs, s, j, n);
        lemma_reach_stable(pairs, s, j, n + 1);
    } else {
        lemma_reach_grows(pairs, s, n);
        vstd::set_lib::lemma_len_subset(reach(pairs, s, n), graph_nodes(pairs));
        assert(reach(pairs, s, n) =~= graph_nodes(pairs)) by {
            if !(reach(pairs, s, n) =~= graph_nodes(pairs)) {
                let x = choose|x: Seq<char>| graph_nodes(pairs).contains(x) && !reach(pairs, s, n).contains(x);
                assert(reach(pairs, s, n).subset_of(graph_nodes(pairs).remove(x)));
                vstd::set_lib::lemma_len_subset(reach(pairs, s, n), graph_nodes(pairs).remove(x));
            }
        }
        lemma_imported_by_in_graph(pairs, reach(pairs, s, n));
    }
}

/// What `k` steps reach lies in any set that holds `s` and everything
/// its own files import.
proof fn lemma_reach_in_closed(pairs: Seq<(Seq<char>, Seq<char>)>, s: Set<Seq<char>>, f: Set<Seq<char>>, k: nat)
    requires
        s.subset_of(f),
        imported_by(pairs, f).subset_of(f),
    ensures
        reach(pairs, s, k).subset_of(f),
    decreases k,
{
    if k > 0 {
        let r = reach(pairs, s, (k - 1) as nat);
        lemma_reach_in_closed(pairs, s, f, (k - 1) as nat);
        assert forall|x: Seq<char>| imported_by(pairs, r).contains(x) implies f.contains(x) by {
            let i = choose|i: int| 0 <= i < pairs.len() && r.contains(pairs[i].0) && pairs[i].1 == x;
            assert(imported_by(pairs, f).contains(x));
        }
    }
}

/// A file reached in `k` steps ends a walk that starts in `s`.
proof fn lemma_reach_walk(pairs: Seq<(Seq<char>, Seq<char>)>, s: Set<Seq<char>>, k: nat, x: Seq<char>) -> (w: Seq<Seq<char>>)
    requires
        reach(pairs, s, k).contains(x),
    ensures
        w.len() >= 1,
        s.contains(w[0]),
        w.last() == x,
        is_walk(pairs, w),
    decreases k,
{
    if k == 0 {
        seq![x]
    } else {
        let r = reach(pairs, s, (k - 1) as nat);
        if r.contains(x) {
            lemma_reach_walk(pairs, s, (k - 1) as nat, x)
        } else {
            let i = choose|i: int| 0 <= i < pairs.len() && r.contains(pairs[i].0) && pairs[i].1 == x;
            let w0 = lemma_reach_walk(pairs, s, (k - 1) as nat, pairs[i].0);
            let w = w0.push(x);
            assert forall|j: int| 0 <= j < w.len() - 1 implies #[trigger] pairs.contains((w[j], w[j + 1])) by {
                if j < w0.len() - 1 {
                    assert(w[j] == w0[j] && w[j + 1] == w0[j + 1]);
                    assert(pairs.contains((w0[j], w0[j + 1])));
                } else {
                    assert(w[j] == pairs[i].0 && w[j + 1] == x);
                    assert(pairs[i] == (pairs[i].0, pairs[i].1));
                }
            }
            w
        }
    }
}

/// A file that imports itself sits on an import cycle.
proof fn lemma_on_cycle_has_cycle(pairs: Seq<(Seq<char>, Seq<char>)>, v: Seq<char>) -> (cyc: Seq<Seq<char>>)
    requires
        on_cycle(pairs, v),
    ensures
        is_import_cycle(pairs, cyc),
        cyc[0] == v,
        cyc.contains(v),
{
    let s = imported_by(pairs, set![v]);
    let w = lemma_reach_walk(pairs, s, graph_nodes(pairs).len(), v);
    let i0 = choose|i: int| 0 <= i < pairs.len() && set![v].contains(pairs[i].0) && pairs[i].1 == w[0];
    assert(pairs[i0] == (v, w[0]));
    assert(pairs.contains((v, w[0])));
    let cyc = seq![v] + w.take(w.len() - 1);
    let m = cyc.len() as int;
    assert(m == w.len());
    assert forall|j: int| 0 <= j < m implies #[trigger] pairs.contains((cyc[j], cyc[(j + 1) % m])) by {
        if j + 1 < m {
            assert((j + 1) % m == j + 1) by {
                vstd::arithmetic::div_mod::lemma_small_mod((j + 1) as nat, m as nat);
            }
            if j == 0 {
                assert(cyc[0] == v && cyc[1] == w[0]);
            } else {
                assert(cyc[j] == w[j - 1] && cyc[j + 1] == w[j]);
                assert(pairs.contains((w[j - 1], w[(j - 1) + 1])));
            }
        } else {
            assert((j + 1) % m == 0) by {
                vstd::arithmetic::div_mod::lemma_mod_self_0(m);
            }
            if m == 1 {
                assert(w[0] == v);
            } else {
                assert(cyc[j] == w[m - 2]);
                assert(w[m - 1] == v);
                assert(pairs.contains((w[m - 2], w[(m - 2) + 1])));
            }
        }
    }
    assert(cyc[0] == v);
    cyc
}

/// Walking around a cycle from `cyc[j]`, `t + 1` steps land on
/// `cyc[(j + 1 + t) % m]`.
proof fn lemma_cycle_reach(pairs: Seq<(Seq<char>, Seq<char>)>, cyc: Seq<Seq<char>>, j: int, t: nat)
    requires
        is_import_cycle(pairs, cyc),
        0 <= j < cyc.len(),
    ensures
        reach(pairs, imported_by(pairs, set![cyc[j]]), t).contains(cyc[(j + 1 + t) % (cyc.len() as int)]),
    decreases t,
{
    let m = cyc.len() as int;
    let s = imported_by(pairs, set![cyc[j]]);
    if t == 0 {
        assert(pairs.contains((cyc[j], cyc[(j + 1) % m])));
        let i = choose|i: int| 0 <= i < pairs.len() && pairs[i] == (cyc[j], cyc[(j + 1) % m]);
        assert(s.contains(cyc[(j + 1) % m]));
    } else {
        let t0 = (t - 1) as nat;
        lemma_cycle_reach(pairs, cyc, j, t0);
        let a = (j + 1 + t0) % m;
        assert(0 <= a < m) by {
            vstd::arithmetic::div_mod::lemma_mod_bound(j + 1 + t0, m);
        }
        assert(pairs.contains((cyc[a], cyc[(a + 1) % m])));
        assert((a + 1) % m == (j + 1 + t) % m) by {
            vstd::arithmetic::div_mod::lemma_add_mod_noop(j + 1 + t0, 1, m);
            vstd::arithmetic::div_mod::lemma_mod_twice(j + 1 + t0, m);
            if m > 1 {
                vstd::arithmetic::div_mod::lemma_small_mod(1, m as nat);
            } else {
                vstd::arithmetic::div_mod::lemma_mod_self_0(1);
                vstd::arithmetic::div_mod::lemma_mod_self_0(1);
            }
            vstd::arithmetic::div_mod::lemma_add_mod_noop(a, 1, m);
        }
        let r = reach(pairs, s, t0);
        let i = choose|i: int| 0 <= i < pairs.len() && pairs[i] == (cyc[a], cyc[(a + 1) % m]);
        assert(imported_by(pairs, r).contains(cyc[(a + 1) % m]));
    }
}

/// A file counts as on a cycle exactly when some import cycle passes
/// through it: a sequence of files, each importing the next and the
/// last importing the first.
pub proof fn law_cycle_files_exact(pairs: Seq<(Seq<char>, Seq<char>)>, v: Seq<char>)
    ensures
        cycle_files(pairs).contains(v) <==> exists|cyc: Seq<Seq<char>>|
            #[trigger] is_import_cycle(pairs, cyc) && cyc.contains(v),
{
    if cycle_files(pairs).contains(v) {
        let cyc = lemma_on_cycle_has_cycle(pairs, v);
        assert(is_import_cycle(pairs, cyc) && cyc.contains(v));
    }
    if exists|cyc: Seq<Seq<char>>| #[trigger] is_import_cycle(pairs, cyc) && cyc.contains(v) {
        let cyc = choose|cyc: Seq<Seq<char>>| #[trigger] is_import_cycle(pairs, cyc) && cyc.contains(v);
        let j = choose|j: int| 0 <= j < cyc.len() && cyc[j] == v;
        let m = cyc.len() as int;
        let s = imported_by(pairs, set![v]);
        lemma_cycle_reach(pairs, cyc, j, (m - 1) as nat);
        assert((j + 1 + (m - 1)) % m == j) by {
            vstd::arithmetic::div_mod::lemma_add_mod_noop(j, m, m);
            vstd::arithmetic::div_mod::lemma_mod_self_0(m);
            vstd::arithmetic::div_mod::lemma_small_mod(j as nat, m as nat);
        }
        let n = graph_nodes(pairs).len();
        lemma_imported_by_in_graph(pairs, set![v]);
        if (m - 1) as nat <= n {
            lemma_reach_monotone_to(pairs, s, (m - 1) as nat, n);
        } else {
            lemma_reach_fixpoint(pairs, s);
            lemma_reach_monotone(pairs, s, n);
            lemma_reach_in_closed(pairs, s, reach(pairs, s, n), (m - 1) as nat);
        }
        assert(pairs.contains((cyc[j], cyc[(j + 1) % m])));
        let i = choose|i: int| 0 <= i < pairs.len() && pairs[i] == (cyc[j], cyc[(j + 1) % m]);
        assert(graph_nodes(pairs).contains(v));
    }
}

// ── the phase ───────────────────────────────────────────────────────

/// Result of import resolution, with the import map for later phases.
pub struct ImportPhaseResult {
    pub phase: crate::pipeline::PhaseResult,
    /// `(importing file, imported file)` pairs, each once.
    pub import_map: Vec<(String, String)>,
    /// Files that sit on an import cycle.
    pub cycle_count: u32,
}

impl ImportPhaseResult {
    /// Combine a plan with the outcome of running its statements.
    pub fn from_plan(plan: ImportPlan, succeeded: u64, failed: u64) -> (r: ImportPhaseResult)
        ensures
            r.phase.nodes_created == 0,
            r.phase.edges_created == succeeded,
            r.phase.errors == failed,
            pair_views(r.import_map@) == pair_views(plan.import_map@),
            r.cycle_count == cycle_files(pair_views(plan.import_map@)).len() as u32,
    {
        let cycle_count = count_import_cycle_files(&plan.import_map);
        ImportPhaseResult {
            phase: crate::pipeline::PhaseResult {
                nodes_created: 0,
                edges_created: succeeded,
                errors: failed,
            },
            import_map: plan.import_map,
            cycle_count,
        }
    }
}

/// The phase that turns `Import` nodes into IMPORTS edges.
pub struct ImportsPhase;

impl ImportsPhase {
    pub fn label(&self) -> (r: &'static str)
        ensures
            r@ == "imports"@,
    {
        "imports"
    }
}

} // verus!
