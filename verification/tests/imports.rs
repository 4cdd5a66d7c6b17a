use codegraph::config::{ConfigContext, Psr4Mapping, SwiftTarget, TsPathAlias, WorkspaceConfig};
use codegraph::pipeline::imports::{
    apply_aliases, count_import_cycle_files, cypher_escape, plan_import_edges, FileRow,
    ImportPhaseResult, ImportRow, ImportsPhase, SymbolRow,
};

fn ctx_with(mut ws: WorkspaceConfig) -> ConfigContext {
    ws.root = String::new();
    let mut c = ConfigContext::default();
    c.add_workspace(ws);
    c
}

#[test]
fn ts_path_alias_expands_wildcard() {
    let ctx = ctx_with(WorkspaceConfig {
        ts_paths: vec![TsPathAlias {
            pattern: "@/*".to_string(),
            targets: vec!["src/*".to_string()],
        }],
        ..Default::default()
    });
    let got = apply_aliases("@/utils/foo", "src/app.ts", &ctx);
    assert_eq!(got, vec!["src/utils/foo".to_string()]);
}

#[test]
fn ts_alias_with_multiple_targets_produces_multiple_candidates() {
    let ctx = ctx_with(WorkspaceConfig {
        ts_paths: vec![TsPathAlias {
            pattern: "@shared/*".to_string(),
            targets: vec!["shared/*".to_string(), "vendor/shared/*".to_string()],
        }],
        ..Default::default()
    });
    let got = apply_aliases("@shared/logger", "src/app.ts", &ctx);
    assert_eq!(
        got,
        vec![
            "shared/logger".to_string(),
            "vendor/shared/logger".to_string()
        ]
    );
}

#[test]
fn go_module_prefix_stripped() {
    let ctx = ctx_with(WorkspaceConfig {
        go_module: Some("github.com/acme/svc".to_string()),
        ..Default::default()
    });
    let got = apply_aliases("github.com/acme/svc/pkg/foo", "cmd/main.go", &ctx);
    assert_eq!(got, vec!["pkg/foo".to_string()]);
}

#[test]
fn psr4_namespace_mapped_to_directory() {
    let ctx = ctx_with(WorkspaceConfig {
        php_psr4: vec![Psr4Mapping {
            namespace: "App\\".to_string(),
            directory: "src/".to_string(),
        }],
        ..Default::default()
    });
    let got = apply_aliases("App\\Models\\User", "src/app.php", &ctx);
    assert_eq!(got, vec!["src/Models/User".to_string()]);
}

#[test]
fn csharp_root_namespace_mapped_to_path() {
    let ctx = ctx_with(WorkspaceConfig {
        csharp_root_namespace: Some("MyApp".to_string()),
        ..Default::default()
    });
    let got = apply_aliases("MyApp.Services.UserService", "Program.cs", &ctx);
    assert_eq!(got, vec!["Services/UserService".to_string()]);
}

#[test]
fn dart_package_prefix_mapped_to_lib() {
    let ctx = ctx_with(WorkspaceConfig {
        dart_package: Some("my_app".to_string()),
        ..Default::default()
    });
    let got = apply_aliases("package:my_app/utils/foo.dart", "lib/app.dart", &ctx);
    assert_eq!(got, vec!["lib/utils/foo.dart".to_string()]);
}

#[test]
fn swift_target_name_mapped_to_sources() {
    let ctx = ctx_with(WorkspaceConfig {
        swift_targets: vec![SwiftTarget {
            name: "MyLib".to_string(),
            path: None,
        }],
        ..Default::default()
    });
    let got = apply_aliases("MyLib", "Sources/App/Main.swift", &ctx);
    assert_eq!(got, vec!["Sources/MyLib".to_string()]);
}

#[test]
fn swift_target_with_custom_path_used() {
    let ctx = ctx_with(WorkspaceConfig {
        swift_targets: vec![SwiftTarget {
            name: "MyLib".to_string(),
            path: Some("Custom/Dir".to_string()),
        }],
        ..Default::default()
    });
    let got = apply_aliases("MyLib", "Sources/App/Main.swift", &ctx);
    assert_eq!(got, vec!["Custom/Dir".to_string()]);
}

#[test]
fn no_matches_returns_empty() {
    let ctx = ctx_with(WorkspaceConfig::default());
    let got = apply_aliases("./utils/foo", "src/app.ts", &ctx);
    assert!(got.is_empty());
}

#[test]
fn base_url_and_workspace_root_are_joined() {
    let mut ctx = ConfigContext::default();
    ctx.add_workspace(WorkspaceConfig {
        root: "web".to_string(),
        ts_base_url: Some(".".to_string()),
        ..Default::default()
    });
    let got = apply_aliases("lib/x", "web/src/a.ts", &ctx);
    assert_eq!(got, vec!["web/./lib/x".to_string()]);
    assert!(apply_aliases("./lib/x", "web/src/a.ts", &ctx).is_empty());
}

#[test]
fn cypher_escape_doubles_backslashes_and_escapes_quotes() {
    assert_eq!(cypher_escape("a'b\\c"), "a\\'b\\\\c");
    assert_eq!(cypher_escape("plain"), "plain");
}

fn files() -> Vec<FileRow> {
    vec![
        FileRow { path: "src/app.ts".to_string(), qualified_name: "p::src/app.ts".to_string() },
        FileRow { path: "src/utils.ts".to_string(), qualified_name: "p::src/utils.ts".to_string() },
    ]
}

fn syms() -> Vec<SymbolRow> {
    vec![SymbolRow {
        source_file: "src/utils.ts".to_string(),
        name: "helper".to_string(),
        qualified_name: "p::src/utils.ts::helper".to_string(),
        label: "Function".to_string(),
    }]
}

#[test]
fn plan_links_file_and_named_symbol() {
    let rows = vec![ImportRow {
        source_file: "src/app.ts".to_string(),
        import_source: "'src/utils.ts'".to_string(),
        name: "helper".to_string(),
        original_name: String::new(),
    }];
    let plan = plan_import_edges(&rows, &files(), &syms(), &ConfigContext::default(), None);
    assert_eq!(
        plan.edge_stmts,
        vec![
            "MATCH (s:File), (t:File) WHERE s.qualified_name = 'p::src/app.ts' AND t.qualified_name = 'p::src/utils.ts' CREATE (s)-[:CodeRelation {type: 'IMPORTS', confidence: 1.0, reason: 'import statement', step: 0}]->(t)".to_string(),
            "MATCH (s:File), (t:Function) WHERE s.qualified_name = 'p::src/app.ts' AND t.qualified_name = 'p::src/utils.ts::helper' CREATE (s)-[:CodeRelation {type: 'IMPORTS', confidence: 0.95, reason: 'symbol import', step: 0}]->(t)".to_string(),
        ]
    );
    assert_eq!(
        plan.import_map,
        vec![("src/app.ts".to_string(), "src/utils.ts".to_string())]
    );
}

#[test]
fn plan_resolves_extensionless_import_by_stem() {
    let rows = vec![ImportRow {
        source_file: "src/app.ts".to_string(),
        import_source: "utils".to_string(),
        name: "helper".to_string(),
        original_name: String::new(),
    }];
    let plan = plan_import_edges(&rows, &files(), &syms(), &ConfigContext::default(), None);
    assert_eq!(plan.edge_stmts.len(), 1);
    assert_eq!(
        plan.import_map,
        vec![("src/app.ts".to_string(), "src/utils".to_string())]
    );
}

#[test]
fn plan_uses_original_name_and_wildcards() {
    let rows = vec![
        ImportRow {
            source_file: "src/app.ts".to_string(),
            import_source: "src/utils.ts".to_string(),
            name: "h".to_string(),
            original_name: "helper".to_string(),
        },
        ImportRow {
            source_file: "src/app.ts".to_string(),
            import_source: "src/utils.ts".to_string(),
            name: "*".to_string(),
            original_name: String::new(),
        },
    ];
    let plan = plan_import_edges(&rows, &files(), &syms(), &ConfigContext::default(), None);
    assert_eq!(plan.edge_stmts.len(), 4);
    assert!(plan.edge_stmts[1].contains("symbol import"));
    assert!(plan.edge_stmts[3].contains("confidence: 0.80, reason: 'wildcard import'"));
    assert_eq!(plan.import_map.len(), 1);
}

#[test]
fn plan_skips_unknown_and_out_of_scope_imports() {
    let rows = vec![
        ImportRow {
            source_file: "src/app.ts".to_string(),
            import_source: "missing".to_string(),
            name: String::new(),
            original_name: String::new(),
        },
        ImportRow {
            source_file: "src/utils.ts".to_string(),
            import_source: "src/app.ts".to_string(),
            name: String::new(),
            original_name: String::new(),
        },
    ];
    let scope = vec!["src/app.ts".to_string()];
    let plan = plan_import_edges(&rows, &files(), &syms(), &ConfigContext::default(), Some(&scope));
    assert!(plan.edge_stmts.is_empty());
    assert!(plan.import_map.is_empty());
    let all = plan_import_edges(&rows, &files(), &syms(), &ConfigContext::default(), None);
    assert_eq!(all.edge_stmts.len(), 1);
}

#[test]
fn cycle_count_counts_files_on_cycles() {
    let map = vec![
        ("c".to_string(), "a".to_string()),
        ("a".to_string(), "b".to_string()),
        ("b".to_string(), "a".to_string()),
        ("b".to_string(), "d".to_string()),
        ("d".to_string(), "e".to_string()),
        ("e".to_string(), "e".to_string()),
    ];
    assert_eq!(count_import_cycle_files(&map), 3);
    let between = vec![
        ("a".to_string(), "b".to_string()),
        ("b".to_string(), "a".to_string()),
        ("b".to_string(), "x".to_string()),
        ("x".to_string(), "c".to_string()),
        ("c".to_string(), "d".to_string()),
        ("d".to_string(), "c".to_string()),
    ];
    assert_eq!(count_import_cycle_files(&between), 4);
    let acyclic = vec![
        ("a".to_string(), "b".to_string()),
        ("b".to_string(), "c".to_string()),
    ];
    assert_eq!(count_import_cycle_files(&acyclic), 0);
    assert_eq!(count_import_cycle_files(&Vec::new()), 0);
}

#[test]
fn phase_result_counts_statements_and_cycles() {
    let rows = vec![
        ImportRow {
            source_file: "src/app.ts".to_string(),
            import_source: "src/utils.ts".to_string(),
            name: String::new(),
            original_name: String::new(),
        },
        ImportRow {
            source_file: "src/utils.ts".to_string(),
            import_source: "src/app.ts".to_string(),
            name: String::new(),
            original_name: String::new(),
        },
    ];
    let plan = plan_import_edges(&rows, &files(), &syms(), &ConfigContext::default(), None);
    let r = ImportPhaseResult::from_plan(plan, 2, 0);
    assert_eq!(r.phase.edges_created, 2);
    assert_eq!(r.cycle_count, 2);
    assert_eq!(ImportsPhase.label(), "imports");
}
