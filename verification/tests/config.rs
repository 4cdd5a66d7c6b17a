use codegraph::config::csproj::extract_namespace_fields;
use codegraph::config::go_mod::extract_module_path;
use codegraph::config::package_swift::extract_targets;
use codegraph::config::pubspec::extract_package_name;
use codegraph::config::tsconfig::{
    extends_is_path, load as load_tsconfig, merge_chain, should_follow, strip_jsonc,
    strip_trailing_commas, RawCompilerOptions, RawTsconfig,
};
use codegraph::config::{ConfigContext, WorkspaceConfig};

#[test]
fn workspace_for_picks_nearest_ancestor() {
    let mut ctx = ConfigContext::default();
    ctx.add_workspace(WorkspaceConfig {
        root: String::from(""),
        ..Default::default()
    });
    ctx.add_workspace(WorkspaceConfig {
        root: String::from("packages/core"),
        ..Default::default()
    });
    ctx.add_workspace(WorkspaceConfig {
        root: String::from("packages/core/nested"),
        ..Default::default()
    });

    let ws = ctx
        .workspace_for("packages/core/nested/src/foo.ts")
        .expect("must resolve");
    assert_eq!(ws.root, String::from("packages/core/nested"));
}

#[test]
fn workspace_for_falls_back_to_root() {
    let mut ctx = ConfigContext::default();
    ctx.add_workspace(WorkspaceConfig::default());
    let ws = ctx
        .workspace_for("some/file.rs")
        .expect("root workspace always matches");
    assert_eq!(ws.root, String::from(""));
}

#[test]
fn workspace_for_returns_none_when_no_ancestors() {
    let mut ctx = ConfigContext::default();
    ctx.add_workspace(WorkspaceConfig {
        root: String::from("packages/core"),
        ..Default::default()
    });
    assert!(ctx.workspace_for("other/file.rs").is_none());
}

#[test]
fn add_workspace_is_idempotent() {
    let mut ctx = ConfigContext::default();
    ctx.add_workspace(WorkspaceConfig {
        root: String::from("a"),
        go_module: Some("first".to_string()),
        ..Default::default()
    });
    ctx.add_workspace(WorkspaceConfig {
        root: String::from("a"),
        go_module: Some("second".to_string()),
        ..Default::default()
    });
    assert_eq!(ctx.workspaces.len(), 1);
    assert_eq!(
        ctx.workspaces[0].go_module,
        Some("first".to_string()),
        "first registration wins"
    );
}

#[test]
fn add_workspace_treats_equal_paths_as_one() {
    let mut ctx = ConfigContext::default();
    ctx.add_workspace(WorkspaceConfig {
        root: String::from("a/b"),
        ..Default::default()
    });
    ctx.add_workspace(WorkspaceConfig {
        root: String::from("a//b/"),
        ..Default::default()
    });
    assert_eq!(ctx.workspaces.len(), 1);
}

#[test]
fn workspace_for_matches_whole_components_only() {
    let mut ctx = ConfigContext::default();
    ctx.add_workspace(WorkspaceConfig {
        root: String::from("packages/core"),
        ..Default::default()
    });
    assert!(ctx.workspace_for("packages/core2/file.rs").is_none());
    assert!(ctx.workspace_for("packages/core/file.rs").is_some());
}

#[test]
fn extractor_handles_missing_fields() {
    let src = "<Project Sdk=\"Microsoft.NET.Sdk\"></Project>";
    let (ns, assembly) = extract_namespace_fields(src);
    assert!(ns.is_none());
    assert!(assembly.is_none());
}

#[test]
fn extractor_handles_whitespace() {
    let src = "<Project>\n  <PropertyGroup>\n    <RootNamespace>  App.Core  </RootNamespace>\n  </PropertyGroup>\n</Project>";
    let (ns, _) = extract_namespace_fields(src);
    assert_eq!(ns, Some("App.Core".to_string()));
}

#[test]
fn extractor_reads_both_fields() {
    let src = "<Project><PropertyGroup><RootNamespace>MyCompany.App</RootNamespace><AssemblyName>MyCompany.App.dll</AssemblyName></PropertyGroup></Project>";
    let (ns, assembly) = extract_namespace_fields(src);
    assert_eq!(ns, Some("MyCompany.App".to_string()));
    assert_eq!(assembly, Some("MyCompany.App.dll".to_string()));
}

#[test]
fn strips_line_comment() {
    let src = "module example.com/foo // comment here\n";
    assert_eq!(
        extract_module_path(src),
        Some("example.com/foo".to_string())
    );
}

#[test]
fn handles_quoted_module() {
    let src = "module \"example.com/foo\"\n";
    assert_eq!(
        extract_module_path(src),
        Some("example.com/foo".to_string())
    );
}

#[test]
fn go_mod_returns_none_when_missing() {
    assert_eq!(extract_module_path("go 1.21\n"), None);
}

#[test]
fn go_mod_block_form_yields_the_path() {
    assert_eq!(
        extract_module_path("module (\n\texample.com/foo\n)\n"),
        Some("example.com/foo".to_string())
    );
    assert_eq!(
        extract_module_path("module (\n\n  \"example.com/q\" // note\n)\n"),
        Some("example.com/q".to_string())
    );
    assert_eq!(extract_module_path("module (\n)\nmodule later.dev/x\n"), Some("later.dev/x".to_string()));
}

#[test]
fn go_mod_reads_first_module_line() {
    assert_eq!(
        extract_module_path("module github.com/foo/bar\n\ngo 1.21\n"),
        Some("github.com/foo/bar".to_string())
    );
}

#[test]
fn extract_ignores_targets_without_name() {
    let src = r#".target(dependencies: [])"#;
    assert!(extract_targets(src).is_empty());
}

#[test]
fn extract_targets_reads_names_and_paths() {
    let src = r#"let package = Package(
    name: "MyLib",
    targets: [
        .target(name: "MyLib", dependencies: []),
        .target(name: "MyCLI", dependencies: ["MyLib"], path: "Sources/cli"),
        .testTarget(name: "MyLibTests", dependencies: ["MyLib"])
    ]
)"#;
    let targets = extract_targets(src);
    assert_eq!(targets.len(), 3);
    let names: Vec<&str> = targets.iter().map(|t| t.name.as_str()).collect();
    assert!(names.contains(&"MyLib"));
    assert!(names.contains(&"MyCLI"));
    assert!(names.contains(&"MyLibTests"));
    let my_cli = targets.iter().find(|t| t.name == "MyCLI").unwrap();
    assert_eq!(my_cli.path, Some("Sources/cli".to_string()));
}

#[test]
fn ignores_nested_name_fields() {
    let src = "name: outer\ndependencies:\n  inner_pkg:\n    name: inner\n";
    assert_eq!(extract_package_name(src), Some("outer".to_string()));
}

#[test]
fn pubspec_returns_none_when_missing() {
    assert_eq!(extract_package_name("version: 1.0.0\n"), None);
}

#[test]
fn strips_trailing_comment() {
    assert_eq!(
        extract_package_name("name: foo # the package\n"),
        Some("foo".to_string())
    );
}

#[test]
fn strip_jsonc_preserves_string_contents() {
    let src = r#"{"msg": "// not a comment", "p": "/*also not*/"}"#;
    let cleaned = strip_jsonc(src);
    assert!(cleaned.contains("// not a comment"));
    assert!(cleaned.contains("/*also not*/"));
}

#[test]
fn strip_trailing_commas_handles_nested_structures() {
    let src = r#"{"a": [1, 2, 3,], "b": {"c": 1,},}"#;
    let cleaned = strip_trailing_commas(src);
    assert_eq!(cleaned, r#"{"a": [1, 2, 3], "b": {"c": 1}}"#);
}

#[test]
fn strip_jsonc_removes_comments_and_commas() {
    let src = "{\n  // line\n  \"a\": 1, /* block */\n}";
    let cleaned = strip_jsonc(src);
    assert!(!cleaned.contains("line"));
    assert!(!cleaned.contains("block"));
    assert!(cleaned.contains("\"a\": 1"));
    assert!(!cleaned.contains(','));
}


fn raw(extends: Option<&str>, base_url: Option<&str>, paths: &[(&str, &[&str])]) -> RawTsconfig {
    RawTsconfig {
        extends: extends.map(str::to_string),
        compiler_options: Some(RawCompilerOptions {
            base_url: base_url.map(str::to_string),
            paths: Some(
                paths
                    .iter()
                    .map(|(p, t)| (p.to_string(), t.iter().map(|s| s.to_string()).collect()))
                    .collect(),
            ),
        }),
    }
}

#[test]
fn leaf_tsconfig_overrides_its_ancestors() {
    let chain = vec![
        raw(Some("./tsconfig.base.json"), None, &[("@/*", &["src/*"])]),
        raw(None, Some("."), &[("@shared/*", &["shared/*"]), ("@/*", &["old/*"])]),
    ];
    let (aliases, base) = merge_chain(&chain);
    let got: Vec<(String, Vec<String>)> =
        aliases.iter().map(|a| (a.pattern.clone(), a.targets.clone())).collect();
    assert_eq!(
        got,
        vec![
            ("@/*".to_string(), vec!["src/*".to_string()]),
            ("@shared/*".to_string(), vec!["shared/*".to_string()]),
        ]
    );
    assert_eq!(base, Some(".".to_string()));

    let mut ctx = ConfigContext::default();
    load_tsconfig(&chain, "", &mut ctx);
    assert_eq!(ctx.workspaces.len(), 1);
    assert_eq!(ctx.workspaces[0].ts_paths.len(), 2);
    assert_eq!(ctx.workspaces[0].ts_base_url, Some(".".to_string()));
}

#[test]
fn extends_walk_decisions() {
    assert!(extends_is_path("./base"));
    assert!(extends_is_path("/abs/tsconfig.json"));
    assert!(!extends_is_path("@tsconfig/node18/tsconfig.json"));
    let visited = vec!["a/tsconfig.json".to_string()];
    assert!(should_follow(1, &visited, "b/tsconfig.json"));
    assert!(!should_follow(1, &visited, "a/tsconfig.json"));
    assert!(!should_follow(64, &Vec::new(), "c/tsconfig.json"));
}

#[test]
fn trailing_comma_removal_drops_only_commas() {
    let src = r#"{"a": [1, 2,], "b": "x,]", }"#;
    let out = strip_trailing_commas(src);
    assert_eq!(out, r#"{"a": [1, 2], "b": "x,]" }"#);
    assert_eq!(out.replace(',', ""), src.replace(',', ""));
}
