use codegraph::config::{ConfigContext, TsPathAlias, WorkspaceConfig};
use codegraph::lang::languages::SupportedLanguage::{
    CSharp, Dart, Go, Java, Kotlin, Php, Python, Ruby, Rust, Swift, TypeScript, C,
};
use codegraph::semantic::frameworks::{detect, Framework, FrameworkContext};
use codegraph::semantic::markdown_links::{extract, is_external, split_fragment};
use codegraph::semantic::member_rules::{classify_visibility, is_exported, Visibility};

#[test]
fn detect_nextjs_from_package_deps() {
    let ctx = detect(&ConfigContext::default(), &["next", "react"], &[], &[], &[], &[]);
    assert!(ctx.has(Framework::NextJs));
}

#[test]
fn detect_fastapi_from_python_deps() {
    let ctx = detect(&ConfigContext::default(), &[], &[], &["fastapi", "uvicorn"], &[], &[]);
    assert!(ctx.has(Framework::FastApi));
}

#[test]
fn detect_laravel_from_composer() {
    let ctx = detect(
        &ConfigContext::default(),
        &[],
        &["laravel/framework", "guzzlehttp/guzzle"],
        &[],
        &[],
        &[],
    );
    assert!(ctx.has(Framework::Laravel));
}

#[test]
fn detect_spring_from_maven_coords() {
    let ctx = detect(
        &ConfigContext::default(),
        &[],
        &[],
        &[],
        &[],
        &["org.springframework:spring-core"],
    );
    assert!(ctx.has(Framework::Spring));
}

#[test]
fn detect_nextjs_from_tsconfig_paths() {
    let mut config = ConfigContext::default();
    config.add_workspace(WorkspaceConfig {
        ts_paths: vec![TsPathAlias {
            pattern: "@/*".to_string(),
            targets: vec!["app/*".to_string()],
        }],
        ..Default::default()
    });
    let ctx = detect(&config, &[], &[], &[], &[], &[]);
    assert!(ctx.has(Framework::NextJs));
}

#[test]
fn empty_inputs_detect_nothing() {
    let ctx = detect(&ConfigContext::default(), &[], &[], &[], &[], &[]);
    assert!(ctx.is_empty());
    assert_eq!(ctx.len(), 0);
    assert!(FrameworkContext::default().is_empty());
}

#[test]
fn framework_labels() {
    assert_eq!(Framework::NextJs.label(), "Next.js");
    assert_eq!(Framework::AspNet.label(), "ASP.NET");
    assert_eq!(Framework::FastApi.label(), "FastAPI");
}

#[test]
fn extracts_simple_relative_link() {
    let links = extract("See [the guide](./guide.md) for details.");
    assert_eq!(links.len(), 1);
    assert_eq!(links[0].text, "the guide");
    assert_eq!(links[0].target, "./guide.md");
    assert!(links[0].fragment.is_none());
}

#[test]
fn captures_fragment() {
    let links = extract("Read [setup](./guide.md#installation) first.");
    assert_eq!(links.len(), 1);
    assert_eq!(links[0].target, "./guide.md");
    assert_eq!(links[0].fragment, Some("installation".to_string()));
}

#[test]
fn filters_external_links() {
    let links = extract("Visit [our site](https://example.com) or [email](mailto:x@y.com).");
    assert!(links.is_empty());
}

#[test]
fn filters_image_links() {
    let links = extract("![alt text](./image.png)");
    assert!(links.is_empty());
}

#[test]
fn filters_bare_anchor() {
    let links = extract("Jump to [top](#top).");
    assert!(links.is_empty());
}

#[test]
fn line_numbers_are_one_based() {
    let src = "\n\n[x](./x.md)\n";
    let links = extract(src);
    assert_eq!(links.len(), 1);
    assert_eq!(links[0].line, 3);
}

#[test]
fn multiple_links_per_line() {
    let links = extract("[a](./a.md) and [b](./b.md)");
    assert_eq!(links.len(), 2);
}

#[test]
fn external_targets_and_fragments() {
    assert!(is_external("http://x"));
    assert!(is_external("file:///etc/x"));
    assert!(!is_external("//cdn.example.com/x"));
    assert!(!is_external("docs/a.md"));
    assert_eq!(split_fragment("a.md#b"), ("a.md".to_string(), Some("b".to_string())));
    assert_eq!(split_fragment("a.md"), ("a.md".to_string(), None));
}

#[test]
fn visibility_as_str_roundtrips() {
    assert_eq!(Visibility::Public.as_str(), "public");
    assert_eq!(Visibility::Private.as_str(), "private");
    assert_eq!(Visibility::Package.as_str(), "package");
    assert_eq!(Visibility::File.as_str(), "file");
    assert_eq!(Visibility::Protected.as_str(), "protected");
}

#[test]
fn rust_pub_and_pub_crate() {
    assert_eq!(classify_visibility(Rust, &["pub"], "foo"), Visibility::Public);
    assert_eq!(classify_visibility(Rust, &["pub(crate)"], "foo"), Visibility::Package);
    assert_eq!(classify_visibility(Rust, &["pub(super)"], "foo"), Visibility::File);
    assert_eq!(classify_visibility(Rust, &[], "foo"), Visibility::Private);
}

#[test]
fn python_underscore_conventions() {
    assert_eq!(classify_visibility(Python, &[], "foo"), Visibility::Public);
    assert_eq!(classify_visibility(Python, &[], "_foo"), Visibility::Protected);
    assert_eq!(classify_visibility(Python, &[], "__foo"), Visibility::Private);
    assert_eq!(classify_visibility(Python, &[], "__init__"), Visibility::Public);
}

#[test]
fn typescript_hash_private_fields() {
    assert_eq!(classify_visibility(TypeScript, &[], "#foo"), Visibility::Private);
    assert_eq!(classify_visibility(TypeScript, &["private"], "foo"), Visibility::Private);
    assert_eq!(classify_visibility(TypeScript, &["protected"], "foo"), Visibility::Protected);
    assert_eq!(classify_visibility(TypeScript, &["public"], "foo"), Visibility::Public);
    assert_eq!(classify_visibility(TypeScript, &[], "foo"), Visibility::Public);
}

#[test]
fn ts_is_exported_follows_keyword() {
    assert!(is_exported(TypeScript, Visibility::Public, &["export"], "foo"));
    assert!(!is_exported(TypeScript, Visibility::Public, &[], "foo"));
}

#[test]
fn java_default_is_package() {
    assert_eq!(classify_visibility(Java, &[], "foo"), Visibility::Package);
    assert_eq!(classify_visibility(Java, &["public"], "foo"), Visibility::Public);
    assert_eq!(classify_visibility(Java, &["private"], "foo"), Visibility::Private);
}

#[test]
fn kotlin_default_is_public() {
    assert_eq!(classify_visibility(Kotlin, &[], "foo"), Visibility::Public);
    assert_eq!(classify_visibility(Kotlin, &["internal"], "foo"), Visibility::Package);
}

#[test]
fn csharp_internal_default() {
    assert_eq!(classify_visibility(CSharp, &[], "foo"), Visibility::Package);
    assert_eq!(classify_visibility(CSharp, &["public"], "Foo"), Visibility::Public);
}

#[test]
fn go_casing_determines_visibility() {
    assert_eq!(classify_visibility(Go, &[], "Foo"), Visibility::Public);
    assert_eq!(classify_visibility(Go, &[], "foo"), Visibility::Package);
    assert!(is_exported(Go, Visibility::Public, &[], "Foo"));
    assert!(!is_exported(Go, Visibility::Package, &[], "foo"));
}

#[test]
fn c_static_is_file_scope() {
    assert_eq!(classify_visibility(C, &[], "foo"), Visibility::Public);
    assert_eq!(classify_visibility(C, &["static"], "foo"), Visibility::File);
}

#[test]
fn php_top_level_is_public() {
    assert_eq!(classify_visibility(Php, &[], "foo"), Visibility::Public);
    assert_eq!(classify_visibility(Php, &["private"], "foo"), Visibility::Private);
}

#[test]
fn swift_fileprivate_mapped() {
    assert_eq!(classify_visibility(Swift, &["fileprivate"], "foo"), Visibility::File);
    assert_eq!(classify_visibility(Swift, &[], "foo"), Visibility::Package);
    assert_eq!(classify_visibility(Swift, &["open"], "foo"), Visibility::Public);
}

#[test]
fn ruby_default_public() {
    assert_eq!(classify_visibility(Ruby, &[], "foo"), Visibility::Public);
    assert_eq!(classify_visibility(Ruby, &["private"], "foo"), Visibility::Private);
}

#[test]
fn dart_underscore_file_private() {
    assert_eq!(classify_visibility(Dart, &[], "foo"), Visibility::Public);
    assert_eq!(classify_visibility(Dart, &[], "_foo"), Visibility::File);
    assert!(is_exported(Dart, Visibility::Public, &[], "foo"));
    assert!(!is_exported(Dart, Visibility::File, &[], "_foo"));
}

#[test]
fn csharp_protected_internal_and_exports() {
    assert_eq!(classify_visibility(CSharp, &["protected"], "x"), Visibility::Protected);
    assert_eq!(classify_visibility(CSharp, &["private"], "x"), Visibility::Private);
}
