use codegraph::semantic::named_bindings::{csharp, java_kotlin, php, python, rust, typescript};
use codegraph::semantic::named_bindings::BindingKind;
use codegraph::semantic::resolver::{CallResolver, CallSiteQuery, Tier};
use codegraph::semantic::response_shapes::extract as extract_fetches;
use codegraph::semantic::symbol_table::{SymbolEntry, SymbolTable};
use codegraph::semantic::type_env::TypeEnv;
use codegraph::semantic::SymbolKind;

#[test]
fn two_generic_form_detected() {
    let src = r#"services.AddSingleton<IUserService, UserService>();"#;
    let bindings = csharp::extract(src);
    assert_eq!(bindings.len(), 1);
    assert_eq!(bindings[0].consumer, "IUserService");
    assert_eq!(bindings[0].provider, "UserService");
    assert_eq!(bindings[0].kind, BindingKind::Singleton);
}

#[test]
fn single_generic_form_detected() {
    let src = r#"services.AddScoped<DataService>();"#;
    let bindings = csharp::extract(src);
    assert_eq!(bindings.len(), 1);
    assert_eq!(bindings[0].consumer, "DataService");
    assert_eq!(bindings[0].provider, "DataService");
    assert_eq!(bindings[0].kind, BindingKind::Scoped);
}

#[test]
fn spring_service_detected() {
    let src = r#"
@Service
public class UserService {
}
"#;
    let bindings = java_kotlin::extract(src);
    assert!(bindings.iter().any(|b| b.provider == "UserService"));
}

#[test]
fn koin_single_detected() {
    let src = r#"single { UserService() }"#;
    let bindings = java_kotlin::extract(src);
    assert!(bindings
        .iter()
        .any(|b| b.provider == "UserService" && b.kind == BindingKind::Singleton));
}

#[test]
fn binding_kind_round_trip() {
    for (k, s) in [
        (BindingKind::Singleton, "singleton"),
        (BindingKind::Transient, "transient"),
        (BindingKind::Scoped, "scoped"),
        (BindingKind::Factory, "factory"),
        (BindingKind::Unknown, "unknown"),
    ] {
        assert_eq!(k.as_str(), s);
    }
}

#[test]
fn laravel_bind_detected() {
    let src = r#"$this->app->bind(UserRepository::class, EloquentUserRepository::class);"#;
    let bindings = php::extract(src);
    assert_eq!(bindings.len(), 1);
    assert_eq!(bindings[0].consumer, "UserRepository");
    assert_eq!(bindings[0].provider, "EloquentUserRepository");
    assert_eq!(bindings[0].kind, BindingKind::Transient);
}

#[test]
fn laravel_singleton_detected() {
    let src = r#"$this->app->singleton(ILogger::class, FileLogger::class);"#;
    let bindings = php::extract(src);
    assert_eq!(bindings.len(), 1);
    assert_eq!(bindings[0].kind, BindingKind::Singleton);
}

#[test]
fn fastapi_depends_detected() {
    let src = r#"
def read_users(user: User = Depends(get_current_user)):
    return user
"#;
    let bindings = python::extract(src);
    assert!(bindings
        .iter()
        .any(|b| b.consumer == "user" && b.provider == "get_current_user"));
}

#[test]
fn dependency_injector_singleton_detected() {
    let src = r#"
user_service = providers.Singleton(UserService)
"#;
    let bindings = python::extract(src);
    assert!(bindings.iter().any(|b| b.consumer == "user_service"
        && b.provider == "UserService"
        && b.kind == BindingKind::Singleton));
}

#[test]
fn shaku_module_detected() {
    let src = r#"
module! {
    MyModule {
        components = [UserServiceImpl, EmailService],
        providers = []
    }
}
"#;
    let bindings = rust::extract(src);
    let providers: Vec<&str> = bindings.iter().map(|b| b.provider.as_str()).collect();
    assert!(providers.contains(&"UserServiceImpl"));
    assert!(providers.contains(&"EmailService"));
}

#[test]
fn injectable_class_detected() {
    let src = r#"
@Injectable()
export class UserService {
  constructor(private db: Database) {}
}
"#;
    let bindings = typescript::extract(src);
    assert!(bindings.iter().any(|b| b.provider == "UserService"));
}

#[test]
fn inversify_bind_detected() {
    let src = r#"
container.bind<IUserService>(TYPES.IUserService).to(UserService);
"#;
    let bindings = typescript::extract(src);
    assert!(bindings
        .iter()
        .any(|b| b.consumer == "IUserService" && b.provider == "UserService"));
}

#[test]
fn bindings_report_lines() {
    let src = "// setup\nservices.AddTransient<IA, A>();\n";
    let bindings = csharp::extract(src);
    assert_eq!(bindings.len(), 1);
    assert_eq!(bindings[0].line, 2);
    assert_eq!(bindings[0].kind, BindingKind::Transient);
}

fn entry(qname: &str, name: &str, file: &str) -> SymbolEntry {
    SymbolEntry {
        qualified_name: qname.to_string(),
        name: name.to_string(),
        source_file: file.to_string(),
        kind: SymbolKind::Function,
    }
}

fn imported(files: &[&str]) -> Vec<String> {
    files.iter().map(|s| s.to_string()).collect()
}

#[test]
fn tier_ordering_goes_from_weakest_to_strongest() {
    assert!(Tier::SameFile > Tier::ReceiverResolved);
    assert!(Tier::ReceiverResolved > Tier::ImportedExact);
    assert!(Tier::ImportedExact > Tier::ImportedAlias);
    assert!(Tier::ImportedAlias > Tier::ProjectUnique);
    assert!(Tier::ProjectUnique > Tier::ProjectMultiMatch);
}

#[test]
fn tier_ranks_follow_the_order() {
    assert!(Tier::SameFile.rank() > Tier::ReceiverResolved.rank());
    assert!(Tier::ProjectUnique.rank() > Tier::ProjectMultiMatch.rank());
}

#[test]
fn same_file_beats_other_tiers() {
    let mut t = SymbolTable::new();
    t.insert(entry("a::foo", "foo", "a.rs"));
    t.insert(entry("b::foo", "foo", "b.rs"));
    let types = TypeEnv::new();
    let resolver = CallResolver::new(&t, &types);

    let hits = resolver
        .resolve(&CallSiteQuery {
            caller_file: "a.rs",
            call_name: "foo",
            imported_files: &imported(&["b.rs"]),
            receiver_type: None,
        })
        .unwrap();
    assert_eq!(hits.tier, Tier::SameFile);
    assert_eq!(hits.callee_qname, "a::foo");
}

#[test]
fn receiver_resolution_uses_qname_path() {
    let mut t = SymbolTable::new();
    t.insert(SymbolEntry {
        qualified_name: "User::save".to_string(),
        name: "save".to_string(),
        source_file: "user.rs".to_string(),
        kind: SymbolKind::Method,
    });
    let types = TypeEnv::new();
    let resolver = CallResolver::new(&t, &types);

    let hits = resolver
        .resolve(&CallSiteQuery {
            caller_file: "caller.rs",
            call_name: "save",
            imported_files: &imported(&[]),
            receiver_type: Some("User"),
        })
        .unwrap();
    assert_eq!(hits.tier, Tier::ReceiverResolved);
    assert_eq!(hits.callee_qname, "User::save");
}

#[test]
fn imported_exact_matches_when_one_imported_hit() {
    let mut t = SymbolTable::new();
    t.insert(entry("a::foo", "foo", "a.rs"));
    t.insert(entry("b::foo", "foo", "b.rs"));
    let types = TypeEnv::new();
    let resolver = CallResolver::new(&t, &types);

    let hits = resolver
        .resolve(&CallSiteQuery {
            caller_file: "caller.rs",
            call_name: "foo",
            imported_files: &imported(&["a.rs"]),
            receiver_type: None,
        })
        .unwrap();
    assert_eq!(hits.tier, Tier::ImportedExact);
    assert_eq!(hits.callee_qname, "a::foo");
}

#[test]
fn imported_alias_when_multiple_imported_hits() {
    let mut t = SymbolTable::new();
    t.insert(entry("a::foo", "foo", "a.rs"));
    t.insert(entry("b::foo", "foo", "b.rs"));
    let types = TypeEnv::new();
    let resolver = CallResolver::new(&t, &types);

    let hits = resolver
        .resolve(&CallSiteQuery {
            caller_file: "caller.rs",
            call_name: "foo",
            imported_files: &imported(&["a.rs", "b.rs"]),
            receiver_type: None,
        })
        .unwrap();
    assert_eq!(hits.tier, Tier::ImportedAlias);
    assert_eq!(hits.callee_qname, "a::foo");
}

#[test]
fn project_unique_when_single_project_match() {
    let mut t = SymbolTable::new();
    t.insert(entry("crate::foo", "foo", "lib.rs"));
    let types = TypeEnv::new();
    let resolver = CallResolver::new(&t, &types);

    let hits = resolver
        .resolve(&CallSiteQuery {
            caller_file: "other.rs",
            call_name: "foo",
            imported_files: &imported(&[]),
            receiver_type: None,
        })
        .unwrap();
    assert_eq!(hits.tier, Tier::ProjectUnique);
}

#[test]
fn project_multi_when_multiple_unimported_matches() {
    let mut t = SymbolTable::new();
    t.insert(entry("a::foo", "foo", "a.rs"));
    t.insert(entry("b::foo", "foo", "b.rs"));
    let types = TypeEnv::new();
    let resolver = CallResolver::new(&t, &types);

    let hits = resolver
        .resolve(&CallSiteQuery {
            caller_file: "caller.rs",
            call_name: "foo",
            imported_files: &imported(&[]),
            receiver_type: None,
        })
        .unwrap();
    assert_eq!(hits.tier, Tier::ProjectMultiMatch);
}

#[test]
fn returns_none_when_no_symbol_matches() {
    let t = SymbolTable::new();
    let types = TypeEnv::new();
    let resolver = CallResolver::new(&t, &types);

    let hits = resolver.resolve(&CallSiteQuery {
        caller_file: "x.rs",
        call_name: "missing",
        imported_files: &imported(&[]),
        receiver_type: None,
    });
    assert!(hits.is_none());
}

#[test]
fn resolved_call_reports_reason_and_label() {
    let mut t = SymbolTable::new();
    t.insert(entry("a::foo", "foo", "a.rs"));
    let types = TypeEnv::new();
    let resolver = CallResolver::new(&t, &types);
    let hit = resolver
        .resolve(&CallSiteQuery {
            caller_file: "a.rs",
            call_name: "foo",
            imported_files: &imported(&[]),
            receiver_type: None,
        })
        .unwrap();
    assert_eq!(hit.tier.reason(), Tier::SameFile.reason());
}

#[test]
fn fetch_default_method_is_get() {
    let calls = extract_fetches(r#"await fetch('/api/users')"#);
    assert_eq!(calls.len(), 1);
    assert_eq!(calls[0].method, "GET");
    assert_eq!(calls[0].url, "/api/users");
}

#[test]
fn axios_methods_preserved() {
    let calls = extract_fetches(r#"axios.post('/login', payload); $.get('/me');"#);
    assert_eq!(calls.len(), 2);
    let methods: Vec<&str> = calls.iter().map(|c| c.method.as_str()).collect();
    assert!(methods.contains(&"POST"));
    assert!(methods.contains(&"GET"));
}

#[test]
fn python_requests_detected() {
    let calls = extract_fetches(r#"r = requests.get("http://api.example.com/data")"#);
    assert_eq!(calls.len(), 1);
    assert_eq!(calls[0].method, "GET");
}

#[test]
fn fetch_calls_keep_source_order_and_lines() {
    let calls = extract_fetches("x\nhttpx.delete('/a')\nfetch(\"/b\")");
    assert_eq!(calls.len(), 2);
    assert_eq!(calls[0].url, "/b");
    assert_eq!(calls[0].line, 3);
    assert_eq!(calls[1].method, "DELETE");
    assert_eq!(calls[1].line, 2);
}

#[test]
fn nest_providers_list_keeps_class_names() {
    let src = "@Module({\n  providers: [UserService, { provide: X }, 42, MailService],\n})";
    let bindings = typescript::extract(src);
    let providers: Vec<&str> = bindings.iter().map(|b| b.provider.as_str()).collect();
    assert_eq!(providers, vec!["UserService", "MailService"]);
    assert!(bindings.iter().all(|b| b.consumer == "module" && b.line == 2));
}
