use codegraph::semantic::route_extractors::{aspnet, django, extract_all, fastapi, flask, laravel, symfony};
use codegraph::semantic::symbol_table::{
    camel_to_snake, has_upper_after_lower, name_variants, snake_to_camel, SymbolEntry, SymbolRow,
    SymbolTable,
};
use codegraph::semantic::type_env::TypeEnv;
use codegraph::semantic::SymbolKind;

#[test]
fn parses_http_attribute() {
    let src = r#"
public class UsersController : ControllerBase
{
    [HttpGet("users")]
    public IActionResult List() => Ok();
}
"#;
    let routes = aspnet::extract(src);
    assert_eq!(routes.len(), 1);
    assert_eq!(routes[0].method, "GET");
    assert_eq!(routes[0].path, "users");
    assert_eq!(routes[0].handler_name, "List");
}

#[test]
fn parses_minimal_api() {
    let src = r#"
app.MapGet("/health", HealthChecks.Handler);
app.MapPost("/items", CreateItem);
"#;
    let routes = aspnet::extract(src);
    assert_eq!(routes.len(), 2);
    assert_eq!(routes[0].method, "GET");
    assert_eq!(routes[0].handler_name, "Handler");
    assert_eq!(routes[1].method, "POST");
    assert_eq!(routes[1].handler_name, "CreateItem");
}

#[test]
fn parses_path_helper() {
    let src = r#"
from django.urls import path
from . import views

urlpatterns = [
    path("users/", views.list_users, name="user-list"),
    path("users/<int:pk>/", views.user_detail),
]
"#;
    let routes = django::extract(src);
    assert_eq!(routes.len(), 2);
    assert_eq!(routes[0].method, "*");
    assert_eq!(routes[0].path, "users/");
    assert_eq!(routes[0].handler_name, "list_users");
    assert_eq!(routes[1].path, "users/<int:pk>/");
    assert_eq!(routes[1].handler_name, "user_detail");
}

#[test]
fn parses_re_path_helper() {
    let src = r#"re_path(r"^admin/.*", admin_view)"#;
    let routes = django::extract(src);
    assert_eq!(routes.len(), 1);
    assert_eq!(routes[0].path, "^admin/.*");
    assert_eq!(routes[0].handler_name, "admin_view");
}

#[test]
fn ignores_non_route_calls() {
    let src = r#"print("just a line"); other_func()"#;
    assert!(django::extract(src).is_empty());
}

#[test]
fn parses_single_route() {
    let src = r#"
from fastapi import FastAPI
app = FastAPI()

@app.get("/users/{user_id}")
async def read_user(user_id: int):
    pass
"#;
    let routes = fastapi::extract(src);
    assert_eq!(routes.len(), 1);
    assert_eq!(routes[0].method, "GET");
    assert_eq!(routes[0].path, "/users/{user_id}");
    assert_eq!(routes[0].handler_name, "read_user");
}

#[test]
fn parses_router_decorator() {
    let src = r#"
@router.post("/items")
def create_item(item: Item):
    return item
"#;
    let routes = fastapi::extract(src);
    assert_eq!(routes.len(), 1);
    assert_eq!(routes[0].method, "POST");
    assert_eq!(routes[0].handler_name, "create_item");
}

#[test]
fn skips_decorator_without_method() {
    let src = r#"
@app.middleware("http")
async def add_header(req, call_next):
    pass
"#;
    assert!(fastapi::extract(src).is_empty());
}

#[test]
fn default_method_is_get() {
    let src = r#"
@app.route("/users")
def users():
    pass
"#;
    let routes = flask::extract(src);
    assert_eq!(routes.len(), 1);
    assert_eq!(routes[0].method, "GET");
    assert_eq!(routes[0].path, "/users");
}

#[test]
fn explicit_methods_list_expanded() {
    let src = r#"
@app.route("/users", methods=["GET", "POST"])
def users():
    pass
"#;
    let routes = flask::extract(src);
    assert_eq!(routes.len(), 2);
    let methods: Vec<_> = routes.iter().map(|r| r.method.as_str()).collect();
    assert!(methods.contains(&"GET"));
    assert!(methods.contains(&"POST"));
}

#[test]
fn parses_at_action_form() {
    let src = r#"<?php
Route::get('/users', 'UserController@index');
"#;
    let routes = laravel::extract(src);
    assert_eq!(routes.len(), 1);
    assert_eq!(routes[0].method, "GET");
    assert_eq!(routes[0].path, "/users");
    assert_eq!(routes[0].handler_name, "index");
}

#[test]
fn parses_array_action_form() {
    let src = r#"<?php
Route::post('/users', [UserController::class, 'store']);
"#;
    let routes = laravel::extract(src);
    assert_eq!(routes.len(), 1);
    assert_eq!(routes[0].method, "POST");
    assert_eq!(routes[0].handler_name, "store");
}

#[test]
fn unknown_extension_returns_empty() {
    assert!(extract_all("foo.txt", "anything").is_empty());
}

#[test]
fn extract_all_dispatches_by_extension() {
    let py = "@app.get(\"/a\")\ndef a():\n    pass\n";
    assert_eq!(extract_all("svc/main.py", py).len(), 1);
    assert_eq!(extract_all("svc/MAIN.PY", py).len(), 1);
    let urls = "path(\"x/\", views.x)\n";
    assert_eq!(extract_all("app/urls.py", urls).len(), 1);
    assert!(extract_all("app/other.py", urls).is_empty());
    assert!(extract_all("app/.py", py).is_empty());
}

#[test]
fn parses_symfony_attribute_route() {
    let src = r#"<?php
#[Route('/users', name: 'user_list', methods: ['GET'])]
public function index(): Response {
    return new Response();
}
"#;
    let routes = symfony::extract(src);
    assert_eq!(routes.len(), 1);
    assert_eq!(routes[0].method, "GET");
    assert_eq!(routes[0].path, "/users");
    assert_eq!(routes[0].handler_name, "index");
}

#[test]
fn parses_multiple_methods() {
    let src = r#"<?php
#[Route('/items', methods: ['GET', 'POST'])]
public function items(): Response { }
"#;
    let routes = symfony::extract(src);
    assert_eq!(routes.len(), 2);
}

fn entry(qname: &str, name: &str, file: &str, kind: SymbolKind) -> SymbolEntry {
    SymbolEntry {
        qualified_name: qname.to_string(),
        name: name.to_string(),
        source_file: file.to_string(),
        kind,
    }
}

#[test]
fn insert_and_find_exact() {
    let mut t = SymbolTable::new();
    t.insert(entry("crate::foo", "foo", "lib.rs", SymbolKind::Function));
    let got = t.find_exact("crate::foo").unwrap();
    assert_eq!(got.name, "foo");
    assert_eq!(got.source_file, "lib.rs");
}

#[test]
fn duplicate_qnames_ignored() {
    let mut t = SymbolTable::new();
    t.insert(entry("crate::foo", "foo", "a.rs", SymbolKind::Function));
    t.insert(entry("crate::foo", "foo", "b.rs", SymbolKind::Function));
    assert_eq!(t.len(), 1);
    assert_eq!(t.find_exact("crate::foo").unwrap().source_file, "a.rs");
}

#[test]
fn find_by_simple_name_returns_all_matches() {
    let mut t = SymbolTable::new();
    t.insert(entry("a::foo", "foo", "a.rs", SymbolKind::Function));
    t.insert(entry("b::foo", "foo", "b.rs", SymbolKind::Function));
    let hits = t.find_by_simple_name("foo");
    assert_eq!(hits.len(), 2);
}

#[test]
fn find_in_file_scopes_to_file() {
    let mut t = SymbolTable::new();
    t.insert(entry("a::foo", "foo", "a.rs", SymbolKind::Function));
    t.insert(entry("b::foo", "foo", "b.rs", SymbolKind::Function));
    assert_eq!(t.find_in_file("a.rs", "foo").unwrap().qualified_name, "a::foo");
    assert_eq!(t.find_in_file("b.rs", "foo").unwrap().qualified_name, "b::foo");
    assert!(t.find_in_file("c.rs", "foo").is_none());
}

#[test]
fn snake_name_also_registered_under_camel_variant() {
    let mut t = SymbolTable::new();
    t.insert(entry("crate::get_user", "get_user", "lib.rs", SymbolKind::Function));
    let hits = t.find_by_simple_name("getUser");
    assert_eq!(hits.len(), 1);
    assert_eq!(hits[0].qualified_name, "crate::get_user");
}

#[test]
fn camel_name_also_registered_under_snake_variant() {
    let mut t = SymbolTable::new();
    t.insert(entry("App::getUser", "getUser", "app.ts", SymbolKind::Function));
    let hits = t.find_by_simple_name("get_user");
    assert_eq!(hits.len(), 1);
    assert_eq!(hits[0].qualified_name, "App::getUser");
}

#[test]
fn snake_to_camel_basic() {
    assert_eq!(snake_to_camel("get_user_by_id"), "getUserById");
    assert_eq!(snake_to_camel("foo"), "foo");
}

#[test]
fn camel_to_snake_basic() {
    assert_eq!(camel_to_snake("getUserById"), "get_user_by_id");
    assert_eq!(camel_to_snake("foo"), "foo");
}

#[test]
fn name_variants_cover_both_spellings() {
    assert!(has_upper_after_lower("getUser"));
    assert!(!has_upper_after_lower("GET"));
    assert_eq!(name_variants("get_user"), vec!["getUser".to_string()]);
    assert_eq!(name_variants("getUser"), vec!["get_user".to_string()]);
    assert!(name_variants("plain").is_empty());
}

#[test]
fn insert_rows_loads_a_kind() {
    let mut t = SymbolTable::new();
    let rows = vec![
        SymbolRow {
            qualified_name: "m::A".to_string(),
            name: "A".to_string(),
            source_file: "m.rs".to_string(),
        },
        SymbolRow {
            qualified_name: "m::A".to_string(),
            name: "A".to_string(),
            source_file: "n.rs".to_string(),
        },
    ];
    t.insert_rows(SymbolKind::Class, &rows);
    assert_eq!(t.len(), 1);
    assert!(!t.is_empty());
    assert_eq!(t.find_exact("m::A").unwrap().kind, SymbolKind::Class);
}

#[test]
fn insert_and_lookup_member() {
    let mut env = TypeEnv::new();
    env.insert_member("app::User", "email", "String");
    assert_eq!(env.member_type("app::User", "email"), Some("String"));
    assert_eq!(env.member_type("app::User", "name"), None);
    assert_eq!(env.member_type("other::User", "email"), None);
}

#[test]
fn insert_and_lookup_module() {
    let mut env = TypeEnv::new();
    env.insert_module("app::DEFAULT_LIMIT", "u32");
    assert_eq!(env.module_type("app::DEFAULT_LIMIT"), Some("u32"));
}

#[test]
fn module_and_member_live_in_different_namespaces() {
    let mut env = TypeEnv::new();
    env.insert_module("app::foo", "T1");
    env.insert_member("app", "foo", "T2");
    assert_eq!(env.module_type("app::foo"), Some("T1"));
    assert_eq!(env.member_type("app", "foo"), Some("T2"));
}

#[test]
fn empty_declared_type_is_ignored() {
    let mut env = TypeEnv::new();
    env.insert_member("app::User", "email", "");
    assert!(env.is_empty());
}

#[test]
fn len_tracks_insertions() {
    let mut env = TypeEnv::new();
    assert_eq!(env.len(), 0);
    env.insert_member("A", "x", "i32");
    env.insert_module("B", "String");
    assert_eq!(env.len(), 2);
}

#[test]
fn later_type_overwrites_earlier() {
    let mut env = TypeEnv::new();
    env.insert_member("A", "x", "i32");
    env.insert_member("A", "x", "u8");
    assert_eq!(env.member_type("A", "x"), Some("u8"));
    assert_eq!(env.len(), 1);
}
