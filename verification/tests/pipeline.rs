use codegraph::embeddings_table::CodeEmbeddingTable;
use codegraph::pipeline::embeddings::{
    clear_embeddings_statement, embeddable_labels, embeddable_nodes_query, embedding_text,
    insert_embedding_statement, oversized_stats, push_embedding_inputs, vector_index_statement,
    EmbeddingStats, EMBEDDING_NODE_LIMIT,
};
use codegraph::pipeline::enriching::{
    communities_query, dominant_extension, enriched_description, members_query,
    set_description_statement, EnrichingPhase,
};
use codegraph::pipeline::fts::{
    create_index_statement, drop_index_statement, index_name, index_statements, searchable_labels,
};
use codegraph::pipeline::routes::{
    detect_decorator_routes, detect_expo_routes, detect_nextjs_routes, detect_tool_definitions,
    extract_fn_name, extract_string_arg, normalize_path, plan_route_statements, scan_file,
    DetectedRoute, DetectedTool, RoutesPhase,
};
use codegraph::pipeline::PhaseResult;
use codegraph::search::{
    bm25_query, lookup_labels, node_lookup_query, sanitize_fts_query, search_indexes,
};

fn route(method: &str, path: &str, handler: &str, file: &str) -> DetectedRoute {
    DetectedRoute {
        method: method.to_string(),
        path: path.to_string(),
        handler_qname: handler.to_string(),
        source_file: file.to_string(),
    }
}

fn views(routes: &[DetectedRoute]) -> Vec<(String, String, String, String)> {
    routes
        .iter()
        .map(|r| (r.method.clone(), r.path.clone(), r.handler_qname.clone(), r.source_file.clone()))
        .collect()
}

#[test]
fn normalize_path_uses_forward_slashes() {
    assert_eq!(normalize_path("src\\api\\users.py"), "src/api/users.py");
    assert_eq!(normalize_path("a/b"), "a/b");
}

#[test]
fn string_argument_is_the_first_quoted_text() {
    assert_eq!(extract_string_arg("  \"/api/users\")"), Some("/api/users".to_string()));
    assert_eq!(extract_string_arg("'/x', handler)"), Some("/x".to_string()));
    assert_eq!(extract_string_arg("path)"), None);
    assert_eq!(extract_string_arg("\"open"), None);
}

#[test]
fn function_names_after_keywords() {
    assert_eq!(extract_fn_name("export default function Home() {"), Some("Home".to_string()));
    assert_eq!(extract_fn_name("pub async fn handler(req: Req)"), Some("handler".to_string()));
    assert_eq!(extract_fn_name("def list_users(request):"), Some("list_users".to_string()));
    assert_eq!(extract_fn_name("def (x)"), None);
}

#[test]
fn nextjs_pages_and_app_routes() {
    let mut routes = Vec::new();
    detect_nextjs_routes("pages/api/[id].ts", "", &mut routes);
    detect_nextjs_routes("pages/index.tsx", "", &mut routes);
    detect_nextjs_routes("pages/_app.tsx", "", &mut routes);
    detect_nextjs_routes("app/users/[id]/page.tsx", "", &mut routes);
    assert_eq!(
        views(&routes),
        vec![
            ("*".to_string(), "/api/:id".to_string(), "pages/api/[id].ts::default".to_string(), "pages/api/[id].ts".to_string()),
            ("*".to_string(), "/".to_string(), "pages/index.tsx::default".to_string(), "pages/index.tsx".to_string()),
            ("GET".to_string(), "/users/:id".to_string(), "app/users/[id]/page.tsx::default".to_string(), "app/users/[id]/page.tsx".to_string()),
        ]
    );
}

#[test]
fn nextjs_route_handlers_get_every_method() {
    let mut routes = Vec::new();
    detect_nextjs_routes("app/api/items/route.ts", "", &mut routes);
    let methods: Vec<&str> = routes.iter().map(|r| r.method.as_str()).collect();
    assert_eq!(methods, vec!["GET", "POST", "PUT", "DELETE", "PATCH"]);
    assert!(routes.iter().all(|r| r.path == "/api/items"));
    assert_eq!(routes[1].handler_qname, "app/api/items/route.ts::POST");
}

#[test]
fn expo_group_screens_become_routes() {
    let mut routes = Vec::new();
    detect_expo_routes("app/(tabs)/home.tsx", &mut routes);
    detect_expo_routes("app/settings.tsx", &mut routes);
    assert_eq!(
        views(&routes),
        vec![("GET".to_string(), "/home".to_string(), "app/(tabs)/home.tsx::default".to_string(), "app/(tabs)/home.tsx".to_string())]
    );
}

#[test]
fn decorator_routes_take_the_next_function() {
    let mut routes = Vec::new();
    let src = "@app.get(\"/users\")\ndef list_users():\n    pass\napp.post('/x', h)\n";
    detect_decorator_routes("api.py", src, &mut routes);
    assert_eq!(
        views(&routes),
        vec![
            ("GET".to_string(), "/users".to_string(), "api.py::list_users".to_string(), "api.py".to_string()),
            ("POST".to_string(), "/x".to_string(), "api.py::__pending_3".to_string(), "api.py".to_string()),
        ]
    );
}

#[test]
fn tools_without_handlers_are_dropped() {
    let mut tools: Vec<DetectedTool> = Vec::new();
    let src = "server.tool(\"search\", schema)\nfunction search() {}\nserver.tool(\"orphan\")\n";
    detect_tool_definitions("t.ts", src, &mut tools);
    assert_eq!(tools.len(), 1);
    assert_eq!(tools[0].name, "search");
    assert_eq!(tools[0].handler_qname, "t.ts::search");
}

#[test]
fn scan_file_collects_every_kind_of_find() {
    let mut routes = Vec::new();
    let mut tools = Vec::new();
    let mut fetches = Vec::new();
    let mut forms = Vec::new();
    let src = "@app.get(\"/a\")\ndef a():\n    pass\nrequests.post('/b')\n";
    scan_file("/repo/svc/main.py", "svc/main.py", src, &mut routes, &mut tools, &mut fetches, &mut forms);
    assert_eq!(
        views(&routes),
        vec![
            ("GET".to_string(), "/a".to_string(), "svc/main.py::a".to_string(), "svc/main.py".to_string()),
            ("GET".to_string(), "/a".to_string(), "svc/main.py::a".to_string(), "svc/main.py".to_string()),
        ]
    );
    assert!(tools.is_empty());
    assert_eq!(fetches, vec![("svc/main.py".to_string(), "POST".to_string(), "/b".to_string())]);
    assert!(forms.is_empty());

    scan_file(
        "/repo/web/login.html",
        "web/login.html",
        "<form action=\"/a\">",
        &mut routes,
        &mut tools,
        &mut fetches,
        &mut forms,
    );
    assert_eq!(forms, vec![("web/login.html".to_string(), "GET".to_string(), "/a".to_string())]);
}

#[test]
fn pending_route_of_an_earlier_file_takes_a_later_function() {
    let mut routes = Vec::new();
    let mut tools = Vec::new();
    let mut fetches = Vec::new();
    let mut forms = Vec::new();
    scan_file("a.js", "a.js", "app.get('/x', h)\n", &mut routes, &mut tools, &mut fetches, &mut forms);
    scan_file("b.js", "b.js", "function later() {}\n", &mut routes, &mut tools, &mut fetches, &mut forms);
    assert_eq!(routes.len(), 1);
    assert_eq!(routes[0].handler_qname, "b.js::later");
}

#[test]
fn route_statements_for_one_route() {
    let routes = vec![
        route("GET", "/a", "svc/main.py::a", "svc/main.py"),
        route("GET", "/a", "svc/main.py::a", "svc/main.py"),
    ];
    let fetches = vec![("web/app.js".to_string(), "GET".to_string(), "/a".to_string())];
    let known = vec!["svc/main.py::a".to_string()];
    let (nodes, edges) = plan_route_statements("p", &routes, &Vec::new(), &fetches, &Vec::new(), &known);
    assert_eq!(
        nodes,
        vec!["CREATE (:Route {qualified_name: 'p::route::GET::/a', name: 'GET /a', project_id: 'p', source_file: 'svc/main.py', line_start: 0, line_end: 0, source: 'pipeline', written_by: 'pipeline', extends_type: 'GET', import_source: '/a', declared_type: ''})".to_string()]
    );
    assert_eq!(edges.len(), 3);
    assert_eq!(
        edges[0],
        "MATCH (h:Function), (r:Route) WHERE h.qualified_name = 'svc/main.py::a' AND h.project_id = 'p' AND r.qualified_name = 'p::route::GET::/a' CREATE (h)-[:CodeRelation {type: 'HANDLES_ROUTE', confidence: 0.90, reason: 'framework', step: 0}]->(r)"
    );
    assert!(edges[1].starts_with("MATCH (h:Method), (r:Route)"));
    assert_eq!(
        edges[2],
        "MATCH (f:File), (r:Route) WHERE f.qualified_name = 'p::web/app.js' AND f.project_id = 'p' AND r.qualified_name = 'p::route::GET::/a' AND r.project_id = 'p' CREATE (f)-[:CodeRelation {type: 'FETCHES', confidence: 0.75, reason: 'url match', step: 0}]->(r)"
    );
}

#[test]
fn route_statements_for_tools_and_catch_all_fetches() {
    let routes = vec![route("*", "/users", "u.py::users", "u.py")];
    let tools = vec![DetectedTool { name: "search".to_string(), handler_qname: "t.ts::search".to_string() }];
    let forms = vec![
        ("f.html".to_string(), "POST".to_string(), "/users".to_string()),
        ("f.html".to_string(), "GET".to_string(), "/users".to_string()),
        ("f.html".to_string(), "GET".to_string(), "/none".to_string()),
    ];
    let known = vec!["t.ts::search".to_string()];
    let (nodes, edges) = plan_route_statements("p", &routes, &tools, &Vec::new(), &forms, &known);
    assert_eq!(nodes.len(), 2);
    assert_eq!(
        nodes[1],
        "CREATE (:Tool {qualified_name: 'p::tool::search', name: 'search', project_id: 'p', source_file: '', line_start: 0, line_end: 0, source: 'pipeline', written_by: 'pipeline', extends_type: '', import_source: '', declared_type: ''})"
    );
    assert_eq!(edges.len(), 3);
    assert_eq!(
        edges[0],
        "MATCH (h:Function), (t:Tool) WHERE h.qualified_name = 't.ts::search' AND h.project_id = 'p' AND t.qualified_name = 'p::tool::search' CREATE (h)-[:CodeRelation {type: 'HANDLES_TOOL', confidence: 0.85, reason: 'search', step: 0}]->(t)"
    );
    assert!(edges[2].contains("'p::route::*::/users'"));
}

#[test]
fn no_routes_means_no_statements() {
    let tools = vec![DetectedTool { name: "x".to_string(), handler_qname: "a::x".to_string() }];
    let (nodes, edges) = plan_route_statements("p", &Vec::new(), &tools, &Vec::new(), &Vec::new(), &Vec::new());
    assert!(nodes.is_empty());
    assert!(edges.is_empty());
}

#[test]
fn route_qualified_names_escape_quotes() {
    let routes = vec![route("GET", "/it's", "h", "f")];
    let (nodes, _) = plan_route_statements("o'p", &routes, &Vec::new(), &Vec::new(), &Vec::new(), &Vec::new());
    assert!(nodes[0].contains("project_id: 'o\\'p'"));
    assert!(nodes[0].contains("name: 'GET /it\\'s'"));
}

#[test]
fn phase_labels() {
    assert_eq!(RoutesPhase.label(), "routes");
    assert_eq!(EnrichingPhase.label(), "enriching");
    let r = PhaseResult::default();
    assert_eq!((r.nodes_created, r.edges_created, r.errors), (0, 0, 0));
}

#[test]
fn fts_index_names_and_statements() {
    assert_eq!(index_name("TypeAlias"), "typealias_fts");
    assert_eq!(drop_index_statement("Function"), "CALL DROP_FTS_INDEX('Function', 'function_fts')");
    assert_eq!(
        create_index_statement("Route"),
        "CALL CREATE_FTS_INDEX('Route', 'route_fts', ['name', 'qualified_name', 'source_file'], stemmer := 'porter')"
    );
    let labels = searchable_labels();
    assert_eq!(labels.len(), 21);
    let stmts = index_statements();
    assert_eq!(stmts.len(), 21);
    assert_eq!(stmts[20].0, "CALL DROP_FTS_INDEX('Delegate', 'delegate_fts')");
}

#[test]
fn search_indexes_are_the_fts_indexes() {
    let labels = searchable_labels();
    let pairs = search_indexes();
    assert_eq!(pairs.len(), labels.len());
    for (i, (label, idx)) in pairs.iter().enumerate() {
        assert_eq!(*label, labels[i]);
        assert_eq!(index_name(label), *idx);
    }
}

#[test]
fn sanitize_keeps_words_of_alphanumerics() {
    assert_eq!(sanitize_fts_query("  find_user   by-id "), "find_user byid");
    assert_eq!(sanitize_fts_query("*** ???"), "");
    assert_eq!(sanitize_fts_query("a + b"), "a b");
    assert_eq!(sanitize_fts_query("héllo wörld"), "héllo wörld");
    assert_eq!(sanitize_fts_query(""), "");
}

#[test]
fn bm25_and_lookup_queries() {
    assert_eq!(
        bm25_query("Function", "function_fts", "it's", 30),
        "CALL QUERY_FTS_INDEX('Function', 'function_fts', 'it\\'s', conjunctive := false) RETURN node.qualified_name, node.name, node.source_file, score ORDER BY score DESC LIMIT 30"
    );
    assert_eq!(
        node_lookup_query("Class", "a::B", "p"),
        "MATCH (n:Class) WHERE n.qualified_name = 'a::B' AND n.project_id = 'p' RETURN n.name, n.source_file"
    );
    assert_eq!(lookup_labels().len(), 10);
}

#[test]
fn embedding_texts_and_limits() {
    assert_eq!(embedding_text("Function", "run", "src/a.rs"), "Function run in src/a.rs");
    let mut texts = Vec::new();
    let rows = vec![("q::run".to_string(), "run".to_string(), "".to_string())];
    push_embedding_inputs("Method", &rows, &mut texts);
    assert_eq!(texts, vec![("q::run".to_string(), "Method run in ".to_string())]);
    assert!(oversized_stats(EMBEDDING_NODE_LIMIT).is_none());
    let s = oversized_stats(EMBEDDING_NODE_LIMIT + 1).unwrap();
    assert_eq!((s.embedded, s.skipped), (0, 50001));
    let d = EmbeddingStats::default();
    assert_eq!((d.embedded, d.skipped), (0, 0));
    assert_eq!(embeddable_labels().len(), 13);
}

#[test]
fn embedding_statements() {
    assert_eq!(
        clear_embeddings_statement("p"),
        "MATCH (e:CodeEmbedding) WHERE e.nodeId STARTS WITH 'p' DELETE e"
    );
    assert_eq!(
        embeddable_nodes_query("Class", "p"),
        "MATCH (n:Class) WHERE n.project_id = 'p' RETURN n.qualified_name, n.name, n.source_file"
    );
    assert_eq!(
        insert_embedding_statement("a'b", "0.100000,0.200000"),
        "CREATE (:CodeEmbedding {nodeId: 'a\\'b', embedding: CAST([0.100000,0.200000] AS FLOAT[384])})"
    );
    assert!(vector_index_statement().contains("metric := 'cosine'"));
}

fn strings(v: &[&str]) -> Vec<String> {
    v.iter().map(|s| s.to_string()).collect()
}

#[test]
fn dominant_extension_counts_and_breaks_ties_by_name() {
    let paths = strings(&["a/x.RS", "b/y.rs", "c/z.py", "d/w.py", "e/Makefile", "f/g."]);
    assert_eq!(dominant_extension(&paths), Some(("py".to_string(), 2)));
    let paths = strings(&["x.ts", "y.py", "z.py"]);
    assert_eq!(dominant_extension(&paths), Some(("py".to_string(), 2)));
    assert_eq!(dominant_extension(&strings(&["a.", "b."])), None);
    assert_eq!(dominant_extension(&Vec::new()), None);
    assert_eq!(dominant_extension(&strings(&["Makefile"])), Some(("makefile".to_string(), 1)));
}

#[test]
fn enriched_descriptions() {
    let paths = strings(&["a.go", "b.go", "c.md"]);
    assert_eq!(enriched_description("", &paths), Some("lang=go;files=2".to_string()));
    assert_eq!(
        enriched_description("density 0.4", &paths),
        Some("density 0.4; lang=go;files=2".to_string())
    );
    assert_eq!(enriched_description("x; lang=go;files=2", &paths), None);
    assert_eq!(enriched_description("", &Vec::new()), None);
    assert_eq!(
        enriched_description("", &strings(&["a.rs", "b.ts"])),
        Some("lang=rs;files=1".to_string())
    );
}

#[test]
fn enrichment_statements() {
    assert_eq!(
        communities_query("p"),
        "MATCH (c:Community) WHERE c.project_id = 'p' RETURN c.qualified_name, c.description"
    );
    assert_eq!(
        members_query("p", "c1"),
        "MATCH (f:File)-[r:CodeRelation]->(c:Community) WHERE r.type = 'MEMBER_OF' AND c.qualified_name = 'c1' AND c.project_id = 'p' RETURN f.source_file"
    );
    assert_eq!(
        set_description_statement("p", "c1", "it's"),
        "MATCH (c:Community) WHERE c.qualified_name = 'c1' AND c.project_id = 'p' SET c.description = 'it\\'s'"
    );
}

#[test]
fn embeddings_table_opens_without_state() {
    let _t: CodeEmbeddingTable = CodeEmbeddingTable::open("/tmp/project");
}

#[test]
fn enrichment_twice_changes_nothing_more() {
    let paths = strings(&["a.go", "b.go"]);
    let once = enriched_description("density 0.4", &paths).unwrap();
    assert_eq!(enriched_description(&once, &paths), None);
    let fresh = enriched_description("", &paths).unwrap();
    assert_eq!(enriched_description(&fresh, &strings(&["x.rs"])), None);
}
