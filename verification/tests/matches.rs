use codegraph::config::ConfigContext;
use codegraph::semantic::frameworks::{detect, Framework};
use codegraph::config::csproj::namespace_fields_from_matches;
use codegraph::lang::cobol_preprocessor::{
    expand_copy, expanded_from_matches, normalize, replacing_from_matches,
};
use codegraph::lang::jcl::{dd_from_match, job_from_match, parse, step_from_match};
use codegraph::lang::prisma::field_from_match;
use codegraph::lang::provider::NodeLabel;
use codegraph::pattern::Captures;
use codegraph::semantic::markdown_links;
use codegraph::semantic::route_extractors::{
    aspnet, django, fastapi, flask, methods_from_match, symfony,
};

fn cap(groups: &[Option<&str>]) -> Captures {
    Captures {
        start: 0,
        end: 0,
        groups: groups.iter().map(|g| g.map(|s| s.to_string())).collect(),
    }
}

fn chars(s: &str) -> Vec<char> {
    s.chars().collect()
}

#[test]
fn fastapi_route_from_decorator_match() {
    let c = cap(&[Some("@app.get(\"/items\""), Some("get"), Some("/items")]);
    let routes = fastapi::route_from_match(&c, Some(chars("list_items")), 2);
    assert_eq!(routes.len(), 1);
    assert_eq!(routes[0].method, "GET");
    assert_eq!(routes[0].path, "/items");
    assert_eq!(routes[0].handler_name, "list_items");
    assert_eq!(routes[0].line, 3);
    assert!(fastapi::route_from_match(&c, None, 2).is_empty());
    assert!(fastapi::route_from_match(&c, Some(Vec::new()), 2).is_empty());
}

#[test]
fn django_route_from_path_match() {
    let c = cap(&[Some("path('a/', views.index"), Some("a/"), Some("views.index")]);
    let routes = django::route_from_match(&c, 0);
    assert_eq!(routes.len(), 1);
    assert_eq!(routes[0].method, "*");
    assert_eq!(routes[0].path, "a/");
    assert_eq!(routes[0].handler_name, "index");
    assert_eq!(routes[0].line, 1);
    let empty = cap(&[Some("path('', views.)"), Some(""), Some("views.")]);
    assert!(django::route_from_match(&empty, 0).is_empty());
}

#[test]
fn flask_routes_from_decorator_and_methods_matches() {
    let c = cap(&[Some("@app.route('/x', methods=['GET', 'post'])"), Some("/x"), Some(", methods=['GET', 'post']")]);
    let m = cap(&[Some("methods=['GET', 'post']"), Some("'GET', 'post'")]);
    let routes = flask::routes_from_match(&c, Some(m), Some(chars("view")), 4);
    assert_eq!(routes.len(), 2);
    assert_eq!(routes[0].method, "GET");
    assert_eq!(routes[1].method, "POST");
    assert_eq!(routes[1].path, "/x");
    assert_eq!(routes[1].line, 5);
    let defaulted = flask::routes_from_match(&c, None, Some(chars("view")), 4);
    assert_eq!(defaulted.len(), 1);
    assert_eq!(defaulted[0].method, "GET");
}

#[test]
fn symfony_routes_default_to_any_method() {
    let c = cap(&[Some("#[Route('/y')]"), Some("/y"), Some("")]);
    let routes = symfony::routes_from_match(&c, None, Some(chars("show")), 0);
    assert_eq!(routes.len(), 1);
    assert_eq!(routes[0].method, "*");
    assert!(symfony::routes_from_match(&c, None, None, 0).is_empty());
}

#[test]
fn aspnet_route_path_defaults_to_root() {
    let c = cap(&[Some("[HttpDelete]"), Some("Delete"), None]);
    let routes = aspnet::route_from_match(&c, Some(chars("Remove")), 9);
    assert_eq!(routes.len(), 1);
    assert_eq!(routes[0].method, "DELETE");
    assert_eq!(routes[0].path, "/");
    assert_eq!(routes[0].line, 10);
}

#[test]
fn methods_list_match_skips_empty_entries() {
    let m = cap(&[Some("x"), Some(" 'put' , , \"Get\" ")]);
    let ms = methods_from_match(Some(m), "GET");
    let got: Vec<String> = ms.iter().map(|v| v.iter().collect()).collect();
    assert_eq!(got, vec!["PUT".to_string(), "GET".to_string()]);
}

#[test]
fn jcl_cards_from_matches() {
    let job = job_from_match(&cap(&[Some("//PAYROLL JOB"), Some("PAYROLL")]), 0);
    assert_eq!(job.name, "PAYROLL");
    assert_eq!(job.line, 1);
    assert!(job.steps.is_empty());
    let step = step_from_match(
        &cap(&[Some("//S1 EXEC PGM=CALC"), Some("S1"), Some("PGM=CALC")]),
        Some(cap(&[Some("PGM=CALC"), Some("CALC")])),
        None,
        3,
    );
    assert_eq!(step.name, "S1");
    assert_eq!(step.pgm, Some("CALC".to_string()));
    assert_eq!(step.proc_name, None);
    assert_eq!(step.line, 4);
    let dd = dd_from_match(&cap(&[Some("//IN DD  DSN=A.B "), Some("IN"), Some(" DSN=A.B ")]), 4);
    assert_eq!(dd.name, "IN");
    assert_eq!(dd.body, "DSN=A.B");
    assert_eq!(dd.line, 5);
}

#[test]
fn jcl_one_job_per_job_card_in_order() {
    let src = "//A JOB\n//S1 EXEC PGM=X\n//B JOB\n//C JOB\n//S2 EXEC PGM=Y\n";
    let jobs = parse(src);
    let names: Vec<&str> = jobs.iter().map(|j| j.name.as_str()).collect();
    assert_eq!(names, vec!["A", "B", "C"]);
    let lines: Vec<u32> = jobs.iter().map(|j| j.line).collect();
    assert_eq!(lines, vec![1, 3, 4]);
    assert_eq!(jobs[1].steps.len(), 0);
    assert_eq!(jobs[2].steps.len(), 1);
}

#[test]
fn csproj_fields_from_matches_are_trimmed() {
    let ns = cap(&[Some("<RootNamespace> Acme.App </RootNamespace>"), Some(" Acme.App ")]);
    let (n, a) = namespace_fields_from_matches(Some(ns), None);
    assert_eq!(n, Some("Acme.App".to_string()));
    assert_eq!(a, None);
}

#[test]
fn prisma_field_from_match() {
    let m = cap(&[Some("  email String"), Some("email")]);
    let f = field_from_match("s.prisma::model::User", 10, "  email String", 2, Some(m)).unwrap();
    assert_eq!(f.name, "email");
    assert_eq!(f.qualified_name, "s.prisma::model::User::email");
    assert_eq!(f.label, NodeLabel::Property);
    assert_eq!(f.line_start, 12);
    assert_eq!(f.parent, Some("s.prisma::model::User".to_string()));
    let skipped = field_from_match("P", 1, "  @@id([a])", 0, Some(cap(&[Some("x"), Some("x")])));
    assert!(skipped.is_none());
}

#[test]
fn cobol_copy_from_matches() {
    let catalogue = vec![("CUST".to_string(), "01 CUST-ID PIC 9.\n".to_string())];
    let line = "       COPY CUST REPLACING ==CUST== BY ==CLIENT==.";
    let m = cap(&[Some("COPY CUST"), Some("CUST")]);
    let r = vec![cap(&[Some("==CUST== BY ==CLIENT=="), Some("CUST"), Some("CLIENT")])];
    let out = expanded_from_matches(line, Some(m), &r, &catalogue);
    assert_eq!(out, "* >>>> COPY CUST >>>>\n01 CLIENT-ID PIC 9.\n* <<<< COPY CUST <<<<\n");
    let plain = expanded_from_matches(line, None, &r, &catalogue);
    assert_eq!(plain, format!("{}\n", line));
    assert_eq!(replacing_from_matches("A B A", &vec![cap(&[Some("x"), Some(" A "), Some("C")])]), "C B C");
}

#[test]
fn expand_copy_without_catalogued_names_keeps_every_line() {
    let src = "       COPY OTHER.\n       MOVE A TO B.";
    let catalogue = vec![("CUST".to_string(), "X\n".to_string())];
    assert_eq!(expand_copy(src, &catalogue), "       COPY OTHER.\n       MOVE A TO B.\n");
}

#[test]
fn normalize_gives_one_line_per_source_line() {
    let src = "IDENTIFICATION DIVISION. *> header\nPROGRAM-ID. DEMO.\n\nSTOP RUN.";
    let out = normalize(src);
    assert_eq!(out.matches('\n').count(), src.lines().count());
    assert!(out.ends_with('\n'));
    assert_eq!(out, "IDENTIFICATION DIVISION. \nPROGRAM-ID. DEMO.\n\nSTOP RUN.\n");
}

#[test]
fn markdown_links_well_formed_and_in_line_order() {
    let src = "[a](b.md#top) [web](https://x.io)\n[c](#local)\n\n[d](./e.md)";
    let links = markdown_links::extract(src);
    assert_eq!(links.len(), 2);
    assert_eq!(links[0].target, "b.md");
    assert_eq!(links[0].fragment, Some("top".to_string()));
    assert_eq!(links[0].line, 1);
    assert_eq!(links[1].target, "./e.md");
    assert_eq!(links[1].line, 4);
    assert!(links.iter().all(|l| !l.target.is_empty() && !l.target.contains('#')));
}

#[test]
fn jcl_cards_before_first_job_give_nothing() {
    let src = "//S0 EXEC PGM=Z\n//D0 DD X\n//A JOB\n//S1 EXEC PGM=X\n//D1 DD A\n//D2 DD B\n//S2 EXEC PGM=Y\n";
    let jobs = parse(src);
    assert_eq!(jobs.len(), 1);
    let steps: Vec<&str> = jobs[0].steps.iter().map(|s| s.name.as_str()).collect();
    assert_eq!(steps, vec!["S1", "S2"]);
    let dds: usize = jobs[0].steps.iter().map(|s| s.dd_statements.len()).sum();
    assert_eq!(dds, 2);
    assert_eq!(jobs[0].steps[0].dd_statements[1].body, "B");
}

#[test]
fn jcl_dd_cards_join_the_nearest_step_of_their_job() {
    let src = "//A JOB\n//S1 EXEC PGM=X\n//D1 DD A\n//S2 EXEC PGM=Y\n//D2 DD B\n//D3 DD C\n//B JOB\n//D4 DD D\n//S3 EXEC PROC=P\n";
    let jobs = parse(src);
    assert_eq!(jobs.len(), 2);
    let s1: Vec<&str> = jobs[0].steps[0].dd_statements.iter().map(|d| d.name.as_str()).collect();
    let s2: Vec<&str> = jobs[0].steps[1].dd_statements.iter().map(|d| d.name.as_str()).collect();
    assert_eq!(s1, vec!["D1"]);
    assert_eq!(s2, vec!["D2", "D3"]);
    assert_eq!(jobs[1].steps.len(), 1);
    assert_eq!(jobs[1].steps[0].proc_name, Some("P".to_string()));
    assert!(jobs[1].steps[0].dd_statements.is_empty());
}

#[test]
fn embeddings_table_delete_is_a_no_op() {
    let t = codegraph::embeddings_table::CodeEmbeddingTable::open("/tmp/p");
    assert!(t.delete_by_source_files(&vec!["a.rs".to_string()]).is_ok());
}

#[test]
fn detection_grows_with_the_lists_and_is_empty_without_input() {
    let cfg = ConfigContext::default();
    assert!(detect(&cfg, &[], &[], &[], &[], &[]).is_empty());
    let small = detect(&cfg, &["express"], &[], &["flask"], &[], &[]);
    let big = detect(&cfg, &["express", "koa"], &["symfony/console"], &["flask", "django"], &["rails"], &[]);
    for f in [Framework::Express, Framework::Flask] {
        assert!(small.has(f));
        assert!(big.has(f));
    }
    assert_eq!(small.len(), 2);
    assert_eq!(big.len(), 6);
}

#[test]
fn ascii_fixed_format_normalizes_line_for_line() {
    let src = "000100 IDENTIFICATION DIVISION.\n000200*COMMENT LINE\n000300 PROGRAM-ID. DEMO.\n";
    let out = normalize(src);
    assert_eq!(out, "IDENTIFICATION DIVISION.\n\nPROGRAM-ID. DEMO.\n");
    assert_eq!(out.matches('\n').count(), src.lines().count());
}
