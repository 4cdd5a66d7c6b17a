use codegraph::lang::cobol_exec::{extract, ExecDialect};
use codegraph::lang::cobol_preprocessor::{
    apply_replacing, detect_format, expand_copy, fixed_lines_sliceable, normalize, normalize_fixed,
    normalize_free, CobolFormat,
};
use codegraph::lang::html::{extract_form_actions, extract_script_srcs, HtmlProvider};
use codegraph::lang::jcl::parse;
use codegraph::lang::prisma::{blocks_sliceable, PrismaProvider};
use codegraph::lang::provider::NodeLabel;

#[test]
fn extracts_exec_sql_block() {
    let src = r#"
      EXEC SQL
         SELECT NAME FROM CUSTOMER
         WHERE ID = :CUST-ID
      END-EXEC.
"#;
    let blocks = extract(src);
    assert_eq!(blocks.len(), 1);
    assert_eq!(blocks[0].dialect, ExecDialect::Sql);
    assert!(blocks[0].body.contains("SELECT NAME FROM CUSTOMER"));
}

#[test]
fn extracts_exec_cics_block() {
    let src = r#"      EXEC CICS LINK PROGRAM('XYZ01') END-EXEC."#;
    let blocks = extract(src);
    assert_eq!(blocks.len(), 1);
    assert_eq!(blocks[0].dialect, ExecDialect::Cics);
}

#[test]
fn extracts_exec_dli_block() {
    let src = r#"      EXEC DLI GU SEGMENT(CUSTOMER) END-EXEC."#;
    let blocks = extract(src);
    assert_eq!(blocks.len(), 1);
    assert_eq!(blocks[0].dialect, ExecDialect::Dli);
}

#[test]
fn multiple_blocks_per_source() {
    let src = r#"
      EXEC SQL SELECT 1 FROM DUAL END-EXEC.
      EXEC CICS RETURN END-EXEC.
      EXEC SQL SELECT 2 FROM DUAL END-EXEC.
"#;
    let blocks = extract(src);
    assert_eq!(blocks.len(), 3);
}

#[test]
fn dialect_node_labels_match_schema() {
    assert_eq!(ExecDialect::Sql.node_label(), "SqlQuery");
    assert_eq!(ExecDialect::Cics.node_label(), "CicsCall");
    assert_eq!(ExecDialect::Dli.node_label(), "DliCall");
}

#[test]
fn exec_block_body_words_and_line() {
    let src = "IDENTIFICATION DIVISION.\n      EXEC SQL\n   SELECT  A\n   FROM B\n END-EXEC.";
    let blocks = extract(src);
    assert_eq!(blocks.len(), 1);
    assert_eq!(blocks[0].body, "SELECT A FROM B");
    assert_eq!(blocks[0].line, 2);
}

#[test]
fn detects_fixed_format_from_indicator_column() {
    let src = "000100 IDENTIFICATION DIVISION.\n\
               000200 PROGRAM-ID. HELLO.\n";
    assert_eq!(detect_format(src), CobolFormat::Fixed);
}

#[test]
fn detects_free_format_when_no_sequence_numbers() {
    let src = "IDENTIFICATION DIVISION.\nPROGRAM-ID. HELLO.\n";
    assert_eq!(detect_format(src), CobolFormat::Free);
}

#[test]
fn fixed_normalize_drops_sequence_and_indicator_columns() {
    let src = "000100 IDENTIFICATION DIVISION.\n";
    assert!(fixed_lines_sliceable(src));
    let out = normalize_fixed(src);
    assert!(out.contains("IDENTIFICATION DIVISION."));
    assert!(!out.contains("000100"));
}

#[test]
fn fixed_normalize_strips_comment_lines() {
    let src = "000100*This is a comment\n000200 PROGRAM-ID. TEST.\n";
    assert!(fixed_lines_sliceable(src));
    let out = normalize_fixed(src);
    assert!(!out.contains("comment"));
    assert!(out.contains("PROGRAM-ID"));
}

#[test]
fn fixed_normalize_cuts_at_column_seventy_two() {
    let mut line = String::from("000100 ");
    line.push_str(&"A".repeat(65));
    line.push_str("SEQNUM01");
    let out = normalize_fixed(&line);
    assert_eq!(out, format!("{}\n", "A".repeat(65)));
}

#[test]
fn free_normalize_strips_trailing_comments() {
    let src = "IDENTIFICATION DIVISION. *> marker\nPROGRAM-ID. X.\n";
    let out = normalize_free(src);
    assert!(!out.contains("marker"));
    assert!(out.contains("IDENTIFICATION"));
}

#[test]
fn normalize_picks_format() {
    assert_eq!(normalize("A. *> note\n"), normalize_free("A. *> note\n"));
    let fixed = "000100 IDENTIFICATION DIVISION.\n000200 PROGRAM-ID. HELLO.\n";
    assert_eq!(normalize(fixed), normalize_fixed(fixed));
}

#[test]
fn expand_copy_inlines_copybook_body() {
    let catalogue = vec![(
        "CUSTOMER-REC".to_string(),
        "01 CUSTOMER-REC.\n   05 CUST-NAME PIC X(30).\n".to_string(),
    )];
    let src = "WORKING-STORAGE SECTION.\n       COPY CUSTOMER-REC.\n";
    let out = expand_copy(src, &catalogue);
    assert!(out.contains("CUST-NAME PIC X(30)"));
}

#[test]
fn expand_copy_applies_replacing() {
    let catalogue = vec![("TMPL".to_string(), "       :PREFIX:-RECORD.\n".to_string())];
    let src = "       COPY TMPL REPLACING ==:PREFIX:== BY ==ORDER==.\n";
    let out = expand_copy(src, &catalogue);
    assert!(out.contains("ORDER-RECORD"));
}

#[test]
fn expand_copy_leaves_unknown_names_verbatim() {
    let catalogue: Vec<(String, String)> = Vec::new();
    let src = "       COPY UNKNOWN-NAME.\n";
    let out = expand_copy(src, &catalogue);
    assert!(out.contains("COPY UNKNOWN-NAME"));
}

#[test]
fn expand_copy_matches_names_ignoring_case() {
    let catalogue = vec![("tmpl".to_string(), "BODY-LINE\n".to_string())];
    let out = expand_copy("       COPY TMPL.\n", &catalogue);
    assert_eq!(out, "* >>>> COPY TMPL >>>>\nBODY-LINE\n* <<<< COPY TMPL <<<<\n");
}

#[test]
fn apply_replacing_without_clause_keeps_body() {
    assert_eq!(apply_replacing("A :X: B", "COPY T."), "A :X: B");
    assert_eq!(
        apply_replacing("A :X: B", "COPY T REPLACING ==:X:== BY ==Y==."),
        "A Y B"
    );
}

#[test]
fn extracts_form_action_default_get() {
    let src = r#"<form action="/login"><input name="user"></form>"#;
    let out = extract_form_actions(src);
    assert_eq!(out.len(), 1);
    assert_eq!(out[0].url, "/login");
    assert_eq!(out[0].method, "GET");
}

#[test]
fn extracts_form_action_with_method() {
    let src = r#"<form action="/users" method="post"><input /></form>"#;
    let out = extract_form_actions(src);
    assert_eq!(out.len(), 1);
    assert_eq!(out[0].method, "POST");
}

#[test]
fn extracts_script_src() {
    let src = r#"<script src="./bundle.js"></script>"#;
    let out = extract_script_srcs(src);
    assert_eq!(out.len(), 1);
    assert_eq!(out[0].src, "./bundle.js");
}

#[test]
fn ignores_inline_script_blocks() {
    let src = r#"<script>console.log("hi")</script>"#;
    let out = extract_script_srcs(src);
    assert!(out.is_empty());
}

#[test]
fn form_actions_report_lines() {
    let src = "<p>x</p>\n<form action=\"/a\">\n</form>\n<form method=\"delete\" action=\"/b\">";
    let out = extract_form_actions(src);
    assert_eq!(out.len(), 2);
    assert_eq!(out[0].line, 2);
    assert_eq!(out[1].url, "/b");
    assert_eq!(out[1].line, 4);
}

#[test]
fn html_provider_has_no_symbols() {
    let p = HtmlProvider;
    assert!(p.extract_symbols("index.html", "<html></html>").is_empty());
    assert_eq!(p.file_extensions(), vec!["html", "htm"]);
}

#[test]
fn parses_minimal_job() {
    let src = "\
//TESTJOB  JOB CLASS=A,MSGCLASS=X
//STEP01   EXEC PGM=MYPROG
//INFILE   DD DSN=MY.INPUT,DISP=SHR
//OUTFILE  DD DSN=MY.OUTPUT,DISP=OLD
";
    let jobs = parse(src);
    assert_eq!(jobs.len(), 1);
    let job = &jobs[0];
    assert_eq!(job.name, "TESTJOB");
    assert_eq!(job.steps.len(), 1);
    let step = &job.steps[0];
    assert_eq!(step.name, "STEP01");
    assert_eq!(step.pgm.as_deref(), Some("MYPROG"));
    assert_eq!(step.dd_statements.len(), 2);
    assert_eq!(step.dd_statements[0].name, "INFILE");
    assert!(step.dd_statements[0].body.contains("MY.INPUT"));
}

#[test]
fn parses_multiple_steps() {
    let src = "\
//J JOB CLASS=A
//S1 EXEC PGM=P1
//S2 EXEC PGM=P2
//S3 EXEC PROC=BATCH1
";
    let jobs = parse(src);
    assert_eq!(jobs[0].steps.len(), 3);
    assert_eq!(jobs[0].steps[2].proc_name.as_deref(), Some("BATCH1"));
}

#[test]
fn handles_no_job_card() {
    let src = "//STEP01 EXEC PGM=ORPHAN\n";
    let jobs = parse(src);
    assert!(jobs.is_empty());
}

#[test]
fn jcl_comments_and_second_job() {
    let src = "//A JOB\n//* note\n//S1 EXEC PGM=X\n//B JOB\n//S2 EXEC PGM=Y\n";
    let jobs = parse(src);
    assert_eq!(jobs.len(), 2);
    assert_eq!(jobs[0].steps.len(), 1);
    assert_eq!(jobs[1].name, "B");
    assert_eq!(jobs[1].steps[0].pgm.as_deref(), Some("Y"));
    assert_eq!(jobs[1].line, 4);
}

#[test]
fn extracts_models_and_fields() {
    let src = r#"
generator client {
  provider = "prisma-client-js"
}

model User {
  id    Int    @id @default(autoincrement())
  email String @unique
  posts Post[]
}

model Post {
  id       Int    @id
  title    String
  authorId Int
}
"#;
    let provider = PrismaProvider;
    assert!(blocks_sliceable(src));
    let symbols = provider.extract_symbols("schema.prisma", src);
    let models: Vec<&str> = symbols
        .iter()
        .filter(|s| matches!(s.label, NodeLabel::Class))
        .map(|s| s.name.as_str())
        .collect();
    assert!(models.contains(&"User"));
    assert!(models.contains(&"Post"));

    let user_fields: Vec<&str> = symbols
        .iter()
        .filter(|s| {
            matches!(s.label, NodeLabel::Property)
                && s.parent.as_deref() == Some("schema.prisma::model::User")
        })
        .map(|s| s.name.as_str())
        .collect();
    assert!(user_fields.contains(&"id"));
    assert!(user_fields.contains(&"email"));
    assert!(user_fields.contains(&"posts"));
}

#[test]
fn extracts_enums() {
    let src = r#"
enum Role {
  USER
  ADMIN
}
"#;
    let provider = PrismaProvider;
    let symbols = provider.extract_symbols("schema.prisma", src);
    let enums: Vec<&str> = symbols
        .iter()
        .filter(|s| matches!(s.label, NodeLabel::Enum))
        .map(|s| s.name.as_str())
        .collect();
    assert_eq!(enums, vec!["Role"]);
}

#[test]
fn prisma_model_qualified_names_and_lines() {
    let src = "model A {\n  x Int\n}\n";
    let symbols = PrismaProvider.extract_symbols("s.prisma", src);
    assert_eq!(symbols.len(), 2);
    assert_eq!(symbols[0].qualified_name, "s.prisma::model::A");
    assert_eq!(symbols[0].line_start, 1);
    assert_eq!(symbols[0].line_end, 3);
    assert_eq!(symbols[1].qualified_name, "s.prisma::model::A::x");
    assert_eq!(symbols[1].line_start, 2);
}
