//! Component-level tests: name cleanup, extraction, call detection,
//! labels, identifiers, and the renderer pieces.

use callgraph::extract::{extract_function_name, extract_functions, extract_name_before_paren};
use callgraph::model::{Function, Module};
use callgraph::pattern::Pattern;
use callgraph::render::{
    generate_cluster, generate_clusters, generate_legend, generate_links, table_row,
    total_lines,
};
use callgraph::text::{decimal_string, split_lines, trim};

fn module(filename: &str, source: &str) -> Module {
    Module { filename: filename.to_string(), source: source.to_string() }
}

fn function(name: &str, body: &str, m: &Module) -> Function {
    Function { name: name.to_string(), body: body.to_string(), module: m.duplicate() }
}

#[test]
fn cleanup_strips_keywords_and_arguments() {
    let cleanup = Pattern::compile(r"\(.+|\($|^\w+ ").unwrap();
    assert_eq!(extract_function_name("fn helper() {", &cleanup), "helper");
    assert_eq!(
        extract_function_name("pub fn parse(input: &str) -> bool {", &cleanup),
        "parse"
    );
    assert_eq!(extract_function_name("fn open(", &cleanup), "open");
}

#[test]
fn cleanup_trims_the_remainder() {
    let cleanup = Pattern::compile(r"^fn").unwrap();
    assert_eq!(extract_function_name("fn helper", &cleanup), "helper");
}

#[test]
fn cleanup_stops_on_empty_matches() {
    // A pattern that only ever matches the empty string must not strip
    // anything (and must not loop forever).
    let cleanup = Pattern::compile(r"z*").unwrap();
    assert_eq!(extract_function_name("fn foo() {", &cleanup), "fn foo() {");
}

#[test]
fn cleanup_handles_multibyte_characters() {
    // The match spans are character offsets, so stripping around a
    // multibyte character must not shift the cut points.
    let cleanup = Pattern::compile(r"\(.+|\($|^\w+ ").unwrap();
    assert_eq!(extract_function_name("fn héllo() {", &cleanup), "héllo");
    assert_eq!(extract_function_name("fn übergang(x: ü32) {", &cleanup), "übergang");
}

#[test]
fn extracted_bodies_start_and_end_on_pattern_lines() {
    let start = Pattern::compile(r"^fn |^pub fn ").unwrap();
    let end = Pattern::compile(r"^}$").unwrap();
    let cleanup = Pattern::compile(r"\(.+|\($|^\w+ ").unwrap();
    let ignore = Pattern::compile(r"^$").unwrap();
    let modules = vec![module(
        "s.rs",
        "stray line\nfn a() {\nwork();\n}\ntrailing text\nfn b() {\n}\n",
    )];
    let funcs = extract_functions(&modules, &start, &end, &cleanup, &ignore);
    assert_eq!(funcs.len(), 2);
    for f in &funcs {
        let first = f.body.lines().next().unwrap();
        let last = f.body.lines().last().unwrap();
        assert!(start.is_match(first));
        assert!(end.is_match(last));
    }
}

#[test]
fn before_paren_name_policy() {
    assert_eq!(
        extract_name_before_paren("fn helper() {"),
        Some("helper".to_string())
    );
    assert_eq!(
        extract_name_before_paren("pub fn  parse (input: &str) {"),
        Some("parse".to_string())
    );
    // No parenthesis, or nothing before it: no identifier can be derived.
    assert_eq!(extract_name_before_paren("fn helper {"), None);
    assert_eq!(extract_name_before_paren("   ("), None);
}

#[test]
fn invalid_pattern_is_rejected() {
    assert!(Pattern::compile(r"foo(bar").is_err());
    assert!(Pattern::compile(r"^fn ").is_ok());
}

#[test]
fn extraction_records_names_bodies_and_modules() {
    let start = Pattern::compile(r"^fn |^pub fn ").unwrap();
    let end = Pattern::compile(r"^}$").unwrap();
    let cleanup = Pattern::compile(r"\(.+|\($|^\w+ ").unwrap();
    let ignore = Pattern::compile(r"^$").unwrap();
    let modules = vec![module(
        "demo.rs",
        "fn helper() {\nreturn 1;\n}\nfn main() {\nhelper();\n}\n",
    )];
    let funcs = extract_functions(&modules, &start, &end, &cleanup, &ignore);
    assert_eq!(funcs.len(), 2);
    assert_eq!(funcs[0].name, "helper");
    assert_eq!(funcs[0].body, "fn helper() {\nreturn 1;\n}\n");
    assert_eq!(funcs[0].module.filename, "demo.rs");
    assert_eq!(funcs[1].name, "main");
    assert_eq!(funcs[1].body, "fn main() {\nhelper();\n}\n");
}

#[test]
fn call_detection_requires_word_boundary_and_parenthesis() {
    let m = module("m.rs", "");
    let caller = function("a", "fn a() {\nxhelper();\nhelper ();\n}\n", &m);
    let callee = function("helper", "fn helper() {\n}\n", &m);
    // `xhelper(` is not a whole word; `helper (` has no immediate `(`.
    assert!(!caller.check_for_function_in_body(&callee));
    let caller2 = function("b", "fn b() {\nhelper();\n}\n", &m);
    assert!(caller2.check_for_function_in_body(&callee));
}

#[test]
fn call_detection_skips_the_signature_line() {
    let m = module("m.rs", "");
    let helper = function("helper", "fn helper() {\n}\n", &m);
    // The only occurrence of `helper(` is in its own signature line.
    assert!(!helper.check_for_function_in_body(&helper));
    let looper = function("looper", "fn looper() {\nlooper();\n}\n", &m);
    assert!(looper.check_for_function_in_body(&looper));
}

#[test]
fn labels_pair_name_with_line_count() {
    let m = module("src/main.rs", "fn a() {\n}\n");
    assert_eq!(m.label(), "src/main.rs:2");
    assert_eq!(m.id(), "src_main_rs");
    let f = function("a", "fn a() {\n}\n", &m);
    assert_eq!(f.label(), "a:2");
}

#[test]
fn link_renders_quoted_labels() {
    let m = module("m.rs", "");
    let a = function("a", "fn a() {\nb();\n}\n", &m);
    let b = function("b", "fn b() {\n}\n", &m);
    assert_eq!(a.link(&b), "\"a:3\"->\"b:2\";");
}

#[test]
fn links_are_grouped_by_caller_in_extraction_order() {
    let start = Pattern::compile(r"^fn |^pub fn ").unwrap();
    let end = Pattern::compile(r"^}$").unwrap();
    let cleanup = Pattern::compile(r"\(.+|\($|^\w+ ").unwrap();
    let ignore = Pattern::compile(r"^$").unwrap();
    let modules = vec![module(
        "m.rs",
        "fn a() {\nb();\nc();\n}\nfn b() {\nc();\n}\nfn c() {\n}\n",
    )];
    let funcs = extract_functions(&modules, &start, &end, &cleanup, &ignore);
    let links = generate_links(&funcs);
    assert_eq!(
        links,
        "\"a:4\"->\"b:3\";\"a:4\"->\"c:2\";\"b:3\"->\"c:2\";"
    );
}

#[test]
fn cluster_holds_only_its_modules_functions() {
    let ma = module("a.rs", "fn one() {\n}\n");
    let mb = module("b.rs", "fn two() {\n}\n");
    let funcs = vec![
        function("one", "fn one() {\n}\n", &ma),
        function("two", "fn two() {\n}\n", &mb),
    ];
    let cluster = generate_cluster(&ma, &funcs);
    assert_eq!(cluster, "subgraph cluster_a_rs{label=\"a.rs:2\";bgcolor=\"#eeeeee\";\"one:2\";}");
    let modules = vec![ma, mb];
    let clusters = generate_clusters(&modules, &funcs);
    assert_eq!(
        clusters,
        [
            "subgraph cluster_a_rs{label=\"a.rs:2\";bgcolor=\"#eeeeee\";\"one:2\";}",
            "subgraph cluster_b_rs{label=\"b.rs:2\";bgcolor=\"#eeeeee\";\"two:2\";}",
        ].concat()
    );
}

#[test]
fn quotes_in_labels_are_escaped() {
    let start = Pattern::compile(r"^fn |^pub fn ").unwrap();
    let end = Pattern::compile(r"^}$").unwrap();
    let cleanup = Pattern::compile(r"\(.+|\($|^\w+ ").unwrap();
    let ignore = Pattern::compile(r"^$").unwrap();
    let modules = vec![module("q.rs", "fn \"x\"() {\n}\n")];
    let funcs = extract_functions(&modules, &start, &end, &cleanup, &ignore);
    assert_eq!(funcs.len(), 1);
    assert_eq!(funcs[0].name, "\"x\"");
    let cluster = generate_cluster(&modules[0], &funcs);
    assert_eq!(
        cluster,
        "subgraph cluster_q_rs{label=\"q.rs:2\";bgcolor=\"#eeeeee\";\"\\\"x\\\":2\";}"
    );
}

#[test]
fn table_row_renders_aligned_cells() {
    assert_eq!(
        table_row("Modules", "3"),
        "<tr><td align=\"left\">Modules</td><td align=\"right\">3</td></tr>"
    );
}

#[test]
fn legend_reports_counts() {
    let modules = vec![module("a.rs", "fn one() {\n}\n"), module("b.rs", "x\ny\nz")];
    let funcs = vec![function("one", "fn one() {\n}\n", &modules[0])];
    assert_eq!(total_lines(&modules), Some(5));
    let legend = generate_legend(&modules, &funcs);
    assert_eq!(
        legend,
        [
            "legend[shape=plaintext;label=<",
            "<table border=\"0\" cellborder=\"1\" cellspacing=\"0\">",
            "<tr><td align=\"left\">Modules</td><td align=\"right\">2</td></tr>",
            "<tr><td align=\"left\">Functions</td><td align=\"right\">1</td></tr>",
            "<tr><td align=\"left\">Lines</td><td align=\"right\">5</td></tr>",
            "</table>>;];",
        ].concat()
    );
}

#[test]
fn split_lines_matches_line_semantics() {
    let lines = split_lines("a\r\nb\nc");
    assert_eq!(lines, vec!["a".to_string(), "b".to_string(), "c".to_string()]);
    assert_eq!(split_lines(""), Vec::<String>::new());
    assert_eq!(split_lines("\n"), vec!["".to_string()]);
    assert_eq!(split_lines("x\n"), vec!["x".to_string()]);
}

#[test]
fn trim_removes_surrounding_whitespace_only() {
    assert_eq!(trim("  helper \t"), "helper");
    assert_eq!(trim("a b"), "a b");
    assert_eq!(trim(""), "");
}

#[test]
fn decimal_rendering() {
    assert_eq!(decimal_string(0), "0");
    assert_eq!(decimal_string(7), "7");
    assert_eq!(decimal_string(240), "240");
    assert_eq!(decimal_string(1005), "1005");
}
