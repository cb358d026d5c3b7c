//! End-to-end scenarios: whole-pipeline runs over small inputs with
//! exact expected output.

use callgraph::model::Module;
use callgraph::pattern::Pattern;
use callgraph::render::generate_callgraph;

fn default_patterns() -> (Pattern, Pattern, Pattern, Pattern) {
    (
        Pattern::compile(r"^fn |^pub fn ").unwrap(),
        Pattern::compile(r"^}$").unwrap(),
        Pattern::compile(r"\(.+|\($|^\w+ ").unwrap(),
        Pattern::compile(r"^$").unwrap(),
    )
}

fn module(filename: &str, source: &str) -> Module {
    Module { filename: filename.to_string(), source: source.to_string() }
}

#[test]
fn single_file_two_functions() {
    let (start, end, cleanup, ignore) = default_patterns();
    let modules = vec![module(
        "demo.rs",
        "fn helper() {\nreturn 1;\n}\nfn main() {\nhelper();\n}\n",
    )];
    let out = generate_callgraph(&modules, &start, &end, &cleanup, &ignore);
    let expected = [
        "strict digraph {",
        "graph [rankdir=LR];",
        "node [shape=box;style=filled;fillcolor=\"#ffffff\"];",
        "legend[shape=plaintext;label=<",
        "<table border=\"0\" cellborder=\"1\" cellspacing=\"0\">",
        "<tr><td align=\"left\">Modules</td><td align=\"right\">1</td></tr>",
        "<tr><td align=\"left\">Functions</td><td align=\"right\">2</td></tr>",
        "<tr><td align=\"left\">Lines</td><td align=\"right\">6</td></tr>",
        "</table>>;];",
        "subgraph cluster_demo_rs{label=\"demo.rs:6\";bgcolor=\"#eeeeee\";",
        "\"helper:3\";\"main:3\";}",
        "\"main:3\"->\"helper:3\";",
        "}",
    ].concat();
    assert_eq!(out, expected);
}

#[test]
fn empty_input_file() {
    let (start, end, cleanup, ignore) = default_patterns();
    let modules = vec![module("empty.rs", "")];
    let out = generate_callgraph(&modules, &start, &end, &cleanup, &ignore);
    let expected = [
        "strict digraph {",
        "graph [rankdir=LR];",
        "node [shape=box;style=filled;fillcolor=\"#ffffff\"];",
        "legend[shape=plaintext;label=<",
        "<table border=\"0\" cellborder=\"1\" cellspacing=\"0\">",
        "<tr><td align=\"left\">Modules</td><td align=\"right\">1</td></tr>",
        "<tr><td align=\"left\">Functions</td><td align=\"right\">0</td></tr>",
        "<tr><td align=\"left\">Lines</td><td align=\"right\">0</td></tr>",
        "</table>>;];",
        "subgraph cluster_empty_rs{label=\"empty.rs:0\";bgcolor=\"#eeeeee\";}",
        "}",
    ].concat();
    assert_eq!(out, expected);
}

#[test]
fn same_name_in_two_files_gets_distinct_nodes() {
    let (start, end, cleanup, ignore) = default_patterns();
    let modules = vec![
        module("a.rs", "fn run() {\n}\n"),
        module("b.rs", "fn run() {\nwork();\n}\n"),
    ];
    let out = generate_callgraph(&modules, &start, &end, &cleanup, &ignore);
    let expected = [
        "strict digraph {",
        "graph [rankdir=LR];",
        "node [shape=box;style=filled;fillcolor=\"#ffffff\"];",
        "legend[shape=plaintext;label=<",
        "<table border=\"0\" cellborder=\"1\" cellspacing=\"0\">",
        "<tr><td align=\"left\">Modules</td><td align=\"right\">2</td></tr>",
        "<tr><td align=\"left\">Functions</td><td align=\"right\">2</td></tr>",
        "<tr><td align=\"left\">Lines</td><td align=\"right\">5</td></tr>",
        "</table>>;];",
        "subgraph cluster_a_rs{label=\"a.rs:2\";bgcolor=\"#eeeeee\";\"run:2\";}",
        "subgraph cluster_b_rs{label=\"b.rs:3\";bgcolor=\"#eeeeee\";\"run:3\";}",
        "}",
    ].concat();
    assert_eq!(out, expected);
}

#[test]
fn identical_runs_render_identical_output() {
    let (start, end, cleanup, ignore) = default_patterns();
    let modules = vec![
        module("m.rs", "fn a() {\nb();\n}\nfn b() {\n}\n"),
        module("n.rs", "fn c() {\na();\n}\n"),
    ];
    let out1 = generate_callgraph(&modules, &start, &end, &cleanup, &ignore);
    let (start2, end2, cleanup2, ignore2) = default_patterns();
    let out2 = generate_callgraph(&modules, &start2, &end2, &cleanup2, &ignore2);
    assert_eq!(out1, out2);
}

#[test]
fn ignored_function_appears_nowhere() {
    let (start, end, cleanup, _) = default_patterns();
    let ignore = Pattern::compile(r"helper").unwrap();
    let modules = vec![module(
        "demo.rs",
        "fn helper() {\nreturn 1;\n}\nfn main() {\nhelper();\n}\n",
    )];
    let out = generate_callgraph(&modules, &start, &end, &cleanup, &ignore);
    let expected = [
        "strict digraph {",
        "graph [rankdir=LR];",
        "node [shape=box;style=filled;fillcolor=\"#ffffff\"];",
        "legend[shape=plaintext;label=<",
        "<table border=\"0\" cellborder=\"1\" cellspacing=\"0\">",
        "<tr><td align=\"left\">Modules</td><td align=\"right\">1</td></tr>",
        "<tr><td align=\"left\">Functions</td><td align=\"right\">1</td></tr>",
        "<tr><td align=\"left\">Lines</td><td align=\"right\">6</td></tr>",
        "</table>>;];",
        "subgraph cluster_demo_rs{label=\"demo.rs:6\";bgcolor=\"#eeeeee\";\"main:3\";}",
        "}",
    ].concat();
    assert_eq!(out, expected);
    assert!(!out.contains("helper"));
}

#[test]
fn unterminated_function_is_flushed() {
    let (start, end, cleanup, ignore) = default_patterns();
    let modules = vec![module("open.rs", "fn tail() {\nwork();\n")];
    let out = generate_callgraph(&modules, &start, &end, &cleanup, &ignore);
    assert!(out.contains("\"tail:2\";"));
    let expected_legend =
        "<tr><td align=\"left\">Functions</td><td align=\"right\">1</td></tr>";
    assert!(out.contains(expected_legend));
}

#[test]
fn restarted_accumulator_drops_partial_function() {
    let (start, end, cleanup, ignore) = default_patterns();
    // `first` never reaches an end line before `second` starts: only
    // `second` is extracted.
    let modules = vec![module("r.rs", "fn first() {\nfn second() {\ndone();\n}\n")];
    let out = generate_callgraph(&modules, &start, &end, &cleanup, &ignore);
    assert!(!out.contains("first"));
    assert!(out.contains("\"second:3\";"));
}
