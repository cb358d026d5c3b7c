//! Graph rendering: the legend, one cluster per module, and the edge
//! statements, serialized in a fixed order inside an outer strict
//! directed graph.

use vstd::prelude::*;
use crate::extract::{extract_functions, extract_spec, funcs_view, mods_view};
use crate::model::{
    Function, FunctionV, Module, ModuleV, body_tail, edge_text, escape_label, escape_quotes,
    function_label, has_call, module_id, module_label,
};
use crate::pattern::Pattern;
use crate::text::{decimal_of, decimal_string, lines_of};

verus! {

/// The functions of `funcs` that belong to the module named `filename`,
/// in extraction order.
pub open spec fn cluster_members(funcs: Seq<FunctionV>, filename: Seq<char>) -> Seq<FunctionV>
    decreases funcs.len(),
{
    if funcs.len() == 0 {
        Seq::empty()
    } else {
        (if funcs[0].module.filename == filename {
            seq![funcs[0]]
        } else {
            Seq::empty()
        }) + cluster_members(funcs.skip(1), filename)
    }
}

/// The member node statements of a cluster: one quoted label per
/// function, each closed by `;`.
pub open spec fn members_text(fs: Seq<FunctionV>) -> Seq<char>
    decreases fs.len(),
{
    if fs.len() == 0 {
        Seq::empty()
    } else {
        seq!['"'] + escape_quotes(function_label(fs[0])) + seq!['"', ';']
            + members_text(fs.skip(1))
    }
}

/// The opening text of a module's cluster, before its member nodes.
pub open spec fn cluster_prefix(m: ModuleV) -> Seq<char> {
    "subgraph cluster_"@ + module_id(m) + "{label=\""@ + escape_quotes(module_label(m))
        + "\";bgcolor=\"#eeeeee\";"@
}

/// One module's rendered cluster.
pub open spec fn cluster_spec(m: ModuleV, funcs: Seq<FunctionV>) -> Seq<char> {
    cluster_prefix(m) + members_text(cluster_members(funcs, m.filename)) + "}"@
}

/// The clusters of all modules, in module order, starting at module `i`.
pub open spec fn clusters_from(mods: Seq<ModuleV>, funcs: Seq<FunctionV>, i: int) -> Seq<char>
    decreases mods.len() - i,
{
    if i < 0 || i >= mods.len() {
        Seq::empty()
    } else {
        cluster_spec(mods[i], funcs) + clusters_from(mods, funcs, i + 1)
    }
}

/// The rendered clusters of all modules.
pub open spec fn clusters_spec(mods: Seq<ModuleV>, funcs: Seq<FunctionV>) -> Seq<char> {
    clusters_from(mods, funcs, 0)
}

/// The edge statements from caller `i` to callees from `j` on.
pub open spec fn row_from(funcs: Seq<FunctionV>, i: int, j: int) -> Seq<char>
    decreases funcs.len() - j,
{
    if j < 0 || j >= funcs.len() || !(0 <= i < funcs.len()) {
        Seq::empty()
    } else {
        (if has_call(body_tail(funcs[i].body), funcs[j].name) {
            edge_text(funcs[i], funcs[j])
        } else {
            Seq::empty()
        }) + row_from(funcs, i, j + 1)
    }
}

/// The edge statements of callers from `i` on.
pub open spec fn links_from(funcs: Seq<FunctionV>, i: int) -> Seq<char>
    decreases funcs.len() - i,
{
    if i < 0 || i >= funcs.len() {
        Seq::empty()
    } else {
        row_from(funcs, i, 0) + links_from(funcs, i + 1)
    }
}

/// All rendered edge statements, grouped by caller in extraction order
/// and, within one caller, in callee extraction order.
pub open spec fn links_spec(funcs: Seq<FunctionV>) -> Seq<char> {
    links_from(funcs, 0)
}

/// One legend table row.
pub open spec fn table_row_spec(label: Seq<char>, value: Seq<char>) -> Seq<char> {
    "<tr><td align=\"left\">"@ + label + "</td><td align=\"right\">"@ + value + "</td></tr>"@
}

/// The total line count of the modules from `i` on.
pub open spec fn total_from(mods: Seq<ModuleV>, i: int) -> nat
    decreases mods.len() - i,
{
    if i < 0 || i >= mods.len() {
        0
    } else {
        lines_of(mods[i].source).len() + total_from(mods, i + 1)
    }
}

/// The total line count over all modules' source texts.
pub open spec fn total_lines_spec(mods: Seq<ModuleV>) -> nat {
    total_from(mods, 0)
}

/// The legend pseudo-node: a three-row table of module count, function
/// count and total source lines.
pub open spec fn legend_spec(n_modules: nat, n_functions: nat, n_lines: nat) -> Seq<char> {
    "legend[shape=plaintext;label=<<table border=\"0\" cellborder=\"1\" cellspacing=\"0\">"@
        + table_row_spec("Modules"@, decimal_of(n_modules))
        + table_row_spec("Functions"@, decimal_of(n_functions))
        + table_row_spec("Lines"@, decimal_of(n_lines)) + "</table>>;];"@
}

/// The full rendered graph: header, legend, clusters, edges, close.
pub open spec fn callgraph_spec(
    mods: Seq<ModuleV>,
    sp: Seq<char>,
    ep: Seq<char>,
    cp: Seq<char>,
    ip: Seq<char>,
) -> Seq<char> {
    let funcs = extract_spec(mods, sp, ep, cp, ip);
    "strict digraph {"@ + "graph [rankdir=LR];"@
        + "node [shape=box;style=filled;fillcolor=\"#ffffff\"];"@
        + legend_spec(mods.len(), funcs.len(), total_lines_spec(mods))
        + clusters_spec(mods, funcs) + links_spec(funcs) + "}"@
}

/// Render one module's cluster: its sanitized identifier, its label, and
/// one quoted node per function belonging to it.
pub fn generate_cluster(module: &Module, functions: &Vec<Function>) -> (r: String)
    ensures
        r@ == cluster_spec(module@, funcs_view(functions@)),
{
    let ghost m = module@;
    let ghost fv = funcs_view(functions@);
    let mut r = String::new();
    r.append("subgraph cluster_");
    let id = module.id();
    r.append(id.as_str());
    r.append("{label=\"");
    let lb = module.label();
    let lbe = escape_label(lb.as_str());
    r.append(lbe.as_str());
    r.append("\";bgcolor=\"#eeeeee\";");
    proof {
        assert(r@ =~= cluster_prefix(m));
    }
    let mut i: usize = 0;
    proof {
        assert(fv.skip(0) =~= fv);
    }
    while i < functions.len()
        invariant
            m == module@,
            fv == funcs_view(functions@),
            i <= fv.len(),
            fv.len() == functions@.len(),
            cluster_prefix(m) + members_text(cluster_members(fv, m.filename))
                == r@ + members_text(cluster_members(fv.skip(i as int), m.filename)),
        decreases fv.len() - i,
    {
        let f = &functions[i];
        proof {
            assert(fv.skip(i as int)[0] == f@);
            assert(fv.skip(i as int).skip(1) =~= fv.skip(i as int + 1));
        }
        if f.module.filename.eq(&module.filename) {
            let lbf = f.label();
            let lbe = escape_label(lbf.as_str());
            r.append("\"");
            r.append(lbe.as_str());
            r.append("\";");
            proof {
                reveal_strlit("\"");
                reveal_strlit("\";");
                assert("\""@ =~= seq!['"']);
                assert("\";"@ =~= seq!['"', ';']);
                let mems = cluster_members(fv.skip(i as int), m.filename);
                assert(mems =~= seq![f@] + cluster_members(fv.skip(i as int + 1), m.filename));
                assert(mems[0] == f@);
                assert(mems.skip(1) =~= cluster_members(fv.skip(i as int + 1), m.filename));
                assert(members_text(mems) == seq!['"'] + escape_quotes(function_label(f@))
                    + seq!['"', ';'] + members_text(mems.skip(1)));
                assert(cluster_prefix(m) + members_text(cluster_members(fv, m.filename))
                    =~= r@ + members_text(cluster_members(fv.skip(i as int + 1), m.filename)));
            }
        } else {
            proof {
                assert(cluster_members(fv.skip(i as int), m.filename)
                    =~= cluster_members(fv.skip(i as int + 1), m.filename));
            }
        }
        i = i + 1;
    }
    proof {
        assert(fv.skip(fv.len() as int) =~= Seq::<FunctionV>::empty());
        assert(members_text(cluster_members(Seq::empty(), m.filename))
            =~= Seq::<char>::empty());
        assert(r@ =~= cluster_prefix(m) + members_text(cluster_members(fv, m.filename)));
    }
    r.append("}");
    proof {
        assert(r@ =~= cluster_spec(m, fv));
    }
    r
}

/// Render every module's cluster, in module order.
pub fn generate_clusters(modules: &Vec<Module>, functions: &Vec<Function>) -> (r: String)
    ensures
        r@ == clusters_spec(mods_view(modules@), funcs_view(functions@)),
{
    let ghost mods = mods_view(modules@);
    let ghost fv = funcs_view(functions@);
    let mut r = String::new();
    let mut i: usize = 0;
    while i < modules.len()
        invariant
            mods == mods_view(modules@),
            fv == funcs_view(functions@),
            i <= mods.len(),
            mods.len() == modules@.len(),
            clusters_spec(mods, fv) == r@ + clusters_from(mods, fv, i as int),
        decreases mods.len() - i,
    {
        proof {
            assert(mods[i as int] == modules@[i as int]@);
        }
        let c = generate_cluster(&modules[i], functions);
        r.append(c.as_str());
        proof {
            assert(clusters_spec(mods, fv) =~= r@ + clusters_from(mods, fv, i as int + 1));
        }
        i = i + 1;
    }
    r
}

/// Render every edge: for each ordered caller/callee pair whose call
/// test succeeds, one edge statement.
pub fn generate_links(functions: &Vec<Function>) -> (r: String)
    ensures
        r@ == links_spec(funcs_view(functions@)),
{
    let ghost fv = funcs_view(functions@);
    let mut r = String::new();
    let mut i: usize = 0;
    while i < functions.len()
        invariant
            fv == funcs_view(functions@),
            i <= fv.len(),
            fv.len() == functions@.len(),
            links_spec(fv) == r@ + links_from(fv, i as int),
        decreases fv.len() - i,
    {
        let f1 = &functions[i];
        proof {
            assert(fv[i as int] == f1@);
        }
        let mut j: usize = 0;
        while j < functions.len()
            invariant
                fv == funcs_view(functions@),
                i < fv.len(),
                j <= fv.len(),
                fv.len() == functions@.len(),
                fv[i as int] == f1@,
                links_spec(fv) == r@ + row_from(fv, i as int, j as int) + links_from(
                    fv,
                    i as int + 1,
                ),
            decreases fv.len() - j,
        {
            let f2 = &functions[j];
            proof {
                assert(fv[j as int] == f2@);
            }
            if f1.check_for_function_in_body(f2) {
                let e = f1.link(f2);
                r.append(e.as_str());
                proof {
                    assert(links_spec(fv) =~= r@ + row_from(fv, i as int, j as int + 1)
                        + links_from(fv, i as int + 1));
                }
            } else {
                proof {
                    assert(links_spec(fv) =~= r@ + row_from(fv, i as int, j as int + 1)
                        + links_from(fv, i as int + 1));
                }
            }
            j = j + 1;
        }
        proof {
            assert(row_from(fv, i as int, fv.len() as int) =~= Seq::<char>::empty());
            assert(links_spec(fv) =~= r@ + links_from(fv, i as int + 1));
        }
        i = i + 1;
    }
    proof {
        assert(links_from(fv, fv.len() as int) =~= Seq::<char>::empty());
        assert(links_spec(fv) =~= r@);
    }
    r
}

/// One legend table row: a left-aligned label and a right-aligned value.
pub fn table_row(label: &str, value: &str) -> (r: String)
    ensures
        r@ == table_row_spec(label@, value@),
{
    let mut r = String::new();
    r.append("<tr><td align=\"left\">");
    r.append(label);
    r.append("</td><td align=\"right\">");
    r.append(value);
    r.append("</td></tr>");
    proof {
        assert(r@ =~= table_row_spec(label@, value@));
    }
    r
}

/// Compute the total line count over all modules, when it fits a
/// `usize`; `None` reports that it overflows.
pub fn total_lines(modules: &Vec<Module>) -> (r: Option<usize>)
    ensures
        r matches Some(n) ==> n == total_lines_spec(mods_view(modules@)),
        r is Some <==> total_lines_spec(mods_view(modules@)) <= usize::MAX,
{
    let ghost mods = mods_view(modules@);
    let mut sum: usize = 0;
    let mut i: usize = 0;
    while i < modules.len()
        invariant
            mods == mods_view(modules@),
            i <= mods.len(),
            mods.len() == modules@.len(),
            total_lines_spec(mods) == sum + total_from(mods, i as int),
        decreases mods.len() - i,
    {
        proof {
            assert(mods[i as int] == modules@[i as int]@);
        }
        let n = crate::text::count_lines(&modules[i].source);
        if n > usize::MAX - sum {
            proof {
                assert(total_from(mods, i as int) >= lines_of(mods[i as int].source).len());
            }
            return None;
        }
        sum = sum + n;
        i = i + 1;
    }
    proof {
        assert(total_from(mods, mods.len() as int) == 0);
    }
    Some(sum)
}

/// Render the legend pseudo-node reporting the module count, the
/// function count, and the total lines over all module sources.
pub fn generate_legend(modules: &Vec<Module>, functions: &Vec<Function>) -> (r: String)
    requires
        total_lines_spec(mods_view(modules@)) <= usize::MAX,
    ensures
        r@ == legend_spec(modules@.len(), functions@.len(), total_lines_spec(
            mods_view(modules@),
        )),
{
    let lines_of_code = match total_lines(modules) {
        Some(n) => n,
        None => 0,  // unreachable: the total fits by the precondition
    };
    let num_functions = functions.len();
    let num_modules = modules.len();
    let mut r = String::new();
    r.append("legend[shape=plaintext;label=<<table border=\"0\" cellborder=\"1\" cellspacing=\"0\">");
    let v1 = decimal_string(num_modules);
    let row1 = table_row("Modules", v1.as_str());
    r.append(row1.as_str());
    let v2 = decimal_string(num_functions);
    let row2 = table_row("Functions", v2.as_str());
    r.append(row2.as_str());
    let v3 = decimal_string(lines_of_code);
    let row3 = table_row("Lines", v3.as_str());
    r.append(row3.as_str());
    r.append("</table>>;];");
    proof {
        assert(r@ =~= legend_spec(modules@.len(), functions@.len(), total_lines_spec(
            mods_view(modules@),
        )));
    }
    r
}

/// Extract all functions and render the whole graph: header, legend,
/// clusters, edges.
pub fn generate_callgraph(
    modules: &Vec<Module>,
    start: &Pattern,
    end: &Pattern,
    function_cleanup: &Pattern,
    ignore_function: &Pattern,
) -> (r: String)
    requires
        total_lines_spec(mods_view(modules@)) <= usize::MAX,
    ensures
        r@ == callgraph_spec(mods_view(modules@), start@, end@, function_cleanup@,
            ignore_function@),
{
    let functions = extract_functions(modules, start, end, function_cleanup, ignore_function);
    let mut r = String::new();
    r.append("strict digraph {");
    r.append("graph [rankdir=LR];");
    r.append("node [shape=box;style=filled;fillcolor=\"#ffffff\"];");
    let legend = generate_legend(modules, &functions);
    r.append(legend.as_str());
    let clusters = generate_clusters(modules, &functions);
    r.append(clusters.as_str());
    let links = generate_links(&functions);
    r.append(links.as_str());
    r.append("}");
    proof {
        assert(r@ =~= callgraph_spec(mods_view(modules@), start@, end@, function_cleanup@,
            ignore_function@));
    }
    r
}

} // verus!
