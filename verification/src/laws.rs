//! The library's laws: proofs relating the extractor, the call-graph
//! builder and the renderer, stated over the same spec functions that
//! the executable functions' contracts use.

use vstd::prelude::*;
use crate::extract::{
    FuncRec, ScanState, extract_spec, idle_state, join_nl, module_functions, module_records,
    rec_to_function, scan_lines, scan_step,
};
use crate::model::{FunctionV, ModuleV, body_tail, edge_text, has_call};
use crate::pattern::regex_matches;
use crate::render::{
    cluster_spec, clusters_from, clusters_spec, legend_spec, links_from, links_spec, row_from,
    table_row_spec,
};
use crate::text::{decimal_of, is_digit, lemma_decimal_of_digits, lemma_decimal_of_injective, lines_of};

verus! {

// ---------------------------------------------------------------------
// Shape of extracted records
// ---------------------------------------------------------------------

/// A record opened by a start line: nonempty, first line matching the
/// start pattern.
pub open spec fn rec_started(r: FuncRec, sp: Seq<char>) -> bool {
    r.body_lines.len() > 0 && regex_matches(sp, r.body_lines[0])
}

/// A record closed by an end line: started, and its last line matches
/// the end pattern.
pub open spec fn rec_closed(r: FuncRec, sp: Seq<char>, ep: Seq<char>) -> bool {
    rec_started(r, sp) && regex_matches(ep, r.body_lines.last())
}

proof fn lemma_scan_shape(
    lines: Seq<Seq<char>>,
    st: ScanState,
    sp: Seq<char>,
    ep: Seq<char>,
    cp: Seq<char>,
    ip: Seq<char>,
)
    requires
        st.name.len() > 0 ==> st.body_lines.len() > 0 && regex_matches(sp, st.body_lines[0]),
    ensures
        forall|k: int|
            0 <= k < scan_lines(lines, st, sp, ep, cp, ip).0.len()
                ==> rec_closed(#[trigger] scan_lines(lines, st, sp, ep, cp, ip).0[k], sp, ep),
        scan_lines(lines, st, sp, ep, cp, ip).1.name.len() > 0 ==> {
            let stf = scan_lines(lines, st, sp, ep, cp, ip).1;
            stf.body_lines.len() > 0 && regex_matches(sp, stf.body_lines[0])
        },
    decreases lines.len(),
{
    if lines.len() > 0 {
        let (st1, out) = scan_step(st, lines[0], sp, ep, cp, ip);
        lemma_scan_shape(lines.skip(1), st1, sp, ep, cp, ip);
        let rest = scan_lines(lines.skip(1), st1, sp, ep, cp, ip).0;
        let recs = scan_lines(lines, st, sp, ep, cp, ip).0;
        assert forall|k: int| 0 <= k < recs.len() implies rec_closed(
            #[trigger] recs[k],
            sp,
            ep,
        ) by {
            if out is Some {
                if k == 0 {
                    assert(recs[0] == out->0);
                    assert(out->0.body_lines.last() == lines[0]);
                } else {
                    assert(recs[k] == rest[k - 1]);
                }
            } else {
                assert(recs[k] == rest[k]);
            }
        }
    }
}

proof fn lemma_scan_ignore(
    lines: Seq<Seq<char>>,
    st: ScanState,
    sp: Seq<char>,
    ep: Seq<char>,
    cp: Seq<char>,
    ip: Seq<char>,
)
    ensures
        forall|k: int|
            0 <= k < scan_lines(lines, st, sp, ep, cp, ip).0.len()
                ==> !regex_matches(ip, (#[trigger] scan_lines(lines, st, sp, ep, cp, ip).0[k]).name),
    decreases lines.len(),
{
    if lines.len() > 0 {
        let (st1, out) = scan_step(st, lines[0], sp, ep, cp, ip);
        lemma_scan_ignore(lines.skip(1), st1, sp, ep, cp, ip);
        let rest = scan_lines(lines.skip(1), st1, sp, ep, cp, ip).0;
        let recs = scan_lines(lines, st, sp, ep, cp, ip).0;
        assert forall|k: int| 0 <= k < recs.len() implies !regex_matches(
            ip,
            (#[trigger] recs[k]).name,
        ) by {
            if out is Some {
                if k == 0 {
                    assert(recs[0] == out->0);
                } else {
                    assert(recs[k] == rest[k - 1]);
                }
            } else {
                assert(recs[k] == rest[k]);
            }
        }
    }
}

/// Every record a module scan produces was opened by a line matching
/// the start pattern; every one but possibly the last was closed by a
/// line matching the end pattern; and when the scanner did not end
/// inside an open record, the last one was closed too.
pub proof fn lemma_extraction_shape(
    source: Seq<char>,
    sp: Seq<char>,
    ep: Seq<char>,
    cp: Seq<char>,
    ip: Seq<char>,
)
    ensures
        forall|k: int|
            0 <= k < module_records(source, sp, ep, cp, ip).len()
                ==> rec_started(#[trigger] module_records(source, sp, ep, cp, ip)[k], sp),
        forall|k: int|
            0 <= k < module_records(source, sp, ep, cp, ip).len() - 1
                ==> rec_closed(#[trigger] module_records(source, sp, ep, cp, ip)[k], sp, ep),
        scan_lines(lines_of(source), idle_state(), sp, ep, cp, ip).1.name.len() == 0
            ==> forall|k: int|
                0 <= k < module_records(source, sp, ep, cp, ip).len()
                    ==> rec_closed(#[trigger] module_records(source, sp, ep, cp, ip)[k], sp, ep),
{
    lemma_scan_shape(lines_of(source), idle_state(), sp, ep, cp, ip);
    let recs = scan_lines(lines_of(source), idle_state(), sp, ep, cp, ip).0;
    let stf = scan_lines(lines_of(source), idle_state(), sp, ep, cp, ip).1;
    let all = module_records(source, sp, ep, cp, ip);
    assert forall|k: int| 0 <= k < all.len() implies rec_started(#[trigger] all[k], sp) by {
        if k < recs.len() {
            assert(all[k] == recs[k]);
        } else {
            assert(stf.name.len() > 0);
            assert(all[k] == FuncRec { name: stf.name, body_lines: stf.body_lines });
        }
    }
    assert forall|k: int| 0 <= k < all.len() - 1 implies rec_closed(
        #[trigger] all[k],
        sp,
        ep,
    ) by {
        assert(all[k] == recs[k]);
    }
    if stf.name.len() == 0 {
        assert forall|k: int| 0 <= k < all.len() implies rec_closed(
            #[trigger] all[k],
            sp,
            ep,
        ) by {
            assert(all[k] == recs[k]);
        }
    }
}

/// The ignore filter holds: no extracted function's cleaned name
/// matches the ignore pattern, so no ignored function reaches a node,
/// a cluster, or an edge of the rendered graph.
pub proof fn lemma_ignored_absent(
    mods: Seq<ModuleV>,
    sp: Seq<char>,
    ep: Seq<char>,
    cp: Seq<char>,
    ip: Seq<char>,
)
    ensures
        forall|k: int|
            0 <= k < extract_spec(mods, sp, ep, cp, ip).len()
                ==> !regex_matches(ip, (#[trigger] extract_spec(mods, sp, ep, cp, ip)[k]).name),
    decreases mods.len(),
{
    if mods.len() > 0 {
        lemma_ignored_absent(mods.skip(1), sp, ep, cp, ip);
        lemma_scan_ignore(lines_of(mods[0].source), idle_state(), sp, ep, cp, ip);
        let head = module_functions(mods[0], sp, ep, cp, ip);
        let rest = extract_spec(mods.skip(1), sp, ep, cp, ip);
        let all = extract_spec(mods, sp, ep, cp, ip);
        let recs = module_records(mods[0].source, sp, ep, cp, ip);
        let scanned = scan_lines(lines_of(mods[0].source), idle_state(), sp, ep, cp, ip);
        assert forall|k: int| 0 <= k < all.len() implies !regex_matches(
            ip,
            (#[trigger] all[k]).name,
        ) by {
            if k < head.len() {
                assert(all[k] == head[k]);
                assert(head[k] == rec_to_function(recs[k], mods[0]));
                if k < scanned.0.len() {
                    assert(recs[k] == scanned.0[k]);
                } else {
                    assert(scanned.1.name.len() > 0 && !regex_matches(ip, scanned.1.name));
                    assert(recs[k] == FuncRec {
                        name: scanned.1.name,
                        body_lines: scanned.1.body_lines,
                    });
                }
            } else {
                assert(all[k] == rest[k - head.len()]);
            }
        }
    }
}

// ---------------------------------------------------------------------
// Edges: the pair list behind the rendered edge statements
// ---------------------------------------------------------------------

/// The caller/callee index pairs emitted for caller `i`, callees from
/// `j` on.
pub open spec fn row_pairs(funcs: Seq<FunctionV>, i: int, j: int) -> Seq<(int, int)>
    decreases funcs.len() - j,
{
    if j < 0 || j >= funcs.len() || !(0 <= i < funcs.len()) {
        Seq::empty()
    } else {
        (if has_call(body_tail(funcs[i].body), funcs[j].name) {
            seq![(i, j)]
        } else {
            Seq::empty()
        }) + row_pairs(funcs, i, j + 1)
    }
}

/// The caller/callee index pairs for callers from `i` on.
pub open spec fn edge_pairs_from(funcs: Seq<FunctionV>, i: int) -> Seq<(int, int)>
    decreases funcs.len() - i,
{
    if i < 0 || i >= funcs.len() {
        Seq::empty()
    } else {
        row_pairs(funcs, i, 0) + edge_pairs_from(funcs, i + 1)
    }
}

/// All caller/callee index pairs, in output order.
pub open spec fn edge_pairs(funcs: Seq<FunctionV>) -> Seq<(int, int)> {
    edge_pairs_from(funcs, 0)
}

proof fn lemma_contains_split(s1: Seq<(int, int)>, s2: Seq<(int, int)>, x: (int, int))
    ensures
        (s1 + s2).contains(x) <==> s1.contains(x) || s2.contains(x),
{
    if s1.contains(x) {
        let k = choose|k: int| 0 <= k < s1.len() && s1[k] == x;
        assert((s1 + s2)[k] == x);
    }
    if s2.contains(x) {
        let k = choose|k: int| 0 <= k < s2.len() && s2[k] == x;
        assert((s1 + s2)[s1.len() + k] == x);
    }
    if (s1 + s2).contains(x) {
        let k = choose|k: int| 0 <= k < (s1 + s2).len() && (s1 + s2)[k] == x;
        if k < s1.len() {
            assert(s1[k] == x);
        } else {
            assert(s2[k - s1.len()] == x);
        }
    }
}

proof fn lemma_row_pairs_contains(funcs: Seq<FunctionV>, i: int, j0: int, a: int, b: int)
    requires
        0 <= i < funcs.len(),
        0 <= j0,
    ensures
        row_pairs(funcs, i, j0).contains((a, b)) <==> (a == i && j0 <= b < funcs.len()
            && has_call(body_tail(funcs[i].body), funcs[b].name)),
    decreases funcs.len() - j0,
{
    if j0 >= funcs.len() {
    } else {
        lemma_row_pairs_contains(funcs, i, j0 + 1, a, b);
        let head = if has_call(body_tail(funcs[i].body), funcs[j0].name) {
            seq![(i, j0)]
        } else {
            Seq::<(int, int)>::empty()
        };
        lemma_contains_split(head, row_pairs(funcs, i, j0 + 1), (a, b));
        if head.contains((a, b)) {
            assert(head[0] == (i, j0));
        }
        if a == i && j0 == b && has_call(body_tail(funcs[i].body), funcs[b].name) {
            assert(head[0] == (a, b));
        }
    }
}

proof fn lemma_edge_pairs_from_contains(funcs: Seq<FunctionV>, i0: int, a: int, b: int)
    requires
        0 <= i0,
    ensures
        edge_pairs_from(funcs, i0).contains((a, b)) <==> (i0 <= a < funcs.len() && 0 <= b
            < funcs.len() && has_call(body_tail(funcs[a].body), funcs[b].name)),
    decreases funcs.len() - i0,
{
    if i0 >= funcs.len() {
    } else {
        lemma_edge_pairs_from_contains(funcs, i0 + 1, a, b);
        lemma_row_pairs_contains(funcs, i0, 0, a, b);
        lemma_contains_split(row_pairs(funcs, i0, 0), edge_pairs_from(funcs, i0 + 1), (a, b));
    }
}

/// The call-detection law: the pair `(a, b)` is among the rendered
/// edges exactly when a whole-word occurrence of function `b`'s name,
/// immediately followed by `(`, exists in function `a`'s body with its
/// signature line excluded.
pub proof fn lemma_edge_iff(funcs: Seq<FunctionV>, a: int, b: int)
    ensures
        edge_pairs(funcs).contains((a, b)) <==> (0 <= a < funcs.len() && 0 <= b < funcs.len()
            && has_call(body_tail(funcs[a].body), funcs[b].name)),
{
    lemma_edge_pairs_from_contains(funcs, 0, a, b);
}

/// The rendered edge statements, one per pair, in pair order.
pub open spec fn pairs_text(ps: Seq<(int, int)>, funcs: Seq<FunctionV>) -> Seq<char>
    decreases ps.len(),
{
    if ps.len() == 0 {
        Seq::empty()
    } else {
        edge_text(funcs[ps[0].0], funcs[ps[0].1]) + pairs_text(ps.skip(1), funcs)
    }
}

proof fn lemma_pairs_text_add(ps1: Seq<(int, int)>, ps2: Seq<(int, int)>, funcs: Seq<FunctionV>)
    ensures
        pairs_text(ps1 + ps2, funcs) == pairs_text(ps1, funcs) + pairs_text(ps2, funcs),
    decreases ps1.len(),
{
    if ps1.len() == 0 {
        assert(ps1 + ps2 =~= ps2);
        assert(pairs_text(ps1, funcs) + pairs_text(ps2, funcs) =~= pairs_text(ps2, funcs));
    } else {
        lemma_pairs_text_add(ps1.skip(1), ps2, funcs);
        assert((ps1 + ps2)[0] == ps1[0]);
        assert((ps1 + ps2).skip(1) =~= ps1.skip(1) + ps2);
        assert(pairs_text(ps1 + ps2, funcs) =~= pairs_text(ps1, funcs) + pairs_text(ps2, funcs));
    }
}

proof fn lemma_row_text_follows_pairs(funcs: Seq<FunctionV>, i: int, j0: int)
    requires
        0 <= i < funcs.len(),
        0 <= j0,
    ensures
        row_from(funcs, i, j0) == pairs_text(row_pairs(funcs, i, j0), funcs),
    decreases funcs.len() - j0,
{
    if j0 >= funcs.len() {
    } else {
        lemma_row_text_follows_pairs(funcs, i, j0 + 1);
        if has_call(body_tail(funcs[i].body), funcs[j0].name) {
            let head = seq![(i, j0)];
            lemma_pairs_text_add(head, row_pairs(funcs, i, j0 + 1), funcs);
            assert(head.skip(1) =~= Seq::<(int, int)>::empty());
            assert(head[0] == (i, j0));
            assert(pairs_text(Seq::<(int, int)>::empty(), funcs) == Seq::<char>::empty());
            assert(pairs_text(head, funcs) =~= edge_text(funcs[i], funcs[j0]));
            assert(row_from(funcs, i, j0) =~= pairs_text(row_pairs(funcs, i, j0), funcs));
        } else {
            assert(Seq::<(int, int)>::empty() + row_pairs(funcs, i, j0 + 1)
                =~= row_pairs(funcs, i, j0 + 1));
            assert(Seq::<char>::empty() + row_from(funcs, i, j0 + 1)
                =~= row_from(funcs, i, j0 + 1));
        }
    }
}

proof fn lemma_links_follow_pairs_from(funcs: Seq<FunctionV>, i0: int)
    requires
        0 <= i0,
    ensures
        links_from(funcs, i0) == pairs_text(edge_pairs_from(funcs, i0), funcs),
    decreases funcs.len() - i0,
{
    if i0 >= funcs.len() {
    } else {
        lemma_links_follow_pairs_from(funcs, i0 + 1);
        lemma_row_text_follows_pairs(funcs, i0, 0);
        lemma_pairs_text_add(row_pairs(funcs, i0, 0), edge_pairs_from(funcs, i0 + 1), funcs);
    }
}

/// The rendered edge text is exactly one edge statement per pair of
/// [`edge_pairs`], in that order.
pub proof fn lemma_links_follow_pairs(funcs: Seq<FunctionV>)
    ensures
        links_spec(funcs) == pairs_text(edge_pairs(funcs), funcs),
{
    lemma_links_follow_pairs_from(funcs, 0);
}

// ---------------------------------------------------------------------
// Clusters: one per module
// ---------------------------------------------------------------------

/// The filenames of a module list.
pub open spec fn filenames(mods: Seq<ModuleV>) -> Seq<Seq<char>> {
    mods.map_values(|m: ModuleV| m.filename)
}

/// Filenames are unique per run.
pub open spec fn distinct_filenames(mods: Seq<ModuleV>) -> bool {
    filenames(mods).no_duplicates()
}

/// The rendered cluster of each module, in module order.
pub open spec fn cluster_texts(mods: Seq<ModuleV>, funcs: Seq<FunctionV>) -> Seq<Seq<char>> {
    mods.map_values(|m: ModuleV| cluster_spec(m, funcs))
}

/// Texts concatenated in order.
pub open spec fn concat_texts(ts: Seq<Seq<char>>) -> Seq<char>
    decreases ts.len(),
{
    if ts.len() == 0 {
        Seq::empty()
    } else {
        ts[0] + concat_texts(ts.skip(1))
    }
}

proof fn lemma_clusters_from_structure(mods: Seq<ModuleV>, funcs: Seq<FunctionV>, i: int)
    requires
        0 <= i <= mods.len(),
    ensures
        clusters_from(mods, funcs, i) == concat_texts(cluster_texts(mods, funcs).skip(i)),
    decreases mods.len() - i,
{
    if i >= mods.len() {
        assert(cluster_texts(mods, funcs).skip(i) =~= Seq::<Seq<char>>::empty());
    } else {
        lemma_clusters_from_structure(mods, funcs, i + 1);
        let ts = cluster_texts(mods, funcs);
        assert(ts.skip(i)[0] == cluster_spec(mods[i], funcs));
        assert(ts.skip(i).skip(1) =~= ts.skip(i + 1));
    }
}

/// The rendered clusters are exactly one cluster text per module, in
/// module order: with distinct filenames, the cluster count equals the
/// number of distinct module filenames.
pub proof fn lemma_cluster_count(mods: Seq<ModuleV>, funcs: Seq<FunctionV>)
    requires
        distinct_filenames(mods),
    ensures
        clusters_spec(mods, funcs) == concat_texts(cluster_texts(mods, funcs)),
        cluster_texts(mods, funcs).len() == filenames(mods).to_set().len(),
{
    lemma_clusters_from_structure(mods, funcs, 0);
    assert(cluster_texts(mods, funcs).skip(0) =~= cluster_texts(mods, funcs));
    filenames(mods).unique_seq_to_set();
}

// ---------------------------------------------------------------------
// Legend: the rendered counts determine the numbers
// ---------------------------------------------------------------------

proof fn lemma_prefix_cancel(x: Seq<char>, a: Seq<char>, b: Seq<char>)
    requires
        x + a == x + b,
    ensures
        a == b,
{
    assert(a =~= (x + a).skip(x.len() as int));
    assert(b =~= (x + b).skip(x.len() as int));
}

proof fn lemma_decimal_then_delimiter(a: nat, b: nat, s1: Seq<char>, s2: Seq<char>)
    requires
        decimal_of(a) + s1 == decimal_of(b) + s2,
        s1.len() > 0 && s1[0] == '<',
        s2.len() > 0 && s2[0] == '<',
    ensures
        a == b,
        s1 == s2,
{
    let u = decimal_of(a);
    let v = decimal_of(b);
    lemma_decimal_of_digits(a);
    lemma_decimal_of_digits(b);
    if u.len() < v.len() {
        assert((u + s1)[u.len() as int] == s1[0]);
        assert((v + s2)[u.len() as int] == v[u.len() as int]);
        assert(is_digit(v[u.len() as int]));
        assert(false);
    }
    if v.len() < u.len() {
        assert((v + s2)[v.len() as int] == s2[0]);
        assert((u + s1)[v.len() as int] == u[v.len() as int]);
        assert(is_digit(u[v.len() as int]));
        assert(false);
    }
    assert(u =~= (u + s1).take(u.len() as int));
    assert(v =~= (v + s2).take(v.len() as int));
    lemma_decimal_of_injective(a, b);
    assert(s1 =~= (u + s1).skip(u.len() as int));
    assert(s2 =~= (v + s2).skip(v.len() as int));
}

/// The legend text before the module count.
pub open spec fn legend_chunk_head() -> Seq<char> {
    "legend[shape=plaintext;label=<<table border=\"0\" cellborder=\"1\" cellspacing=\"0\">"@
        + "<tr><td align=\"left\">"@ + "Modules"@ + "</td><td align=\"right\">"@
}

/// The legend text between the module count and the function count.
pub open spec fn legend_chunk_mid1() -> Seq<char> {
    "</td></tr>"@ + "<tr><td align=\"left\">"@ + "Functions"@ + "</td><td align=\"right\">"@
}

/// The legend text between the function count and the line count.
pub open spec fn legend_chunk_mid2() -> Seq<char> {
    "</td></tr>"@ + "<tr><td align=\"left\">"@ + "Lines"@ + "</td><td align=\"right\">"@
}

/// The legend text after the line count.
pub open spec fn legend_chunk_tail() -> Seq<char> {
    "</td></tr>"@ + "</table>>;];"@
}

#[verifier::rlimit(100)]
proof fn lemma_legend_flat(a: nat, b: nat, c: nat)
    ensures
        legend_spec(a, b, c) == legend_chunk_head() + (decimal_of(a) + (legend_chunk_mid1()
            + (decimal_of(b) + (legend_chunk_mid2() + (decimal_of(c)
            + legend_chunk_tail()))))),
{
    assert(legend_spec(a, b, c) =~= legend_chunk_head() + (decimal_of(a)
        + (legend_chunk_mid1() + (decimal_of(b) + (legend_chunk_mid2() + (decimal_of(c)
        + legend_chunk_tail())))))) by {
        assert(table_row_spec("Modules"@, decimal_of(a)) =~= "<tr><td align=\"left\">"@
            + "Modules"@ + "</td><td align=\"right\">"@ + decimal_of(a) + "</td></tr>"@);
    }
}

proof fn lemma_legend_chunks_open_with_bracket()
    ensures
        legend_chunk_mid1().len() > 0 && legend_chunk_mid1()[0] == '<',
        legend_chunk_mid2().len() > 0 && legend_chunk_mid2()[0] == '<',
        legend_chunk_tail().len() > 0 && legend_chunk_tail()[0] == '<',
{
    reveal_strlit("</td></tr>");
    assert("</td></tr>"@[0] == '<');
}

/// The legend pins its counts down: two legends render as the same text
/// only when their module, function and line counts all agree.
pub proof fn lemma_legend_injective(a1: nat, b1: nat, c1: nat, a2: nat, b2: nat, c2: nat)
    requires
        legend_spec(a1, b1, c1) == legend_spec(a2, b2, c2),
    ensures
        a1 == a2,
        b1 == b2,
        c1 == c2,
{
    let x = legend_chunk_head();
    let y = legend_chunk_mid1();
    let z = legend_chunk_mid2();
    let w = legend_chunk_tail();
    lemma_legend_flat(a1, b1, c1);
    lemma_legend_flat(a2, b2, c2);
    lemma_legend_chunks_open_with_bracket();
    let r1 = y + (decimal_of(b1) + (z + (decimal_of(c1) + w)));
    let r2 = y + (decimal_of(b2) + (z + (decimal_of(c2) + w)));
    lemma_prefix_cancel(x, decimal_of(a1) + r1, decimal_of(a2) + r2);
    assert(r1[0] == '<' && r1.len() > 0);
    assert(r2[0] == '<' && r2.len() > 0);
    lemma_decimal_then_delimiter(a1, a2, r1, r2);
    let s1 = z + (decimal_of(c1) + w);
    let s2 = z + (decimal_of(c2) + w);
    lemma_prefix_cancel(y, decimal_of(b1) + s1, decimal_of(b2) + s2);
    assert(s1[0] == '<' && s1.len() > 0);
    assert(s2[0] == '<' && s2.len() > 0);
    lemma_decimal_then_delimiter(b1, b2, s1, s2);
    lemma_prefix_cancel(z, decimal_of(c1) + w, decimal_of(c2) + w);
    lemma_decimal_then_delimiter(c1, c2, w, w);
}

// ---------------------------------------------------------------------
// Node labels: the rendered line count is the number of scanned lines
// ---------------------------------------------------------------------

/// No line of `ls` holds a newline.
pub open spec fn no_newlines(ls: Seq<Seq<char>>) -> bool {
    forall|k: int, j: int|
        0 <= k < ls.len() && 0 <= j < ls[k].len() ==> #[trigger] ls[k][j] != '\n'
}

/// Splitting a joined body recovers one line per joined line.
pub proof fn lemma_join_nl_count(ls: Seq<Seq<char>>)
    requires
        no_newlines(ls),
    ensures
        lines_of(join_nl(ls)).len() == ls.len(),
    decreases ls.len(),
{
    if ls.len() == 0 {
    } else {
        assert(forall|j: int| 0 <= j < ls[0].len() ==> ls[0][j] != '\n');
        crate::text::lemma_lines_of_head(ls[0], join_nl(ls.skip(1)));
        assert(join_nl(ls) == ls[0] + seq!['\n'] + join_nl(ls.skip(1)));
        assert(no_newlines(ls.skip(1)));
        lemma_join_nl_count(ls.skip(1));
    }
}

proof fn lemma_scan_no_newlines(
    lines: Seq<Seq<char>>,
    st: ScanState,
    sp: Seq<char>,
    ep: Seq<char>,
    cp: Seq<char>,
    ip: Seq<char>,
)
    requires
        no_newlines(lines),
        no_newlines(st.body_lines),
    ensures
        forall|k: int|
            0 <= k < scan_lines(lines, st, sp, ep, cp, ip).0.len()
                ==> no_newlines((#[trigger] scan_lines(lines, st, sp, ep, cp, ip).0[k]).body_lines),
        no_newlines(scan_lines(lines, st, sp, ep, cp, ip).1.body_lines),
    decreases lines.len(),
{
    if lines.len() > 0 {
        let (st1, out) = scan_step(st, lines[0], sp, ep, cp, ip);
        assert(forall|j: int| 0 <= j < lines[0].len() ==> lines[0][j] != '\n');
        assert(no_newlines(st1.body_lines));
        assert(no_newlines(lines.skip(1)));
        lemma_scan_no_newlines(lines.skip(1), st1, sp, ep, cp, ip);
        let rest = scan_lines(lines.skip(1), st1, sp, ep, cp, ip).0;
        let recs = scan_lines(lines, st, sp, ep, cp, ip).0;
        assert forall|k: int| 0 <= k < recs.len() implies no_newlines(
            (#[trigger] recs[k]).body_lines,
        ) by {
            if out is Some {
                if k == 0 {
                    assert(recs[0] == out->0);
                } else {
                    assert(recs[k] == rest[k - 1]);
                }
            } else {
                assert(recs[k] == rest[k]);
            }
        }
    }
}

/// A record's stored body splits back into exactly the lines it was
/// scanned from: the line count a node label reports is the number of
/// source lines of that record.
pub proof fn lemma_label_line_counts(
    source: Seq<char>,
    sp: Seq<char>,
    ep: Seq<char>,
    cp: Seq<char>,
    ip: Seq<char>,
)
    ensures
        forall|k: int|
            0 <= k < module_records(source, sp, ep, cp, ip).len() ==> lines_of(
                join_nl((#[trigger] module_records(source, sp, ep, cp, ip)[k]).body_lines),
            ).len() == module_records(source, sp, ep, cp, ip)[k].body_lines.len(),
{
    crate::text::lemma_lines_of_no_nl(source);
    assert(no_newlines(lines_of(source)));
    assert(no_newlines(idle_state().body_lines));
    lemma_scan_no_newlines(lines_of(source), idle_state(), sp, ep, cp, ip);
    let scanned = scan_lines(lines_of(source), idle_state(), sp, ep, cp, ip);
    let all = module_records(source, sp, ep, cp, ip);
    assert forall|k: int| 0 <= k < all.len() implies lines_of(
        join_nl((#[trigger] all[k]).body_lines),
    ).len() == all[k].body_lines.len() by {
        if k < scanned.0.len() {
            assert(all[k] == scanned.0[k]);
        } else {
            assert(scanned.1.name.len() > 0);
            assert(all[k] == FuncRec {
                name: scanned.1.name,
                body_lines: scanned.1.body_lines,
            });
        }
        lemma_join_nl_count(all[k].body_lines);
    }
}

// ---------------------------------------------------------------------
// Determinism
// ---------------------------------------------------------------------

/// The pipeline is deterministic: two runs over the same modules and
/// the same four patterns render byte-identical output.
pub proof fn lemma_callgraph_deterministic(
    mods: Seq<ModuleV>,
    sp: Seq<char>,
    ep: Seq<char>,
    cp: Seq<char>,
    ip: Seq<char>,
    r1: Seq<char>,
    r2: Seq<char>,
)
    requires
        r1 == crate::render::callgraph_spec(mods, sp, ep, cp, ip),
        r2 == crate::render::callgraph_spec(mods, sp, ep, cp, ip),
    ensures
        r1 == r2,
{
}

} // verus!
