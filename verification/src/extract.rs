//! Function extraction: a two-state line scanner per module, and the
//! iterative name cleaner.
//!
//! The scanner is Idle until a line matches the start pattern; it then
//! accumulates lines into a function record until a line matches the end
//! pattern. A new start match while a record is open restarts the
//! accumulator and the earlier partial record is lost. A record still
//! open at the end of a module is flushed into the result list. Records
//! whose cleaned name matches the ignore pattern are dropped.

use vstd::prelude::*;
use crate::model::{Function, FunctionV, Module, ModuleV};
use crate::pattern::{Pattern, regex_find, regex_matches};
use crate::text::{chars_of, is_space, lemma_trim_end_at, lines_of, space_char, split_lines, string_of, trim, trim_end_spec, trim_spec, views_of};

verus! {

/// The scanner's accumulator: the cleaned name of the open record and
/// its lines so far. An empty name means Idle.
#[verifier::ext_equal]
pub ghost struct ScanState {
    pub name: Seq<char>,
    pub body_lines: Seq<Seq<char>>,
}

/// A finished record at the line level: a name and body lines.
#[verifier::ext_equal]
pub ghost struct FuncRec {
    pub name: Seq<char>,
    pub body_lines: Seq<Seq<char>>,
}

/// The Idle scanner state.
pub open spec fn idle_state() -> ScanState {
    ScanState { name: Seq::empty(), body_lines: Seq::empty() }
}

/// The cleaned function name derived from a start line: the leftmost
/// match of the cleanup pattern is removed repeatedly until none is
/// left (an empty match stops the stripping, so that cleaning always
/// terminates), and the remainder is trimmed of surrounding whitespace.
pub open spec fn clean_name(cp: Seq<char>, line: Seq<char>) -> Seq<char>
    decreases line.len(),
{
    if regex_matches(cp, line) {
        let (a, b) = regex_find(cp, line);
        if 0 <= a && a < b && b <= line.len() {
            clean_name(cp, line.take(a) + line.skip(b))
        } else {
            trim_spec(line)
        }
    } else {
        trim_spec(line)
    }
}

/// One step of the scanner on one line: the next state, and the record
/// finished by this line, if any.
pub open spec fn scan_step(
    st: ScanState,
    line: Seq<char>,
    sp: Seq<char>,
    ep: Seq<char>,
    cp: Seq<char>,
    ip: Seq<char>,
) -> (ScanState, Option<FuncRec>) {
    if regex_matches(sp, line) {
        (ScanState { name: clean_name(cp, line), body_lines: seq![line] }, None::<FuncRec>)
    } else if st.name.len() > 0 {
        let st2 = ScanState { name: st.name, body_lines: st.body_lines.push(line) };
        if regex_matches(ep, line) {
            (
                idle_state(),
                if !regex_matches(ip, st2.name) {
                    Some(FuncRec { name: st2.name, body_lines: st2.body_lines })
                } else {
                    None
                },
            )
        } else {
            (st2, None::<FuncRec>)
        }
    } else {
        (st, None::<FuncRec>)
    }
}

/// The records an emitted option contributes.
pub open spec fn opt_rec(o: Option<FuncRec>) -> Seq<FuncRec> {
    match o {
        Some(r) => seq![r],
        None => Seq::empty(),
    }
}

/// The scanner run over a sequence of lines from a starting state: the
/// records finished on the way, and the final state.
pub open spec fn scan_lines(
    lines: Seq<Seq<char>>,
    st: ScanState,
    sp: Seq<char>,
    ep: Seq<char>,
    cp: Seq<char>,
    ip: Seq<char>,
) -> (Seq<FuncRec>, ScanState)
    decreases lines.len(),
{
    if lines.len() == 0 {
        (Seq::empty(), st)
    } else {
        let (st1, out) = scan_step(st, lines[0], sp, ep, cp, ip);
        let (rest, stf) = scan_lines(lines.skip(1), st1, sp, ep, cp, ip);
        (opt_rec(out) + rest, stf)
    }
}

/// The record still open when a module's lines run out, flushed —
/// unless there is none, or its name matches the ignore pattern.
pub open spec fn flush(st: ScanState, ip: Seq<char>) -> Seq<FuncRec> {
    if st.name.len() > 0 && !regex_matches(ip, st.name) {
        seq![FuncRec { name: st.name, body_lines: st.body_lines }]
    } else {
        Seq::empty()
    }
}

/// All records extracted from one module's source text.
pub open spec fn module_records(
    source: Seq<char>,
    sp: Seq<char>,
    ep: Seq<char>,
    cp: Seq<char>,
    ip: Seq<char>,
) -> Seq<FuncRec> {
    let (recs, stf) = scan_lines(lines_of(source), idle_state(), sp, ep, cp, ip);
    recs + flush(stf, ip)
}

/// Lines joined back into one text, each line newline-terminated: the
/// stored shape of a record's body.
pub open spec fn join_nl(lines: Seq<Seq<char>>) -> Seq<char>
    decreases lines.len(),
{
    if lines.len() == 0 {
        Seq::empty()
    } else {
        lines[0] + seq!['\n'] + join_nl(lines.skip(1))
    }
}

/// A line-level record as a function record of module `m`.
pub open spec fn rec_to_function(r: FuncRec, m: ModuleV) -> FunctionV {
    FunctionV { name: r.name, body: join_nl(r.body_lines), module: m }
}

/// All functions extracted from one module.
pub open spec fn module_functions(
    m: ModuleV,
    sp: Seq<char>,
    ep: Seq<char>,
    cp: Seq<char>,
    ip: Seq<char>,
) -> Seq<FunctionV> {
    module_records(m.source, sp, ep, cp, ip).map_values(|r: FuncRec| rec_to_function(r, m))
}

/// All functions extracted from a sequence of modules, in module order.
pub open spec fn extract_spec(
    mods: Seq<ModuleV>,
    sp: Seq<char>,
    ep: Seq<char>,
    cp: Seq<char>,
    ip: Seq<char>,
) -> Seq<FunctionV>
    decreases mods.len(),
{
    if mods.len() == 0 {
        Seq::empty()
    } else {
        module_functions(mods[0], sp, ep, cp, ip) + extract_spec(mods.skip(1), sp, ep, cp, ip)
    }
}

/// The views of a vector of modules.
pub open spec fn mods_view(ms: Seq<Module>) -> Seq<ModuleV> {
    ms.map_values(|m: Module| m@)
}

/// The views of a vector of function records.
pub open spec fn funcs_view(fs: Seq<Function>) -> Seq<FunctionV> {
    fs.map_values(|f: Function| f@)
}

/// Joining after appending a line appends the line and a newline.
proof fn lemma_join_nl_push(lines: Seq<Seq<char>>, l: Seq<char>)
    ensures
        join_nl(lines.push(l)) == join_nl(lines) + l + seq!['\n'],
    decreases lines.len(),
{
    if lines.len() == 0 {
        assert(lines.push(l)[0] == l);
        assert(lines.push(l).skip(1) =~= Seq::<Seq<char>>::empty());
        assert(join_nl(Seq::<Seq<char>>::empty()) == Seq::<char>::empty());
        assert(join_nl(lines.push(l)) =~= join_nl(lines) + l + seq!['\n']);
    } else {
        assert(lines.push(l)[0] == lines[0]);
        assert(lines.push(l).skip(1) =~= lines.skip(1).push(l));
        lemma_join_nl_push(lines.skip(1), l);
        assert(join_nl(lines.push(l)) =~= join_nl(lines) + l + seq!['\n']);
    }
}

/// Extending a module prefix by one appends that module's functions.
proof fn lemma_extract_spec_snoc(
    mods: Seq<ModuleV>,
    i: int,
    sp: Seq<char>,
    ep: Seq<char>,
    cp: Seq<char>,
    ip: Seq<char>,
)
    requires
        0 <= i < mods.len(),
    ensures
        extract_spec(mods.take(i + 1), sp, ep, cp, ip)
            == extract_spec(mods.take(i), sp, ep, cp, ip)
                + module_functions(mods[i], sp, ep, cp, ip),
    decreases i,
{
    if i == 0 {
        assert(mods.take(0) =~= Seq::<ModuleV>::empty());
        assert(mods.take(1)[0] == mods[0]);
        assert(mods.take(1).skip(1) =~= Seq::<ModuleV>::empty());
        assert(extract_spec(mods.take(1), sp, ep, cp, ip)
            =~= extract_spec(mods.take(0), sp, ep, cp, ip)
                + module_functions(mods[0], sp, ep, cp, ip));
    } else {
        lemma_extract_spec_snoc(mods.skip(1), i - 1, sp, ep, cp, ip);
        assert(mods.take(i + 1)[0] == mods[0]);
        assert(mods.take(i)[0] == mods[0]);
        assert(mods.take(i + 1).skip(1) =~= mods.skip(1).take(i));
        assert(mods.take(i).skip(1) =~= mods.skip(1).take(i - 1));
        assert(mods.skip(1)[i - 1] == mods[i]);
        assert(extract_spec(mods.take(i + 1), sp, ep, cp, ip)
            =~= extract_spec(mods.take(i), sp, ep, cp, ip)
                + module_functions(mods[i], sp, ep, cp, ip));
    }
}

/// Remove the character range `[a, b)` from `s`.
fn remove_range(s: &str, a: usize, b: usize) -> (r: String)
    requires
        a <= b <= s@.len(),
    ensures
        r@ == s@.take(a as int) + s@.skip(b as int),
{
    let n = s.unicode_len();
    let front = s.substring_char(0, a);
    let back = s.substring_char(b, n);
    let mut r = String::new();
    r.append(front);
    r.append(back);
    proof {
        assert(s@.subrange(0, a as int) =~= s@.take(a as int));
        assert(s@.subrange(b as int, n as int) =~= s@.skip(b as int));
        assert(r@ =~= s@.take(a as int) + s@.skip(b as int));
    }
    r
}

fn clean_rec(function_cleanup: &Pattern, cur: String) -> (r: String)
    ensures
        r@ == clean_name(function_cleanup@, cur@),
    decreases cur@.len(),
{
    match function_cleanup.find(cur.as_str()) {
        None => trim(cur.as_str()),
        Some((a, b)) => {
            if a < b {
                let next = remove_range(cur.as_str(), a, b);
                clean_rec(function_cleanup, next)
            } else {
                trim(cur.as_str())
            }
        }
    }
}

/// The bare function identifier derived from a start line: leftmost
/// matches of the cleanup pattern are stripped until none remain (an
/// empty match stops the stripping), and the remainder is trimmed.
pub fn extract_function_name(line: &str, function_cleanup: &Pattern) -> (r: String)
    ensures
        r@ == clean_name(function_cleanup@, line@),
{
    clean_rec(function_cleanup, line.to_owned())
}

/// The index of the first opening parenthesis in `s`, or `s.len()` if
/// there is none.
pub open spec fn first_paren(s: Seq<char>) -> nat
    decreases s.len(),
{
    if s.len() == 0 {
        0
    } else if s[0] == '(' {
        0
    } else {
        1 + first_paren(s.skip(1))
    }
}

proof fn lemma_first_paren_at(s: Seq<char>, p: int)
    requires
        0 <= p <= s.len(),
        forall|j: int| 0 <= j < p ==> s[j] != '(',
        p < s.len() ==> s[p] == '(',
    ensures
        first_paren(s) == p,
    decreases p,
{
    if p > 0 {
        lemma_first_paren_at(s.skip(1), p - 1);
    }
}

/// The trailing run of non-whitespace characters of `s`.
pub open spec fn suffix_token(s: Seq<char>) -> Seq<char>
    decreases s.len(),
{
    if s.len() == 0 || is_space(s.last()) {
        Seq::empty()
    } else {
        suffix_token(s.drop_last()).push(s.last())
    }
}

proof fn lemma_suffix_token_at(s: Seq<char>, b: int)
    requires
        0 <= b <= s.len(),
        forall|j: int| b <= j < s.len() ==> !is_space(s[j]),
        b > 0 ==> is_space(s[b - 1]),
    ensures
        suffix_token(s) == s.skip(b),
    decreases s.len(),
{
    if s.len() == 0 {
        assert(s.skip(0) =~= Seq::<char>::empty());
    } else if b == s.len() {
        assert(is_space(s.last()));
        assert(s.skip(b) =~= Seq::<char>::empty());
    } else {
        assert(!is_space(s.last()));
        lemma_suffix_token_at(s.drop_last(), b);
        assert(s.skip(b) =~= s.drop_last().skip(b).push(s.last()));
    }
}

/// The simpler name policy: the last whitespace-separated token before
/// the first opening parenthesis, or nothing when the line holds no
/// parenthesis or no token stands before it (a malformed declaration).
pub open spec fn before_paren_name(line: Seq<char>) -> Option<Seq<char>> {
    if first_paren(line) >= line.len() {
        None
    } else {
        let tok = suffix_token(trim_end_spec(line.take(first_paren(line) as int)));
        if tok.len() == 0 {
            None
        } else {
            Some(tok)
        }
    }
}

/// Derive a function name as the earlier, pattern-free strategy did:
/// take the text before the line's first opening parenthesis, split it
/// on whitespace, and use the last token. `None` reports a start line
/// from which no identifier can be derived.
pub fn extract_name_before_paren(line: &str) -> (r: Option<String>)
    ensures
        r is Some <==> before_paren_name(line@) is Some,
        r matches Some(t) ==> before_paren_name(line@) == Some(t@),
{
    let cs = chars_of(line);
    let n = cs.len();
    let mut p: usize = 0;
    while p < n && cs[p] != '('
        invariant
            n == cs@.len(),
            p <= n,
            forall|j: int| 0 <= j < p ==> cs@[j] != '(',
        decreases n - p,
    {
        p = p + 1;
    }
    proof {
        lemma_first_paren_at(cs@, p as int);
    }
    if p == n {
        return None;
    }
    let ghost pre = cs@.take(p as int);
    let mut e: usize = p;
    while e > 0 && space_char(cs[e - 1])
        invariant
            e <= p <= n,
            n == cs@.len(),
            forall|j: int| e <= j < p ==> is_space(cs@[j]),
        decreases e,
    {
        e = e - 1;
    }
    proof {
        lemma_trim_end_at(pre, e as int);
        assert(trim_end_spec(pre) =~= cs@.take(e as int));
    }
    let mut b: usize = e;
    while b > 0 && !space_char(cs[b - 1])
        invariant
            b <= e <= n,
            n == cs@.len(),
            forall|j: int| b <= j < e ==> !is_space(cs@[j]),
        decreases b,
    {
        b = b - 1;
    }
    proof {
        lemma_suffix_token_at(cs@.take(e as int), b as int);
        assert(suffix_token(cs@.take(e as int)) =~= cs@.subrange(b as int, e as int));
    }
    if b == e {
        return None;
    }
    let mut tok: Vec<char> = Vec::new();
    let mut i: usize = b;
    while i < e
        invariant
            b <= i <= e <= cs@.len(),
            tok@ == cs@.subrange(b as int, i as int),
        decreases e - i,
    {
        tok.push(cs[i]);
        i = i + 1;
        proof {
            assert(tok@ =~= cs@.subrange(b as int, i as int));
        }
    }
    Some(string_of(&tok))
}

/// Scan every module's lines and return all extracted functions, in
/// module order and, within a module, in order of their end lines.
pub fn extract_functions(
    modules: &Vec<Module>,
    start: &Pattern,
    end: &Pattern,
    function_cleanup: &Pattern,
    ignore_function: &Pattern,
) -> (r: Vec<Function>)
    ensures
        funcs_view(r@) == extract_spec(mods_view(modules@), start@, end@, function_cleanup@,
            ignore_function@),
{
    let ghost sp = start@;
    let ghost ep = end@;
    let ghost cp = function_cleanup@;
    let ghost ip = ignore_function@;
    let ghost mods = mods_view(modules@);
    let mut out: Vec<Function> = Vec::new();
    let mut mi: usize = 0;
    proof {
        assert(mods.take(0) =~= Seq::<ModuleV>::empty());
        assert(funcs_view(out@) =~= extract_spec(mods.take(0), sp, ep, cp, ip));
    }
    while mi < modules.len()
        invariant
            mods == mods_view(modules@),
            mi <= modules@.len(),
            mods.len() == modules@.len(),
            funcs_view(out@) == extract_spec(mods.take(mi as int), sp, ep, cp, ip),
            sp == start@,
            ep == end@,
            cp == function_cleanup@,
            ip == ignore_function@,
        decreases modules@.len() - mi,
    {
        let module = &modules[mi];
        proof {
            assert(mods[mi as int] == module@);
        }
        let lines = split_lines(&module.source);
        let ghost all = views_of(lines@);
        proof {
            assert(all == lines_of(module.source@));
        }
        let mut name = String::new();
        let mut body = String::new();
        let ghost mut bl: Seq<Seq<char>> = Seq::empty();
        let ghost mut emitted: Seq<FuncRec> = Seq::empty();
        let mut li: usize = 0;
        proof {
            let st0 = ScanState { name: name@, body_lines: bl };
            assert(st0 =~= idle_state());
            assert(all.skip(0) =~= all);
            assert(join_nl(bl) =~= body@);
            assert(emitted + scan_lines(all, idle_state(), sp, ep, cp, ip).0
                =~= scan_lines(all, idle_state(), sp, ep, cp, ip).0);
        }
        while li < lines.len()
            invariant
                li <= lines@.len(),
                all == views_of(lines@),
                body@ == join_nl(bl),
                scan_lines(all, idle_state(), sp, ep, cp, ip).0 == emitted + scan_lines(
                    all.skip(li as int),
                    ScanState { name: name@, body_lines: bl },
                    sp,
                    ep,
                    cp,
                    ip,
                ).0,
                scan_lines(all, idle_state(), sp, ep, cp, ip).1 == scan_lines(
                    all.skip(li as int),
                    ScanState { name: name@, body_lines: bl },
                    sp,
                    ep,
                    cp,
                    ip,
                ).1,
                funcs_view(out@) == extract_spec(mods.take(mi as int), sp, ep, cp, ip)
                    + emitted.map_values(|rr: FuncRec| rec_to_function(rr, mods[mi as int])),
                mods == mods_view(modules@),
                mi < mods.len(),
                mods.len() == modules@.len(),
                module@ == mods[mi as int],
                sp == start@,
                ep == end@,
                cp == function_cleanup@,
                ip == ignore_function@,
            decreases lines@.len() - li,
        {
            let line = &lines[li];
            let ghost st = ScanState { name: name@, body_lines: bl };
            proof {
                assert(all.skip(li as int)[0] == line@);
                assert(all.skip(li as int).skip(1) =~= all.skip(li as int + 1));
            }
            if start.is_match(line.as_str()) {
                name = extract_function_name(line.as_str(), function_cleanup);
                body = line.clone();
                body.append("\n");
                proof {
                    bl = seq![line@];
                    reveal_strlit("\n");
                    assert("\n"@ =~= seq!['\n']);
                    assert(join_nl(Seq::<Seq<char>>::empty()) == Seq::<char>::empty());
                    assert(bl.skip(1) =~= Seq::<Seq<char>>::empty());
                    assert(bl[0] == line@);
                    assert(join_nl(bl) == bl[0] + seq!['\n'] + join_nl(bl.skip(1)));
                    assert(body@ =~= join_nl(bl));
                    let step = scan_step(st, line@, sp, ep, cp, ip);
                    assert(step.0 =~= ScanState { name: name@, body_lines: bl });
                    assert(opt_rec(step.1) =~= Seq::<FuncRec>::empty());
                    assert(opt_rec(step.1) + scan_lines(all.skip(li as int + 1), step.0, sp,
                        ep, cp, ip).0 =~= scan_lines(all.skip(li as int + 1), step.0, sp, ep,
                        cp, ip).0);
                }
            } else if !name.as_str().is_empty() {
                body.append(line.as_str());
                body.append("\n");
                proof {
                    lemma_join_nl_push(bl, line@);
                    bl = bl.push(line@);
                    reveal_strlit("\n");
                    assert("\n"@ =~= seq!['\n']);
                    assert(body@ =~= join_nl(bl));
                }
                if end.is_match(line.as_str()) {
                    let ghost st2 = ScanState { name: name@, body_lines: bl };
                    let ghost step = scan_step(st, line@, sp, ep, cp, ip);
                    if !ignore_function.is_match(name.as_str()) {
                        let f = Function {
                            name: name.clone(),
                            body: body.clone(),
                            module: module.duplicate(),
                        };
                        proof {
                            let rec = FuncRec { name: st2.name, body_lines: st2.body_lines };
                            assert(step.1 =~= Some(rec));
                            assert(f@.name == rec_to_function(rec, mods[mi as int]).name);
                            assert(f@.body == body@);
                            assert(rec_to_function(rec, mods[mi as int]).body == join_nl(bl));
                            assert(f@.body == rec_to_function(rec, mods[mi as int]).body);
                            assert(f@.module == rec_to_function(rec, mods[mi as int]).module);
                            assert(f@ =~= rec_to_function(rec, mods[mi as int]));
                            assert(funcs_view(out@.push(f)) =~= funcs_view(out@).push(f@));
                            assert(emitted.push(rec).map_values(
                                |rr: FuncRec| rec_to_function(rr, mods[mi as int]),
                            ) =~= emitted.map_values(
                                |rr: FuncRec| rec_to_function(rr, mods[mi as int]),
                            ).push(rec_to_function(rec, mods[mi as int])));
                            assert(opt_rec(step.1) =~= seq![rec]);
                            emitted = emitted.push(rec);
                        }
                        out.push(f);
                    } else {
                        proof {
                            assert(step.1 is None);
                        }
                    }
                    name = String::new();
                    body = String::new();
                    proof {
                        bl = Seq::empty();
                        assert(join_nl(bl) =~= body@);
                        let stn = ScanState { name: name@, body_lines: bl };
                        assert(stn =~= idle_state());
                        assert(step.0 =~= idle_state());
                        assert(emitted + (opt_rec(step.1) + scan_lines(all.skip(li as int + 1),
                            step.0, sp, ep, cp, ip).0) =~= (emitted + opt_rec(step.1))
                            + scan_lines(all.skip(li as int + 1), step.0, sp, ep, cp, ip).0);
                    }
                } else {
                    proof {
                        let step = scan_step(st, line@, sp, ep, cp, ip);
                        assert(step.0 =~= ScanState { name: name@, body_lines: bl });
                        assert(opt_rec(step.1) + scan_lines(all.skip(li as int + 1), step.0,
                            sp, ep, cp, ip).0 =~= scan_lines(all.skip(li as int + 1), step.0,
                            sp, ep, cp, ip).0);
                    }
                }
            } else {
                proof {
                    let step = scan_step(st, line@, sp, ep, cp, ip);
                    assert(step.0 =~= st);
                    assert(opt_rec(step.1) + scan_lines(all.skip(li as int + 1), step.0, sp,
                        ep, cp, ip).0 =~= scan_lines(all.skip(li as int + 1), step.0, sp, ep,
                        cp, ip).0);
                }
            }
            li = li + 1;
        }
        proof {
            assert(all.skip(lines@.len() as int) =~= Seq::<Seq<char>>::empty());
        }
        let ghost stf = ScanState { name: name@, body_lines: bl };
        if !name.as_str().is_empty() {
            if !ignore_function.is_match(name.as_str()) {
                let f = Function {
                    name: name.clone(),
                    body: body.clone(),
                    module: module.duplicate(),
                };
                proof {
                    let rec = FuncRec { name: stf.name, body_lines: stf.body_lines };
                    assert(flush(stf, ip) =~= seq![rec]);
                    assert(f@ =~= rec_to_function(rec, mods[mi as int]));
                    assert(funcs_view(out@.push(f)) =~= funcs_view(out@).push(f@));
                    assert(emitted.push(rec).map_values(
                        |rr: FuncRec| rec_to_function(rr, mods[mi as int]),
                    ) =~= emitted.map_values(
                        |rr: FuncRec| rec_to_function(rr, mods[mi as int]),
                    ).push(rec_to_function(rec, mods[mi as int])));
                    emitted = emitted.push(rec);
                }
                out.push(f);
            } else {
                proof {
                    assert(flush(stf, ip) =~= Seq::<FuncRec>::empty());
                }
            }
        } else {
            proof {
                assert(flush(stf, ip) =~= Seq::<FuncRec>::empty());
            }
        }
        proof {
            assert(emitted =~= module_records(module.source@, sp, ep, cp, ip));
            assert(emitted.map_values(|rr: FuncRec| rec_to_function(rr, mods[mi as int]))
                =~= module_functions(mods[mi as int], sp, ep, cp, ip));
            lemma_extract_spec_snoc(mods, mi as int, sp, ep, cp, ip);
            assert(funcs_view(out@) =~= extract_spec(mods.take(mi as int + 1), sp, ep, cp, ip));
        }
        mi = mi + 1;
    }
    proof {
        assert(mods.take(mods.len() as int) =~= mods);
    }
    out
}

} // verus!
