//! The data model: modules (one per input file) and extracted function
//! records, with their labels, identifiers and the call-detection
//! predicate.

use vstd::prelude::*;
use crate::text::{
    chars_of, count_lines, decimal_of, first_nl, is_alnum, is_word_char, alnum_char,
    lines_of, push_decimal, string_of, word_char,
};

verus! {

/// One input file: its name and its full text. The filename is the
/// module's identity and is assumed unique per run.
pub struct Module {
    pub filename: String,
    pub source: String,
}

/// The mathematical view of a module.
#[verifier::ext_equal]
pub ghost struct ModuleV {
    pub filename: Seq<char>,
    pub source: Seq<char>,
}

impl View for Module {
    type V = ModuleV;

    open spec fn view(&self) -> ModuleV {
        ModuleV { filename: self.filename@, source: self.source@ }
    }
}

/// One extracted function record: its cleaned name, its verbatim body
/// (start line through end line, each line newline-terminated), and the
/// module it was found in.
pub struct Function {
    pub name: String,
    pub body: String,
    pub module: Module,
}

/// The mathematical view of a function record.
#[verifier::ext_equal]
pub ghost struct FunctionV {
    pub name: Seq<char>,
    pub body: Seq<char>,
    pub module: ModuleV,
}

impl View for Function {
    type V = FunctionV;

    open spec fn view(&self) -> FunctionV {
        FunctionV { name: self.name@, body: self.body@, module: self.module@ }
    }
}

/// The `name:lineCount` label scheme shared by modules and functions.
pub open spec fn label_of(name: Seq<char>, n_lines: nat) -> Seq<char> {
    name + seq![':'] + decimal_of(n_lines)
}

/// A module's display label: `filename:lineCount`.
pub open spec fn module_label(m: ModuleV) -> Seq<char> {
    label_of(m.filename, lines_of(m.source).len())
}

/// A module's cluster identifier: the filename with every character
/// outside the safe set (ASCII alphanumeric) replaced by `_`.
pub open spec fn module_id(m: ModuleV) -> Seq<char> {
    m.filename.map_values(|c: char| if is_alnum(c) { c } else { '_' })
}

/// A function's node label: `name:bodyLineCount`. This is the node's
/// identity in the rendered graph: two functions of one name collide
/// only when their body line counts are also equal.
pub open spec fn function_label(f: FunctionV) -> Seq<char> {
    label_of(f.name, lines_of(f.body).len())
}

/// A function's body without its first line (its signature line): the
/// text after the first newline.
pub open spec fn body_tail(body: Seq<char>) -> Seq<char> {
    if first_nl(body) < body.len() {
        body.skip(first_nl(body) as int + 1)
    } else {
        Seq::empty()
    }
}

/// A whole-word occurrence of `name` at position `i` of `body`,
/// immediately followed by an opening parenthesis.
pub open spec fn call_at(body: Seq<char>, name: Seq<char>, i: int) -> bool {
    &&& 0 <= i
    &&& i + name.len() < body.len()
    &&& body.subrange(i, i + name.len()) == name
    &&& i == 0 || !is_word_char(body[i - 1])
    &&& body[i + name.len()] == '('
}

/// The call-detection predicate: some whole-word occurrence of `name`
/// followed by `(` exists in `body`.
pub open spec fn has_call(body: Seq<char>, name: Seq<char>) -> bool {
    name.len() > 0 && exists|i: int| call_at(body, name, i)
}

/// A label as it stands between quotes in the output: every literal
/// quote character preceded by a backslash.
pub open spec fn escape_quotes(s: Seq<char>) -> Seq<char>
    decreases s.len(),
{
    if s.len() == 0 {
        Seq::empty()
    } else {
        (if s[0] == '"' {
            seq!['\\', '"']
        } else {
            seq![s[0]]
        }) + escape_quotes(s.skip(1))
    }
}

/// The rendered edge statement `"callerLabel"->"calleeLabel";`.
pub open spec fn edge_text(caller: FunctionV, callee: FunctionV) -> Seq<char> {
    seq!['"'] + escape_quotes(function_label(caller)) + seq!['"', '-', '>', '"']
        + escape_quotes(function_label(callee)) + seq!['"', ';']
}

impl Module {
    /// The module's display label, `filename:lineCount`.
    pub fn label(&self) -> (r: String)
        ensures
            r@ == module_label(self@),
    {
        let mut r = String::new();
        r.append(self.filename.as_str());
        r.append(":");
        let n = count_lines(&self.source);
        push_decimal(&mut r, n);
        proof {
            reveal_strlit(":");
            assert(":"@ =~= seq![':']);
            assert(r@ =~= module_label(self@));
        }
        r
    }

    /// The module's cluster identifier: the filename, every character
    /// outside the safe set replaced by `_`.
    pub fn id(&self) -> (r: String)
        ensures
            r@ == module_id(self@),
    {
        let cs = chars_of(&self.filename);
        let mut out: Vec<char> = Vec::new();
        let mut i: usize = 0;
        while i < cs.len()
            invariant
                cs@ == self.filename@,
                i <= cs@.len(),
                out@ == cs@.take(i as int).map_values(
                    |c: char| if is_alnum(c) { c } else { '_' },
                ),
            decreases cs@.len() - i,
        {
            if alnum_char(cs[i]) {
                out.push(cs[i]);
            } else {
                out.push('_');
            }
            i = i + 1;
            proof {
                assert(out@ =~= cs@.take(i as int).map_values(
                    |c: char| if is_alnum(c) { c } else { '_' },
                ));
            }
        }
        proof {
            assert(cs@.take(cs@.len() as int) =~= cs@);
        }
        string_of(&out)
    }

    /// A copy of the module.
    pub fn duplicate(&self) -> (r: Module)
        ensures
            r@ == self@,
    {
        Module { filename: self.filename.clone(), source: self.source.clone() }
    }
}

impl Function {
    /// The function's node label, `name:bodyLineCount`.
    pub fn label(&self) -> (r: String)
        ensures
            r@ == function_label(self@),
    {
        let mut r = String::new();
        r.append(self.name.as_str());
        r.append(":");
        let n = count_lines(&self.body);
        push_decimal(&mut r, n);
        proof {
            reveal_strlit(":");
            assert(":"@ =~= seq![':']);
            assert(r@ =~= function_label(self@));
        }
        r
    }

    /// Whether this function's body, its signature line excluded, holds
    /// a whole-word occurrence of `f`'s name followed by `(`.
    pub fn check_for_function_in_body(&self, f: &Function) -> (r: bool)
        ensures
            r == has_call(body_tail(self.body@), f.name@),
    {
        let body = chars_of(&self.body);
        let n = body.len();
        let mut p: usize = 0;
        while p < n && body[p] != '\n'
            invariant
                n == body@.len(),
                p <= n,
                forall|j: int| 0 <= j < p ==> body@[j] != '\n',
            decreases n - p,
        {
            p = p + 1;
        }
        proof {
            crate::text::lemma_first_nl_at(body@, p as int);
        }
        let mut tail: Vec<char> = Vec::new();
        if p < n {
            let mut i: usize = p + 1;
            while i < n
                invariant
                    p + 1 <= i <= n,
                    n == body@.len(),
                    tail@ == body@.subrange(p + 1, i as int),
                decreases n - i,
            {
                tail.push(body[i]);
                i = i + 1;
                proof {
                    assert(tail@ =~= body@.subrange(p + 1, i as int));
                }
            }
            proof {
                assert(tail@ =~= body_tail(self.body@));
            }
        } else {
            proof {
                assert(tail@ =~= body_tail(self.body@));
            }
        }
        let name = chars_of(&f.name);
        has_call_exec(&tail, &name)
    }

    /// The rendered edge statement from this function to `f`.
    pub fn link(&self, f: &Function) -> (r: String)
        ensures
            r@ == edge_text(self@, f@),
    {
        let mut r = String::new();
        r.append("\"");
        let l1 = self.label();
        let e1 = escape_label(l1.as_str());
        r.append(e1.as_str());
        r.append("\"->\"");
        let l2 = f.label();
        let e2 = escape_label(l2.as_str());
        r.append(e2.as_str());
        r.append("\";");
        proof {
            reveal_strlit("\"");
            reveal_strlit("\"->\"");
            reveal_strlit("\";");
            assert("\""@ =~= seq!['"']);
            assert("\"->\""@ =~= seq!['"', '-', '>', '"']);
            assert("\";"@ =~= seq!['"', ';']);
            assert(r@ =~= edge_text(self@, f@));
        }
        r
    }

}

/// A string with its literal quote characters escaped, for use between
/// quotes in the output.
pub fn escape_label(s: &str) -> (r: String)
    ensures
        r@ == escape_quotes(s@),
{
    let cs = chars_of(s);
    let mut out: Vec<char> = Vec::new();
    let mut i: usize = 0;
    proof {
        assert(cs@.skip(0) =~= cs@);
        assert(out@ + escape_quotes(cs@) =~= escape_quotes(cs@));
    }
    while i < cs.len()
        invariant
            cs@ == s@,
            i <= cs@.len(),
            escape_quotes(s@) == out@ + escape_quotes(cs@.skip(i as int)),
        decreases cs@.len() - i,
    {
        let c = cs[i];
        proof {
            assert(cs@.skip(i as int)[0] == c);
            assert(cs@.skip(i as int).skip(1) =~= cs@.skip(i as int + 1));
        }
        if c == '"' {
            out.push('\\');
            out.push('"');
            proof {
                assert(escape_quotes(s@) =~= out@ + escape_quotes(cs@.skip(i as int + 1)));
            }
        } else {
            out.push(c);
            proof {
                assert(escape_quotes(s@) =~= out@ + escape_quotes(cs@.skip(i as int + 1)));
            }
        }
        i = i + 1;
    }
    proof {
        assert(cs@.skip(cs@.len() as int) =~= Seq::<char>::empty());
        assert(out@ =~= escape_quotes(s@));
    }
    string_of(&out)
}

/// Search `body` for a whole-word occurrence of `name` followed by `(`.
fn has_call_exec(body: &Vec<char>, name: &Vec<char>) -> (r: bool)
    ensures
        r == has_call(body@, name@),
{
    let m = name.len();
    let t = body.len();
    if m == 0 {
        return false;
    }
    let mut i: usize = 0;
    while i < t
        invariant
            m == name@.len(),
            t == body@.len(),
            m > 0,
            i <= t,
            forall|ii: int| 0 <= ii < i ==> !call_at(body@, name@, ii),
        decreases t - i,
    {
        if t - i > m && (i == 0 || !word_char(body[i - 1])) && body[i + m] == '(' {
            let mut j: usize = 0;
            let mut same = true;
            while j < m
                invariant
                    m == name@.len(),
                    t == body@.len(),
                    i + m < t,
                    j <= m,
                    same == (body@.subrange(i as int, i + j) =~= name@.take(j as int)),
                decreases m - j,
            {
                let eq = body[i + j] == name[j];
                proof {
                    if same && eq {
                        assert(body@.subrange(i as int, i + j + 1)
                            =~= body@.subrange(i as int, i + j).push(body@[i + j]));
                        assert(name@.take(j as int + 1)
                            =~= name@.take(j as int).push(name@[j as int]));
                    } else {
                        if body@.subrange(i as int, i + j + 1) =~= name@.take(j as int + 1) {
                            assert(body@.subrange(i as int, i + j + 1)[j as int] == body@[i + j]);
                            assert(name@.take(j as int + 1)[j as int] == name@[j as int]);
                            assert(body@.subrange(i as int, i + j)
                                =~= body@.subrange(i as int, i + j + 1).take(j as int));
                            assert(name@.take(j as int)
                                =~= name@.take(j as int + 1).take(j as int));
                        }
                    }
                }
                same = same && eq;
                j = j + 1;
            }
            proof {
                assert(name@.take(m as int) =~= name@);
            }
            if same {
                proof {
                    assert(call_at(body@, name@, i as int));
                }
                return true;
            }
            proof {
                assert(!call_at(body@, name@, i as int));
            }
        } else {
            proof {
                if call_at(body@, name@, i as int) {
                    assert(i + m < t);
                    assert(body@[i + m as int] == '(');
                    assert(false);
                }
            }
        }
        i = i + 1;
    }
    proof {
        if has_call(body@, name@) {
            let ii = choose|ii: int| call_at(body@, name@, ii);
            assert(ii < t);
            assert(false);
        }
    }
    false
}

} // verus!
