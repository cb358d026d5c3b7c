//! Character and line utilities: classifying characters, splitting text
//! into lines the way `str::lines` does, trimming, and rendering counts
//! as decimal strings.

use vstd::prelude::*;

verus! {

/// ASCII whitespace, the set this library trims around extracted names.
pub open spec fn is_space(c: char) -> bool {
    c == ' ' || c == '\t' || c == '\r' || c == '\n'
}

/// A word character for whole-word matching: ASCII alphanumeric or `_`.
pub open spec fn is_word_char(c: char) -> bool {
    is_alnum(c) || c == '_'
}

/// ASCII alphanumeric, the safe set kept verbatim in cluster identifiers.
pub open spec fn is_alnum(c: char) -> bool {
    ('a' <= c && c <= 'z') || ('A' <= c && c <= 'Z') || ('0' <= c && c <= '9')
}

/// Runtime test for [`is_space`].
pub fn space_char(c: char) -> (r: bool)
    ensures
        r == is_space(c),
{
    c == ' ' || c == '\t' || c == '\r' || c == '\n'
}

/// Runtime test for [`is_alnum`].
pub fn alnum_char(c: char) -> (r: bool)
    ensures
        r == is_alnum(c),
{
    ('a' <= c && c <= 'z') || ('A' <= c && c <= 'Z') || ('0' <= c && c <= '9')
}

/// Runtime test for [`is_word_char`].
pub fn word_char(c: char) -> (r: bool)
    ensures
        r == is_word_char(c),
{
    alnum_char(c) || c == '_'
}

/// Relies on `String::push`: appends the given character to the end of
/// the string.
pub assume_specification[ String::push ](s: &mut String, c: char)
    ensures
        final(s)@ == old(s)@.push(c),
;

/// The characters of a string, as a vector.
pub fn chars_of(s: &str) -> (r: Vec<char>)
    ensures
        r@ == s@,
{
    let n = s.unicode_len();
    let mut r: Vec<char> = Vec::new();
    let mut i: usize = 0;
    while i < n
        invariant
            n == s@.len(),
            i <= n,
            r@ == s@.take(i as int),
        decreases n - i,
    {
        r.push(s.get_char(i));
        i = i + 1;
        proof {
            assert(r@ =~= s@.take(i as int));
        }
    }
    proof {
        assert(r@ =~= s@);
    }
    r
}

/// A string holding the given characters.
pub fn string_of(cs: &Vec<char>) -> (r: String)
    ensures
        r@ == cs@,
{
    let mut r = String::new();
    let mut i: usize = 0;
    while i < cs.len()
        invariant
            i <= cs@.len(),
            r@ == cs@.take(i as int),
        decreases cs@.len() - i,
    {
        r.push(cs[i]);
        i = i + 1;
        proof {
            assert(r@ =~= cs@.take(i as int));
        }
    }
    proof {
        assert(r@ =~= cs@);
    }
    r
}

/// The index of the first newline in `s`, or `s.len()` if there is none.
pub open spec fn first_nl(s: Seq<char>) -> nat
    decreases s.len(),
{
    if s.len() == 0 {
        0
    } else if s[0] == '\n' {
        0
    } else {
        1 + first_nl(s.skip(1))
    }
}

pub proof fn lemma_first_nl(s: Seq<char>)
    ensures
        0 <= first_nl(s) <= s.len(),
        first_nl(s) < s.len() ==> s[first_nl(s) as int] == '\n',
        forall|j: int| 0 <= j < first_nl(s) ==> s[j] != '\n',
    decreases s.len(),
{
    if s.len() > 0 && s[0] != '\n' {
        lemma_first_nl(s.skip(1));
        assert forall|j: int| 0 <= j < first_nl(s) implies s[j] != '\n' by {
            if j >= 1 {
                assert(s.skip(1)[j - 1] != '\n');
            }
        }
    }
}

/// A scan that stopped at the first newline (or the end) found it at the
/// index [`first_nl`] names.
pub proof fn lemma_first_nl_at(s: Seq<char>, p: int)
    requires
        0 <= p <= s.len(),
        forall|j: int| 0 <= j < p ==> s[j] != '\n',
        p < s.len() ==> s[p] == '\n',
    ensures
        first_nl(s) == p,
    decreases p,
{
    if p == 0 {
    } else {
        lemma_first_nl_at(s.skip(1), p - 1);
    }
}

/// A line with one trailing carriage return removed, as `str::lines`
/// removes it before a newline.
pub open spec fn strip_cr(s: Seq<char>) -> Seq<char> {
    if s.len() > 0 && s[s.len() - 1] == '\r' {
        s.take(s.len() - 1)
    } else {
        s
    }
}

/// The lines of `s`, split as `str::lines` splits them: terminated by
/// `\n` or `\r\n`, with the final line ending optional and an empty
/// final segment dropped.
pub open spec fn lines_of(s: Seq<char>) -> Seq<Seq<char>>
    decreases s.len(),
{
    if s.len() == 0 {
        Seq::empty()
    } else if first_nl(s) >= s.len() {
        seq![s]
    } else {
        seq![strip_cr(s.take(first_nl(s) as int))] + lines_of(s.skip(first_nl(s) as int + 1))
    }
}

/// Splitting a head line off a text: if `t` holds no newline, the lines of
/// `t + '\n' + r` are `strip_cr(t)` followed by the lines of `r`.
pub proof fn lemma_lines_of_head(t: Seq<char>, r: Seq<char>)
    requires
        forall|j: int| 0 <= j < t.len() ==> t[j] != '\n',
    ensures
        lines_of(t + seq!['\n'] + r) == seq![strip_cr(t)] + lines_of(r),
{
    let s = t + seq!['\n'] + r;
    lemma_first_nl(s);
    assert(s[t.len() as int] == '\n');
    assert(forall|j: int| 0 <= j < t.len() ==> s[j] == t[j] && s[j] != '\n');
    if first_nl(s) < t.len() {
        assert(s[first_nl(s) as int] == '\n');
        assert(false);
    }
    if first_nl(s) > t.len() {
        assert(false);
    }
    assert(first_nl(s) == t.len());
    assert(s.len() == t.len() + 1 + r.len());
    assert(first_nl(s) < s.len());
    assert(s.take(t.len() as int) =~= t);
    assert(s.skip(t.len() as int + 1) =~= r);
}

/// The lines of a newline-free text: itself, or nothing if empty.
pub proof fn lemma_lines_of_flat(t: Seq<char>)
    requires
        forall|j: int| 0 <= j < t.len() ==> t[j] != '\n',
    ensures
        lines_of(t) == if t.len() == 0 { Seq::<Seq<char>>::empty() } else { seq![t] },
{
    lemma_first_nl(t);
    if t.len() > 0 && first_nl(t) < t.len() {
        assert(t[first_nl(t) as int] == '\n');
        assert(false);
    }
}

/// No line produced by [`lines_of`] holds a newline.
pub proof fn lemma_lines_of_no_nl(s: Seq<char>)
    ensures
        forall|k: int, j: int|
            0 <= k < lines_of(s).len() && 0 <= j < lines_of(s)[k].len()
                ==> #[trigger] lines_of(s)[k][j] != '\n',
    decreases s.len(),
{
    lemma_first_nl(s);
    if s.len() == 0 {
    } else if first_nl(s) == s.len() {
        assert(lines_of(s)[0] == s);
    } else {
        lemma_lines_of_no_nl(s.skip(first_nl(s) as int + 1));
        let head = strip_cr(s.take(first_nl(s) as int));
        assert(forall|j: int| 0 <= j < head.len() ==> head[j] == s[j]);
        assert(lines_of(s)[0] == head);
        assert(forall|k: int|
            1 <= k < lines_of(s).len()
                ==> lines_of(s)[k] == lines_of(s.skip(first_nl(s) as int + 1))[k - 1]);
    }
}

/// Split a string into its lines.
pub fn split_lines(s: &str) -> (r: Vec<String>)
    ensures
        views_of(r@) == lines_of(s@),
{
    let cs = chars_of(s);
    let n = cs.len();
    let mut out: Vec<String> = Vec::new();
    let mut buf: Vec<char> = Vec::new();
    let mut i: usize = 0;
    proof {
        assert(views_of(out@) =~= Seq::<Seq<char>>::empty());
        assert(buf@ + cs@.skip(0) =~= cs@);
        assert(views_of(out@) + lines_of(cs@) =~= lines_of(cs@));
    }
    while i < n
        invariant
            n == cs@.len(),
            cs@ == s@,
            i <= n,
            forall|j: int| 0 <= j < buf@.len() ==> buf@[j] != '\n',
            views_of(out@) + lines_of(buf@ + cs@.skip(i as int)) == lines_of(s@),
        decreases n - i,
    {
        let c = cs[i];
        proof {
            assert(buf@ + cs@.skip(i as int) =~= (buf@.push(c)) + cs@.skip(i + 1));
        }
        if c == '\n' {
            proof {
                assert(buf@ + cs@.skip(i as int) =~= buf@ + seq!['\n'] + cs@.skip(i + 1));
                lemma_lines_of_head(buf@, cs@.skip(i + 1));
            }
            let line = finish_line(&buf);
            proof {
                let prev = out@;
                assert(views_of(prev.push(line)) =~= views_of(prev).push(line@));
                assert(views_of(prev).push(strip_cr(buf@))
                    =~= views_of(prev) + seq![strip_cr(buf@)]);
            }
            out.push(line);
            buf = Vec::new();
            proof {
                assert(buf@ + cs@.skip(i + 1) =~= cs@.skip(i + 1));
            }
        } else {
            buf.push(c);
        }
        i = i + 1;
    }
    proof {
        assert(buf@ + cs@.skip(n as int) =~= buf@);
        lemma_lines_of_flat(buf@);
    }
    if buf.len() > 0 {
        let line = string_of(&buf);
        proof {
            let prev = out@;
            assert(views_of(prev.push(line)) =~= views_of(prev).push(line@));
            assert(views_of(prev).push(buf@) =~= views_of(prev) + seq![buf@]);
        }
        out.push(line);
    }
    out
}

/// The views of a vector of strings.
pub open spec fn views_of(v: Seq<String>) -> Seq<Seq<char>> {
    v.map_values(|t: String| t@)
}

/// A line with one trailing carriage return removed, as a string.
fn finish_line(buf: &Vec<char>) -> (r: String)
    ensures
        r@ == strip_cr(buf@),
{
    let n = buf.len();
    let mut end = n;
    if n > 0 && buf[n - 1] == '\r' {
        end = n - 1;
    }
    let mut r = String::new();
    let mut i: usize = 0;
    while i < end
        invariant
            end <= buf@.len(),
            i <= end,
            r@ == buf@.take(end as int).take(i as int),
        decreases end - i,
    {
        r.push(buf[i]);
        i = i + 1;
        proof {
            assert(r@ =~= buf@.take(end as int).take(i as int));
        }
    }
    proof {
        assert(r@ =~= buf@.take(end as int));
        if !(buf@.len() > 0 && buf@[buf@.len() - 1] == '\r') {
            assert(buf@.take(end as int) =~= buf@);
        }
    }
    r
}

/// The number of lines in `s`.
pub fn count_lines(s: &str) -> (r: usize)
    ensures
        r == lines_of(s@).len(),
{
    split_lines(s).len()
}

/// `s` without leading whitespace.
pub open spec fn trim_start_spec(s: Seq<char>) -> Seq<char>
    decreases s.len(),
{
    if s.len() > 0 && is_space(s[0]) {
        trim_start_spec(s.skip(1))
    } else {
        s
    }
}

/// `s` without trailing whitespace.
pub open spec fn trim_end_spec(s: Seq<char>) -> Seq<char>
    decreases s.len(),
{
    if s.len() > 0 && is_space(s[s.len() - 1]) {
        trim_end_spec(s.take(s.len() - 1))
    } else {
        s
    }
}

/// `s` without surrounding whitespace.
pub open spec fn trim_spec(s: Seq<char>) -> Seq<char> {
    trim_end_spec(trim_start_spec(s))
}

proof fn lemma_trim_start_at(s: Seq<char>, k: int)
    requires
        0 <= k <= s.len(),
        forall|j: int| 0 <= j < k ==> is_space(s[j]),
        k < s.len() ==> !is_space(s[k]),
    ensures
        trim_start_spec(s) == s.skip(k),
    decreases k,
{
    if k == 0 {
        assert(s.skip(0) =~= s);
    } else {
        assert(is_space(s[0]));
        lemma_trim_start_at(s.skip(1), k - 1);
        assert(s.skip(1).skip(k - 1) =~= s.skip(k));
    }
}

pub proof fn lemma_trim_end_at(s: Seq<char>, k: int)
    requires
        0 <= k <= s.len(),
        forall|j: int| k <= j < s.len() ==> is_space(s[j]),
        k > 0 ==> !is_space(s[k - 1]),
    ensures
        trim_end_spec(s) == s.take(k),
    decreases s.len() - k,
{
    if k == s.len() {
        assert(s.take(k) =~= s);
    } else {
        assert(is_space(s[s.len() - 1]));
        lemma_trim_end_at(s.take(s.len() - 1), k);
        assert(s.take(s.len() - 1).take(k) =~= s.take(k));
    }
}

/// `s` with surrounding whitespace removed.
pub fn trim(s: &str) -> (r: String)
    ensures
        r@ == trim_spec(s@),
{
    let cs = chars_of(s);
    let n = cs.len();
    let mut a: usize = 0;
    while a < n && space_char(cs[a])
        invariant
            n == cs@.len(),
            a <= n,
            forall|j: int| 0 <= j < a ==> is_space(cs@[j]),
        decreases n - a,
    {
        a = a + 1;
    }
    let mut b: usize = n;
    while b > a && space_char(cs[b - 1])
        invariant
            n == cs@.len(),
            a <= b <= n,
            forall|j: int| b <= j < n ==> is_space(cs@[j]),
        decreases b,
    {
        b = b - 1;
    }
    proof {
        lemma_trim_start_at(cs@, a as int);
        let t = cs@.skip(a as int);
        lemma_trim_end_at(t, b - a);
        assert(t.take(b - a) =~= cs@.subrange(a as int, b as int));
    }
    let mut mid: Vec<char> = Vec::new();
    let mut i: usize = a;
    while i < b
        invariant
            a <= i <= b <= cs@.len(),
            mid@ == cs@.subrange(a as int, i as int),
        decreases b - i,
    {
        mid.push(cs[i]);
        i = i + 1;
        proof {
            assert(mid@ =~= cs@.subrange(a as int, i as int));
        }
    }
    string_of(&mid)
}

/// The decimal digit character for `d`.
pub open spec fn digit_char(d: nat) -> char {
    if d == 0 { '0' }
    else if d == 1 { '1' }
    else if d == 2 { '2' }
    else if d == 3 { '3' }
    else if d == 4 { '4' }
    else if d == 5 { '5' }
    else if d == 6 { '6' }
    else if d == 7 { '7' }
    else if d == 8 { '8' }
    else { '9' }
}

/// The decimal rendering of `n`, most significant digit first.
pub open spec fn decimal_of(n: nat) -> Seq<char>
    decreases n,
{
    if n < 10 {
        seq![digit_char(n)]
    } else {
        decimal_of(n / 10).push(digit_char(n % 10))
    }
}

/// A decimal digit character.
pub open spec fn is_digit(c: char) -> bool {
    '0' <= c && c <= '9'
}

/// Decimal renderings hold digit characters only.
pub proof fn lemma_decimal_of_digits(n: nat)
    ensures
        forall|i: int| 0 <= i < decimal_of(n).len() ==> is_digit(#[trigger] decimal_of(n)[i]),
    decreases n,
{
    if n < 10 {
        assert(decimal_of(n)[0] == digit_char(n));
    } else {
        lemma_decimal_of_digits(n / 10);
        assert forall|i: int| 0 <= i < decimal_of(n).len() implies is_digit(
            #[trigger] decimal_of(n)[i],
        ) by {
            if i < decimal_of(n / 10).len() {
                assert(decimal_of(n)[i] == decimal_of(n / 10)[i]);
            } else {
                assert(decimal_of(n)[i] == digit_char(n % 10));
            }
        }
    }
}

/// Two distinct counts render as distinct decimal strings.
pub proof fn lemma_decimal_of_injective(a: nat, b: nat)
    requires
        decimal_of(a) == decimal_of(b),
    ensures
        a == b,
    decreases a,
{
    lemma_decimal_of_len(a);
    lemma_decimal_of_len(b);
    if a < 10 && b < 10 {
        assert(decimal_of(a)[0] == digit_char(a));
        assert(decimal_of(b)[0] == digit_char(b));
    } else if a >= 10 && b >= 10 {
        let pa = decimal_of(a / 10);
        let pb = decimal_of(b / 10);
        assert(pa.push(digit_char(a % 10)).drop_last() =~= pa);
        assert(pb.push(digit_char(b % 10)).drop_last() =~= pb);
        assert(pa == pb);
        assert(pa.push(digit_char(a % 10)).last() == digit_char(a % 10));
        assert(pb.push(digit_char(b % 10)).last() == digit_char(b % 10));
        lemma_decimal_of_injective(a / 10, b / 10);
        assert(a % 10 == b % 10);
        assert(a == 10 * (a / 10) + a % 10);
        assert(b == 10 * (b / 10) + b % 10);
    } else {
        assert(false);
    }
}

proof fn lemma_decimal_of_len(n: nat)
    ensures
        decimal_of(n).len() >= 1,
        n >= 10 ==> decimal_of(n).len() >= 2,
    decreases n,
{
    if n >= 10 {
        lemma_decimal_of_len(n / 10);
    }
}

fn digit(d: usize) -> (c: char)
    requires
        d < 10,
    ensures
        c == digit_char(d as nat),
{
    if d == 0 { '0' }
    else if d == 1 { '1' }
    else if d == 2 { '2' }
    else if d == 3 { '3' }
    else if d == 4 { '4' }
    else if d == 5 { '5' }
    else if d == 6 { '6' }
    else if d == 7 { '7' }
    else if d == 8 { '8' }
    else { '9' }
}

/// Append the decimal rendering of `n` to `out`.
pub fn push_decimal(out: &mut String, n: usize)
    ensures
        final(out)@ == old(out)@ + decimal_of(n as nat),
    decreases n,
{
    if n < 10 {
        out.push(digit(n));
        proof {
            assert(out@ =~= old(out)@ + decimal_of(n as nat));
        }
    } else {
        push_decimal(out, n / 10);
        out.push(digit(n % 10));
        proof {
            assert(out@ =~= old(out)@ + decimal_of(n as nat));
        }
    }
}

/// The decimal rendering of `n`, as a string.
pub fn decimal_string(n: usize) -> (r: String)
    ensures
        r@ == decimal_of(n as nat),
{
    let mut r = String::new();
    push_decimal(&mut r, n);
    proof {
        assert(Seq::<char>::empty() + decimal_of(n as nat) =~= decimal_of(n as nat));
    }
    r
}

} // verus!
