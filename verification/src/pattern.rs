//! Compiled user-supplied text patterns.
//!
//! The four configuration patterns (function start, function end, name
//! cleanup, ignore filter) are arbitrary regular expressions. Their
//! compilation and matching is done by the `regex` crate behind the
//! trusted items below; everything built on top of them is verified
//! against the named results `regex_matches` and `regex_find`.

use vstd::prelude::*;

verus! {

#[verifier::external_type_specification]
#[verifier::external_body]
pub struct ExRegex(regex::Regex);

/// Whether `pattern` is a valid regular expression, as `regex::Regex::new`
/// decides it.
pub uninterp spec fn regex_valid(pattern: Seq<char>) -> bool;

/// Whether `pattern` matches anywhere in `text`, as `regex::Regex::is_match`
/// decides it.
pub uninterp spec fn regex_matches(pattern: Seq<char>, text: Seq<char>) -> bool;

/// The leftmost match of `pattern` in `text` as a half-open character
/// range, as `regex::Regex::find` reports it (meaningful only when the
/// pattern matches).
pub uninterp spec fn regex_find(pattern: Seq<char>, text: Seq<char>) -> (int, int);

/// A compiled pattern, paired with its source text. The fields are
/// private and [`Pattern::compile`] is the only constructor, so `re` is
/// always the compilation of `text` and the contracts of [`Pattern::is_match`]
/// and [`Pattern::find`] may speak of the pattern text alone.
pub struct Pattern {
    re: regex::Regex,
    text: String,
}

impl View for Pattern {
    type V = Seq<char>;

    /// A pattern is identified by its source text.
    closed spec fn view(&self) -> Seq<char> {
        self.text@
    }
}

impl Pattern {
    /// Relies on `regex::Regex::new`: it returns `Ok` exactly on valid
    /// patterns, and its error renders as a human-readable message.
    #[verifier::external_body]
    pub fn compile(pattern: &str) -> (r: Result<Pattern, String>)
        ensures
            r is Ok <==> regex_valid(pattern@),
            r matches Ok(p) ==> p@ == pattern@,
    {
        match regex::Regex::new(pattern) {
            Ok(re) => Ok(Pattern { re, text: pattern.to_string() }),
            Err(e) => Err(e.to_string()),
        }
    }

    /// Relies on `regex::Regex::is_match`: true if and only if the
    /// pattern matches anywhere in `text`.
    #[verifier::external_body]
    pub fn is_match(&self, text: &str) -> (r: bool)
        ensures
            r == regex_matches(self@, text@),
    {
        self.re.is_match(text)
    }

    /// Relies on `regex::Regex::find`: it returns the leftmost match,
    /// and returns one exactly when `is_match` is true. The match's byte
    /// offsets fall on character boundaries; the body converts them,
    /// one-for-one, to offsets in characters.
    #[verifier::external_body]
    pub fn find(&self, text: &str) -> (r: Option<(usize, usize)>)
        ensures
            r is Some <==> regex_matches(self@, text@),
            r matches Some((a, b)) ==> {
                &&& (a as int, b as int) == regex_find(self@, text@)
                &&& a <= b <= text@.len()
            },
    {
        match self.re.find(text) {
            None => None,
            Some(m) => {
                let a = text[..m.start()].chars().count();
                let b = text[..m.end()].chars().count();
                Some((a, b))
            }
        }
    }
}

} // verus!
