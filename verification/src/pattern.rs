//! Pattern-kind anchors: a search key is formatted into a line-matching
//! regular expression, and lines are tested against the compiled pattern.

use crate::errors::{CannotFindInFile, EditError};
use crate::text::seq_views;
use vstd::prelude::*;
use vstd::string::StringExecFns;

verus! {

/// Declares `regex::Regex`, so that a compiled pattern can stand in a field.
#[verifier::external_type_specification]
#[verifier::external_body]
pub struct ExRegex(regex::Regex);

/// Whether the pattern text compiles to a regular expression.
pub uninterp spec fn pattern_compiles(pattern: Seq<char>) -> bool;

/// Whether the compiled pattern matches somewhere in the line.
pub uninterp spec fn pattern_matches(pattern: Seq<char>, line: Seq<char>) -> bool;

/// A compiled pattern, kept together with the text it was compiled from so
/// that contracts can speak of the text.
pub struct LineMatcher {
    pattern: String,
    regex: regex::Regex,
}

impl LineMatcher {
    /// The text this matcher was compiled from.
    pub closed spec fn pattern_spec(&self) -> Seq<char> {
        self.pattern@
    }

    /// Relies on `regex::Regex::new`: whether a pattern text compiles is a
    /// function of that text alone.
    #[verifier::external_body]
    pub fn new(pattern: &str) -> (r: Option<LineMatcher>)
        ensures
            r is Some <==> pattern_compiles(pattern@),
            r matches Some(m) ==> m.pattern_spec() == pattern@,
    {
        match regex::Regex::new(pattern) {
            Ok(regex) => Some(LineMatcher { pattern: pattern.to_owned(), regex }),
            Err(_) => None,
        }
    }

    /// Relies on `regex::Regex::is_match`: whether a compiled pattern
    /// matches in a haystack is a function of the pattern text and the
    /// haystack alone.
    #[verifier::external_body]
    pub fn is_match(&self, line: &str) -> (b: bool)
        ensures
            b == pattern_matches(self.pattern_spec(), line@),
    {
        self.regex.is_match(line)
    }
}

/// The line-anchored pattern built around a search key: it matches a line
/// whose text contains a match of the key.
pub open spec fn line_pattern(key: Seq<char>) -> Seq<char> {
    "^.*?"@ + key + ".*$"@
}

/// Formats `key` into the line-anchored pattern text.
pub fn build_line_pattern(key: &str) -> (r: String)
    ensures
        r@ == line_pattern(key@),
{
    let mut out = String::from_str("^.*?");
    out.append(key);
    out.append(".*$");
    out
}

/// `i` is the smallest index whose line matches the pattern built from `key`.
pub open spec fn is_first_match(ls: Seq<Seq<char>>, key: Seq<char>, i: int) -> bool {
    &&& 0 <= i < ls.len()
    &&& pattern_matches(line_pattern(key), ls[i])
    &&& forall|j: int| 0 <= j < i ==> !pattern_matches(line_pattern(key), ls[j])
}

/// Returns the first line matching the pattern built from `key`, with its
/// index; fails with `BadPattern` exactly when the pattern does not compile,
/// and with `NotFound` exactly when it compiles but no line matches.
pub fn find_regex(lines: &Vec<String>, key: &str) -> (r: Result<(usize, String), EditError>)
    ensures
        match r {
            Ok((i, line)) => {
                &&& pattern_compiles(line_pattern(key@))
                &&& is_first_match(seq_views(lines@), key@, i as int)
                &&& line@ == seq_views(lines@)[i as int]
            },
            Err(EditError::BadPattern) => !pattern_compiles(line_pattern(key@)),
            Err(EditError::NotFound(e)) => {
                &&& pattern_compiles(line_pattern(key@))
                &&& e.token@ == key@
                &&& forall|j: int|
                    0 <= j < lines@.len() ==> !pattern_matches(
                        line_pattern(key@),
                        seq_views(lines@)[j],
                    )
            },
            Err(EditError::OutOfBounds(_)) => false,
        },
{
    let pattern = build_line_pattern(key);
    let matcher = match LineMatcher::new(pattern.as_str()) {
        Some(m) => m,
        None => {
            return Err(EditError::BadPattern);
        },
    };
    let mut i: usize = 0;
    while i < lines.len()
        invariant
            i <= lines@.len(),
            matcher.pattern_spec() == line_pattern(key@),
            pattern_compiles(line_pattern(key@)),
            forall|j: int|
                0 <= j < i ==> !pattern_matches(line_pattern(key@), seq_views(lines@)[j]),
        decreases lines@.len() - i,
    {
        if matcher.is_match(lines[i].as_str()) {
            return Ok((i, lines[i].clone()));
        }
        i += 1;
    }
    Err(EditError::NotFound(CannotFindInFile { token: key.to_owned() }))
}

} // verus!
