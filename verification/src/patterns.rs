//! Name patterns: regular expressions that pick structs and fields by name.

use vstd::prelude::*;

verus! {

/// Whether the regular expression `pattern` has a match anywhere in `text`, as
/// the crate `regex` decides it; none where `pattern` is no regular expression
/// that the crate accepts.
pub uninterp spec fn pattern_match(pattern: Seq<char>, text: Seq<char>) -> Option<bool>;

/// `regex::Regex::new` on the pattern, and `regex::Regex::is_match` of what it
/// gives on the text: the result is a function of the two texts; it is given
/// the name `pattern_match`. A pattern that `Regex::new` refuses gives none.
#[verifier::external_body]
fn search(pattern: &str, text: &str) -> (r: Option<bool>)
    ensures
        r == pattern_match(pattern@, text@),
{
    match regex::Regex::new(pattern) {
        Ok(re) => Some(re.is_match(text)),
        Err(_) => None,
    }
}

/// Whether `pattern` is a regular expression and has a match in `text`.
pub open spec fn hits(pattern: Seq<char>, text: Seq<char>) -> bool {
    pattern_match(pattern, text) == Some(true)
}

/// What a search says of a text: a match only where one was found.
pub open spec fn found(answer: Option<bool>) -> bool {
    answer == Some(true)
}

/// Whether a search found a match.
pub fn is_found(answer: Option<bool>) -> (b: bool)
    ensures
        b == found(answer),
{
    match answer {
        Some(hit) => hit,
        None => false,
    }
}

/// Whether `pattern` is a regular expression and has a match in `text`.
pub fn is_match(pattern: &str, text: &str) -> (b: bool)
    ensures
        b == hits(pattern@, text@),
{
    is_found(search(pattern, text))
}

/// Whether `pattern` is a regular expression that can be searched for.
pub fn is_pattern(pattern: &str) -> (b: bool)
    ensures
        b == (pattern_match(pattern@, Seq::empty()) is Some),
{
    let empty = String::new();
    search(pattern, empty.as_str()).is_some()
}

/// Whether one of the patterns has a match in `text`.
pub open spec fn any_matches(patterns: Seq<String>, text: Seq<char>) -> bool {
    exists|i: int| 0 <= i < patterns.len() && hits((#[trigger] patterns[i])@, text)
}

/// Whether one of the patterns has a match in `text`.
pub fn matches_any(patterns: &Vec<String>, text: &str) -> (b: bool)
    ensures
        b == any_matches(patterns@, text@),
{
    let mut i: usize = 0;
    while i < patterns.len()
        invariant
            i <= patterns.len(),
            forall|k: int| 0 <= k < i ==> !hits((#[trigger] patterns@[k])@, text@),
        decreases patterns.len() - i,
    {
        if is_match(patterns[i].as_str(), text) {
            return true;
        }
        i += 1;
    }
    false
}

} // verus!
