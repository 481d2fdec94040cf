//! The search pattern: a compiled regular expression of the `regex` crate.
//!
//! What the matching engine computes is not restated here. Its answers are
//! named by uninterpreted functions, and every contract that depends on
//! matching is phrased over those names.

use crate::error::SearchError;
use crate::text::is_boundary;
use regex::Regex;
use vstd::prelude::*;

verus! {

/// `regex::Regex`, carried through the library as an opaque value.
#[verifier::external_type_specification]
#[verifier::external_body]
pub struct ExRegex(regex::Regex);

/// `regex::Error`, the reason a pattern was rejected.
#[verifier::external_type_specification]
#[verifier::external_body]
pub struct ExRegexError(regex::Error);

/// The regular expression that `regex::Regex::new` compiles from `pattern`;
/// `None` when the pattern is rejected.
pub uninterp spec fn compiled(pattern: Seq<char>) -> Option<Regex>;

/// Whether `re` has a match anywhere in `text` (`regex::Regex::is_match`).
pub uninterp spec fn regex_matches(re: Regex, text: Seq<char>) -> bool;

/// The byte spans `(start, end)` of the successive matches of `re` in `text`,
/// in the order `regex::Regex::find_iter` yields them.
pub uninterp spec fn regex_spans(re: Regex, text: Seq<char>) -> Seq<(usize, usize)>;

/// Spans that can be cut out of `text` one after the other: each lies on
/// character boundaries with `start <= end`, and each begins no earlier than
/// the one before it ends.
pub open spec fn spans_in_order(text: Seq<char>, spans: Seq<(usize, usize)>) -> bool {
    &&& forall|i: int|
        0 <= i < spans.len() ==> {
            &&& (#[trigger] spans[i]).0 <= spans[i].1
            &&& is_boundary(text, spans[i].0 as int)
            &&& is_boundary(text, spans[i].1 as int)
        }
    &&& forall|i: int, j: int|
        0 <= i < j < spans.len() ==> (#[trigger] spans[i]).1 <= (#[trigger] spans[j]).0
}

/// `regex::Regex::new` compiles a pattern with the default configuration.
/// The contract claims that the outcome depends on the pattern text alone,
/// and names it.
pub assume_specification[ Regex::new ](re: &str) -> (res: Result<Regex, regex::Error>)
    ensures
        res matches Ok(regex) ==> compiled(re@) == Some(regex),
        res is Err ==> compiled(re@) is None,
;

/// `regex::Regex::is_match` reports whether the haystack holds a match; the
/// contract names that answer.
pub assume_specification[ Regex::is_match ](re: &Regex, haystack: &str) -> (found: bool)
    ensures
        found == regex_matches(*re, haystack@),
;

/// Runs `regex::Regex::find_iter` to its end and keeps `Match::start` and
/// `Match::end` of every match. The contract names the list and states what
/// the crate documents of it: offsets are byte offsets on UTF-8 boundaries
/// with `start <= end`, matches are successive and do not overlap, and there
/// is a first match exactly when `is_match` finds one.
#[verifier::external_body]
pub(crate) fn find_spans(re: &Regex, text: &str) -> (spans: Vec<(usize, usize)>)
    ensures
        spans@ == regex_spans(*re, text@),
        spans_in_order(text@, spans@),
        spans@.len() > 0 <==> regex_matches(*re, text@),
{
    re.find_iter(text).map(|m| (m.start(), m.end())).collect()
}

/// The message of a `regex::Error`, as its `Display` impl writes it.
#[verifier::external_body]
fn regex_error_text(e: &regex::Error) -> (text: String) {
    e.to_string()
}

/// Compiles `pattern`. An invalid pattern is a `Pattern` failure, detected
/// here once, before any source is searched.
pub fn compile_pattern(pattern: &str) -> (res: Result<Regex, SearchError>)
    ensures
        match res {
            Ok(re) => compiled(pattern@) == Some(re),
            Err(e) => e is Pattern && compiled(pattern@) is None,
        },
{
    match Regex::new(pattern) {
        Ok(re) => Ok(re),
        Err(e) => Err(SearchError::Pattern(regex_error_text(&e))),
    }
}

} // verus!
