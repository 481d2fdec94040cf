//! What is reported of one searched source, staged as data before anything
//! is written out.

use crate::error::SearchError;
use crate::matcher::{segment_on_regex, segmentation, triples_of, MatchTriple, TripleText};
use crate::pattern::regex_spans;
use crate::reader::SearchResult;
use regex::Regex;
use vstd::prelude::*;
use vstd::string::*;

verus! {

/// The staged report of one source.
#[derive(Debug)]
pub enum Report {
    /// The source could not be read or decoded.
    Failed(SearchError),
    /// No run of the source matches.
    NoMatch,
    /// Quiet mode: that many runs of the source match.
    MatchCount(usize),
    /// For each matching run, in order, the triples of its matches.
    Matches(Vec<Vec<MatchTriple>>),
}

/// The texts held by the triples of each run.
pub open spec fn runs_triples(staged: Seq<Vec<MatchTriple>>) -> Seq<Seq<TripleText>> {
    Seq::new(staged.len(), |i: int| triples_of(staged[i]@))
}

/// Whether `report` is the report owed for `outcome`.
///
/// A failure is reported as that failure. A source without a matching run
/// is reported as having no match, in either mode. Else, in quiet mode only
/// the number of matching runs is reported, and otherwise every run is cut
/// into the triples of its matches, with `context` characters of context.
pub open spec fn reports(
    outcome: Result<Vec<String>, SearchError>,
    re: Regex,
    quiet: bool,
    context: nat,
    report: Report,
) -> bool {
    match outcome {
        Err(e) => report matches Report::Failed(f) && f.kind_of() == e.kind_of() && f.detail_of()
            == e.detail_of(),
        Ok(runs) => if runs.len() == 0 {
            report is NoMatch
        } else if quiet {
            report == Report::MatchCount(runs.len())
        } else {
            &&& report matches Report::Matches(staged)
            &&& staged.len() == runs.len()
            &&& forall|i: int|
                0 <= i < runs.len() ==> triples_of((#[trigger] staged[i])@) == segmentation(
                    runs[i]@,
                    regex_spans(re, runs[i]@),
                    context,
                )
        },
    }
}

/// Stages the report of one searched source.
pub fn stage_report(result: &SearchResult, re: &Regex, quiet: bool, n_context_chars: usize) -> (report:
    Report)
    ensures
        reports(result.maybe_result, *re, quiet, n_context_chars as nat, report),
{
    match &result.maybe_result {
        Err(e) => Report::Failed(e.duplicate()),
        Ok(runs) => {
            if runs.len() == 0 {
                Report::NoMatch
            } else if quiet {
                Report::MatchCount(runs.len())
            } else {
                let mut staged: Vec<Vec<MatchTriple>> = Vec::new();
                let mut i: usize = 0;
                while i < runs.len()
                    invariant
                        i <= runs.len(),
                        staged.len() == i,
                        forall|k: int|
                            0 <= k < i ==> triples_of((#[trigger] staged[k])@) == segmentation(
                                runs[k]@,
                                regex_spans(*re, runs[k]@),
                                n_context_chars as nat,
                            ),
                    decreases runs.len() - i,
                {
                    staged.push(segment_on_regex(runs[i].as_str(), re, n_context_chars));
                    i = i + 1;
                }
                Report::Matches(staged)
            }
        },
    }
}

/// The word that follows a count of plain files.
pub fn file_word(count: usize) -> (word: &'static str)
    ensures
        word@ == if count == 1 {
            "file"@
        } else {
            "files"@
        },
{
    if count == 1 {
        "file"
    } else {
        "files"
    }
}

/// The words that follow a count of archives.
pub fn archive_word(count: usize) -> (word: &'static str)
    ensures
        word@ == if count == 1 {
            "zip archive"@
        } else {
            "zip archives"@
        },
{
    if count == 1 {
        "zip archive"
    } else {
        "zip archives"
    }
}

} // verus!
