use docread::error::{ErrorKind, SearchError};
use docread::reader::SearchResult;
use docread::report::{archive_word, file_word, stage_report, Report};
use docread::selector::{make_path, trim_trailing_slashes};
use regex::Regex;

fn result_of(runs: &[&str]) -> SearchResult {
    SearchResult {
        file_name: "doc.docx".to_string(),
        maybe_result: Ok(runs.iter().map(|r| r.to_string()).collect()),
    }
}

#[test]
fn quiet_report_counts_runs() {
    let re = Regex::new("a").unwrap();
    let report = stage_report(&result_of(&["a1", "a2", "a3"]), &re, true, 5);
    assert!(matches!(report, Report::MatchCount(3)));
}

#[test]
fn quiet_report_of_no_run_says_no_match() {
    let re = Regex::new("a").unwrap();
    let report = stage_report(&result_of(&[]), &re, true, 5);
    assert!(matches!(report, Report::NoMatch));
}

#[test]
fn full_report_holds_the_triples_of_each_run() {
    let re = Regex::new("[Hh]ello").unwrap();
    let report = stage_report(&result_of(&["Hello, world!", "say hello, hello"]), &re, false, 4);
    match report {
        Report::Matches(staged) => {
            assert_eq!(staged.len(), 2);
            assert_eq!(staged[0].len(), 1);
            assert_eq!(staged[0][0].0, "");
            assert_eq!(staged[0][0].1, "Hello");
            assert_eq!(staged[0][0].2, ", wo");
            assert_eq!(staged[1].len(), 2);
            assert_eq!(staged[1][0].0, "say ");
            assert_eq!(staged[1][0].2, ", ");
            assert_eq!(staged[1][1].0, ", ");
            assert_eq!(staged[1][1].1, "hello");
            assert_eq!(staged[1][1].2, "");
        }
        _ => unreachable!(),
    }
}

#[test]
fn full_report_of_no_run_says_no_match() {
    let re = Regex::new("a").unwrap();
    let report = stage_report(&result_of(&[]), &re, false, 5);
    assert!(matches!(report, Report::NoMatch));
}

#[test]
fn failure_is_reported_as_it_is() {
    let re = Regex::new("a").unwrap();
    for quiet in [true, false] {
        let result = SearchResult {
            file_name: "bad.docx".to_string(),
            maybe_result: Err(SearchError::Decode("broken".to_string())),
        };
        match stage_report(&result, &re, quiet, 5) {
            Report::Failed(e) => {
                assert_eq!(e.kind(), ErrorKind::Decode);
                assert_eq!(e.detail(), "broken");
            }
            _ => unreachable!(),
        }
    }
}

#[test]
fn counts_are_followed_by_the_right_word() {
    assert_eq!(file_word(0), "files");
    assert_eq!(file_word(1), "file");
    assert_eq!(file_word(2), "files");
    assert_eq!(archive_word(0), "zip archives");
    assert_eq!(archive_word(1), "zip archive");
    assert_eq!(archive_word(7), "zip archives");
}

#[test]
fn every_failure_has_its_kind_and_detail() {
    let io = SearchError::Io("a".to_string());
    let archive = SearchError::Archive("b".to_string());
    let decode = SearchError::Decode("c".to_string());
    let pattern = SearchError::Pattern("d".to_string());
    assert_eq!(io.kind(), ErrorKind::Io);
    assert_eq!(archive.kind(), ErrorKind::Archive);
    assert_eq!(decode.kind(), ErrorKind::Decode);
    assert_eq!(pattern.kind(), ErrorKind::Pattern);
    assert_eq!(archive.detail(), "b");
    let copy = pattern.duplicate();
    assert_eq!(copy.kind(), ErrorKind::Pattern);
    assert_eq!(copy.detail(), "d");
}

#[test]
fn pattern_covers_all_depths_below_the_directory() {
    assert_eq!(make_path(".", ".docx"), "./**/*.docx");
    assert_eq!(make_path("docs/", ".docx"), "docs/**/*.docx");
    assert_eq!(make_path("docs///", ".zip"), "docs/**/*.zip");
    assert_eq!(make_path("/", ".docx"), "/**/*.docx");
    assert_eq!(make_path("", ".docx"), "/**/*.docx");
    assert_eq!(make_path("a/b", ""), "a/b/**/*");
}

#[test]
fn only_slashes_at_the_end_are_trimmed() {
    assert_eq!(trim_trailing_slashes("a/b/"), "a/b");
    assert_eq!(trim_trailing_slashes("a/b//"), "a/b");
    assert_eq!(trim_trailing_slashes("/a"), "/a");
    assert_eq!(trim_trailing_slashes("///"), "");
    assert_eq!(trim_trailing_slashes(""), "");
    assert_eq!(trim_trailing_slashes("é/"), "é");
}
