use docread::error::ErrorKind;
use docread::matcher::{group_segments, segment_on_regex, segment_spans, MatchTriple};
use docread::pattern::compile_pattern;
use docread::text::{first_n_chars, last_n_chars, slice_between};
use regex::Regex;

#[test]
fn test_segment_on_regex() {
    let s = "Hello, world!";
    let re = Regex::new(r"[Hh]ello").unwrap();
    let mtriples = segment_on_regex(s, &re, 1000);
    println!("{:?}", mtriples);
    assert_eq!(mtriples.len(), 1);
    assert_eq!(mtriples[0].0, "");
    assert_eq!(mtriples[0].1, "Hello");
    assert_eq!(mtriples[0].2, ", world!");
}

#[test]
fn test_segment_on_regex_multi() {
    let s = "This, that, and the other thing";
    let re = Regex::new(r"[Tt]h").unwrap();
    let mtriples = segment_on_regex(s, &re, 1000);
    println!("{:?}", mtriples);
    assert_eq!(mtriples.len(), 5);
    assert_eq!(mtriples[0].0, "");
    assert_eq!(mtriples[0].1, "Th");
    assert_eq!(mtriples[0].2, "is, ");
    assert_eq!(mtriples[1].0, "is, ");
    assert_eq!(mtriples[1].1, "th");
    assert_eq!(mtriples[1].2, "at, and ");
    assert_eq!(mtriples[2].0, "at, and ");
    assert_eq!(mtriples[2].1, "th");
    assert_eq!(mtriples[2].2, "e o");
    assert_eq!(mtriples[3].0, "e o");
    assert_eq!(mtriples[3].1, "th");
    assert_eq!(mtriples[3].2, "er ");
    assert_eq!(mtriples[4].0, "er ");
    assert_eq!(mtriples[4].1, "th");
    assert_eq!(mtriples[4].2, "ing");
}

#[test]
fn test_first_n_chars() {
    // Basic truncation
    assert_eq!(first_n_chars("Hello, world!", 5), "Hello");
    assert_eq!(first_n_chars("Hello", 10), "Hello");

    // Word boundary tests
    assert_eq!(first_n_chars("Hello beautiful world", 10), "Hello beau");
    assert_eq!(first_n_chars("Hello-beautiful world", 10), "Hello-beau");
    assert_eq!(first_n_chars("ThisIsAVeryLongWord", 10), "ThisIsAVer");

    // Unicode tests
    assert_eq!(first_n_chars("🦀 Rust is awesome", 6), "🦀 Rust");
    assert_eq!(first_n_chars("🦀 Rust", 2), "🦀 ");

    // Edge cases
    assert_eq!(first_n_chars("", 5), "");
    assert_eq!(first_n_chars("   ", 2), "  ");
    assert_eq!(first_n_chars("NoSpaces", 3), "NoS");
    assert_eq!(first_n_chars("Célimène", 3), "Cél");
    assert_eq!(first_n_chars("Célimène", 50), "Célimène");
}

#[test]
fn test_last_n_chars() {
    assert_eq!(last_n_chars("Hello, world!", 5), "orld!");
    assert_eq!(last_n_chars("Hello", 10), "Hello");
    assert_eq!(last_n_chars("Hello beautiful world", 10), "iful world");
    assert_eq!(last_n_chars("", 10), "");
    assert_eq!(last_n_chars("   ", 2), "  ");
    assert_eq!(last_n_chars("NoSpaces", 3), "ces");
    assert_eq!(last_n_chars("Célimène", 3), "ène");
}

#[test]
fn context_is_cut_to_length() {
    let re = Regex::new("needle").unwrap();
    let triples = segment_on_regex("0123456789needleabcdefghij", &re, 3);
    assert_eq!(triples.len(), 1);
    assert_eq!(triples[0].0, "789");
    assert_eq!(triples[0].1, "needle");
    assert_eq!(triples[0].2, "abc");
}

#[test]
fn context_of_zero_keeps_only_the_match() {
    let re = Regex::new("b+").unwrap();
    let triples = segment_on_regex("aabbbcc", &re, 0);
    assert_eq!(triples.len(), 1);
    assert_eq!(triples[0].0, "");
    assert_eq!(triples[0].1, "bbb");
    assert_eq!(triples[0].2, "");
}

#[test]
fn context_counts_characters_not_bytes() {
    let re = Regex::new("lim").unwrap();
    let triples = segment_on_regex("🦀🦀Célimène🦀", &re, 2);
    assert_eq!(triples.len(), 1);
    assert_eq!(triples[0].0, "Cé");
    assert_eq!(triples[0].1, "lim");
    assert_eq!(triples[0].2, "èn");
}

#[test]
fn short_gap_is_shown_on_both_sides() {
    let re = Regex::new("x").unwrap();
    let triples = segment_on_regex("axbcxd", &re, 5);
    assert_eq!(triples.len(), 2);
    assert_eq!(triples[0].0, "a");
    assert_eq!(triples[0].2, "bc");
    assert_eq!(triples[1].0, "bc");
    assert_eq!(triples[1].2, "d");
}

#[test]
fn long_gap_is_cut_from_both_ends() {
    let re = Regex::new("x").unwrap();
    let triples = segment_on_regex("x12345678x", &re, 3);
    assert_eq!(triples.len(), 2);
    assert_eq!(triples[0].2, "123");
    assert_eq!(triples[1].0, "678");
    assert_eq!(triples[1].2, "");
}

#[test]
fn no_match_gives_no_triple() {
    let re = Regex::new("absent").unwrap();
    assert_eq!(segment_on_regex("nothing here", &re, 10).len(), 0);
    assert_eq!(segment_on_regex("", &re, 10).len(), 0);
}

#[test]
fn empty_match_at_start_keeps_triples_aligned() {
    let re = Regex::new("a*").unwrap();
    let triples = segment_on_regex("baa", &re, 10);
    assert_eq!(triples.len(), 2);
    assert_eq!(triples[0].0, "");
    assert_eq!(triples[0].1, "");
    assert_eq!(triples[0].2, "b");
    assert_eq!(triples[1].0, "b");
    assert_eq!(triples[1].1, "aa");
    assert_eq!(triples[1].2, "");
}

#[test]
fn segment_spans_cuts_at_the_given_offsets() {
    let spans = vec![(0, 5), (7, 12)];
    let triples = segment_spans("Hello, world!", &spans, 1);
    assert_eq!(triples.len(), 2);
    assert_eq!(triples[0].0, "");
    assert_eq!(triples[0].1, "Hello");
    assert_eq!(triples[0].2, ",");
    assert_eq!(triples[1].0, " ");
    assert_eq!(triples[1].1, "world");
    assert_eq!(triples[1].2, "!");
}

#[test]
fn triple_from_short_list_has_empty_fields() {
    let t = MatchTriple::from_iter(vec!["before".to_string(), "hit".to_string()]);
    assert_eq!(t.0, "before");
    assert_eq!(t.1, "hit");
    assert_eq!(t.2, "");
    let none = MatchTriple::from_iter(vec![]);
    assert_eq!(none.0, "");
    assert_eq!(none.1, "");
    assert_eq!(none.2, "");
    let many = MatchTriple::from_iter(vec![
        "a".to_string(),
        "b".to_string(),
        "c".to_string(),
        "d".to_string(),
    ]);
    assert_eq!(many.2, "c");
}

#[test]
fn segments_are_grouped_in_threes() {
    let segments: Vec<String> = vec!["a", "b", "c", "d", "e"].into_iter().map(String::from).collect();
    let triples = group_segments(&segments);
    assert_eq!(triples.len(), 2);
    assert_eq!(triples[0].0, "a");
    assert_eq!(triples[0].2, "c");
    assert_eq!(triples[1].0, "d");
    assert_eq!(triples[1].1, "e");
    assert_eq!(triples[1].2, "");
    assert_eq!(group_segments(&Vec::new()).len(), 0);
}

#[test]
fn segmenting_twice_gives_the_same_triples() {
    let re = Regex::new("[Tt]h").unwrap();
    let s = "This, that, and the other thing";
    let first = segment_on_regex(s, &re, 4);
    let second = segment_on_regex(s, &re, 4);
    assert_eq!(first.len(), second.len());
    for i in 0..first.len() {
        assert_eq!(first[i].0, second[i].0);
        assert_eq!(first[i].1, second[i].1);
        assert_eq!(first[i].2, second[i].2);
    }
}

#[test]
fn large_context_tiles_the_text() {
    let re = Regex::new("[Tt]h").unwrap();
    let s = "This, that, and the other thing";
    let triples = segment_on_regex(s, &re, 1000);
    let mut rebuilt = String::new();
    rebuilt.push_str(&triples[0].0);
    for t in &triples {
        rebuilt.push_str(&t.1);
        rebuilt.push_str(&t.2);
    }
    assert_eq!(rebuilt, s);
}

#[test]
fn slice_between_follows_byte_offsets() {
    assert_eq!(slice_between("Célimène", 1, 3), "é");
    assert_eq!(slice_between("Célimène", 0, 0), "");
    assert_eq!(slice_between("abc", 1, 3), "bc");
}

#[test]
fn truncating_to_zero_characters_is_empty() {
    assert_eq!(first_n_chars("abc", 0), "");
    assert_eq!(last_n_chars("abc", 0), "");
}

#[test]
fn invalid_pattern_is_a_pattern_failure() {
    let err = compile_pattern("foo(bar").unwrap_err();
    assert_eq!(err.kind(), ErrorKind::Pattern);
    assert!(!err.detail().is_empty());
    assert!(compile_pattern("Hi|[Hh]ello").is_ok());
}

#[test]
fn a_triple_exists_exactly_when_the_pattern_matches() {
    let re = Regex::new("[0-9]+").unwrap();
    for text in ["no digits", "one 1", "", "12 and 34"] {
        assert_eq!(!segment_on_regex(text, &re, 3).is_empty(), re.is_match(text));
    }
}
