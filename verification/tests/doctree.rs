use docread::doctree::xtract_text_from_doctree;
use docread::error::ErrorKind;
use docread::json::{json_from_text, Json};
use regex::Regex;

fn text_node(text: &str) -> String {
    format!(r#"{{"type": "text", "data": {{"text": "{}"}}}}"#, text)
}

fn interior(kind: &str, children: &[String]) -> String {
    format!(r#"{{"type": "{}", "data": {{"children": [{}]}}}}"#, kind, children.join(","))
}

fn document(children: &[String]) -> String {
    format!(r#"{{"document": {{"children": [{}]}}}}"#, children.join(","))
}

#[test]
fn test_xtract_text_from_doctree() {
    let data = r#"
        {
            "document": {
                "children": [
                    {
                        "type": "text",
                        "data": {
                            "text": "Hello, world!"
                        }
                    }
                ]
            }
        }
        "#;
    let root = json_from_text(data).unwrap();
    let search_re = Regex::new(r"[Hh]ello").unwrap();
    let runs = xtract_text_from_doctree(&root, &search_re).unwrap();
    assert_eq!(runs.len(), 1);
    assert_eq!(runs[0], "Hello, world!");
}

#[test]
fn walk_is_breadth_first() {
    // Siblings A and B, each with a child that matches and a text of its own
    // level beside it.
    let a = interior("paragraph", &[text_node("hit A1")]);
    let b = interior("paragraph", &[text_node("hit B1")]);
    let doc = document(&[text_node("hit A"), a, text_node("hit B"), b]);
    let root = json_from_text(&doc).unwrap();
    let re = Regex::new("hit").unwrap();
    let runs = xtract_text_from_doctree(&root, &re).unwrap();
    assert_eq!(runs, vec!["hit A", "hit B", "hit A1", "hit B1"]);
}

#[test]
fn deeper_levels_come_after_shallower_ones() {
    let deep = interior("run", &[text_node("hit deep")]);
    let a = interior("paragraph", &[deep, text_node("hit A1")]);
    let b = interior("paragraph", &[text_node("hit B1")]);
    let doc = document(&[a, b]);
    let root = json_from_text(&doc).unwrap();
    let re = Regex::new("hit").unwrap();
    let runs = xtract_text_from_doctree(&root, &re).unwrap();
    assert_eq!(runs, vec!["hit A1", "hit B1", "hit deep"]);
}

#[test]
fn only_matching_runs_are_returned() {
    let p = interior("paragraph", &[text_node("alpha"), text_node("beta"), text_node("alphabet")]);
    let root = json_from_text(&document(&[p])).unwrap();
    let re = Regex::new("alpha").unwrap();
    let runs = xtract_text_from_doctree(&root, &re).unwrap();
    assert_eq!(runs, vec!["alpha", "alphabet"]);
    for run in &runs {
        assert!(re.is_match(run));
    }
}

#[test]
fn document_without_match_gives_empty_list() {
    let root = json_from_text(&document(&[text_node("nothing")])).unwrap();
    let re = Regex::new("absent").unwrap();
    assert_eq!(xtract_text_from_doctree(&root, &re).unwrap().len(), 0);
}

#[test]
fn tree_without_document_gives_empty_list() {
    let re = Regex::new("x").unwrap();
    let root = json_from_text(r#"{"other": 1}"#).unwrap();
    assert_eq!(xtract_text_from_doctree(&root, &re).unwrap().len(), 0);
    let list = json_from_text("[1, 2]").unwrap();
    assert_eq!(xtract_text_from_doctree(&list, &re).unwrap().len(), 0);
}

#[test]
fn children_of_a_text_node_are_not_visited() {
    let node = r#"{"type": "text", "data": {"text": "x outer", "children": [{"type": "text", "data": {"text": "x inner"}}]}}"#;
    let root = json_from_text(&document(&[node.to_string()])).unwrap();
    let re = Regex::new("x").unwrap();
    assert_eq!(xtract_text_from_doctree(&root, &re).unwrap(), vec!["x outer"]);
}

#[test]
fn text_node_without_text_is_a_decode_failure() {
    let broken = r#"{"type": "text", "data": {"value": 3}}"#.to_string();
    let root = json_from_text(&document(&[text_node("fine"), broken])).unwrap();
    let re = Regex::new("fine").unwrap();
    let err = xtract_text_from_doctree(&root, &re).unwrap_err();
    assert_eq!(err.kind(), ErrorKind::Decode);
}

#[test]
fn json_values_are_copied_variant_by_variant() {
    let root = json_from_text(r#"{"a": [null, true, 12, "s"], "b": {"c": "d"}}"#).unwrap();
    let items = root.member("a").unwrap().items().unwrap();
    assert_eq!(items.len(), 4);
    assert!(matches!(items[0], Json::Null));
    assert!(matches!(items[1], Json::Bool(true)));
    assert!(matches!(&items[2], Json::Number(n) if n == "12"));
    assert_eq!(items[3].text(), Some("s"));
    assert_eq!(root.member("b").unwrap().member("c").unwrap().text(), Some("d"));
    assert!(root.member("missing").is_none());
    assert!(root.items().is_none());
    assert!(items[0].member("a").is_none());
}

#[test]
fn text_that_is_no_json_is_a_decode_failure() {
    let err = json_from_text("invalid json content").unwrap_err();
    assert_eq!(err.kind(), ErrorKind::Decode);
    assert!(!err.detail().is_empty());
}
