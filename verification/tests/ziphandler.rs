use docread::error::ErrorKind;
use docread::ziphandler::{
    contains, ends_with, read_member, select_entries, zip_to_zipentries, ZipEntry,
};
use std::io::{Cursor, Write};
use zip::write::SimpleFileOptions;
use zip::ZipWriter;

fn archive_of(entries: &[(&str, &[u8])]) -> Vec<u8> {
    let mut zip = ZipWriter::new(Cursor::new(Vec::new()));
    let options = SimpleFileOptions::default().compression_method(zip::CompressionMethod::Stored);
    for (name, content) in entries {
        zip.start_file(*name, options).unwrap();
        zip.write_all(content).unwrap();
    }
    zip.finish().unwrap().into_inner()
}

#[test]
fn test_zip_entry_name() {
    let zip_entry = ZipEntry {
        archive_name: "test.zip".to_string(),
        entry_name: "test.docx".to_string(),
    };
    assert_eq!(zip_entry.get_fname(), "member test.docx in test.zip");
}

#[test]
fn test_zip_to_zipentries() {
    let bytes = archive_of(&[
        ("test1.docx", b"Hello, world!"),
        ("test2.txt", b"Hello, world!"),
        ("test3.docx", b"Hello, world!"),
    ]);

    let docx_files = zip_to_zipentries("test.zip", bytes).unwrap();

    assert_eq!(docx_files.len(), 2);
    assert_eq!(docx_files[0].entry_name, "test1.docx");
    assert_eq!(docx_files[1].entry_name, "test3.docx");
    assert_eq!(docx_files[0].archive_name, "test.zip");
    assert_eq!(docx_files[1].archive_name, "test.zip");
}

#[test]
fn junk_directory_members_are_not_listed() {
    let bytes = archive_of(&[
        ("__MACOSX/._a.docx", b"x"),
        ("a.docx", b"x"),
        ("sub/__MACOSX/b.docx", b"x"),
        ("sub/b.docx", b"x"),
        ("c.docx.bak", b"x"),
    ]);
    let entries = zip_to_zipentries("mac.zip", bytes).unwrap();
    let names: Vec<&str> = entries.iter().map(|e| e.entry_name.as_str()).collect();
    assert_eq!(names, vec!["a.docx", "sub/b.docx"]);
}

#[test]
fn empty_archive_lists_nothing() {
    let entries = zip_to_zipentries("empty.zip", archive_of(&[])).unwrap();
    assert_eq!(entries.len(), 0);
}

#[test]
fn corrupt_archive_is_an_archive_failure() {
    let err = zip_to_zipentries("bad.zip", b"this is no archive".to_vec()).unwrap_err();
    assert_eq!(err.kind(), ErrorKind::Archive);
    assert!(!err.detail().is_empty());
}

#[test]
fn select_entries_filters_by_suffix_and_marker() {
    let names: Vec<String> = vec!["a.docx", "b.txt", "__MACOSX/c.docx", "d.docx", ".docx", "docx"]
        .into_iter()
        .map(String::from)
        .collect();
    let entries = select_entries("pack.zip", &names, ".docx");
    let kept: Vec<&str> = entries.iter().map(|e| e.entry_name.as_str()).collect();
    assert_eq!(kept, vec!["a.docx", "d.docx", ".docx"]);
    let texts = select_entries("pack.zip", &names, ".txt");
    assert_eq!(texts.len(), 1);
    assert_eq!(texts[0].entry_name, "b.txt");
    assert_eq!(texts[0].archive_name, "pack.zip");
}

#[test]
fn member_is_read_in_full() {
    let bytes = archive_of(&[("one.docx", b"first"), ("two.docx", b"second content")]);
    assert_eq!(read_member(bytes.clone(), "two.docx").unwrap(), b"second content".to_vec());
    assert_eq!(read_member(bytes, "one.docx").unwrap(), b"first".to_vec());
}

#[test]
fn absent_member_is_an_archive_failure() {
    let bytes = archive_of(&[("one.docx", b"first")]);
    let err = read_member(bytes, "gone.docx").unwrap_err();
    assert_eq!(err.kind(), ErrorKind::Archive);
    let err = read_member(b"no archive".to_vec(), "one.docx").unwrap_err();
    assert_eq!(err.kind(), ErrorKind::Archive);
}

#[test]
fn suffix_is_compared_by_characters() {
    assert!(ends_with("a.docx", ".docx"));
    assert!(ends_with(".docx", ".docx"));
    assert!(ends_with("anything", ""));
    assert!(!ends_with("docx", ".docx"));
    assert!(!ends_with("a.docx ", ".docx"));
    assert!(!ends_with("a.DOCX", ".docx"));
    assert!(ends_with("Célimène.docx", "ène.docx"));
}

#[test]
fn needle_is_found_anywhere() {
    assert!(contains("__MACOSX/a.docx", "__MACOSX"));
    assert!(contains("dir/__MACOSX", "__MACOSX"));
    assert!(contains("a__MACOSXb", "__MACOSX"));
    assert!(contains("abc", ""));
    assert!(contains("", ""));
    assert!(!contains("_MACOSX", "__MACOSX"));
    assert!(!contains("", "x"));
    assert!(contains("Célimène", "mè"));
}
