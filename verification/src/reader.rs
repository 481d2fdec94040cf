//! Sources of documents and the search of one source.
//!
//! A source hands over its bytes or fails, and the document decoder renders
//! the bytes as JSON text or fails. Both steps are the caller's: the decoder
//! may unwind on a damaged document, so the library is handed what the two
//! steps gave and takes it from there.

use crate::doctree::{all_match, collected_from, leaf_texts, xtract_text_from_doctree};
use crate::error::SearchError;
use crate::json::{json_from_text, parsed_json};
use crate::text::{all_present, texts_of};
use crate::ziphandler::ZipEntry;
use regex::Regex;
use vstd::prelude::*;
use vstd::string::*;

verus! {

/// One matching text run of a document.
pub type Run = String;

/// The matching text runs of a document, in walking order.
pub type Runs = Vec<Run>;

/// A unit that produces the bytes of one document and can name itself.
pub trait ReadIntoBuf {
    /// All bytes of the document, or the reason they could not be had.
    fn read_into_buf(&self) -> Result<Vec<u8>, SearchError>;

    /// A label for reports.
    fn get_fname(&self) -> String;
}

/// A plain file, known by its path.
#[derive(Debug)]
pub struct RegularFile {
    pub fname: String,
}

impl RegularFile {
    /// The file at `path`.
    pub fn from(path: &str) -> (file: RegularFile)
        ensures
            file.fname@ == path@,
    {
        RegularFile { fname: path.to_owned() }
    }

    /// The label of a plain file is its path.
    pub fn get_fname(&self) -> (label: String)
        ensures
            label@ == self.fname@,
    {
        self.fname.clone()
    }
}

/// A source with fixed content, or one whose read always fails.
pub struct MockFileReader {
    pub content: Vec<u8>,
    pub should_fail: bool,
}

impl MockFileReader {
    /// A source that yields `content`, or that fails when `should_fail`.
    pub fn new(content: Vec<u8>, should_fail: bool) -> (reader: MockFileReader)
        ensures
            reader.content == content,
            reader.should_fail == should_fail,
    {
        MockFileReader { content, should_fail }
    }

    /// The outcome of reading this source: its content, or an `Io` failure
    /// when it was made to fail.
    pub open spec fn outcome(&self) -> Result<Seq<u8>, crate::error::ErrorKind> {
        if self.should_fail {
            Err(crate::error::ErrorKind::Io)
        } else {
            Ok(self.content@)
        }
    }

    /// Reads the source.
    pub fn read(&self) -> (res: Result<Vec<u8>, SearchError>)
        ensures
            match res {
                Ok(bytes) => self.outcome() == Ok::<Seq<u8>, crate::error::ErrorKind>(bytes@),
                Err(e) => self.outcome() == Err::<Seq<u8>, crate::error::ErrorKind>(e.kind_of())
                    && e.detail_of() == "Mock read error"@,
            },
    {
        if self.should_fail {
            Err(SearchError::Io("Mock read error".to_owned()))
        } else {
            let bytes = self.content.clone();
            assert(bytes@ =~= self.content@);
            Ok(bytes)
        }
    }
}

impl ReadIntoBuf for MockFileReader {
    fn read_into_buf(&self) -> (res: Result<Vec<u8>, SearchError>)
        ensures
            match res {
                Ok(bytes) => !self.should_fail && bytes@ == self.content@,
                Err(e) => self.should_fail && e is Io && e.detail_of() == "Mock read error"@,
            },
    {
        self.read()
    }

    fn get_fname(&self) -> (name: String)
        ensures
            name@ == "mock"@,
    {
        "mock".to_owned()
    }
}

/// What the search of a document rendered as `text` must return for `re`:
/// a `Decode` failure when the text is no JSON or the tree is malformed, else
/// the matching runs of the tree.
pub open spec fn search_outcome(text: Seq<char>, re: Regex, res: Result<Runs, SearchError>) -> bool {
    match parsed_json(text) {
        Some(tree) => if all_present(leaf_texts(tree)) {
            res matches Ok(runs) && collected_from(tree, re, texts_of(runs@))
        } else {
            res matches Err(e) && e is Decode
        },
        None => res matches Err(e) && e is Decode,
    }
}

/// Searches a document that has been rendered as JSON text.
pub fn runs_in_json_text(text: &str, re: &Regex) -> (res: Result<Runs, SearchError>)
    ensures
        search_outcome(text@, *re, res),
        res matches Ok(runs) ==> all_match(texts_of(runs@), *re),
{
    match json_from_text(text) {
        Ok(tree) => xtract_text_from_doctree(&tree, re),
        Err(e) => Err(e),
    }
}

/// Whether `res` is what the search of one source owes for `re`, given what
/// reading and decoding the source gave: a failure is passed on unchanged,
/// and a document rendered as JSON text is searched.
pub open spec fn searched(
    rendered: Result<String, SearchError>,
    re: Regex,
    res: Result<Runs, SearchError>,
) -> bool {
    match rendered {
        Err(e) => res == Err::<Runs, SearchError>(e),
        Ok(text) => search_outcome(text@, re, res),
    }
}

/// Searches one source for `search_re`, given what reading and decoding it
/// gave: the document rendered as JSON text, or the failure of either step.
/// A failure is passed on unchanged; a document without a match gives an
/// empty list, which is no failure.
pub fn parse_docx(rendered: Result<String, SearchError>, search_re: &Regex) -> (res: Result<
    Runs,
    SearchError,
>)
    ensures
        searched(rendered, *search_re, res),
        res matches Ok(runs) ==> all_match(texts_of(runs@), *search_re),
{
    match rendered {
        Ok(text) => runs_in_json_text(text.as_str(), search_re),
        Err(e) => Err(e),
    }
}

/// A source of one document: a plain file, or a member of an archive.
#[derive(Debug)]
pub enum FileSource {
    PlainFile(RegularFile),
    ArchiveMember(ZipEntry),
}

impl FileSource {
    /// The label of this source: the path of a plain file, or
    /// `member <name> in <archive>` for a member of an archive.
    pub open spec fn label(&self) -> Seq<char> {
        match self {
            FileSource::PlainFile(file) => file.fname@,
            FileSource::ArchiveMember(entry) => entry.label(),
        }
    }

    /// The label of this source for reports.
    pub fn get_fname(&self) -> (name: String)
        ensures
            name@ == self.label(),
    {
        match self {
            FileSource::PlainFile(file) => file.get_fname(),
            FileSource::ArchiveMember(entry) => entry.get_fname(),
        }
    }
}

/// The label texts of the plain files at `paths`: each path as it is.
pub open spec fn plain_labels(paths: Seq<String>) -> Seq<Seq<char>> {
    Seq::new(paths.len(), |i: int| paths[i]@)
}

/// The labels of a list of sources.
pub open spec fn labels_of(sources: Seq<FileSource>) -> Seq<Seq<char>> {
    Seq::new(sources.len(), |i: int| sources[i].label())
}

/// The labels of a list of archive members.
pub open spec fn member_labels(entries: Seq<ZipEntry>) -> Seq<Seq<char>> {
    Seq::new(entries.len(), |i: int| entries[i].label())
}

/// Whether `after` is `before` followed by one `PlainFile` per path of
/// `paths`, in order.
pub open spec fn plain_files_added(
    before: Seq<FileSource>,
    after: Seq<FileSource>,
    paths: Seq<String>,
) -> bool {
    &&& after.len() == before.len() + paths.len()
    &&& after.take(before.len() as int) == before
    &&& forall|k: int|
        0 <= k < paths.len() ==> (#[trigger] after[before.len() + k] matches FileSource::PlainFile(
            file,
        ) && file.fname@ == paths[k]@)
}

/// One `ArchiveMember` per entry of `entries`, in order.
pub open spec fn member_sources(entries: Seq<ZipEntry>) -> Seq<FileSource> {
    Seq::new(entries.len(), |k: int| FileSource::ArchiveMember(entries[k]))
}

/// The labels of a list that grew by plain files are the labels it had,
/// followed by the paths.
pub proof fn lemma_plain_files_labels(
    before: Seq<FileSource>,
    after: Seq<FileSource>,
    paths: Seq<String>,
)
    requires
        plain_files_added(before, after, paths),
    ensures
        labels_of(after) == labels_of(before) + plain_labels(paths),
{
    assert forall|i: int| 0 <= i < after.len() implies labels_of(after)[i] == (labels_of(before)
        + plain_labels(paths))[i] by {
        if i < before.len() {
            assert(after.take(before.len() as int)[i] == after[i]);
        } else {
            let k = i - before.len();
            assert(after[before.len() + k] is PlainFile);
        }
    }
    assert(labels_of(after) =~= labels_of(before) + plain_labels(paths));
}

/// The labels of a list that grew by archive members are the labels it had,
/// followed by the labels of the members.
pub proof fn lemma_member_sources_labels(before: Seq<FileSource>, entries: Seq<ZipEntry>)
    ensures
        labels_of(before + member_sources(entries)) == labels_of(before) + member_labels(entries),
{
    assert(labels_of(before + member_sources(entries)) =~= labels_of(before) + member_labels(
        entries,
    ));
}

/// Puts the plain files at `paths` on the work list, in order, behind what
/// it holds.
pub fn add_plain_files(sources: &mut Vec<FileSource>, paths: &Vec<String>)
    ensures
        plain_files_added(old(sources)@, final(sources)@, paths@),
{
    let ghost before = sources@;
    let mut i: usize = 0;
    assert(sources@.take(before.len() as int) =~= before);
    while i < paths.len()
        invariant
            i <= paths.len(),
            plain_files_added(before, sources@, paths@.take(i as int)),
        decreases paths.len() - i,
    {
        let ghost listed = sources@;
        sources.push(FileSource::PlainFile(RegularFile::from(paths[i].as_str())));
        proof {
            let now = sources@;
            let upto = paths@.take(i + 1);
            assert(now.take(before.len() as int) =~= listed.take(before.len() as int));
            assert forall|k: int| 0 <= k < upto.len() implies (#[trigger] now[before.len()
                + k] matches FileSource::PlainFile(file) && file.fname@ == upto[k]@) by {
                if k < i {
                    assert(now[before.len() + k] == listed[before.len() + k]);
                    assert(paths@.take(i as int)[k] == upto[k]);
                }
            }
        }
        i = i + 1;
    }
    assert(paths@.take(i as int) =~= paths@);
}

/// Puts the members `entries` of one archive on the work list, in order,
/// behind what it holds.
pub fn add_archive_members(sources: &mut Vec<FileSource>, entries: Vec<ZipEntry>)
    ensures
        final(sources)@ == old(sources)@ + member_sources(entries@),
{
    let ghost before = sources@;
    let ghost all = entries@;
    let mut waiting = reversed(entries);
    assert(sources@ =~= before + member_sources(all).take(0));
    while waiting.len() > 0
        invariant
            waiting.len() <= all.len(),
            forall|k: int|
                0 <= k < waiting.len() ==> (#[trigger] waiting[k]) == all[all.len() - 1 - k],
            sources@ == before + member_sources(all).take(all.len() - waiting.len()),
        decreases waiting.len(),
    {
        let ghost listed = sources@;
        let ghost done = all.len() - waiting.len();
        let entry = waiting.pop().unwrap();
        assert(entry == all[done]);
        sources.push(FileSource::ArchiveMember(entry));
        assert(sources@ =~= before + member_sources(all).take(done + 1));
    }
    assert(member_sources(all).take(all.len() as int) =~= member_sources(all));
}

/// Files the listing of one archive: its members join the work list, in
/// order; a listing that failed leaves the work list as it was and is handed
/// back, so that it can be reported for its archive while the others go on.
pub fn add_listing(sources: &mut Vec<FileSource>, listing: Result<Vec<ZipEntry>, SearchError>) -> (failed:
    Option<SearchError>)
    ensures
        match listing {
            Ok(entries) => failed is None && final(sources)@ == old(sources)@ + member_sources(
                entries@,
            ),
            Err(e) => failed == Some(e) && *final(sources) == *old(sources),
        },
{
    match listing {
        Ok(entries) => {
            add_archive_members(sources, entries);
            None
        },
        Err(e) => Some(e),
    }
}

/// The outcome of the search of one source, under the label of the source.
#[derive(Debug)]
pub struct SearchResult {
    pub file_name: String,
    pub maybe_result: Result<Runs, SearchError>,
}

/// Searches the source labelled `file_name`, given what reading and decoding
/// it gave. The result carries the label, whether the search succeeded or
/// failed, and a failure is reported as that failure.
pub fn search_read(file_name: String, rendered: Result<String, SearchError>, re: &Regex) -> (result:
    SearchResult)
    ensures
        result.file_name == file_name,
        searched(rendered, *re, result.maybe_result),
{
    SearchResult { file_name, maybe_result: parse_docx(rendered, re) }
}

/// What reading and decoding one source gave, under the label of the source.
#[derive(Debug)]
pub struct Reading {
    pub file_name: String,
    pub rendered: Result<String, SearchError>,
}

/// Whether `results` holds, for every reading and in the same order, the
/// result owed for it under its label.
pub open spec fn all_searched(readings: Seq<Reading>, re: Regex, results: Seq<SearchResult>) -> bool {
    &&& results.len() == readings.len()
    &&& forall|i: int|
        0 <= i < readings.len() ==> {
            &&& (#[trigger] results[i]).file_name == readings[i].file_name
            &&& searched(readings[i].rendered, re, results[i].maybe_result)
        }
}

/// The items of a list in reverse order.
fn reversed<T>(items: Vec<T>) -> (turned: Vec<T>)
    ensures
        turned.len() == items.len(),
        forall|k: int| 0 <= k < turned.len() ==> (#[trigger] turned[k]) == items[items.len() - 1 - k],
{
    let ghost all = items@;
    let mut items = items;
    let mut turned: Vec<T> = Vec::new();
    while items.len() > 0
        invariant
            items.len() + turned.len() == all.len(),
            forall|k: int| 0 <= k < items.len() ==> items[k] == all[k],
            forall|k: int|
                0 <= k < turned.len() ==> (#[trigger] turned[k]) == all[all.len() - 1 - k],
        decreases items.len(),
    {
        let item = items.pop().unwrap();
        turned.push(item);
    }
    turned
}

/// Searches every source, one after the other, given what reading and
/// decoding each of them gave. There is exactly one result per source, in
/// the order of the sources and under its label, and each result depends on
/// its own source alone: a failure stays with the source it came from.
pub fn search_all(readings: Vec<Reading>, re: &Regex) -> (results: Vec<SearchResult>)
    ensures
        all_searched(readings@, *re, results@),
{
    let ghost all = readings@;
    let mut waiting = reversed(readings);
    let mut results: Vec<SearchResult> = Vec::new();
    while waiting.len() > 0
        invariant
            waiting.len() + results.len() == all.len(),
            forall|k: int|
                0 <= k < waiting.len() ==> (#[trigger] waiting[k]) == all[all.len() - 1 - k],
            forall|i: int|
                0 <= i < results.len() ==> {
                    &&& (#[trigger] results[i]).file_name == all[i].file_name
                    &&& searched(all[i].rendered, *re, results[i].maybe_result)
                },
        decreases waiting.len(),
    {
        let ghost next = all[results.len() as int];
        let reading = waiting.pop().unwrap();
        assert(reading == next);
        results.push(search_read(reading.file_name, reading.rendered, re));
    }
    results
}

} // verus!
