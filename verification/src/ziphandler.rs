//! Documents stored as members of a zip archive.
//!
//! An archive is handed over as bytes and opened in memory by the `zip`
//! crate. Listing keeps the members that are documents and drops what a
//! desktop system has added beside them.

use crate::error::SearchError;
use crate::text::{all_present, same_text, texts_of};
use std::io::Cursor;
use std::io::Read;
use vstd::prelude::*;
use vstd::string::*;
use zip::result::ZipError;
use zip::ZipArchive;

verus! {

/// `zip::ZipArchive`, an opened archive, carried through as an opaque value.
#[verifier::external_type_specification]
#[verifier::external_body]
#[verifier::reject_recursive_types(R)]
pub struct ExZipArchive<R>(ZipArchive<R>);

/// `std::io::Cursor`, the in-memory reader an archive is opened on.
#[verifier::external_type_specification]
#[verifier::external_body]
#[verifier::reject_recursive_types(T)]
pub struct ExCursor<T>(Cursor<T>);

/// `zip::result::ZipError`, the reason an archive operation failed.
#[verifier::external_type_specification]
#[verifier::external_body]
pub struct ExZipError(ZipError);

/// An archive opened on bytes held in memory.
pub type MemoryArchive = ZipArchive<Cursor<Vec<u8>>>;

/// The archive that `zip::ZipArchive::new` opens on `bytes`; `None` when the
/// bytes are rejected.
pub uninterp spec fn opened_archive(bytes: Seq<u8>) -> Option<MemoryArchive>;

/// For each entry of `archive`, in archive order, the name that opening the
/// entry by its index yields; `None` for an entry that cannot be opened or
/// whose name cannot be decoded.
pub uninterp spec fn archive_listing(archive: MemoryArchive) -> Seq<Option<Seq<char>>>;

/// The decompressed content of the member of `archive` named `name`; `None`
/// when there is no such member or it cannot be read.
pub uninterp spec fn archive_member(archive: MemoryArchive, name: Seq<char>) -> Option<Seq<u8>>;

/// Opens an archive with `zip::ZipArchive::new` on a cursor over `bytes`.
/// The contract claims that the outcome depends on the bytes alone.
#[verifier::external_body]
fn open_archive(bytes: Vec<u8>) -> (res: Result<MemoryArchive, ZipError>)
    ensures
        res matches Ok(archive) ==> opened_archive(bytes@) == Some(archive),
        res is Err ==> opened_archive(bytes@) is None,
{
    ZipArchive::new(Cursor::new(bytes))
}

/// `zip::ZipArchive::len`: the number of entries in the central directory.
#[verifier::external_body]
fn archive_len(archive: &MemoryArchive) -> (len: usize)
    ensures
        len == archive_listing(*archive).len(),
{
    archive.len()
}

/// Opens entry `index` with `zip::ZipArchive::by_index` and asks it for its
/// name with `ZipFile::name`. An index past the last entry is refused with
/// `FileNotFound`. Opening an entry moves the reader but leaves the
/// directory as it was, so the listing is unchanged.
#[verifier::external_body]
fn entry_name(archive: &mut MemoryArchive, index: usize) -> (res: Result<String, ZipError>)
    ensures
        archive_listing(*final(archive)) == archive_listing(*old(archive)),
        index >= archive_listing(*old(archive)).len() ==> res is Err,
        index < archive_listing(*old(archive)).len() ==> match res {
            Ok(name) => archive_listing(*old(archive))[index as int] == Some(name@),
            Err(_) => archive_listing(*old(archive))[index as int] is None,
        },
{
    Ok(archive.by_index(index)?.name()?.into_owned())
}

/// Finds the member named `name` with `zip::ZipArchive::by_name` and reads
/// it to its end with `std::io::Read::read_to_end`. A missing member is
/// refused with `FileNotFound`; a read failure comes back as `ZipError::Io`.
#[verifier::external_body]
fn member_bytes(archive: &mut MemoryArchive, name: &str) -> (res: Result<Vec<u8>, ZipError>)
    ensures
        match res {
            Ok(bytes) => archive_member(*old(archive), name@) == Some(bytes@),
            Err(_) => archive_member(*old(archive), name@) is None,
        },
{
    let mut file = archive.by_name(name)?;
    let mut buffer = Vec::new();
    file.read_to_end(&mut buffer)?;
    Ok(buffer)
}

/// The message of a `zip::result::ZipError`, as its `Display` impl writes it.
#[verifier::external_body]
fn zip_error_text(e: &ZipError) -> (text: String) {
    e.to_string()
}

/// Whether `text` ends with `suffix`.
pub open spec fn has_suffix(text: Seq<char>, suffix: Seq<char>) -> bool {
    suffix.len() <= text.len() && text.skip(text.len() - suffix.len()) == suffix
}

/// Whether `needle` occurs in `text` at position `at`.
pub open spec fn occurs_at(text: Seq<char>, needle: Seq<char>, at: int) -> bool {
    0 <= at && at + needle.len() <= text.len() && text.subrange(at, at + needle.len()) == needle
}

/// Whether `needle` occurs somewhere in `text`.
pub open spec fn contains_text(text: Seq<char>, needle: Seq<char>) -> bool {
    exists|at: int| occurs_at(text, needle, at)
}

/// Whether `text` ends with `suffix`.
pub fn ends_with(text: &str, suffix: &str) -> (found: bool)
    ensures
        found == has_suffix(text@, suffix@),
{
    let len = text.unicode_len();
    let width = suffix.unicode_len();
    if width > len {
        false
    } else {
        let tail = text.substring_char(len - width, len);
        assert(text@.subrange(len - width, len as int) =~= text@.skip(len - width));
        same_text(tail, suffix)
    }
}

/// Whether `needle` occurs somewhere in `text`.
pub fn contains(text: &str, needle: &str) -> (found: bool)
    ensures
        found == contains_text(text@, needle@),
{
    let len = text.unicode_len();
    let width = needle.unicode_len();
    if width > len {
        return false;
    }
    let last = len - width;
    let mut at: usize = 0;
    while at < last
        invariant
            len == text@.len(),
            width == needle@.len(),
            last == len - width,
            at <= last,
            forall|i: int| 0 <= i < at ==> !occurs_at(text@, needle@, i),
        decreases last - at,
    {
        if same_text(text.substring_char(at, at + width), needle) {
            assert(occurs_at(text@, needle@, at as int));
            return true;
        }
        at = at + 1;
    }
    let found = same_text(text.substring_char(last, len), needle);
    assert(found == occurs_at(text@, needle@, last as int));
    found
}

/// Suffix of the members that are documents.
pub const DOCUMENT_SUFFIX: &'static str = ".docx";

/// Marker of the directory in which macOS keeps resource forks.
pub const JUNK_MARKER: &'static str = "__MACOSX";

/// Whether a member named `name` is listed: its name ends with `suffix` and
/// holds no junk-directory marker.
pub open spec fn is_listed(name: Seq<char>, suffix: Seq<char>) -> bool {
    has_suffix(name, suffix) && !contains_text(name, JUNK_MARKER@)
}

/// The names of `names` that are listed, in the same order.
pub open spec fn listed(names: Seq<Seq<char>>, suffix: Seq<char>) -> Seq<Seq<char>>
    decreases names.len(),
{
    if names.len() == 0 {
        Seq::empty()
    } else if is_listed(names.last(), suffix) {
        listed(names.drop_last(), suffix).push(names.last())
    } else {
        listed(names.drop_last(), suffix)
    }
}

/// Nothing is listed that does not end with the suffix or that lies in a
/// junk directory, and listing never adds a name.
pub proof fn lemma_listed_are_listed(names: Seq<Seq<char>>, suffix: Seq<char>)
    ensures
        listed(names, suffix).len() <= names.len(),
        forall|i: int|
            0 <= i < listed(names, suffix).len() ==> is_listed(
                #[trigger] listed(names, suffix)[i],
                suffix,
            ),
    decreases names.len(),
{
    if names.len() > 0 {
        lemma_listed_are_listed(names.drop_last(), suffix);
    }
}

/// When every name is listed, the listing is the list of names itself.
pub proof fn lemma_listed_keeps_all(names: Seq<Seq<char>>, suffix: Seq<char>)
    requires
        forall|i: int| 0 <= i < names.len() ==> is_listed(#[trigger] names[i], suffix),
    ensures
        listed(names, suffix) == names,
    decreases names.len(),
{
    if names.len() > 0 {
        lemma_listed_keeps_all(names.drop_last(), suffix);
        assert(names.drop_last().push(names.last()) =~= names);
    }
}

/// The texts of a listing in which every entry is present.
pub open spec fn present(found: Seq<Option<Seq<char>>>) -> Seq<Seq<char>> {
    Seq::new(found.len(), |i: int| found[i]->0)
}

/// A document stored as a member of an archive.
#[derive(Debug)]
pub struct ZipEntry {
    pub archive_name: String,
    pub entry_name: String,
}

/// The member names of a list of entries.
pub open spec fn entry_names(entries: Seq<ZipEntry>) -> Seq<Seq<char>> {
    Seq::new(entries.len(), |i: int| entries[i].entry_name@)
}

/// Whether every entry of `entries` belongs to the archive at `path`.
pub open spec fn all_in_archive(entries: Seq<ZipEntry>, path: Seq<char>) -> bool {
    forall|i: int| 0 <= i < entries.len() ==> (#[trigger] entries[i]).archive_name@ == path
}

impl ZipEntry {
    /// The label of a member: `member <name> in <archive>`.
    pub open spec fn label(&self) -> Seq<char> {
        "member "@ + self.entry_name@ + " in "@ + self.archive_name@
    }

    /// The label of this member for reports.
    pub fn get_fname(&self) -> (label: String)
        ensures
            label@ == self.label(),
    {
        let mut label = "member ".to_owned();
        label.append(self.entry_name.as_str());
        label.append(" in ");
        label.append(self.archive_name.as_str());
        label
    }
}

/// Keeps the members of the archive at `zip_path` that are listed for
/// `suffix`, in the order of `names`.
pub fn select_entries(zip_path: &str, names: &Vec<String>, suffix: &str) -> (entries: Vec<ZipEntry>)
    ensures
        entry_names(entries@) == listed(texts_of(names@), suffix@),
        all_in_archive(entries@, zip_path@),
{
    let mut entries: Vec<ZipEntry> = Vec::new();
    let mut i: usize = 0;
    assert(texts_of(names@).take(0) =~= Seq::<Seq<char>>::empty());
    while i < names.len()
        invariant
            i <= names.len(),
            entry_names(entries@) == listed(texts_of(names@).take(i as int), suffix@),
            all_in_archive(entries@, zip_path@),
        decreases names.len() - i,
    {
        let name = names[i].as_str();
        let ghost before = entries@;
        let ghost upto = texts_of(names@).take(i + 1);
        assert(upto.drop_last() =~= texts_of(names@).take(i as int));
        assert(upto.last() == name@);
        if ends_with(name, suffix) && !contains(name, JUNK_MARKER) {
            entries.push(ZipEntry { archive_name: zip_path.to_owned(), entry_name: name.to_owned() });
            assert(entry_names(entries@) =~= entry_names(before).push(name@));
        }
        i = i + 1;
    }
    assert(texts_of(names@).take(i as int) =~= texts_of(names@));
    entries
}

/// What listing the archive held in `bytes` must return: an `Archive`
/// failure when the bytes are no archive or an entry cannot be opened, else
/// the listed members in archive order.
pub open spec fn listing_outcome(
    zip_path: Seq<char>,
    bytes: Seq<u8>,
    res: Result<Vec<ZipEntry>, SearchError>,
) -> bool {
    match opened_archive(bytes) {
        Some(archive) => if all_present(archive_listing(archive)) {
            &&& res matches Ok(entries)
            &&& entry_names(entries@) == listed(present(archive_listing(archive)), DOCUMENT_SUFFIX@)
            &&& all_in_archive(entries@, zip_path)
        } else {
            res matches Err(e) && e is Archive
        },
        None => res matches Err(e) && e is Archive,
    }
}

/// Lists the documents in the archive at `zip_path`, whose content is
/// `archive_bytes`: every member whose name ends in `.docx` and that does not
/// lie in a junk directory, in archive order.
pub fn zip_to_zipentries(zip_path: &str, archive_bytes: Vec<u8>) -> (res: Result<
    Vec<ZipEntry>,
    SearchError,
>)
    ensures
        listing_outcome(zip_path@, archive_bytes@, res),
{
    let ghost bytes = archive_bytes@;
    let mut archive = match open_archive(archive_bytes) {
        Ok(archive) => archive,
        Err(e) => {
            return Err(SearchError::Archive(zip_error_text(&e)));
        },
    };
    let ghost listing = archive_listing(archive);
    let len = archive_len(&archive);
    let mut names: Vec<String> = Vec::new();
    let mut i: usize = 0;
    while i < len
        invariant
            i <= len,
            len == listing.len(),
            archive_listing(archive) == listing,
            bytes == archive_bytes@,
            opened_archive(bytes) matches Some(first) && archive_listing(first) == listing,
            names.len() == i,
            forall|k: int| 0 <= k < i ==> listing[k] == Some(#[trigger] names[k]@),
        decreases len - i,
    {
        match entry_name(&mut archive, i) {
            Ok(name) => {
                names.push(name);
            },
            Err(e) => {
                assert(listing[i as int] is None);
                assert(!all_present(listing));
                return Err(SearchError::Archive(zip_error_text(&e)));
            },
        }
        i = i + 1;
    }
    assert(all_present(listing)) by {
        assert forall|k: int| 0 <= k < listing.len() implies (#[trigger] listing[k]) is Some by {
            assert(listing[k] == Some(names[k]@));
        }
    }
    assert(texts_of(names@) =~= present(listing));
    Ok(select_entries(zip_path, &names, DOCUMENT_SUFFIX))
}

/// What reading a member must return: its content, or an `Archive` failure
/// when the bytes are no archive or the member is absent or unreadable.
pub open spec fn member_outcome(
    bytes: Seq<u8>,
    name: Seq<char>,
    res: Result<Vec<u8>, SearchError>,
) -> bool {
    match opened_archive(bytes) {
        Some(archive) => match archive_member(archive, name) {
            Some(content) => res matches Ok(read) && read@ == content,
            None => res matches Err(e) && e is Archive,
        },
        None => res matches Err(e) && e is Archive,
    }
}

/// Reads the member `member_name` of the archive whose content is
/// `archive_bytes`, decompressed in full.
pub fn read_member(archive_bytes: Vec<u8>, member_name: &str) -> (res: Result<Vec<u8>, SearchError>)
    ensures
        member_outcome(archive_bytes@, member_name@, res),
{
    match open_archive(archive_bytes) {
        Ok(mut archive) => match member_bytes(&mut archive, member_name) {
            Ok(content) => Ok(content),
            Err(e) => Err(SearchError::Archive(zip_error_text(&e))),
        },
        Err(e) => Err(SearchError::Archive(zip_error_text(&e))),
    }
}

} // verus!
