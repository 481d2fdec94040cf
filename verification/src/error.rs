//! The failures a search can report.

use vstd::prelude::*;

verus! {

/// The class of a failure, without its detail text.
#[derive(Clone, Copy, Debug, PartialEq, Eq, Structural)]
pub enum ErrorKind {
    /// A plain file could not be opened or read.
    Io,
    /// An archive is corrupt, or the requested member is not in it.
    Archive,
    /// The bytes of a source do not have the expected document structure.
    Decode,
    /// The search pattern is not a valid regular expression.
    Pattern,
}

/// A failure together with a human-readable detail.
#[derive(Debug)]
pub enum SearchError {
    /// A plain file could not be opened or read.
    Io(String),
    /// An archive is corrupt, or the requested member is not in it.
    Archive(String),
    /// The bytes of a source do not have the expected document structure.
    Decode(String),
    /// The search pattern is not a valid regular expression.
    Pattern(String),
}

impl SearchError {
    /// The class of this failure.
    pub open spec fn kind_of(&self) -> ErrorKind {
        match self {
            SearchError::Io(_) => ErrorKind::Io,
            SearchError::Archive(_) => ErrorKind::Archive,
            SearchError::Decode(_) => ErrorKind::Decode,
            SearchError::Pattern(_) => ErrorKind::Pattern,
        }
    }

    /// The detail text carried by this failure.
    pub open spec fn detail_of(&self) -> Seq<char> {
        match self {
            SearchError::Io(d) => d@,
            SearchError::Archive(d) => d@,
            SearchError::Decode(d) => d@,
            SearchError::Pattern(d) => d@,
        }
    }

    /// The class of this failure.
    pub fn kind(&self) -> (k: ErrorKind)
        ensures
            k == self.kind_of(),
    {
        match self {
            SearchError::Io(_) => ErrorKind::Io,
            SearchError::Archive(_) => ErrorKind::Archive,
            SearchError::Decode(_) => ErrorKind::Decode,
            SearchError::Pattern(_) => ErrorKind::Pattern,
        }
    }

    /// The detail text carried by this failure.
    pub fn detail(&self) -> (d: &str)
        ensures
            d@ == self.detail_of(),
    {
        match self {
            SearchError::Io(d) => d.as_str(),
            SearchError::Archive(d) => d.as_str(),
            SearchError::Decode(d) => d.as_str(),
            SearchError::Pattern(d) => d.as_str(),
        }
    }

    /// A copy of this failure: same class, same detail.
    pub fn duplicate(&self) -> (e: SearchError)
        ensures
            e.kind_of() == self.kind_of(),
            e.detail_of() == self.detail_of(),
    {
        match self {
            SearchError::Io(d) => SearchError::Io(d.clone()),
            SearchError::Archive(d) => SearchError::Archive(d.clone()),
            SearchError::Decode(d) => SearchError::Decode(d.clone()),
            SearchError::Pattern(d) => SearchError::Pattern(d.clone()),
        }
    }
}

} // verus!
