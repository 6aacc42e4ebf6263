//! The failures that the library reports.

use vstd::prelude::*;

verus! {

/// Why a path names no note.
#[derive(Clone, Copy, Debug, PartialEq, Eq, Hash)]
pub enum IdFault {
    /// The path ends in a separator or is empty: it has no file name.
    NoFileName,
    /// The file name has no extension.
    NoExtension,
    /// The file name has an extension other than the note extension.
    WrongExtension,
}

/// Why a text does not begin with a header block.
#[derive(Clone, Copy, Debug, PartialEq, Eq, Hash)]
pub enum HeaderFault {
    /// The text has no first line.
    MissingOpening,
    /// The first line is not the delimiter.
    CorruptOpening,
    /// The text ends before the title line.
    MissingTitle,
    /// The second line does not begin with the title label.
    CorruptTitle,
    /// The text ends before the date line.
    MissingDate,
    /// The third line does not begin with the date label.
    CorruptDate,
    /// The date line does not hold a timestamp in the header's format.
    BadTimestamp,
    /// The text ends before the tag line.
    MissingTags,
    /// The fourth line does not begin with the tag label.
    CorruptTags,
    /// The text ends before the closing delimiter.
    MissingClosing,
    /// The fifth line is not the delimiter.
    CorruptClosing,
}

/// A failure of one of the library's operations.
#[derive(Debug, PartialEq, Eq, Hash)]
pub enum ZkError {
    /// The file system refused an operation; the text is its report.
    FileError(String),
    /// A path does not name a note.
    InvalidIdentifier(IdFault),
    /// A text does not begin with a well-formed header.
    MalformedHeader(HeaderFault),
    /// The file at the given path does not begin with a well-formed header.
    MalformedNote(String, HeaderFault),
    /// A tag name that is not ASCII after lower-casing.
    InvalidTagName,
    /// The metadata store failed; the text is its report.
    DbError(String),
    /// The change-event subscription failed; the text is its report.
    NotifyError(String),
}

impl Clone for ZkError {
    fn clone(&self) -> (r: Self)
        ensures
            r == *self,
    {
        match self {
            ZkError::FileError(report) => ZkError::FileError(report.clone()),
            ZkError::InvalidIdentifier(fault) => ZkError::InvalidIdentifier(*fault),
            ZkError::MalformedHeader(fault) => ZkError::MalformedHeader(*fault),
            ZkError::MalformedNote(path, fault) => ZkError::MalformedNote(path.clone(), *fault),
            ZkError::InvalidTagName => ZkError::InvalidTagName,
            ZkError::DbError(report) => ZkError::DbError(report.clone()),
            ZkError::NotifyError(report) => ZkError::NotifyError(report.clone()),
        }
    }
}

/// The result of an operation that can fail with a [`ZkError`].
pub type ZkResult<T> = Result<T, ZkError>;

} // verus!
