//! What can go wrong while destinations are computed and committed.
use vstd::prelude::*;

verus! {

/// A failure that ends a run.
#[derive(Debug, PartialEq, Eq)]
pub enum Error {
    /// The path given for a directory does not name one.
    NotDirectory(String),
    /// The path given for a file does not name one.
    NotFile(String),
    /// Two file records of one run have this source.
    DuplicateFileError(String),
    /// A path has no file name where one is needed.
    CannotIdentifyFileName,
    /// An extension cannot be read from, or written into, a path.
    CannotIdentifyFileExtension,
    /// An insertion index lies beyond the end of the text.
    InsertIndexTooLarge,
    /// A variable was read before anything was assigned to it.
    VariableNotDefined(String),
    /// A directory walk reached its depth limit.
    MaxDepthReached,
    /// A text given as a regular expression is none.
    InvalidPattern(String),
}

/// An [`Error`] with its texts as character sequences.
pub enum ErrorView {
    NotDirectory(Seq<char>),
    NotFile(Seq<char>),
    DuplicateFileError(Seq<char>),
    CannotIdentifyFileName,
    CannotIdentifyFileExtension,
    InsertIndexTooLarge,
    VariableNotDefined(Seq<char>),
    MaxDepthReached,
    InvalidPattern(Seq<char>),
}

impl View for Error {
    type V = ErrorView;

    open spec fn view(&self) -> ErrorView {
        match self {
            Error::NotDirectory(s) => ErrorView::NotDirectory(s@),
            Error::NotFile(s) => ErrorView::NotFile(s@),
            Error::DuplicateFileError(s) => ErrorView::DuplicateFileError(s@),
            Error::CannotIdentifyFileName => ErrorView::CannotIdentifyFileName,
            Error::CannotIdentifyFileExtension => ErrorView::CannotIdentifyFileExtension,
            Error::InsertIndexTooLarge => ErrorView::InsertIndexTooLarge,
            Error::VariableNotDefined(s) => ErrorView::VariableNotDefined(s@),
            Error::MaxDepthReached => ErrorView::MaxDepthReached,
            Error::InvalidPattern(s) => ErrorView::InvalidPattern(s@),
        }
    }
}

impl Clone for Error {
    fn clone(&self) -> (r: Self)
        ensures
            r == *self,
    {
        match self {
            Error::NotDirectory(s) => Error::NotDirectory(s.clone()),
            Error::NotFile(s) => Error::NotFile(s.clone()),
            Error::DuplicateFileError(s) => Error::DuplicateFileError(s.clone()),
            Error::CannotIdentifyFileName => Error::CannotIdentifyFileName,
            Error::CannotIdentifyFileExtension => Error::CannotIdentifyFileExtension,
            Error::InsertIndexTooLarge => Error::InsertIndexTooLarge,
            Error::VariableNotDefined(s) => Error::VariableNotDefined(s.clone()),
            Error::MaxDepthReached => Error::MaxDepthReached,
            Error::InvalidPattern(s) => Error::InvalidPattern(s.clone()),
        }
    }
}

impl Error {
    /// A sentence that describes the failure.
    pub fn message(&self) -> (r: String)
        ensures
            r@ == self@.message(),
    {
        match self {
            Error::NotDirectory(s) => crate::text::concat("not a directory: ", s.as_str()),
            Error::NotFile(s) => crate::text::concat("not a file: ", s.as_str()),
            Error::DuplicateFileError(s) => crate::text::concat(
                "source claimed by two files: ",
                s.as_str(),
            ),
            Error::CannotIdentifyFileName => "cannot identify the file name".to_owned(),
            Error::CannotIdentifyFileExtension => "cannot identify the file extension".to_owned(),
            Error::InsertIndexTooLarge => "insertion index too large".to_owned(),
            Error::VariableNotDefined(s) => crate::text::concat(
                "variable not defined: ",
                s.as_str(),
            ),
            Error::MaxDepthReached => "maximum depth reached".to_owned(),
            Error::InvalidPattern(s) => crate::text::concat(
                "not a regular expression: ",
                s.as_str(),
            ),
        }
    }
}

impl ErrorView {
    /// A sentence that describes the failure.
    pub open spec fn message(self) -> Seq<char> {
        match self {
            ErrorView::NotDirectory(s) => "not a directory: "@ + s,
            ErrorView::NotFile(s) => "not a file: "@ + s,
            ErrorView::DuplicateFileError(s) => "source claimed by two files: "@ + s,
            ErrorView::CannotIdentifyFileName => "cannot identify the file name"@,
            ErrorView::CannotIdentifyFileExtension => "cannot identify the file extension"@,
            ErrorView::InsertIndexTooLarge => "insertion index too large"@,
            ErrorView::VariableNotDefined(s) => "variable not defined: "@ + s,
            ErrorView::MaxDepthReached => "maximum depth reached"@,
            ErrorView::InvalidPattern(s) => "not a regular expression: "@ + s,
        }
    }
}

} // verus!
