//! Errors of filesystem storage.

use vstd::prelude::*;

verus! {

/// Why an operation on a location failed.
#[derive(Debug, PartialEq, Eq)]
pub enum FileSystemError {
    /// A path or URL could not be used, or the filesystem reported a failure.
    Io(String),
    /// A path segment led out of the location it was resolved against.
    Containment(String),
}

/// The model of a [`FileSystemError`].
pub enum ErrorView {
    Io(Seq<char>),
    Containment(Seq<char>),
}

impl View for FileSystemError {
    type V = ErrorView;

    open spec fn view(&self) -> ErrorView {
        match self {
            FileSystemError::Io(message) => ErrorView::Io(message@),
            FileSystemError::Containment(message) => ErrorView::Containment(message@),
        }
    }
}

/// A failure that the operating system reported for a filesystem operation.
#[derive(Debug, PartialEq, Eq)]
pub struct IoFailure {
    /// Whether the failure is that the file or directory does not exist.
    pub not_found: bool,
    /// The description of the failure.
    pub message: String,
}

} // verus!
