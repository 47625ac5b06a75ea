//! What can go wrong, by kind.

use vstd::prelude::*;

verus! {

/// The file operation that failed.
#[derive(Clone, Copy, Debug, PartialEq, Eq, Structural)]
pub enum Operation {
    Exists,
    Read,
    Write,
    Remove,
    Move,
    CreateDirectories,
    MarkExecutable,
    Glob,
}

/// Why a filesystem could not do what it was asked.
#[derive(Clone, Copy, Debug, PartialEq, Eq, Structural)]
pub enum Failure {
    /// The filesystem has not been looked at in this place yet.
    Unobserved,
    NotFound,
    PermissionDenied,
    MalformedPattern,
    Other,
}

/// An error of the library.
#[derive(Clone, Debug, PartialEq, Eq)]
pub enum Error {
    /// An inputs configuration that can never include a file.
    SurelyIncludesNone,
    /// A configuration or a manifest that states something twice; with the
    /// items as they were stated beside the same in order, and those beside
    /// the same with each held once.
    Duplicate(Item, String),
    /// A manifest whose items are not in order; with the items as they
    /// were stated beside the same in order, and those beside the same with
    /// each held once.
    NotSorted(Item, String),
    /// A regular expression that does not compile.
    MalformedRegularExpression { pattern: String },
    /// A working directory that is not absolute.
    RelativeWorkingDirectory { path: String },
    /// A relative path that leaves, by `..`, the directory that it starts
    /// from.
    OutsideRoot { path: String },
    /// A filesystem operation that failed.
    Io { operation: Operation, path: String, failure: Failure },
    /// A file that was to be scanned line by line and is no text.
    NotText { path: String },
    /// Text that is not the canonical form of a value.
    Serialization,
    /// A program that could not be started, or did not report success; with
    /// the status that it ended with, where it did end with one.
    Execution { program: String, status: Option<i32> },
    /// A lookup by identity found no blob.
    MissingBlob { identity: String },
}

/// What a `Duplicate` or `NotSorted` error speaks of.
#[derive(Clone, Copy, Debug, PartialEq, Eq, Structural)]
pub enum Item {
    EnvironmentVariables,
    Listing,
    FileIdentities,
    Paths,
    IncludeFiles,
    IncludeMatchTransforms,
    ExcludeMatches,
}

/// An error as contracts speak of it: the same kinds, with text as
/// sequences of characters.
pub enum ErrorView {
    SurelyIncludesNone,
    Duplicate(Item, Seq<char>),
    NotSorted(Item, Seq<char>),
    MalformedRegularExpression { pattern: Seq<char> },
    RelativeWorkingDirectory { path: Seq<char> },
    OutsideRoot { path: Seq<char> },
    Io { operation: Operation, path: Seq<char>, failure: Failure },
    NotText { path: Seq<char> },
    Serialization,
    Execution { program: Seq<char>, status: Option<i32> },
    MissingBlob { identity: Seq<char> },
}

impl View for Error {
    type V = ErrorView;

    open spec fn view(&self) -> ErrorView {
        match self {
            Error::SurelyIncludesNone => ErrorView::SurelyIncludesNone,
            Error::Duplicate(item, diff) => ErrorView::Duplicate(*item, diff@),
            Error::NotSorted(item, diff) => ErrorView::NotSorted(*item, diff@),
            Error::MalformedRegularExpression { pattern } => ErrorView::MalformedRegularExpression {
                pattern: pattern@,
            },
            Error::RelativeWorkingDirectory { path } => ErrorView::RelativeWorkingDirectory {
                path: path@,
            },
            Error::OutsideRoot { path } => ErrorView::OutsideRoot { path: path@ },
            Error::Io { operation, path, failure } => ErrorView::Io {
                operation: *operation,
                path: path@,
                failure: *failure,
            },
            Error::NotText { path } => ErrorView::NotText { path: path@ },
            Error::Serialization => ErrorView::Serialization,
            Error::Execution { program, status } => ErrorView::Execution {
                program: program@,
                status: *status,
            },
            Error::MissingBlob { identity } => ErrorView::MissingBlob { identity: identity@ },
        }
    }
}

} // verus!
