//! The ways in which unpacking a package can fail.

use vstd::prelude::*;

verus! {

/// A fatal failure of the unpacking pipeline. Each variant is one externally
/// distinguishable category and carries what is needed to diagnose it; none
/// is ever retried.
#[derive(Debug, Clone, PartialEq, Eq)]
pub enum DebError {
    /// The input path names nothing.
    FileNotFound { path: String },
    /// The input path names something that is not a regular file.
    NotAFile { path: String },
    /// The input path does not carry the literal extension `deb`.
    WrongExtension { path: String },
    /// The input file could not be opened or read, for the given cause.
    ContainerOpen { path: String, cause: String },
    /// The input is not a readable plain `ar` container.
    MalformedContainer,
    /// The member `name` could not be written to `destination`, for the
    /// given cause.
    Materialization { name: String, destination: String, cause: String },
    /// The tar-bearing file `source` has a suffix for which no decompressor
    /// exists.
    UnsupportedCompression { source: String },
    /// The payload of the tar-bearing file `source` could not be unpacked
    /// into `destination`, for the given cause.
    TarUnpack { source: String, destination: String, cause: String },
    /// The extracted control file at `path` is missing or unreadable, for
    /// the given cause.
    ControlFileRead { path: String, cause: String },
}

/// A failure with its texts as sequences of characters.
pub enum DebErrorView {
    FileNotFound { path: Seq<char> },
    NotAFile { path: Seq<char> },
    WrongExtension { path: Seq<char> },
    ContainerOpen { path: Seq<char>, cause: Seq<char> },
    MalformedContainer,
    Materialization { name: Seq<char>, destination: Seq<char>, cause: Seq<char> },
    UnsupportedCompression { source: Seq<char> },
    TarUnpack { source: Seq<char>, destination: Seq<char>, cause: Seq<char> },
    ControlFileRead { path: Seq<char>, cause: Seq<char> },
}

impl View for DebError {
    type V = DebErrorView;

    open spec fn view(&self) -> DebErrorView {
        match *self {
            DebError::FileNotFound { path } => DebErrorView::FileNotFound { path: path@ },
            DebError::NotAFile { path } => DebErrorView::NotAFile { path: path@ },
            DebError::WrongExtension { path } => DebErrorView::WrongExtension { path: path@ },
            DebError::ContainerOpen { path, cause } => DebErrorView::ContainerOpen {
                path: path@,
                cause: cause@,
            },
            DebError::MalformedContainer => DebErrorView::MalformedContainer,
            DebError::Materialization { name, destination, cause } => DebErrorView::Materialization {
                name: name@,
                destination: destination@,
                cause: cause@,
            },
            DebError::UnsupportedCompression { source } => DebErrorView::UnsupportedCompression {
                source: source@,
            },
            DebError::TarUnpack { source, destination, cause } => DebErrorView::TarUnpack {
                source: source@,
                destination: destination@,
                cause: cause@,
            },
            DebError::ControlFileRead { path, cause } => DebErrorView::ControlFileRead {
                path: path@,
                cause: cause@,
            },
        }
    }
}

} // verus!
