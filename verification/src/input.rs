//! Validation of the input path, before anything is read.

use crate::error::{DebError, DebErrorView};
use crate::text::same_text;
use vstd::prelude::*;
use vstd::string::StringExecFns;

verus! {

/// The verdict on an input path, given what the file system says of it and
/// the extension that the path carries. The three checks are made in this
/// order, and each has a failure of its own.
pub open spec fn input_verdict(
    path: Seq<char>,
    exists: bool,
    is_file: bool,
    extension: Option<Seq<char>>,
) -> Result<(), DebErrorView> {
    if !exists {
        Err(DebErrorView::FileNotFound { path })
    } else if !is_file {
        Err(DebErrorView::NotAFile { path })
    } else if extension != Some("deb"@) {
        Err(DebErrorView::WrongExtension { path })
    } else {
        Ok(())
    }
}

/// The view of a verdict.
pub open spec fn verdict_view(verdict: Result<(), DebError>) -> Result<(), DebErrorView> {
    match verdict {
        Ok(()) => Ok(()),
        Err(e) => Err(e@),
    }
}

/// The view of an optional text.
pub open spec fn optional_text(text: Option<&str>) -> Option<Seq<char>> {
    match text {
        Some(t) => Some(t@),
        None => None,
    }
}

/// The extension that `std::path::Path::extension` finds in a path, as
/// text. It depends on the path alone; what it is for a given path is left
/// to std.
pub uninterp spec fn extension_of(path: Seq<char>) -> Option<Seq<char>>;

/// `std::path::Path::extension` of the path, as text: the extension of
/// this path, whatever std takes it to be.
#[verifier::external_body]
fn path_extension(path: &str) -> (extension: Option<String>)
    ensures
        match extension {
            Some(e) => extension_of(path@) == Some(e@),
            None => extension_of(path@) is None,
        },
{
    match std::path::Path::new(path).extension() {
        Some(e) => Some(e.to_string_lossy().into_owned()),
        None => None,
    }
}

/// Judges an input path from what is known of it.
pub fn classify_input(path: &str, exists: bool, is_file: bool, extension: Option<&str>) -> (r:
    Result<(), DebError>)
    ensures
        verdict_view(r) == input_verdict(path@, exists, is_file, optional_text(extension)),
{
    if !exists {
        return Err(DebError::FileNotFound { path: String::from_str(path) });
    }
    if !is_file {
        return Err(DebError::NotAFile { path: String::from_str(path) });
    }
    let is_deb = match extension {
        Some(e) => same_text(e, "deb"),
        None => false,
    };
    if is_deb {
        Ok(())
    } else {
        Err(DebError::WrongExtension { path: String::from_str(path) })
    }
}

/// Validates the path of a package before it is opened: it must exist, be
/// a regular file, and carry the extension `deb`. `exists` and `is_file`
/// are what the file system says of the path.
pub fn get_deb_file(path: &str, exists: bool, is_file: bool) -> (r: Result<(), DebError>)
    ensures
        verdict_view(r) == input_verdict(path@, exists, is_file, extension_of(path@)),
{
    let extension = path_extension(path);
    match extension {
        Some(e) => classify_input(path, exists, is_file, Some(e.as_str())),
        None => classify_input(path, exists, is_file, None),
    }
}

} // verus!
