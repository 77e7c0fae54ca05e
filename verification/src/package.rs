//! The record that a package leaves behind once it is installed.

use vstd::prelude::*;

verus! {

/// One file that a package brought.
#[derive(Debug, Clone, PartialEq, Eq)]
pub struct FileManifestEntry {
    /// The file's path, relative to the root of the installation.
    pub path: String,
    /// Whether the file may be removed with the package.
    pub can_remove: bool,
}

/// What is known of an installed package.
#[derive(Debug, Clone, PartialEq, Eq)]
pub struct PackageInstallInfo {
    pub name: String,
    pub version: String,
    pub architecture: Option<String>,
    pub description: Option<String>,
    pub files: Option<Vec<FileManifestEntry>>,
    /// Whether the installation ran to its end.
    pub install_finished: bool,
}

} // verus!
