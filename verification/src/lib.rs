//! Unpacking of Debian packages: the `ar` envelope, the compressed `tar`
//! payloads it carries, and the `control` metadata file.
//!
//! Everything here works on values held in memory. [`input`] judges the
//! path of a package, [`container`] reads the members of the envelope,
//! [`members`] holds the naming rules, [`codec`] decompresses payloads,
//! [`unpack`] ties these into the plan of what is written and unpacked
//! where, and [`control`] parses the metadata that the extraction leaves.
//! Reading the package and writing the result are left to the caller.

pub mod codec;
pub mod container;
pub mod control;
pub mod error;
pub mod input;
pub mod members;
pub mod package;
pub mod text;
pub mod unpack;
