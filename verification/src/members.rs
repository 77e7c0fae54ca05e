//! The rules that turn a member's raw identifier into a file name, a
//! destination subdirectory and a decompression transform.

use crate::error::DebError;
use crate::error::DebErrorView;
use crate::text::{
    contains, ends_with, find_char, has_substring, position_of, slice_text, starts_with, to_chars,
    trim, trimmed,
};
use vstd::prelude::*;
use vstd::string::StringExecFns;
use vstd::string::StringSliceAdditionalSpecFns;
use vstd::utf8::*;

verus! {

/// Why a member takes no part in the extraction.
#[derive(Clone, Copy, Debug, PartialEq, Eq, Structural)]
pub enum SkipReason {
    /// Its identifier is not valid UTF-8.
    NotUtf8,
    /// Its identifier is empty once trimmed.
    EmptyName,
}

/// The decompression transform that a tar-bearing file asks for.
#[derive(Clone, Copy, Debug, PartialEq, Eq, Structural)]
pub enum Codec {
    /// The file is the tar stream itself.
    Identity,
    /// The file is a gzip stream.
    Gzip,
    /// The file is an xz stream.
    Xz,
}

/// Where the content of a tar-bearing file is unpacked.
#[derive(Clone, Debug, PartialEq, Eq)]
pub struct Destination {
    /// The subdirectory of the working directory.
    pub subdir: String,
    /// Whether the file name was neither `control.tar*` nor `data.tar*`, so
    /// that the subdirectory is a fallback that deserves a warning.
    pub warn: bool,
}

/// The subdirectory used when a file name offers nothing to derive one from.
pub open spec fn fallback_token() -> Seq<char> {
    "unknown_tar_content"@
}

/// The name that a member is filed under: its identifier decoded as UTF-8
/// and trimmed, unless that fails or leaves nothing.
pub open spec fn resolved_name(identifier: Seq<u8>) -> Result<Seq<char>, SkipReason> {
    if !valid_utf8(identifier) {
        Err(SkipReason::NotUtf8)
    } else if trim(decode_utf8(identifier)).len() == 0 {
        Err(SkipReason::EmptyName)
    } else {
        Ok(trim(decode_utf8(identifier)))
    }
}

/// Whether a file of this name is taken to hold a tar stream.
pub open spec fn tar_bearing(name: Seq<char>) -> bool {
    has_substring(name, ".tar"@)
}

/// The last segment of a name: what follows its last `/`. Names are joined
/// onto the working directory as they are, without sanitising; a name that
/// climbs out of it with `..` segments is not caught here.
pub open spec fn base_name(name: Seq<char>) -> Seq<char>
    decreases name.len(),
{
    if name.len() == 0 || name.last() == '/' {
        Seq::empty()
    } else {
        base_name(name.drop_last()).push(name.last())
    }
}

/// The subdirectory for a tar-bearing file, by its file name: `control` and
/// `data` for the two well-known prefixes, else what stands before the
/// first `.`, else the fallback token.
pub open spec fn subdir_of(file_name: Seq<char>) -> Seq<char> {
    if "control.tar"@.is_prefix_of(file_name) {
        "control"@
    } else if "data.tar"@.is_prefix_of(file_name) {
        "data"@
    } else if position_of(file_name, '.') < file_name.len() {
        file_name.take(position_of(file_name, '.'))
    } else {
        fallback_token()
    }
}

/// Whether the subdirectory of this file name is a fallback.
pub open spec fn subdir_is_fallback(file_name: Seq<char>) -> bool {
    !"control.tar"@.is_prefix_of(file_name) && !"data.tar"@.is_prefix_of(file_name)
}

/// The transform selected by a file name's suffix, if it has a known one.
pub open spec fn codec_of(file_name: Seq<char>) -> Option<Codec> {
    if ".tar.gz"@.is_suffix_of(file_name) {
        Some(Codec::Gzip)
    } else if ".tar.xz"@.is_suffix_of(file_name) {
        Some(Codec::Xz)
    } else if ".tar"@.is_suffix_of(file_name) {
        Some(Codec::Identity)
    } else {
        None
    }
}

/// `core::str::from_utf8`: the text that the bytes encode, if they are
/// valid UTF-8. The text's own encoding is the bytes given.
#[verifier::external_body]
fn utf8_text(bytes: &[u8]) -> (r: Option<&str>)
    ensures
        r is Some <==> valid_utf8(bytes@),
        r matches Some(s) ==> s.spec_bytes() == bytes@,
{
    match core::str::from_utf8(bytes) {
        Ok(s) => Some(s),
        Err(_) => None,
    }
}

/// Resolves a member's identifier to the name it is filed under, or says
/// why the member is skipped.
pub fn resolve_member_name(identifier: &[u8]) -> (r: Result<String, SkipReason>)
    ensures
        match r {
            Ok(name) => resolved_name(identifier@) == Ok::<Seq<char>, SkipReason>(name@),
            Err(reason) => resolved_name(identifier@) == Err::<Seq<char>, SkipReason>(reason),
        },
{
    match utf8_text(identifier) {
        None => Err(SkipReason::NotUtf8),
        Some(s) => {
            proof {
                encode_utf8_decode_utf8(s@);
            }
            let name = trimmed(s);
            if name.as_str().is_empty() {
                Err(SkipReason::EmptyName)
            } else {
                Ok(name)
            }
        },
    }
}

/// Whether a file of this name is a candidate for tar extraction.
pub fn is_tar_candidate(name: &str) -> (b: bool)
    ensures
        b == tar_bearing(name@),
{
    contains(name, ".tar")
}

/// The fallback token is neither of the two well-known subdirectories.
pub proof fn lemma_fallback_token_is_distinct()
    ensures
        fallback_token() != "control"@,
        fallback_token() != "data"@,
        "control"@ != "data"@,
{
    reveal_strlit("unknown_tar_content");
    reveal_strlit("control");
    reveal_strlit("data");
    assert("unknown_tar_content"@.len() == 19);
    assert("control"@.len() == 7);
    assert("data"@.len() == 4);
}

/// The last segment of a name starts right after the last `/`.
pub proof fn lemma_base_name(name: Seq<char>, from: int)
    requires
        0 <= from <= name.len(),
        forall|k: int| from <= k < name.len() ==> name[k] != '/',
        from > 0 ==> name[from - 1] == '/',
    ensures
        base_name(name) == name.skip(from),
    decreases name.len(),
{
    if from < name.len() {
        lemma_base_name(name.drop_last(), from);
        assert(name.drop_last().skip(from).push(name.last()) =~= name.skip(from));
    } else {
        assert(name.skip(from) =~= Seq::<char>::empty());
    }
}

/// The last segment of `name`.
pub fn file_name_of(name: &str) -> (r: String)
    ensures
        r@ == base_name(name@),
{
    let v = to_chars(name);
    let mut from: usize = v.len();
    while from > 0 && v[from - 1] != '/'
        invariant
            from <= v.len(),
            forall|k: int| from <= k < v.len() ==> v@[k] != '/',
        decreases from,
    {
        from = from - 1;
    }
    proof {
        lemma_base_name(v@, from as int);
        assert(v@.skip(from as int) =~= v@.subrange(from as int, v.len() as int));
    }
    slice_text(name, from, v.len())
}

/// Derives the destination subdirectory from a tar-bearing file's name.
pub fn destination_subdir(file_name: &str) -> (d: Destination)
    ensures
        d.subdir@ == subdir_of(file_name@),
        d.warn == subdir_is_fallback(file_name@),
{
    if starts_with(file_name, "control.tar") {
        Destination { subdir: String::from_str("control"), warn: false }
    } else if starts_with(file_name, "data.tar") {
        Destination { subdir: String::from_str("data"), warn: false }
    } else {
        let v = to_chars(file_name);
        let dot: usize = find_char(&v, 0, v.len(), '.');
        proof {
            assert(v@.subrange(0, v.len() as int) =~= v@);
        }
        if dot < v.len() {
            Destination { subdir: slice_text(file_name, 0, dot), warn: true }
        } else {
            Destination { subdir: String::from_str("unknown_tar_content"), warn: true }
        }
    }
}

/// Selects the decompression transform from a file name's suffix alone.
pub fn select_codec(file_name: &str) -> (r: Result<Codec, DebError>)
    ensures
        match r {
            Ok(codec) => codec_of(file_name@) == Some(codec),
            Err(e) => codec_of(file_name@) is None && e@ == (DebErrorView::UnsupportedCompression {
                source: file_name@,
            }),
        },
{
    if ends_with(file_name, ".tar.gz") {
        Ok(Codec::Gzip)
    } else if ends_with(file_name, ".tar.xz") {
        Ok(Codec::Xz)
    } else if ends_with(file_name, ".tar") {
        Ok(Codec::Identity)
    } else {
        Err(DebError::UnsupportedCompression { source: String::from_str(file_name) })
    }
}

} // verus!
