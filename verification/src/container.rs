//! Reading the outer `ar` container of a package.
//!
//! The bytes are first screened by verified code for the plain layout that
//! Debian packages use, and are then handed to the `ar` crate entry by entry.

use crate::error::DebError;
use crate::error::DebErrorView;
use std::io::Read;
use vstd::prelude::*;

verus! {

/// The length of an entry header.
pub const HEADER_LEN: usize = 60;

/// The length of the magic string that opens a container.
pub const GLOBAL_HEADER_LEN: usize = 8;

/// One member of a container: its raw identifier and its content.
#[derive(Debug, Clone, PartialEq, Eq)]
pub struct ArchiveMember {
    pub identifier: Vec<u8>,
    pub content: Vec<u8>,
}

impl View for ArchiveMember {
    type V = (Seq<u8>, Seq<u8>);

    open spec fn view(&self) -> (Seq<u8>, Seq<u8>) {
        (self.identifier@, self.content@)
    }
}

/// The views of a run of members.
pub open spec fn members_view(members: Seq<ArchiveMember>) -> Seq<(Seq<u8>, Seq<u8>)> {
    members.map_values(|m: ArchiveMember| m@)
}

/// Whether `b` is an ASCII digit.
pub open spec fn is_digit(b: u8) -> bool {
    0x30 <= b <= 0x39
}

/// The number of ASCII digits that `field` begins with.
pub open spec fn leading_digits(field: Seq<u8>) -> int
    decreases field.len(),
{
    if field.len() > 0 && is_digit(field[0]) {
        1 + leading_digits(field.drop_first())
    } else {
        0
    }
}

/// The number that a run of ASCII digits writes in base ten.
pub open spec fn decimal_value(digits: Seq<u8>) -> nat
    decreases digits.len(),
{
    if digits.len() == 0 {
        0
    } else {
        decimal_value(digits.drop_last()) * 10 + (digits.last() - 0x30) as nat
    }
}

/// The value of a header's size field when it is written plainly: one or
/// more digits, padded to the field's width with spaces.
pub open spec fn plain_size(field: Seq<u8>) -> Option<nat> {
    let n = leading_digits(field);
    if n >= 1 && (forall|k: int| n <= k < field.len() ==> field[k] == 0x20) {
        Some(decimal_value(field.take(n)))
    } else {
        None
    }
}

/// Whether the identifier field that starts at `offset` marks an entry of
/// one of the extended forms: it begins with `/` (a GNU symbol table, a GNU
/// name table or a reference into one) or with `#1/` (a BSD name that is
/// stored in front of the content).
pub open spec fn extended_identifier(bytes: Seq<u8>, offset: int) -> bool {
    ||| bytes[offset] == 0x2F
    ||| (bytes[offset] == 0x23 && bytes[offset + 1] == 0x31 && bytes[offset + 2] == 0x2F)
}

/// Whether every entry header from `offset` on is plain: its identifier is
/// not of an extended form, and its size field is plainly written. A header
/// is looked for wherever sixty bytes are left; the next one follows the
/// content, which is padded to an even length. This is the layout of a
/// Debian package, which knows no long names.
pub open spec fn plain_layout(bytes: Seq<u8>, offset: int) -> bool
    decreases bytes.len() - offset,
{
    if offset < 0 || bytes.len() - offset < HEADER_LEN {
        true
    } else {
        &&& !extended_identifier(bytes, offset)
        &&& plain_size(bytes.subrange(offset + 48, offset + 58)) matches Some(size)
        &&& offset + HEADER_LEN + size + size % 2 <= bytes.len() ==> plain_layout(
            bytes,
            offset + HEADER_LEN + size + size % 2,
        )
    }
}

/// Ten to the power `n`.
spec fn pow10(n: nat) -> nat
    decreases n,
{
    if n == 0 {
        1
    } else {
        10 * pow10((n - 1) as nat)
    }
}

/// No power of ten up to the tenth exceeds ten digits' reach.
proof fn lemma_pow10_bound(n: nat)
    requires
        n <= 10,
    ensures
        pow10(n) <= 10_000_000_000,
    decreases 10 - n,
{
    if n < 10 {
        lemma_pow10_bound(n + 1);
    } else {
        assert(pow10(10) == 10_000_000_000) by {
            reveal_with_fuel(pow10, 11);
        }
    }
}

/// A run of digits that ends at `n` is the whole run of leading digits.
proof fn lemma_leading_digits(field: Seq<u8>, n: int)
    requires
        0 <= n <= field.len(),
        forall|k: int| 0 <= k < n ==> is_digit(field[k]),
        n < field.len() ==> !is_digit(field[n]),
    ensures
        leading_digits(field) == n,
    decreases n,
{
    if n > 0 {
        let rest = field.drop_first();
        assert forall|k: int| 0 <= k < n - 1 implies is_digit(rest[k]) by {
            assert(rest[k] == field[k + 1]);
        }
        lemma_leading_digits(rest, n - 1);
    }
}

/// Reads the size field that starts at `at`.
pub fn parse_plain_size(bytes: &[u8], at: usize) -> (r: Option<u64>)
    requires
        at + 10 <= bytes.len(),
    ensures
        match r {
            Some(size) => size < 10_000_000_000 && plain_size(
                bytes@.subrange(at as int, at + 10),
            ) == Some(size as nat),
            None => plain_size(bytes@.subrange(at as int, at + 10)) is None,
        },
{
    let ghost field = bytes@.subrange(at as int, at + 10);
    let mut i: usize = 0;
    let mut value: u64 = 0;
    while i < 10 && 0x30 <= bytes[at + i] && bytes[at + i] <= 0x39
        invariant
            i <= 10,
            at + 10 <= bytes.len(),
            field == bytes@.subrange(at as int, at + 10),
            forall|k: int| 0 <= k < i ==> is_digit(field[k]),
            value == decimal_value(field.take(i as int)),
            value < pow10(i as nat),
        decreases 10 - i,
    {
        proof {
            lemma_pow10_bound(i as nat);
            lemma_pow10_bound((i + 1) as nat);
            assert(field.take(i + 1).drop_last() =~= field.take(i as int));
            assert(field.take(i + 1).last() == bytes@[at + i]);
        }
        value = value * 10 + (bytes[at + i] - 0x30) as u64;
        i = i + 1;
    }
    proof {
        lemma_leading_digits(field, i as int);
        lemma_pow10_bound(i as nat);
    }
    if i == 0 {
        return None;
    }
    let digits: usize = i;
    while i < 10
        invariant
            1 <= digits <= i <= 10,
            at + 10 <= bytes.len(),
            field == bytes@.subrange(at as int, at + 10),
            leading_digits(field) == digits,
            value == decimal_value(field.take(digits as int)),
            value < 10_000_000_000,
            forall|k: int| digits <= k < i ==> field[k] == 0x20,
        decreases 10 - i,
    {
        if bytes[at + i] != 0x20 {
            assert(field[i as int] != 0x20);
            return None;
        }
        i = i + 1;
    }
    Some(value)
}

/// Decides whether the container has the plain layout throughout.
pub fn screen_container(bytes: &[u8]) -> (ok: bool)
    ensures
        ok == plain_layout(bytes@, GLOBAL_HEADER_LEN as int),
{
    let len: usize = bytes.len();
    if len < GLOBAL_HEADER_LEN {
        return true;
    }
    let mut offset: usize = GLOBAL_HEADER_LEN;
    loop
        invariant
            len == bytes.len(),
            GLOBAL_HEADER_LEN <= offset <= len,
            plain_layout(bytes@, GLOBAL_HEADER_LEN as int) == plain_layout(bytes@, offset as int),
        decreases len - offset,
    {
        if len - offset < HEADER_LEN {
            return true;
        }
        if bytes[offset] == 0x2F || (bytes[offset] == 0x23 && bytes[offset + 1] == 0x31
            && bytes[offset + 2] == 0x2F) {
            return false;
        }
        match parse_plain_size(bytes, offset + 48) {
            None => {
                return false;
            },
            Some(size) => {
                let step: u64 = size + size % 2;
                let room: usize = len - offset - HEADER_LEN;
                if step > room as u64 {
                    return true;
                }
                offset = offset + HEADER_LEN + step as usize;
            },
        }
    }
}

/// `std::io::Error`, the error of the outside readers. It is only carried
/// through: nothing is read from it.
#[verifier::external_type_specification]
#[verifier::external_body]
pub struct ExIoError(std::io::Error);

/// A forward-only cursor over the members of a container held in memory.
/// It owns an `ar::Archive` over the bytes it was opened on.
#[verifier::external_body]
pub struct ContainerReader<'a> {
    archive: ar::Archive<&'a [u8]>,
}

/// What successive calls of `ar::Archive::next_entry` yield on a fresh
/// archive over `bytes`, each entry read to its end before the next call:
/// `Some` of identifier and content for an entry, `None` for an error.
pub uninterp spec fn container_listing(bytes: Seq<u8>) -> Seq<Option<(Seq<u8>, Seq<u8>)>>;

/// What the reader has yet to yield.
pub uninterp spec fn pending_members(reader: ContainerReader) -> Seq<Option<(Seq<u8>, Seq<u8>)>>;

/// The bytes that the reader was opened on.
pub uninterp spec fn reader_source(reader: ContainerReader) -> Seq<u8>;

/// `ar::Archive::new` on a byte slice. Nothing is read yet: the reader still
/// has the whole listing of its bytes to yield.
#[verifier::external_body]
fn open_container<'a>(bytes: &'a [u8]) -> (reader: ContainerReader<'a>)
    ensures
        reader_source(reader) == bytes@,
        pending_members(reader) == container_listing(bytes@),
{
    ContainerReader { archive: ar::Archive::new(bytes) }
}

/// `ar::Archive::next_entry`, with the entry's identifier copied and its
/// content read to the end. It yields the head of what was pending and
/// leaves the rest; with nothing pending it yields `None`. On bytes of the
/// plain layout every header that `ar` reads stands where the layout puts
/// it, so `ar` never meets an identifier that sends it to a name table,
/// the one place where it indexes without a check.
#[verifier::external_body]
fn next_member(reader: &mut ContainerReader) -> (r: Option<Result<ArchiveMember, std::io::Error>>)
    requires
        plain_layout(reader_source(*old(reader)), GLOBAL_HEADER_LEN as int),
    ensures
        reader_source(*final(reader)) == reader_source(*old(reader)),
        pending_members(*old(reader)).len() == 0 ==> r is None && pending_members(*final(reader))
            == pending_members(*old(reader)),
        pending_members(*old(reader)).len() > 0 ==> r is Some && pending_members(*final(reader))
            == pending_members(*old(reader)).drop_first(),
        pending_members(*old(reader)).len() > 0 ==> match r {
            Some(Ok(member)) => pending_members(*old(reader))[0] == Some(member@),
            _ => pending_members(*old(reader))[0] is None,
        },
{
    match reader.archive.next_entry() {
        None => None,
        Some(Err(e)) => Some(Err(e)),
        Some(Ok(mut entry)) => {
            let identifier = entry.header().identifier().to_vec();
            let mut content = Vec::new();
            match entry.read_to_end(&mut content) {
                Ok(_) => Some(Ok(ArchiveMember { identifier, content })),
                Err(e) => Some(Err(e)),
            }
        },
    }
}

/// Whether the container can be read to its end: it has the plain layout
/// and no entry of its listing is an error.
pub open spec fn container_readable(bytes: Seq<u8>) -> bool {
    &&& plain_layout(bytes, GLOBAL_HEADER_LEN as int)
    &&& forall|i: int|
        0 <= i < container_listing(bytes).len() ==> (#[trigger] container_listing(bytes)[i]) is Some
}

/// The members of a readable container, in the order in which they stand.
pub open spec fn container_members(bytes: Seq<u8>) -> Seq<(Seq<u8>, Seq<u8>)> {
    container_listing(bytes).map_values(|entry: Option<(Seq<u8>, Seq<u8>)>| entry.unwrap())
}

/// Reads every member of the container, or fails on the first that cannot
/// be read. There is no partial result.
pub fn read_members(bytes: &[u8]) -> (r: Result<Vec<ArchiveMember>, DebError>)
    ensures
        match r {
            Ok(members) => container_readable(bytes@) && members_view(members@)
                == container_members(bytes@),
            Err(e) => !container_readable(bytes@) && e@ == DebErrorView::MalformedContainer,
        },
{
    if !screen_container(bytes) {
        return Err(DebError::MalformedContainer);
    }
    let ghost listing = container_listing(bytes@);
    let mut reader = open_container(bytes);
    let mut members: Vec<ArchiveMember> = Vec::new();
    loop
        invariant
            listing == container_listing(bytes@),
            reader_source(reader) == bytes@,
            plain_layout(bytes@, GLOBAL_HEADER_LEN as int),
            members.len() + pending_members(reader).len() == listing.len(),
            forall|i: int| 0 <= i < members.len() ==> listing[i] == Some(#[trigger] members@[i]@),
            forall|i: int|
                0 <= i < pending_members(reader).len() ==> #[trigger] pending_members(reader)[i]
                    == listing[members.len() + i],
        decreases pending_members(reader).len(),
    {
        let ghost before = pending_members(reader);
        match next_member(&mut reader) {
            None => {
                proof {
                    assert(before.len() == 0);
                    assert forall|i: int| 0 <= i < listing.len() implies (#[trigger] listing[i])
                        == Some(members@[i]@) by {}
                    assert(members_view(members@) =~= container_members(bytes@));
                }
                return Ok(members);
            },
            Some(Err(_)) => {
                proof {
                    assert(before[0] == listing[members.len() as int]);
                    assert(listing[members.len() as int] is None);
                }
                return Err(DebError::MalformedContainer);
            },
            Some(Ok(member)) => {
                proof {
                    assert(before[0] == listing[members.len() as int]);
                    assert forall|i: int|
                        0 <= i < pending_members(reader).len() implies #[trigger] pending_members(
                        reader,
                    )[i] == listing[members.len() + 1 + i] by {
                        assert(pending_members(reader)[i] == before[i + 1]);
                    }
                }
                members.push(member);
            },
        }
    }
}

} // verus!
