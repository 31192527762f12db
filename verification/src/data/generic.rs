//! Rule identifiers.

use crate::data::bytes::bytes_equal;
use crate::data::text::spec_digit;
use vstd::prelude::*;

verus! {

/// `uuid::Uuid`, the outside identifier type, carried through without
/// looking inside.
#[verifier::external_type_specification]
#[verifier::external_body]
pub struct ExUuid(uuid::Uuid);

/// The sixteen bytes that an identifier of the outside crate holds, in
/// the order in which it prints them: what `Uuid::as_bytes` hands out.
pub uninterp spec fn uuid_bytes(id: uuid::Uuid) -> Seq<u8>;

/// `Uuid::as_bytes` hands out the sixteen bytes that the identifier holds.
pub assume_specification[ uuid::Uuid::as_bytes ](id: &uuid::Uuid) -> (bytes: &[u8; 16])
    ensures
        bytes@ == uuid_bytes(*id),
;

/// `Uuid::from_bytes` makes the identifier that holds exactly the given bytes.
pub assume_specification[ uuid::Uuid::from_bytes ](bytes: [u8; 16]) -> (id: uuid::Uuid)
    ensures
        uuid_bytes(id) == bytes@,
;

/// An identifier as text: its bytes in lower-case hexadecimal, two digits
/// each, in groups of 8, 4, 4, 4 and 12 digits with a hyphen between two
/// groups.
pub open spec fn spec_uuid_text(bytes: Seq<u8>) -> Seq<char>
    recommends
        bytes.len() == 16,
{
    Seq::new(
        36,
        |i: int|
            if i == 8 || i == 13 || i == 18 || i == 23 {
                '-'
            } else {
                let hyphens: int = if i > 23 {
                    4
                } else if i > 18 {
                    3
                } else if i > 13 {
                    2
                } else if i > 8 {
                    1
                } else {
                    0
                };
                let digit = i - hyphens;
                let byte = bytes[digit / 2];
                if digit % 2 == 0 {
                    spec_digit((byte / 16) as nat)
                } else {
                    spec_digit((byte % 16) as nat)
                }
            },
    )
}

/// `Uuid::new_v7` on `Timestamp::now(NoContext)`: an identifier made of
/// the current time and random bits. Whatever the time and the bits, it
/// carries version 7 in the upper half of byte 6 and the variant `10` in
/// the top two bits of byte 8.
#[verifier::external_body]
fn fresh_uuid() -> (id: CompactUuid)
    ensures
        id@[6] / 16 == 7,
        id@[8] / 64 == 2,
{
    CompactUuid(uuid::Uuid::new_v7(uuid::Timestamp::now(uuid::NoContext)).into_bytes())
}

/// `Uuid::to_string` of the identifier with these bytes: the hyphenated
/// lower-case form.
#[verifier::external_body]
fn uuid_text(id: &CompactUuid) -> (text: String)
    ensures
        text@ == spec_uuid_text(id@),
{
    uuid::Uuid::from_bytes(id.0).to_string()
}

/// A rule identifier: the sixteen raw bytes of a time-ordered 128-bit id.
#[derive(Copy, Clone, Debug, PartialEq, Eq)]
pub struct CompactUuid(pub [u8; 16]);

impl View for CompactUuid {
    type V = Seq<u8>;

    open spec fn view(&self) -> Seq<u8> {
        self.0@
    }
}

impl CompactUuid {
    /// The identifier that holds the bytes of `uuid`.
    pub fn from_uuid(uuid: uuid::Uuid) -> (id: Self)
        ensures
            id@ == uuid_bytes(uuid),
    {
        CompactUuid(*uuid.as_bytes())
    }

    /// The identifier as the outside crate's type.
    pub fn as_uuid(&self) -> (uuid: uuid::Uuid)
        ensures
            uuid_bytes(uuid) == self@,
    {
        uuid::Uuid::from_bytes(self.0)
    }

    /// A new time-ordered identifier.
    pub fn generate() -> (id: Self)
        ensures
            id@[6] / 16 == 7,
            id@[8] / 64 == 2,
    {
        fresh_uuid()
    }

    /// The identifier as text, such as
    /// `0190a6fc-3b1e-7c52-9d3e-0123456789ab`.
    pub fn to_text(&self) -> (text: String)
        ensures
            text@ == spec_uuid_text(self@),
    {
        uuid_text(self)
    }

    /// Whether two identifiers hold the same bytes.
    pub fn same(&self, other: &CompactUuid) -> (equal: bool)
        ensures
            equal == (self@ == other@),
    {
        bytes_equal(self.0.as_slice(), other.0.as_slice())
    }
}

} // verus!
