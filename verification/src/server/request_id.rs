//! Request identifiers.

use crate::data::generic::{spec_uuid_text, CompactUuid};
use vstd::prelude::*;

verus! {

/// Makes the identifier of a request that came without one.
#[derive(Copy, Clone, Debug, Default)]
pub struct RequestIdLayer;

impl RequestIdLayer {
    /// The name of the header that carries a request's identifier. An
    /// identifier that a request brings is kept; the response echoes it.
    pub fn header_name() -> (name: &'static str)
        ensures
            name@ == "x-request-id"@,
    {
        "x-request-id"
    }

    /// A new identifier: a time-ordered UUID, as text.
    pub fn make_request_id(&mut self) -> (id: String)
        ensures
            exists|bytes: Seq<u8>|
                bytes.len() == 16 && bytes[6] / 16 == 7 && bytes[8] / 64 == 2 && id@
                    == #[trigger] spec_uuid_text(bytes),
    {
        let id = CompactUuid::generate();
        assert(id@.len() == 16);
        id.to_text()
    }
}

} // verus!
