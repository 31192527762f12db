//! Bearer-token authentication of control-plane requests.

use crate::data::bytes::{starts_with, starts_with_at};
use vstd::prelude::*;

verus! {

/// The status sent with a request that is not let through.
pub const UNAUTHORIZED: u16 = 401;

/// The scheme that an `Authorization` header must begin with, followed
/// by one space.
pub open spec fn spec_bearer_prefix() -> Seq<u8> {
    seq![66u8, 101u8, 97u8, 114u8, 101u8, 114u8, 32u8]
}

/// What a request's `Authorization` header was found to hold.
#[derive(Copy, Clone, Debug, PartialEq, Eq, Structural)]
pub enum AuthOutcome {
    /// The header carries the configured token.
    Granted,
    /// There is no header that can be read.
    Missing,
    /// The header does not begin with `Bearer `.
    Malformed,
    /// The header carries another token.
    Invalid,
}

/// The outcome for a header, if there is one, against the configured
/// token: what follows `Bearer ` must be the token, byte for byte.
pub open spec fn spec_bearer_auth(header: Option<Seq<u8>>, token: Seq<u8>) -> AuthOutcome {
    match header {
        None => AuthOutcome::Missing,
        Some(value) => if !spec_bearer_prefix().is_prefix_of(value) {
            AuthOutcome::Malformed
        } else if value.skip(7) != token {
            AuthOutcome::Invalid
        } else {
            AuthOutcome::Granted
        },
    }
}

fn bearer_prefix() -> (prefix: [u8; 7])
    ensures
        prefix@ == spec_bearer_prefix(),
{
    let prefix: [u8; 7] = [66, 101, 97, 114, 101, 114, 32];
    assert(prefix@ =~= spec_bearer_prefix());
    prefix
}

/// Checks the `Authorization` header of a request against the
/// configured token. A request is let through only with `Granted`.
pub fn bearer_auth(header: Option<&[u8]>, token: &[u8]) -> (outcome: AuthOutcome)
    ensures
        outcome == spec_bearer_auth(
            match header {
                Some(value) => Some(value@),
                None => None,
            },
            token@,
        ),
{
    let value = match header {
        Some(value) => value,
        None => {
            return AuthOutcome::Missing;
        },
    };
    let prefix = bearer_prefix();
    if !starts_with(value, prefix.as_slice()) {
        return AuthOutcome::Malformed;
    }
    if value.len() - 7 == token.len() && starts_with_at(value, 7, token) {
        assert(value@.skip(7) =~= value@.subrange(7, 7 + token@.len() as int));
        AuthOutcome::Granted
    } else {
        assert(value@.skip(7) =~= value@.subrange(7, value@.len() as int));
        AuthOutcome::Invalid
    }
}

impl AuthOutcome {
    /// The message sent with a request that is not let through. The
    /// wording is what clients have come to match on.
    pub fn message(&self) -> (message: &'static str)
        ensures
            message@ == match self {
                AuthOutcome::Granted => ""@,
                AuthOutcome::Missing => "missing authentication token"@,
                AuthOutcome::Malformed => "malformatted authentication token"@,
                AuthOutcome::Invalid => "invalid authentication token"@,
            },
    {
        match self {
            AuthOutcome::Granted => "",
            AuthOutcome::Missing => "missing authentication token",
            AuthOutcome::Malformed => "malformatted authentication token",
            AuthOutcome::Invalid => "invalid authentication token",
        }
    }
}

} // verus!
