//! What the control plane decides before and after it calls the
//! repository or the manager.

pub mod auth;
pub mod controller;
pub mod embed;
pub mod metrics;
pub mod request_id;
pub mod response;

use crate::cli::Cli;
use crate::forward::manager::ForwardManager;
use crate::server::auth::{bearer_auth, spec_bearer_auth, AuthOutcome};
use vstd::prelude::*;

use vstd::utf8::encode_utf8;

verus! {

/// What every handler works on: the settings and the manager, which owns
/// the repository.
pub struct AppState {
    pub cli: Cli,
    pub fm: ForwardManager,
}

impl AppState {
    /// Checks the `Authorization` header of a request against the
    /// configured token.
    pub fn authorize(&self, header: Option<&[u8]>) -> (outcome: AuthOutcome)
        ensures
            outcome == spec_bearer_auth(
                match header {
                    Some(value) => Some(value@),
                    None => None,
                },
                encode_utf8(self.cli.server.auth_token@),
            ),
    {
        bearer_auth(header, self.cli.server.auth_token.as_str().as_bytes())
    }
}

} // verus!
