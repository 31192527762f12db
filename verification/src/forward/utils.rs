//! Choosing an upstream endpoint, and the file-descriptor limit to ask for.

use crate::data::net::SocketAddress;
use crate::data::rule::{RuleTarget, RuleTargetPolicy, RuleTargetView};
use rand::Rng;
use vstd::prelude::*;

verus! {

/// The file-descriptor limit asked for by default.
pub const DEFAULT_NOFILE_LIMIT: u64 = 65_536;

/// The file-descriptor limit asked for when the expanded limit is on.
pub const EXPANDED_NOFILE_LIMIT: u64 = 1_048_576;

/// The soft file-descriptor limit to ask the system for: the default
/// target or the expanded one, and never more than the hard limit.
pub fn nofile_target(expanded: bool, hard: u64) -> (target: u64)
    ensures
        target == if expanded {
            if EXPANDED_NOFILE_LIMIT <= hard {
                EXPANDED_NOFILE_LIMIT
            } else {
                hard
            }
        } else {
            if DEFAULT_NOFILE_LIMIT <= hard {
                DEFAULT_NOFILE_LIMIT
            } else {
                hard
            }
        },
{
    let wanted = if expanded {
        EXPANDED_NOFILE_LIMIT
    } else {
        DEFAULT_NOFILE_LIMIT
    };
    if wanted <= hard {
        wanted
    } else {
        hard
    }
}

/// `rand::rng()` and `Rng::random_range` over `0..len`: some index below
/// `len`. An empty range makes the outside function panic, so `len` is
/// at least one.
#[verifier::external_body]
fn random_index(len: usize) -> (index: usize)
    requires
        len > 0,
    ensures
        index < len,
{
    rand::rng().random_range(0..len)
}

/// The position in `target.addrs` that a policy picks, given the round
/// robin turn and an index drawn at random.
pub open spec fn spec_target_index(target: RuleTargetView, turn: usize, drawn: usize) -> int {
    match target.policy {
        RuleTargetPolicy::Fallback => 0,
        RuleTargetPolicy::RoundRobin => turn as int % target.addrs.len() as int,
        RuleTargetPolicy::LeastConnections => drawn as int,
        RuleTargetPolicy::Random => drawn as int,
    }
}

/// Whether the policy of a target leaves the choice to chance.
pub open spec fn spec_draws(policy: RuleTargetPolicy) -> bool {
    policy == RuleTargetPolicy::Random || policy == RuleTargetPolicy::LeastConnections
}

/// The upstream endpoint for a new connection or session, where `turn`
/// is this selection's number on the round-robin counter and `drawn` is
/// an index into `target.addrs` drawn at random. `Fallback` takes the
/// first endpoint, `RoundRobin` the one at `turn` modulo the number of
/// endpoints, `Random` the drawn one; `LeastConnections` is served like
/// `Random`.
pub fn select_target_with(target: &RuleTarget, turn: usize, drawn: usize) -> (endpoint:
    SocketAddress)
    requires
        target.addrs.len() > 0,
        drawn < target.addrs.len(),
    ensures
        endpoint == target@.addrs[spec_target_index(target@, turn, drawn)],
        0 <= spec_target_index(target@, turn, drawn) < target.addrs.len(),
{
    match target.policy {
        RuleTargetPolicy::Fallback => target.addrs[0],
        RuleTargetPolicy::RoundRobin => target.addrs[turn % target.addrs.len()],
        RuleTargetPolicy::LeastConnections => target.addrs[drawn],
        RuleTargetPolicy::Random => target.addrs[drawn],
    }
}

/// The upstream endpoint for a new connection or session; `turn` is this
/// selection's number on the round-robin counter. Under `Random` and
/// `LeastConnections` the endpoint is drawn at random from the target's
/// endpoints; under the other policies it is the one that
/// [`select_target_with`] names, whatever is drawn.
pub fn select_target(target: &RuleTarget, turn: usize) -> (endpoint: SocketAddress)
    requires
        target.addrs.len() > 0,
    ensures
        target@.addrs.contains(endpoint),
        !spec_draws(target.policy) ==> endpoint == target@.addrs[spec_target_index(
            target@,
            turn,
            0,
        )],
{
    let drawn = match target.policy {
        RuleTargetPolicy::Random | RuleTargetPolicy::LeastConnections => random_index(
            target.addrs.len(),
        ),
        _ => 0,
    };
    select_target_with(target, turn, drawn)
}

} // verus!
