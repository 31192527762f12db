//! The persisted forwarding rule.

use crate::data::generic::CompactUuid;
use crate::data::net::SocketAddress;
use crate::data::rule::{
    RuleConfig, RuleProtocol, RuleStats, RuleStatsView, RuleStatus, RuleTarget, RuleTargetView,
};
use crate::model::digest::{config_material, hash_material};
use vstd::prelude::*;

verus! {

/// A forwarding rule: what to listen on, where to forward to, and what the
/// operator and the runtime last said about it.
#[derive(Debug, PartialEq, Eq)]
pub struct Rule {
    pub id: CompactUuid,
    pub name: String,
    pub listen: SocketAddress,
    pub target: RuleTarget,
    pub protocol: RuleProtocol,
    pub config: RuleConfig,
    pub enabled: bool,
    pub status: RuleStatus,
    pub stats: RuleStats,
    pub remarks: String,
}

pub struct RuleView {
    pub id: Seq<u8>,
    pub name: Seq<char>,
    pub listen: SocketAddress,
    pub target: RuleTargetView,
    pub protocol: RuleProtocol,
    pub config: RuleConfig,
    pub enabled: bool,
    pub status: RuleStatus,
    pub stats: RuleStatsView,
    pub remarks: Seq<char>,
}

impl View for Rule {
    type V = RuleView;

    open spec fn view(&self) -> RuleView {
        RuleView {
            id: self.id@,
            name: self.name@,
            listen: self.listen,
            target: self.target@,
            protocol: self.protocol,
            config: self.config,
            enabled: self.enabled,
            status: self.status,
            stats: self.stats@,
            remarks: self.remarks@,
        }
    }
}

impl Clone for Rule {
    fn clone(&self) -> (copy: Self)
        ensures
            copy@ == self@,
    {
        Rule {
            id: self.id,
            name: self.name.clone(),
            listen: self.listen,
            target: self.target.clone(),
            protocol: self.protocol,
            config: self.config,
            enabled: self.enabled,
            status: self.status,
            stats: self.stats.clone(),
            remarks: self.remarks.clone(),
        }
    }
}

impl Rule {
    /// A 64-bit hash of the rule's config material, by which the manager
    /// tells whether the runtime shape of a rule has changed. The hash is
    /// keyed per process: digests are compared only with digests taken in
    /// the same process, and no value of one is promised.
    pub fn digest_config(&self) -> (digest: u64) {
        let material = config_material(self);
        hash_material(&material)
    }
}

impl RuleView {
    /// Whether the manager wants a forwarder for the rule: the operator
    /// enabled it and no forwarder of it has failed since.
    pub open spec fn wanted(self) -> bool {
        self.enabled && self.status != RuleStatus::Error
    }
}

/// The value a rule's `enabled` flag takes when a serialized rule omits it.
pub fn default_enabled() -> (enabled: bool)
    ensures
        enabled,
{
    true
}

} // verus!
