//! The parts of a forwarding rule.

use crate::data::net::SocketAddress;
use vstd::prelude::*;

verus! {

/// How a forwarder picks one of a rule's upstream endpoints.
#[derive(Copy, Clone, Debug, PartialEq, Eq, Structural)]
pub enum RuleTargetPolicy {
    /// Always the first endpoint.
    Fallback,
    /// The endpoints in turn.
    RoundRobin,
    /// Declared; served like `Random`.
    LeastConnections,
    /// Any endpoint, uniformly.
    Random,
}

/// Where a rule forwards to: upstream endpoints in order, and the policy
/// that picks among them.
#[derive(Debug, PartialEq, Eq)]
pub struct RuleTarget {
    pub addrs: Vec<SocketAddress>,
    pub policy: RuleTargetPolicy,
}

pub struct RuleTargetView {
    pub addrs: Seq<SocketAddress>,
    pub policy: RuleTargetPolicy,
}

impl View for RuleTarget {
    type V = RuleTargetView;

    open spec fn view(&self) -> RuleTargetView {
        RuleTargetView { addrs: self.addrs@, policy: self.policy }
    }
}

impl Clone for RuleTarget {
    fn clone(&self) -> (copy: Self)
        ensures
            copy@ == self@,
    {
        let mut addrs: Vec<SocketAddress> = Vec::new();
        let mut i: usize = 0;
        while i < self.addrs.len()
            invariant
                i <= self.addrs.len(),
                addrs@ == self.addrs@.subrange(0, i as int),
            decreases self.addrs.len() - i,
        {
            addrs.push(self.addrs[i]);
            assert(addrs@ =~= self.addrs@.subrange(0, i + 1));
            i += 1;
        }
        assert(addrs@ =~= self.addrs@);
        RuleTarget { addrs, policy: self.policy }
    }
}

/// The transport a rule forwards.
#[derive(Copy, Clone, Debug, PartialEq, Eq, Structural)]
pub enum RuleProtocol {
    Tcp,
    Udp,
    TcpUdp,
}

/// Per-rule limits.
#[derive(Copy, Clone, Debug, PartialEq, Eq)]
pub struct RuleConfig {
    /// Ceiling in bytes per second; kept with the rule, not enforced.
    pub bandwidth: Option<u64>,
    /// Cap on live connections.
    pub connections: Option<u64>,
}

impl Default for RuleConfig {
    fn default() -> (config: Self)
        ensures
            config == (RuleConfig { bandwidth: None, connections: None }),
    {
        RuleConfig { bandwidth: None, connections: None }
    }
}

/// The last runtime state observed of a rule.
#[derive(Copy, Clone, Debug, PartialEq, Eq, Structural)]
pub enum RuleStatus {
    Running,
    Stopped,
    Error,
}

impl Default for RuleStatus {
    fn default() -> (status: Self)
        ensures
            status == RuleStatus::Stopped,
    {
        RuleStatus::Stopped
    }
}

/// Live connection counts of a rule.
#[derive(Copy, Clone, Debug, PartialEq, Eq)]
pub struct RuleStatsConnections {
    pub tcp: u64,
    pub udp: u64,
}

impl Default for RuleStatsConnections {
    fn default() -> (connections: Self)
        ensures
            connections == (RuleStatsConnections { tcp: 0, udp: 0 }),
    {
        RuleStatsConnections { tcp: 0, udp: 0 }
    }
}

/// The counters of a rule.
#[derive(Debug, PartialEq, Eq)]
pub struct RuleStats {
    pub connections: RuleStatsConnections,
    /// Bytes per second, decaying while nothing is transferred.
    pub speed: u64,
    /// Bytes transferred since the last reset.
    pub bandwidth: u64,
    pub failed_times: u64,
    pub last_failed_message: String,
}

pub struct RuleStatsView {
    pub connections: RuleStatsConnections,
    pub speed: u64,
    pub bandwidth: u64,
    pub failed_times: u64,
    pub last_failed_message: Seq<char>,
}

impl View for RuleStats {
    type V = RuleStatsView;

    open spec fn view(&self) -> RuleStatsView {
        RuleStatsView {
            connections: self.connections,
            speed: self.speed,
            bandwidth: self.bandwidth,
            failed_times: self.failed_times,
            last_failed_message: self.last_failed_message@,
        }
    }
}

impl RuleStatsView {
    /// Counters that are all zero, with no message.
    pub open spec fn zero() -> RuleStatsView {
        RuleStatsView {
            connections: RuleStatsConnections { tcp: 0, udp: 0 },
            speed: 0,
            bandwidth: 0,
            failed_times: 0,
            last_failed_message: Seq::empty(),
        }
    }
}

impl Default for RuleStats {
    fn default() -> (stats: Self)
        ensures
            stats@ == RuleStatsView::zero(),
    {
        RuleStats {
            connections: RuleStatsConnections { tcp: 0, udp: 0 },
            speed: 0,
            bandwidth: 0,
            failed_times: 0,
            last_failed_message: String::new(),
        }
    }
}

impl Clone for RuleStats {
    fn clone(&self) -> (copy: Self)
        ensures
            copy@ == self@,
    {
        RuleStats {
            connections: self.connections,
            speed: self.speed,
            bandwidth: self.bandwidth,
            failed_times: self.failed_times,
            last_failed_message: self.last_failed_message.clone(),
        }
    }
}

} // verus!
