//! How a forwarder's traffic turns into a rule's counters.

use crate::data::net::SocketAddress;
use crate::data::rule::{RuleStats, RuleStatsConnections, RuleStatsView};
use crate::data::text::spec_endpoint_text;
use vstd::prelude::*;
use vstd::string::StringExecFns;

verus! {

/// The share of an idle rule's speed, in percent, that one update retains.
pub open spec fn spec_retain_percent(speed: u64) -> int {
    if speed > 1_000_000 {
        40
    } else if speed > 500_000 {
        30
    } else if speed > 25_000 {
        20
    } else if speed > 1_000 {
        10
    } else {
        5
    }
}

/// The speed reported after an update in which `bytes` were transferred
/// in `elapsed_ms` milliseconds: the measured rate where bytes moved in
/// measurable time, the decayed previous speed where none moved, and the
/// previous speed where bytes moved in no measurable time.
pub open spec fn spec_next_speed(previous: u64, bytes: u64, elapsed_ms: u64) -> int {
    if elapsed_ms > 0 && bytes > 0 {
        let rate = bytes * 1000 / (elapsed_ms as int);
        if rate > u64::MAX {
            u64::MAX as int
        } else {
            rate
        }
    } else if bytes == 0 {
        previous * spec_retain_percent(previous) / 100
    } else {
        previous as int
    }
}

/// A cumulative counter after `amount` more, held at the largest value
/// once it is reached.
pub open spec fn spec_accumulate(total: u64, amount: u64) -> int {
    if total + amount > u64::MAX {
        u64::MAX as int
    } else {
        total + amount
    }
}

pub fn retain_percent(speed: u64) -> (percent: u64)
    ensures
        percent == spec_retain_percent(speed),
{
    if speed > 1_000_000 {
        40
    } else if speed > 500_000 {
        30
    } else if speed > 25_000 {
        20
    } else if speed > 1_000 {
        10
    } else {
        5
    }
}

pub fn next_speed(previous: u64, bytes: u64, elapsed_ms: u64) -> (speed: u64)
    ensures
        speed == spec_next_speed(previous, bytes, elapsed_ms),
{
    if elapsed_ms > 0 && bytes > 0 {
        let rate: u128 = (bytes as u128) * 1000 / (elapsed_ms as u128);
        if rate > u64::MAX as u128 {
            u64::MAX
        } else {
            rate as u64
        }
    } else if bytes == 0 {
        let percent = retain_percent(previous);
        assert((previous as int) * (percent as int) <= 0xffff_ffff_ffff_ffff * 40)
            by (nonlinear_arith)
            requires
                0 <= previous <= 0xffff_ffff_ffff_ffff,
                0 <= percent <= 40,
        ;
        let kept: u128 = (previous as u128) * (percent as u128) / 100;
        assert(kept <= previous) by (nonlinear_arith)
            requires
                kept == (previous as int) * (percent as int) / 100,
                0 <= percent <= 100,
        ;
        kept as u64
    } else {
        previous
    }
}

impl RuleStatsView {
    /// The counters after a TCP forwarder's update.
    pub open spec fn after_transfer(self, bytes: u64, elapsed_ms: u64) -> RuleStatsView {
        RuleStatsView {
            bandwidth: spec_accumulate(self.bandwidth, bytes) as u64,
            speed: spec_next_speed(self.speed, bytes, elapsed_ms) as u64,
            ..self
        }
    }

    /// The counters after a UDP forwarder's update, which also reports how
    /// many sessions it holds.
    pub open spec fn after_udp_transfer(
        self,
        bytes: u64,
        elapsed_ms: u64,
        sessions: u64,
    ) -> RuleStatsView {
        RuleStatsView {
            connections: RuleStatsConnections { udp: sessions, ..self.connections },
            ..self.after_transfer(bytes, elapsed_ms)
        }
    }

    /// The counters with one more live TCP connection.
    pub open spec fn after_connection_opened(self) -> RuleStatsView {
        RuleStatsView {
            connections: RuleStatsConnections {
                tcp: spec_accumulate(self.connections.tcp, 1) as u64,
                ..self.connections
            },
            ..self
        }
    }

    /// The counters with one live TCP connection fewer, never below zero.
    pub open spec fn after_connection_closed(self) -> RuleStatsView {
        RuleStatsView {
            connections: RuleStatsConnections {
                tcp: if self.connections.tcp > 0 {
                    (self.connections.tcp - 1) as u64
                } else {
                    0
                },
                ..self.connections
            },
            ..self
        }
    }

    /// The counters after the rule's listener failed to bind.
    pub open spec fn after_bind_failure(self, listen: SocketAddress) -> RuleStatsView {
        RuleStatsView { last_failed_message: spec_bind_failure_message(listen), ..self }
    }

    /// What a starting manager takes over from persisted counters: the
    /// cumulative ones. Speed, live connections and the message start anew.
    pub open spec fn carried_over(self) -> RuleStatsView {
        RuleStatsView {
            bandwidth: self.bandwidth,
            failed_times: self.failed_times,
            ..RuleStatsView::zero()
        }
    }
}

/// The message a rule's counters hold after its listener failed to bind.
pub open spec fn spec_bind_failure_message(listen: SocketAddress) -> Seq<char> {
    "failed to bind to "@ + spec_endpoint_text(listen)
}

pub fn bind_failure_message(listen: &SocketAddress) -> (message: String)
    ensures
        message@ == spec_bind_failure_message(*listen),
{
    let mut message = String::from_str("failed to bind to ");
    let endpoint = listen.to_text();
    message.append(endpoint.as_str());
    message
}

impl RuleStats {
    /// Folds what a TCP forwarder transferred since its last update into
    /// the rule's counters.
    pub fn after_transfer(&self, bytes: u64, elapsed_ms: u64) -> (next: RuleStats)
        ensures
            next@ == self@.after_transfer(bytes, elapsed_ms),
    {
        RuleStats {
            connections: self.connections,
            speed: next_speed(self.speed, bytes, elapsed_ms),
            bandwidth: self.bandwidth.saturating_add(bytes),
            failed_times: self.failed_times,
            last_failed_message: self.last_failed_message.clone(),
        }
    }

    /// Folds what a UDP forwarder transferred since its last update, and
    /// the number of sessions it holds, into the rule's counters.
    pub fn after_udp_transfer(&self, bytes: u64, elapsed_ms: u64, sessions: u64) -> (next:
        RuleStats)
        ensures
            next@ == self@.after_udp_transfer(bytes, elapsed_ms, sessions),
    {
        RuleStats {
            connections: RuleStatsConnections { tcp: self.connections.tcp, udp: sessions },
            speed: next_speed(self.speed, bytes, elapsed_ms),
            bandwidth: self.bandwidth.saturating_add(bytes),
            failed_times: self.failed_times,
            last_failed_message: self.last_failed_message.clone(),
        }
    }

    pub fn after_connection_opened(&self) -> (next: RuleStats)
        ensures
            next@ == self@.after_connection_opened(),
    {
        RuleStats {
            connections: RuleStatsConnections {
                tcp: self.connections.tcp.saturating_add(1),
                udp: self.connections.udp,
            },
            speed: self.speed,
            bandwidth: self.bandwidth,
            failed_times: self.failed_times,
            last_failed_message: self.last_failed_message.clone(),
        }
    }

    pub fn after_connection_closed(&self) -> (next: RuleStats)
        ensures
            next@ == self@.after_connection_closed(),
    {
        RuleStats {
            connections: RuleStatsConnections {
                tcp: self.connections.tcp.saturating_sub(1),
                udp: self.connections.udp,
            },
            speed: self.speed,
            bandwidth: self.bandwidth,
            failed_times: self.failed_times,
            last_failed_message: self.last_failed_message.clone(),
        }
    }

    pub fn after_bind_failure(&self, listen: &SocketAddress) -> (next: RuleStats)
        ensures
            next@ == self@.after_bind_failure(*listen),
    {
        RuleStats {
            connections: self.connections,
            speed: self.speed,
            bandwidth: self.bandwidth,
            failed_times: self.failed_times,
            last_failed_message: bind_failure_message(listen),
        }
    }

    pub fn carried_over(&self) -> (next: RuleStats)
        ensures
            next@ == self@.carried_over(),
    {
        RuleStats {
            connections: RuleStatsConnections { tcp: 0, udp: 0 },
            speed: 0,
            bandwidth: self.bandwidth,
            failed_times: self.failed_times,
            last_failed_message: String::new(),
        }
    }
}

/// What a forwarder reports to the manager about its rule.
#[derive(Copy, Clone, Debug, PartialEq, Eq)]
pub enum ForwarderEvent {
    /// A connection handler has started.
    ConnectionOpened,
    /// A connection handler has ended, in whatever way.
    ConnectionClosed,
    /// A TCP connection's update: so many bytes moved in so many
    /// milliseconds since its last update.
    Transferred { bytes: u64, elapsed_ms: u64 },
    /// A UDP listener's update: so many bytes moved in so many
    /// milliseconds since its last update, and it holds so many sessions.
    UdpTransferred { bytes: u64, elapsed_ms: u64, sessions: u64 },
    /// The listener could not bind to the rule's endpoint.
    BindFailed { listen: SocketAddress },
}

impl ForwarderEvent {
    /// The live counters of the rule after the event.
    pub open spec fn counters_after(self, stats: RuleStatsView) -> RuleStatsView {
        match self {
            ForwarderEvent::ConnectionOpened => stats.after_connection_opened(),
            ForwarderEvent::ConnectionClosed => stats.after_connection_closed(),
            ForwarderEvent::Transferred { bytes, elapsed_ms } => stats.after_transfer(
                bytes,
                elapsed_ms,
            ),
            ForwarderEvent::UdpTransferred { bytes, elapsed_ms, sessions } => stats.after_udp_transfer(
                bytes,
                elapsed_ms,
                sessions,
            ),
            ForwarderEvent::BindFailed { listen } => stats.after_bind_failure(listen),
        }
    }
}

impl ForwarderEvent {
    /// The live counters of the rule after the event.
    pub fn apply(&self, stats: &RuleStats) -> (next: RuleStats)
        ensures
            next@ == self.counters_after(stats@),
    {
        match self {
            ForwarderEvent::ConnectionOpened => stats.after_connection_opened(),
            ForwarderEvent::ConnectionClosed => stats.after_connection_closed(),
            ForwarderEvent::Transferred { bytes, elapsed_ms } => stats.after_transfer(
                *bytes,
                *elapsed_ms,
            ),
            ForwarderEvent::UdpTransferred { bytes, elapsed_ms, sessions } => stats.after_udp_transfer(
                *bytes,
                *elapsed_ms,
                *sessions,
            ),
            ForwarderEvent::BindFailed { listen } => stats.after_bind_failure(listen),
        }
    }
}

/// The bytes that a forwarder's hot paths have moved since its counters
/// were last updated. Adding wraps, as a 64-bit counter does.
pub struct TransferCounter {
    pending: u64,
}

impl View for TransferCounter {
    type V = u64;

    closed spec fn view(&self) -> u64 {
        self.pending
    }
}

impl TransferCounter {
    pub fn new() -> (counter: Self)
        ensures
            counter@ == 0,
    {
        TransferCounter { pending: 0 }
    }

    /// Counts `bytes` more.
    pub fn add(&mut self, bytes: u64)
        ensures
            final(self)@ == (old(self)@ + bytes) % 0x1_0000_0000_0000_0000,
    {
        self.pending = self.pending.wrapping_add(bytes);
    }

    /// Hands out what was counted and starts again from zero.
    pub fn take(&mut self) -> (bytes: u64)
        ensures
            bytes == old(self)@,
            final(self)@ == 0,
    {
        let bytes = self.pending;
        self.pending = 0;
        bytes
    }
}

} // verus!
