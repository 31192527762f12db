//! Host telemetry as the control plane reports it.

use vstd::prelude::*;

verus! {

/// Memory of the host, in bytes.
#[derive(Copy, Clone, Debug, PartialEq, Eq)]
pub struct MemoryInfo {
    pub used: u64,
    pub available: u64,
    pub total: u64,
}

/// Swap space of the host, in bytes.
#[derive(Copy, Clone, Debug, PartialEq, Eq)]
pub struct SwapInfo {
    pub used: u64,
    pub total: u64,
}

/// Traffic of the host since it booted, in bytes, over all interfaces but
/// the loopback.
#[derive(Copy, Clone, Debug, PartialEq, Eq)]
pub struct NetworkInfo {
    pub traffic_sent: u64,
    pub traffic_received: u64,
}

/// What the host is.
#[derive(Debug, PartialEq, Eq)]
pub struct HostInfo {
    pub os_name: String,
    pub os_version: String,
    pub host_name: String,
    pub uptime: u64,
    pub boot_time: u64,
    pub cpu_arch: String,
    pub kernel_version: String,
}

/// The traffic counters of one network interface.
#[derive(Copy, Clone, Debug, PartialEq, Eq)]
pub struct InterfaceTraffic {
    /// Whether the interface is the loopback (`lo` or `lo0`).
    pub loopback: bool,
    pub transmitted: u64,
    pub received: u64,
}

/// The bytes sent over the first `count` interfaces, the loopback left
/// out.
pub open spec fn spec_sent(interfaces: Seq<InterfaceTraffic>, count: nat) -> nat
    decreases count,
{
    if count == 0 {
        0
    } else {
        spec_sent(interfaces, (count - 1) as nat) + if interfaces[count - 1].loopback {
            0
        } else {
            interfaces[count - 1].transmitted as nat
        }
    }
}

/// The bytes received over the first `count` interfaces, the loopback
/// left out.
pub open spec fn spec_received(interfaces: Seq<InterfaceTraffic>, count: nat) -> nat
    decreases count,
{
    if count == 0 {
        0
    } else {
        spec_received(interfaces, (count - 1) as nat) + if interfaces[count - 1].loopback {
            0
        } else {
            interfaces[count - 1].received as nat
        }
    }
}

/// A total that is reported as the largest value once it is reached.
pub open spec fn spec_capped(total: nat) -> u64 {
    if total > u64::MAX {
        u64::MAX
    } else {
        total as u64
    }
}

/// The traffic of the host: the sums over its interfaces, the loopback
/// left out.
pub fn network_info(interfaces: &Vec<InterfaceTraffic>) -> (info: NetworkInfo)
    ensures
        info.traffic_sent == spec_capped(spec_sent(interfaces@, interfaces@.len())),
        info.traffic_received == spec_capped(spec_received(interfaces@, interfaces@.len())),
{
    let mut sent: u64 = 0;
    let mut received: u64 = 0;
    let mut i: usize = 0;
    while i < interfaces.len()
        invariant
            i <= interfaces.len(),
            sent == spec_capped(spec_sent(interfaces@, i as nat)),
            received == spec_capped(spec_received(interfaces@, i as nat)),
        decreases interfaces.len() - i,
    {
        if !interfaces[i].loopback {
            sent = sent.saturating_add(interfaces[i].transmitted);
            received = received.saturating_add(interfaces[i].received);
        }
        i += 1;
    }
    NetworkInfo { traffic_sent: sent, traffic_received: received }
}

} // verus!
