//! The bytes that stand for a rule's runtime shape, and their hash.
//!
//! A rule's digest is a hash of its config material: a byte string made of
//! `listen`, `target`, `protocol` and `config` and of nothing else. The
//! material is laid out in fixed-width fields, so that two rules have the
//! same material exactly when those four fields agree.

use crate::data::net::{IpAddress, SocketAddress};
use crate::data::rule::{RuleProtocol, RuleTargetPolicy};
use crate::model::rule::{Rule, RuleView};
use std::hash::Hasher;
use vstd::bytes::{
    lemma_auto_spec_u16_to_from_le_bytes, lemma_auto_spec_u64_to_from_le_bytes,
    spec_u16_to_le_bytes, spec_u64_to_le_bytes, u16_to_le_bytes, u64_to_le_bytes,
};
use vstd::prelude::*;

verus! {

/// Bytes that one endpoint takes in the material.
pub const ENDPOINT_WIDTH: usize = 19;

/// Bytes that one optional limit takes in the material.
pub const LIMIT_WIDTH: usize = 9;

pub open spec fn spec_policy_byte(policy: RuleTargetPolicy) -> u8 {
    match policy {
        RuleTargetPolicy::Fallback => 0,
        RuleTargetPolicy::RoundRobin => 1,
        RuleTargetPolicy::LeastConnections => 2,
        RuleTargetPolicy::Random => 3,
    }
}

pub open spec fn spec_protocol_byte(protocol: RuleProtocol) -> u8 {
    match protocol {
        RuleProtocol::Tcp => 0,
        RuleProtocol::Udp => 1,
        RuleProtocol::TcpUdp => 2,
    }
}

/// An endpoint in the material: the family (4 or 6), sixteen octets (an
/// IPv4 address is followed by twelve zeros) and the port, low byte first.
pub open spec fn spec_endpoint_bytes(endpoint: SocketAddress) -> Seq<u8> {
    match endpoint.ip {
        IpAddress::V4(octets) => seq![4u8] + octets@ + Seq::new(12, |i: int| 0u8)
            + spec_u16_to_le_bytes(endpoint.port),
        IpAddress::V6(octets) => seq![6u8] + octets@ + spec_u16_to_le_bytes(endpoint.port),
    }
}

/// An optional limit in the material: a presence byte, then the value
/// (zero when absent), low byte first.
pub open spec fn spec_limit_bytes(limit: Option<u64>) -> Seq<u8> {
    match limit {
        None => seq![0u8] + spec_u64_to_le_bytes(0),
        Some(value) => seq![1u8] + spec_u64_to_le_bytes(value),
    }
}

/// The endpoints of a target, one after the other.
pub open spec fn spec_endpoints_bytes(endpoints: Seq<SocketAddress>) -> Seq<u8>
    decreases endpoints.len(),
{
    if endpoints.len() == 0 {
        Seq::empty()
    } else {
        spec_endpoints_bytes(endpoints.drop_last()) + spec_endpoint_bytes(endpoints.last())
    }
}

/// The config material of a rule: `listen`, the target's policy and
/// endpoints, `protocol`, and the two limits of `config`.
pub open spec fn spec_config_material(rule: RuleView) -> Seq<u8> {
    spec_endpoint_bytes(rule.listen) + seq![spec_policy_byte(rule.target.policy)]
        + spec_endpoints_bytes(rule.target.addrs) + seq![spec_protocol_byte(rule.protocol)]
        + spec_limit_bytes(rule.config.bandwidth) + spec_limit_bytes(rule.config.connections)
}

/// Whether two rules agree on every field that shapes a forwarder.
pub open spec fn same_config(a: RuleView, b: RuleView) -> bool {
    &&& a.listen == b.listen
    &&& a.target == b.target
    &&& a.protocol == b.protocol
    &&& a.config == b.config
}

pub proof fn lemma_endpoint_bytes_len(endpoint: SocketAddress)
    ensures
        spec_endpoint_bytes(endpoint).len() == ENDPOINT_WIDTH,
{
    lemma_auto_spec_u16_to_from_le_bytes();
}

pub proof fn lemma_limit_bytes_len(limit: Option<u64>)
    ensures
        spec_limit_bytes(limit).len() == LIMIT_WIDTH,
{
    lemma_auto_spec_u64_to_from_le_bytes();
}

pub proof fn lemma_endpoints_bytes_len(endpoints: Seq<SocketAddress>)
    ensures
        spec_endpoints_bytes(endpoints).len() == ENDPOINT_WIDTH * endpoints.len(),
    decreases endpoints.len(),
{
    if endpoints.len() > 0 {
        lemma_endpoints_bytes_len(endpoints.drop_last());
        lemma_endpoint_bytes_len(endpoints.last());
    }
}

/// An endpoint can be read back from its bytes.
pub proof fn lemma_endpoint_bytes_injective(a: SocketAddress, b: SocketAddress)
    requires
        spec_endpoint_bytes(a) == spec_endpoint_bytes(b),
    ensures
        a == b,
{
    lemma_auto_spec_u16_to_from_le_bytes();
    let sa = spec_endpoint_bytes(a);
    let sb = spec_endpoint_bytes(b);
    assert(sa[0] == sb[0]);
    assert(sa.subrange(17, 19) == sb.subrange(17, 19));
    assert(sa.subrange(17, 19) =~= spec_u16_to_le_bytes(a.port));
    assert(sb.subrange(17, 19) =~= spec_u16_to_le_bytes(b.port));
    assert(a.port == b.port);
    match (a.ip, b.ip) {
        (IpAddress::V4(x), IpAddress::V4(y)) => {
            assert forall|i: int| 0 <= i < 4 implies x[i] == y[i] by {
                assert(sa[1 + i] == x@[i]);
                assert(sb[1 + i] == y@[i]);
            }
            assert(x =~= y);
        },
        (IpAddress::V6(x), IpAddress::V6(y)) => {
            assert forall|i: int| 0 <= i < 16 implies x[i] == y[i] by {
                assert(sa[1 + i] == x@[i]);
                assert(sb[1 + i] == y@[i]);
            }
            assert(x =~= y);
        },
        _ => {},
    }
}

/// An optional limit can be read back from its bytes.
pub proof fn lemma_limit_bytes_injective(a: Option<u64>, b: Option<u64>)
    requires
        spec_limit_bytes(a) == spec_limit_bytes(b),
    ensures
        a == b,
{
    lemma_auto_spec_u64_to_from_le_bytes();
    let sa = spec_limit_bytes(a);
    let sb = spec_limit_bytes(b);
    assert(sa[0] == sb[0]);
    assert(sa.subrange(1, 9) == sb.subrange(1, 9));
    assert(spec_u64_to_le_bytes(0).len() == 8);
    match (a, b) {
        (Some(x), Some(y)) => {
            assert(spec_u64_to_le_bytes(x).len() == 8 && spec_u64_to_le_bytes(y).len() == 8);
            assert(sa.subrange(1, 9) =~= spec_u64_to_le_bytes(x));
            assert(sb.subrange(1, 9) =~= spec_u64_to_le_bytes(y));
            assert(x == y);
        },
        (Some(x), None) => {
            assert(sa[0] == 1u8);
            assert(sb[0] == 0u8);
        },
        (None, Some(y)) => {
            assert(sa[0] == 0u8);
            assert(sb[0] == 1u8);
        },
        (None, None) => {},
    }
}

/// A list of endpoints can be read back from its bytes.
pub proof fn lemma_endpoints_bytes_injective(a: Seq<SocketAddress>, b: Seq<SocketAddress>)
    requires
        spec_endpoints_bytes(a) == spec_endpoints_bytes(b),
    ensures
        a == b,
    decreases a.len(),
{
    lemma_endpoints_bytes_len(a);
    lemma_endpoints_bytes_len(b);
    assert(a.len() == b.len());
    if a.len() > 0 {
        let head_a = spec_endpoints_bytes(a.drop_last());
        let head_b = spec_endpoints_bytes(b.drop_last());
        let whole = spec_endpoints_bytes(a);
        lemma_endpoints_bytes_len(a.drop_last());
        lemma_endpoints_bytes_len(b.drop_last());
        lemma_endpoint_bytes_len(a.last());
        lemma_endpoint_bytes_len(b.last());
        let cut = head_a.len() as int;
        assert(head_b.len() == cut);
        assert(whole.subrange(0, cut) =~= head_a);
        assert(whole.subrange(0, cut) =~= head_b);
        assert(whole.subrange(cut, whole.len() as int) =~= spec_endpoint_bytes(a.last()));
        assert(whole.subrange(cut, whole.len() as int) =~= spec_endpoint_bytes(b.last()));
        lemma_endpoints_bytes_injective(a.drop_last(), b.drop_last());
        lemma_endpoint_bytes_injective(a.last(), b.last());
        assert(a =~= a.drop_last().push(a.last()));
        assert(b =~= b.drop_last().push(b.last()));
    } else {
        assert(a =~= b);
    }
}

/// Two rules have the same config material exactly when they agree on
/// `listen`, `target`, `protocol` and `config`. Nothing else of a rule
/// (its id, name, remarks, `enabled`, status or counters) enters it.
pub proof fn config_material_identifies_config(a: RuleView, b: RuleView)
    ensures
        spec_config_material(a) == spec_config_material(b) <==> same_config(a, b),
{
    if same_config(a, b) {
        assert(spec_config_material(a) == spec_config_material(b));
    }
    if spec_config_material(a) == spec_config_material(b) {
        let ma = spec_config_material(a);
        let mb = spec_config_material(b);
        lemma_endpoint_bytes_len(a.listen);
        lemma_endpoint_bytes_len(b.listen);
        lemma_endpoints_bytes_len(a.target.addrs);
        lemma_endpoints_bytes_len(b.target.addrs);
        lemma_limit_bytes_len(a.config.bandwidth);
        lemma_limit_bytes_len(b.config.bandwidth);
        lemma_limit_bytes_len(a.config.connections);
        lemma_limit_bytes_len(b.config.connections);
        let n = a.target.addrs.len() as int;
        assert(ma.len() == 39 + 19 * n);
        assert(b.target.addrs.len() == n);
        assert(ma.subrange(0, 19) =~= spec_endpoint_bytes(a.listen));
        assert(mb.subrange(0, 19) =~= spec_endpoint_bytes(b.listen));
        lemma_endpoint_bytes_injective(a.listen, b.listen);
        assert(ma[19] == spec_policy_byte(a.target.policy));
        assert(mb[19] == spec_policy_byte(b.target.policy));
        assert(ma.subrange(20, 20 + 19 * n) =~= spec_endpoints_bytes(a.target.addrs));
        assert(mb.subrange(20, 20 + 19 * n) =~= spec_endpoints_bytes(b.target.addrs));
        lemma_endpoints_bytes_injective(a.target.addrs, b.target.addrs);
        assert(ma[20 + 19 * n] == spec_protocol_byte(a.protocol));
        assert(mb[20 + 19 * n] == spec_protocol_byte(b.protocol));
        assert(ma.subrange(21 + 19 * n, 30 + 19 * n) =~= spec_limit_bytes(a.config.bandwidth));
        assert(mb.subrange(21 + 19 * n, 30 + 19 * n) =~= spec_limit_bytes(b.config.bandwidth));
        lemma_limit_bytes_injective(a.config.bandwidth, b.config.bandwidth);
        assert(ma.subrange(30 + 19 * n, 39 + 19 * n) =~= spec_limit_bytes(
            a.config.connections,
        ));
        assert(mb.subrange(30 + 19 * n, 39 + 19 * n) =~= spec_limit_bytes(
            b.config.connections,
        ));
        lemma_limit_bytes_injective(a.config.connections, b.config.connections);
    }
}

fn policy_byte(policy: RuleTargetPolicy) -> (byte: u8)
    ensures
        byte == spec_policy_byte(policy),
{
    match policy {
        RuleTargetPolicy::Fallback => 0,
        RuleTargetPolicy::RoundRobin => 1,
        RuleTargetPolicy::LeastConnections => 2,
        RuleTargetPolicy::Random => 3,
    }
}

fn protocol_byte(protocol: RuleProtocol) -> (byte: u8)
    ensures
        byte == spec_protocol_byte(protocol),
{
    match protocol {
        RuleProtocol::Tcp => 0,
        RuleProtocol::Udp => 1,
        RuleProtocol::TcpUdp => 2,
    }
}

/// Appends `bytes` to `out`.
fn push_all(out: &mut Vec<u8>, bytes: &[u8])
    ensures
        final(out)@ == old(out)@ + bytes@,
{
    let mut i: usize = 0;
    while i < bytes.len()
        invariant
            i <= bytes.len(),
            out@ == old(out)@ + bytes@.subrange(0, i as int),
        decreases bytes.len() - i,
    {
        out.push(bytes[i]);
        assert(out@ =~= old(out)@ + bytes@.subrange(0, i + 1));
        i += 1;
    }
    assert(bytes@.subrange(0, bytes.len() as int) =~= bytes@);
}

fn push_endpoint(out: &mut Vec<u8>, endpoint: &SocketAddress)
    ensures
        final(out)@ == old(out)@ + spec_endpoint_bytes(*endpoint),
{
    match endpoint.ip {
        IpAddress::V4(octets) => {
            out.push(4);
            push_all(out, octets.as_slice());
            let mut i: usize = 0;
            while i < 12
                invariant
                    i <= 12,
                    out@ == old(out)@ + seq![4u8] + octets@ + Seq::new(i as nat, |k: int| 0u8),
                decreases 12 - i,
            {
                out.push(0);
                assert(out@ =~= old(out)@ + seq![4u8] + octets@ + Seq::new(
                    (i + 1) as nat,
                    |k: int| 0u8,
                ));
                i += 1;
            }
            let port = u16_to_le_bytes(endpoint.port);
            push_all(out, port.as_slice());
            assert(out@ =~= old(out)@ + spec_endpoint_bytes(*endpoint));
        },
        IpAddress::V6(octets) => {
            out.push(6);
            push_all(out, octets.as_slice());
            let port = u16_to_le_bytes(endpoint.port);
            push_all(out, port.as_slice());
            assert(out@ =~= old(out)@ + spec_endpoint_bytes(*endpoint));
        },
    }
}

fn push_limit(out: &mut Vec<u8>, limit: Option<u64>)
    ensures
        final(out)@ == old(out)@ + spec_limit_bytes(limit),
{
    match limit {
        None => {
            out.push(0);
            let value = u64_to_le_bytes(0);
            push_all(out, value.as_slice());
        },
        Some(v) => {
            out.push(1);
            let value = u64_to_le_bytes(v);
            push_all(out, value.as_slice());
        },
    }
    assert(out@ =~= old(out)@ + spec_limit_bytes(limit));
}

/// The config material of `rule`.
pub fn config_material(rule: &Rule) -> (material: Vec<u8>)
    ensures
        material@ == spec_config_material(rule@),
{
    let mut out: Vec<u8> = Vec::new();
    push_endpoint(&mut out, &rule.listen);
    out.push(policy_byte(rule.target.policy));
    let ghost head = out@;
    let mut i: usize = 0;
    while i < rule.target.addrs.len()
        invariant
            i <= rule.target.addrs.len(),
            out@ == head + spec_endpoints_bytes(rule.target.addrs@.subrange(0, i as int)),
        decreases rule.target.addrs.len() - i,
    {
        push_endpoint(&mut out, &rule.target.addrs[i]);
        proof {
            let next = rule.target.addrs@.subrange(0, i + 1);
            assert(next.drop_last() =~= rule.target.addrs@.subrange(0, i as int));
            assert(out@ =~= head + spec_endpoints_bytes(next));
        }
        i += 1;
    }
    assert(rule.target.addrs@.subrange(0, i as int) =~= rule.target.addrs@);
    out.push(protocol_byte(rule.protocol));
    push_limit(&mut out, rule.config.bandwidth);
    push_limit(&mut out, rule.config.connections);
    assert(out@ =~= spec_config_material(rule@));
    out
}

/// `AHasher::default()` followed by `Hasher::write` of the bytes and
/// `Hasher::finish`. The hasher's keys are drawn once per process, so the
/// value is fixed only within one process and nothing is claimed of it.
#[verifier::external_body]
pub(crate) fn hash_material(material: &Vec<u8>) -> (digest: u64) {
    let mut hasher = ahash::AHasher::default();
    hasher.write(material);
    hasher.finish()
}

} // verus!
