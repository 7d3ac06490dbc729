//! The identity of a conversation between two hosts, and a hash of it that
//! does not depend on the direction of travel.

use vstd::prelude::*;
use std::collections::hash_map::DefaultHasher;
use std::hash::Hasher;
use vstd::std_specs::hash::DefaultHasherAdditionalSpecFns;
use crate::bytes::{be16_bytes, be32_bytes};

verus! {

/// A hardware address, first octet first.
#[derive(Clone, Copy, Debug, PartialEq, Eq, Structural)]
pub struct MacAddr(pub u8, pub u8, pub u8, pub u8, pub u8, pub u8);

/// The two ends of one observed frame: IPv4 address, port and hardware
/// address of the sender and of the receiver. An address holds its first octet
/// in its most significant byte.
#[derive(Clone, Copy, Debug, PartialEq, Eq, Structural)]
pub struct FlowIdentity {
    pub src_ip: u32,
    pub src_port: u16,
    pub dst_ip: u32,
    pub dst_port: u16,
    pub src_mac: MacAddr,
    pub dst_mac: MacAddr,
}

/// The six octets of a hardware address.
pub open spec fn mac_bytes(m: MacAddr) -> Seq<u8> {
    seq![m.0, m.1, m.2, m.3, m.4, m.5]
}

/// The address and port of one end, as they stand on the wire.
pub open spec fn endpoint_bytes(ip: u32, port: u16) -> Seq<u8> {
    be32_bytes(ip) + be16_bytes(port)
}

/// A hardware address as one number; the order of these numbers is the
/// lexicographic order of the octets.
pub open spec fn mac_rank(m: MacAddr) -> int {
    ((((m.0 as int * 256 + m.1 as int) * 256 + m.2 as int) * 256 + m.3 as int) * 256
        + m.4 as int) * 256 + m.5 as int
}

/// One end as one number; the order of these numbers is the order by
/// address and then by port.
pub open spec fn endpoint_rank(ip: u32, port: u16) -> int {
    ip as int * 65536 + port as int
}

/// The same conversation seen from the other side.
pub open spec fn reversed(flow: FlowIdentity) -> FlowIdentity {
    FlowIdentity {
        src_ip: flow.dst_ip,
        src_port: flow.dst_port,
        dst_ip: flow.src_ip,
        dst_port: flow.src_port,
        src_mac: flow.dst_mac,
        dst_mac: flow.src_mac,
    }
}

/// The two ends of a flow, the greater one first.
pub open spec fn ordered_endpoints(flow: FlowIdentity) -> Seq<u8> {
    if endpoint_rank(flow.src_ip, flow.src_port) > endpoint_rank(flow.dst_ip, flow.dst_port) {
        endpoint_bytes(flow.src_ip, flow.src_port) + endpoint_bytes(flow.dst_ip, flow.dst_port)
    } else {
        endpoint_bytes(flow.dst_ip, flow.dst_port) + endpoint_bytes(flow.src_ip, flow.src_port)
    }
}

/// The two hardware addresses of a flow, the greater one first.
pub open spec fn ordered_macs(flow: FlowIdentity) -> Seq<u8> {
    if mac_rank(flow.src_mac) > mac_rank(flow.dst_mac) {
        mac_bytes(flow.src_mac) + mac_bytes(flow.dst_mac)
    } else {
        mac_bytes(flow.dst_mac) + mac_bytes(flow.src_mac)
    }
}

/// The hash of a flow: the standard hasher fed with the ordered ends and
/// then with the ordered hardware addresses.
pub open spec fn flow_hash(flow: FlowIdentity) -> u64 {
    DefaultHasher::spec_finish(seq![ordered_endpoints(flow), ordered_macs(flow)])
}

impl FlowIdentity {
    /// The same conversation seen from the other side: the flow of a reply
    /// to a frame of this flow.
    pub fn swapped(&self) -> (r: FlowIdentity)
        ensures
            r == reversed(*self),
    {
        FlowIdentity {
            src_ip: self.dst_ip,
            src_port: self.dst_port,
            dst_ip: self.src_ip,
            dst_port: self.src_port,
            src_mac: self.dst_mac,
            dst_mac: self.src_mac,
        }
    }
}

fn mac_rank_of(m: MacAddr) -> (r: u64)
    ensures
        r == mac_rank(m),
{
    let a: u64 = (m.0 as u64 * 256 + m.1 as u64) * 256 + m.2 as u64;
    let b: u64 = (a * 256 + m.3 as u64) * 256 + m.4 as u64;
    b * 256 + m.5 as u64
}

fn push_endpoint(out: &mut Vec<u8>, ip: u32, port: u16)
    ensures
        final(out)@ == old(out)@ + endpoint_bytes(ip, port),
{
    out.push((ip / 16777216) as u8);
    out.push((ip / 65536 % 256) as u8);
    out.push((ip / 256 % 256) as u8);
    out.push((ip % 256) as u8);
    out.push((port / 256) as u8);
    out.push((port % 256) as u8);
    assert(out@ =~= old(out)@ + endpoint_bytes(ip, port));
}

/// Appends the six octets of a hardware address.
pub fn push_mac(out: &mut Vec<u8>, m: MacAddr)
    ensures
        final(out)@ == old(out)@ + mac_bytes(m),
{
    out.push(m.0);
    out.push(m.1);
    out.push(m.2);
    out.push(m.3);
    out.push(m.4);
    out.push(m.5);
    assert(out@ =~= old(out)@ + mac_bytes(m));
}

/// Hashes a flow so that both directions of a conversation get the same
/// value.
pub fn symmetric_flow_hash(flow: &FlowIdentity) -> (h: u64)
    ensures
        h == flow_hash(*flow),
{
    let src_rank: u64 = flow.src_ip as u64 * 65536 + flow.src_port as u64;
    let dst_rank: u64 = flow.dst_ip as u64 * 65536 + flow.dst_port as u64;
    let mut endpoints: Vec<u8> = Vec::new();
    if src_rank > dst_rank {
        push_endpoint(&mut endpoints, flow.src_ip, flow.src_port);
        push_endpoint(&mut endpoints, flow.dst_ip, flow.dst_port);
    } else {
        push_endpoint(&mut endpoints, flow.dst_ip, flow.dst_port);
        push_endpoint(&mut endpoints, flow.src_ip, flow.src_port);
    }
    let mut macs: Vec<u8> = Vec::new();
    if mac_rank_of(flow.src_mac) > mac_rank_of(flow.dst_mac) {
        push_mac(&mut macs, flow.src_mac);
        push_mac(&mut macs, flow.dst_mac);
    } else {
        push_mac(&mut macs, flow.dst_mac);
        push_mac(&mut macs, flow.src_mac);
    }
    assert(endpoints@ =~= ordered_endpoints(*flow));
    assert(macs@ =~= ordered_macs(*flow));
    let mut hasher = DefaultHasher::new();
    hasher.write(endpoints.as_slice());
    hasher.write(macs.as_slice());
    assert(hasher@ =~= seq![ordered_endpoints(*flow), ordered_macs(*flow)]);
    hasher.finish()
}

/// Two hardware addresses of equal rank are the same address.
pub proof fn lemma_mac_rank_injective(a: MacAddr, b: MacAddr)
    requires
        mac_rank(a) == mac_rank(b),
    ensures
        a == b,
{
}

/// Two ends of equal rank have the same address and port.
pub proof fn lemma_endpoint_rank_injective(ip1: u32, port1: u16, ip2: u32, port2: u16)
    requires
        endpoint_rank(ip1, port1) == endpoint_rank(ip2, port2),
    ensures
        ip1 == ip2,
        port1 == port2,
{
}

/// The hash of a flow is the hash of the flow seen from the other side.
pub proof fn lemma_flow_hash_symmetric(flow: FlowIdentity)
    ensures
        flow_hash(reversed(flow)) == flow_hash(flow),
{
    let back = reversed(flow);
    if endpoint_rank(flow.src_ip, flow.src_port) == endpoint_rank(flow.dst_ip, flow.dst_port) {
        lemma_endpoint_rank_injective(flow.src_ip, flow.src_port, flow.dst_ip, flow.dst_port);
    }
    if mac_rank(flow.src_mac) == mac_rank(flow.dst_mac) {
        lemma_mac_rank_injective(flow.src_mac, flow.dst_mac);
    }
    assert(ordered_endpoints(back) == ordered_endpoints(flow));
    assert(ordered_macs(back) == ordered_macs(flow));
}

} // verus!
