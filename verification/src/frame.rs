//! Ethernet II frames that carry IPv4 and UDP: taking one apart into its flow
//! and its DNS payload, and putting one together around a DNS message.

use vstd::prelude::*;
use vstd::slice::slice_subrange;
use crate::bytes::{be16, be16_bytes, be32, be32_bytes, push_all, push_be16, push_be32, read_be16, read_be32};
use crate::bytes::{lemma_be16_round_trip, lemma_be32_round_trip};
use crate::classifier::{ETH_P_IP, IPPROTO_UDP};
use crate::flow::{mac_bytes, push_mac, FlowIdentity, MacAddr};

verus! {

/// Length of the headers that stand before the DNS message in a frame that
/// this library builds: Ethernet, IPv4 without options, UDP.
pub const FRAME_HEADERS_LEN: usize = 42;

/// The longest frame that this library builds.
pub const MAX_FRAME_LEN: usize = 1024;

/// Time to live of a frame that this library builds.
pub const FRAME_TTL: u8 = 128;

/// IPv4 identification of a frame that this library builds.
pub const FRAME_IDENTIFICATION: u16 = 256;

/// The hardware address that starts at `at`.
pub open spec fn mac_at(frame: Seq<u8>, at: int) -> MacAddr {
    MacAddr(
        frame[at], frame[at + 1], frame[at + 2], frame[at + 3], frame[at + 4], frame[at + 5],
    )
}

/// Where the UDP header of a frame starts, by the IHL field.
pub open spec fn udp_offset(frame: Seq<u8>) -> int {
    14 + (frame[14] % 16) as int * 4
}

/// What a frame decodes to: its flow and the bytes after the UDP header.
/// `None` for a frame that is no IPv4 over Ethernet, carries no UDP, or ends
/// before one of the fields that are read.
pub open spec fn decoded(frame: Seq<u8>) -> Option<(FlowIdentity, Seq<u8>)> {
    if frame.len() >= 34 && be16(frame, 12) == ETH_P_IP && frame[23] == IPPROTO_UDP
        && udp_offset(frame) + 8 <= frame.len() {
        Some(
            (
                FlowIdentity {
                    src_ip: be32(frame, 26) as u32,
                    src_port: be16(frame, udp_offset(frame)) as u16,
                    dst_ip: be32(frame, 30) as u32,
                    dst_port: be16(frame, udp_offset(frame) + 2) as u16,
                    src_mac: mac_at(frame, 6),
                    dst_mac: mac_at(frame, 0),
                },
                frame.subrange(udp_offset(frame) + 8, frame.len() as int),
            ),
        )
    } else {
        None
    }
}

fn read_mac(buf: &[u8], at: usize) -> (m: MacAddr)
    requires
        at + 6 <= buf.len(),
    ensures
        m == mac_at(buf@, at as int),
{
    MacAddr(buf[at], buf[at + 1], buf[at + 2], buf[at + 3], buf[at + 4], buf[at + 5])
}

/// Decodes one received frame into its flow and its DNS payload.
pub fn parse_raw_packet(buf: &[u8]) -> (r: Option<(FlowIdentity, &[u8])>)
    ensures
        match r {
            Some((flow, payload)) => decoded(buf@) == Some((flow, payload@)),
            None => decoded(buf@) is None,
        },
{
    if buf.len() < 34 {
        return None;
    }
    if read_be16(buf, 12) != ETH_P_IP {
        return None;
    }
    if buf[23] != IPPROTO_UDP {
        return None;
    }
    let udp_at: usize = 14 + (buf[14] % 16) as usize * 4;
    if udp_at + 8 > buf.len() {
        return None;
    }
    let flow = FlowIdentity {
        src_ip: read_be32(buf, 26),
        src_port: read_be16(buf, udp_at),
        dst_ip: read_be32(buf, 30),
        dst_port: read_be16(buf, udp_at + 2),
        src_mac: read_mac(buf, 6),
        dst_mac: read_mac(buf, 0),
    };
    Some((flow, slice_subrange(buf, udp_at + 8, buf.len())))
}

/// The Ethernet header of a frame of `flow`.
pub open spec fn ethernet_header(flow: FlowIdentity) -> Seq<u8> {
    mac_bytes(flow.dst_mac) + mac_bytes(flow.src_mac) + be16_bytes(ETH_P_IP)
}

/// The IPv4 header of a frame of `flow`: no options, no fragmentation.
pub open spec fn ipv4_header(flow: FlowIdentity, total_len: u16, checksum: u16) -> Seq<u8> {
    seq![0x45u8, 0u8] + be16_bytes(total_len) + be16_bytes(FRAME_IDENTIFICATION)
        + seq![0x40u8, 0u8, FRAME_TTL, IPPROTO_UDP] + be16_bytes(checksum)
        + be32_bytes(flow.src_ip) + be32_bytes(flow.dst_ip)
}

/// The UDP header of a frame of `flow`, followed by the payload.
pub open spec fn udp_segment(flow: FlowIdentity, payload: Seq<u8>, checksum: u16) -> Seq<u8> {
    be16_bytes(flow.src_port) + be16_bytes(flow.dst_port) + be16_bytes(
        (8 + payload.len()) as u16,
    ) + be16_bytes(checksum) + payload
}

/// A whole frame: the three headers with the given checksums, then the
/// payload.
pub open spec fn frame_layout(
    flow: FlowIdentity,
    payload: Seq<u8>,
    ip_checksum: u16,
    udp_checksum: u16,
) -> Seq<u8> {
    ethernet_header(flow) + ipv4_header(flow, (28 + payload.len()) as u16, ip_checksum)
        + udp_segment(flow, payload, udp_checksum)
}

/// What `pnet::util::checksum` returns for `data` when the 16-bit word at
/// index `skipword` is left out.
pub uninterp spec fn checksum_of(data: Seq<u8>, skipword: usize) -> u16;

/// What `pnet::util::ipv4_checksum` returns for a transport segment between
/// two IPv4 addresses.
pub uninterp spec fn ipv4_checksum_of(
    data: Seq<u8>,
    skipword: usize,
    extra_data: Seq<u8>,
    source: u32,
    destination: u32,
    protocol: u8,
) -> u16;

/// Calls `pnet::util::checksum`, the Internet checksum over `data` that
/// skips one word. Its value is taken as given; the bound keeps the 32-bit
/// sum inside it from overflowing.
#[verifier::external_body]
fn internet_checksum(data: &[u8], skipword: usize) -> (sum: u16)
    requires
        data.len() <= 65535,
    ensures
        sum == checksum_of(data@, skipword),
{
    pnet::util::checksum(data, skipword)
}

/// Calls `pnet::util::ipv4_checksum`, the checksum of a transport segment
/// with its IPv4 pseudo-header. Its value is taken as given; the bound keeps
/// the 32-bit sum inside it from overflowing.
#[verifier::external_body]
fn transport_checksum(
    data: &[u8],
    skipword: usize,
    extra_data: &[u8],
    source: u32,
    destination: u32,
    protocol: u8,
) -> (sum: u16)
    requires
        data.len() + extra_data.len() <= 65535,
    ensures
        sum == ipv4_checksum_of(data@, skipword, extra_data@, source, destination, protocol),
{
    pnet::util::ipv4_checksum(
        data,
        skipword,
        extra_data,
        &source.into(),
        &destination.into(),
        pnet::packet::ip::IpNextHeaderProtocol(protocol),
    )
}

fn push_ipv4_header(out: &mut Vec<u8>, flow: &FlowIdentity, total_len: u16, checksum: u16)
    ensures
        final(out)@ == old(out)@ + ipv4_header(*flow, total_len, checksum),
{
    out.push(0x45);
    out.push(0);
    push_be16(out, total_len);
    push_be16(out, FRAME_IDENTIFICATION);
    out.push(0x40);
    out.push(0);
    out.push(FRAME_TTL);
    out.push(IPPROTO_UDP);
    push_be16(out, checksum);
    push_be32(out, flow.src_ip);
    push_be32(out, flow.dst_ip);
    assert(out@ =~= old(out)@ + ipv4_header(*flow, total_len, checksum));
}

fn push_udp_segment(out: &mut Vec<u8>, flow: &FlowIdentity, payload: &[u8], checksum: u16)
    requires
        payload.len() + 8 <= 65535,
    ensures
        final(out)@ == old(out)@ + udp_segment(*flow, payload@, checksum),
{
    push_be16(out, flow.src_port);
    push_be16(out, flow.dst_port);
    push_be16(out, (8 + payload.len()) as u16);
    push_be16(out, checksum);
    push_all(out, payload);
    assert(out@ =~= old(out)@ + udp_segment(*flow, payload@, checksum));
}

/// Puts a frame together from a flow, a payload and the two checksums.
pub fn assemble_frame(flow: &FlowIdentity, payload: &[u8], ip_checksum: u16, udp_checksum: u16) -> (frame: Vec<u8>)
    requires
        payload.len() + FRAME_HEADERS_LEN <= MAX_FRAME_LEN,
    ensures
        frame@ == frame_layout(*flow, payload@, ip_checksum, udp_checksum),
{
    let mut frame: Vec<u8> = Vec::new();
    push_mac(&mut frame, flow.dst_mac);
    push_mac(&mut frame, flow.src_mac);
    push_be16(&mut frame, ETH_P_IP);
    push_ipv4_header(&mut frame, flow, (28 + payload.len()) as u16, ip_checksum);
    push_udp_segment(&mut frame, flow, payload, udp_checksum);
    assert(frame@ =~= frame_layout(*flow, payload@, ip_checksum, udp_checksum));
    frame
}

/// The checksum that stands in the IPv4 header of a built frame.
pub open spec fn header_checksum(flow: FlowIdentity, payload: Seq<u8>) -> u16 {
    checksum_of(ipv4_header(flow, (28 + payload.len()) as u16, 0), 5)
}

/// The checksum that stands in the UDP header of a built frame.
pub open spec fn segment_checksum(flow: FlowIdentity, payload: Seq<u8>) -> u16 {
    ipv4_checksum_of(
        udp_segment(flow, payload, 0),
        3,
        Seq::<u8>::empty(),
        flow.src_ip,
        flow.dst_ip,
        IPPROTO_UDP,
    )
}

/// The frame that carries `payload` from the source of `flow` to its
/// destination.
pub open spec fn built_frame(flow: FlowIdentity, payload: Seq<u8>) -> Seq<u8> {
    frame_layout(flow, payload, header_checksum(flow, payload), segment_checksum(flow, payload))
}

/// Wraps a DNS message in UDP, IPv4 and Ethernet, from the source of `flow`
/// to its destination, both checksums computed. `None` when the frame would be
/// longer than `MAX_FRAME_LEN`.
pub fn build_frame(flow: &FlowIdentity, payload: &[u8]) -> (r: Option<Vec<u8>>)
    ensures
        payload.len() + FRAME_HEADERS_LEN > MAX_FRAME_LEN ==> r is None,
        payload.len() + FRAME_HEADERS_LEN <= MAX_FRAME_LEN ==> r is Some && r.unwrap()@
            == built_frame(*flow, payload@),
{
    if payload.len() > MAX_FRAME_LEN - FRAME_HEADERS_LEN {
        return None;
    }
    let mut segment: Vec<u8> = Vec::new();
    push_udp_segment(&mut segment, flow, payload, 0);
    assert(segment@ =~= udp_segment(*flow, payload@, 0));
    let no_extra: Vec<u8> = Vec::new();
    let udp_checksum = transport_checksum(
        segment.as_slice(),
        3,
        no_extra.as_slice(),
        flow.src_ip,
        flow.dst_ip,
        IPPROTO_UDP,
    );
    let mut header: Vec<u8> = Vec::new();
    push_ipv4_header(&mut header, flow, (28 + payload.len()) as u16, 0);
    assert(header@ =~= ipv4_header(*flow, (28 + payload.len()) as u16, 0));
    let ip_checksum = internet_checksum(header.as_slice(), 5);
    assert(no_extra@ =~= Seq::<u8>::empty());
    Some(assemble_frame(flow, payload, ip_checksum, udp_checksum))
}

/// A frame put together from a flow and a payload decodes to that flow and
/// that payload, whatever the checksums.
pub proof fn lemma_frame_round_trip(
    flow: FlowIdentity,
    payload: Seq<u8>,
    ip_checksum: u16,
    udp_checksum: u16,
)
    requires
        payload.len() + FRAME_HEADERS_LEN <= MAX_FRAME_LEN,
    ensures
        decoded(frame_layout(flow, payload, ip_checksum, udp_checksum)) == Some((flow, payload)),
{
    let frame = frame_layout(flow, payload, ip_checksum, udp_checksum);
    let total = (28 + payload.len()) as u16;
    assert(frame.len() == 42 + payload.len());
    assert(frame.subrange(12, 14) =~= be16_bytes(ETH_P_IP));
    lemma_be16_round_trip(frame, 12, ETH_P_IP);
    assert(frame[14] == 0x45u8);
    assert(frame[23] == IPPROTO_UDP);
    assert(frame.subrange(26, 30) =~= be32_bytes(flow.src_ip));
    lemma_be32_round_trip(frame, 26, flow.src_ip);
    assert(frame.subrange(30, 34) =~= be32_bytes(flow.dst_ip));
    lemma_be32_round_trip(frame, 30, flow.dst_ip);
    assert(frame.subrange(34, 36) =~= be16_bytes(flow.src_port));
    lemma_be16_round_trip(frame, 34, flow.src_port);
    assert(frame.subrange(36, 38) =~= be16_bytes(flow.dst_port));
    lemma_be16_round_trip(frame, 36, flow.dst_port);
    assert(mac_at(frame, 0) == flow.dst_mac);
    assert(mac_at(frame, 6) == flow.src_mac);
    assert(frame.subrange(42, frame.len() as int) =~= payload);
}

/// A built frame decodes to the flow and the payload that it was built from.
pub proof fn lemma_built_frame_decodes(flow: FlowIdentity, payload: Seq<u8>)
    requires
        payload.len() + FRAME_HEADERS_LEN <= MAX_FRAME_LEN,
    ensures
        decoded(built_frame(flow, payload)) == Some((flow, payload)),
{
    lemma_frame_round_trip(
        flow,
        payload,
        header_checksum(flow, payload),
        segment_checksum(flow, payload),
    );
}

} // verus!
