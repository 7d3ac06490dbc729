//! The classifier that runs on every frame of the interface and picks the
//! frames that carry exactly one DNS question.
//!
//! It reads a handful of fixed fields, keeps no state between frames and treats
//! every field that lies beyond the end of the frame as a reason to ignore it.

use vstd::prelude::*;
use crate::bytes::{be16, be32, read_be16, read_be32};

verus! {

/// Length of an Ethernet II header.
pub const ETH_HEADER_LEN: usize = 14;

/// Ethertype of IPv4.
pub const ETH_P_IP: u16 = 0x0800;

/// IP protocol number of TCP.
pub const IPPROTO_TCP: u8 = 6;

/// IP protocol number of UDP.
pub const IPPROTO_UDP: u8 = 17;

/// Length of a UDP header.
pub const UDP_HEADER_LEN: usize = 8;

/// Length of a DNS header.
pub const DNS_HEADER_LEN: usize = 12;

/// What the classifier does with a frame.
#[derive(Clone, Copy, Debug, PartialEq, Eq, Structural)]
pub enum SkBuffAction {
    /// The frame is not handed on.
    Ignore,
    /// The frame is handed to the correlator.
    SendToUserspace,
}

/// Length of the IPv4 header as its IHL field gives it.
pub open spec fn ip_header_len(frame: Seq<u8>) -> int {
    (frame[14] % 16) as int * 4
}

/// Where the transport header starts.
pub open spec fn l4_offset(frame: Seq<u8>) -> int {
    14 + ip_header_len(frame)
}

/// The frame is long enough for its IPv4 version and protocol fields, and
/// they name IPv4 carrying UDP or TCP.
pub open spec fn is_ipv4_transport(frame: Seq<u8>) -> bool {
    &&& frame.len() >= 24
    &&& be16(frame, 12) == ETH_P_IP
    &&& frame[14] / 16 == 4
    &&& (frame[23] == IPPROTO_UDP || frame[23] == IPPROTO_TCP)
}

/// Length of the transport header: eight bytes for UDP, the data offset
/// field for TCP. `None` where the TCP field lies beyond the frame.
pub open spec fn l4_header_len(frame: Seq<u8>) -> Option<int> {
    if frame[23] == IPPROTO_UDP {
        Some(8)
    } else if l4_offset(frame) + 12 < frame.len() {
        Some((frame[l4_offset(frame) + 12] / 16) as int * 4)
    } else {
        None
    }
}

/// The frame is one that the classifier hands on: IPv4, UDP or TCP, and a
/// question count of exactly one in the DNS header that follows.
pub open spec fn selects(frame: Seq<u8>) -> bool {
    &&& is_ipv4_transport(frame)
    &&& l4_header_len(frame) matches Some(l4_len)
    &&& l4_offset(frame) + l4_len + 6 <= frame.len()
    &&& be16(frame, l4_offset(frame) + l4_len + 4) == 1
}

/// Decides whether a frame is handed to the correlator.
pub fn dns_queries(frame: &[u8]) -> (action: SkBuffAction)
    ensures
        action == (if selects(frame@) {
            SkBuffAction::SendToUserspace
        } else {
            SkBuffAction::Ignore
        }),
{
    if frame.len() < 24 {
        return SkBuffAction::Ignore;
    }
    if read_be16(frame, 12) != ETH_P_IP {
        return SkBuffAction::Ignore;
    }
    let version_ihl: u8 = frame[14];
    if version_ihl / 16 != 4 {
        return SkBuffAction::Ignore;
    }
    let ip_len: usize = (version_ihl % 16) as usize * 4;
    let protocol: u8 = frame[23];
    let l4_start: usize = ETH_HEADER_LEN + ip_len;
    let l4_len: usize = if protocol == IPPROTO_UDP {
        UDP_HEADER_LEN
    } else if protocol == IPPROTO_TCP {
        if l4_start + 12 >= frame.len() {
            return SkBuffAction::Ignore;
        }
        (frame[l4_start + 12] / 16) as usize * 4
    } else {
        return SkBuffAction::Ignore;
    };
    let qdcount_at: usize = l4_start + l4_len + 4;
    if qdcount_at + 2 > frame.len() {
        return SkBuffAction::Ignore;
    }
    if read_be16(frame, qdcount_at) == 1 {
        SkBuffAction::SendToUserspace
    } else {
        SkBuffAction::Ignore
    }
}

/// What the extractor reports of a DNS datagram: the two IPv4 addresses (first
/// octet in the most significant byte), the two UDP ports and the DNS
/// transaction id.
#[derive(Clone, Copy, Debug, PartialEq, Eq, Structural)]
pub struct Addr {
    pub saddr: u32,
    pub daddr: u32,
    pub sport: u16,
    pub dport: u16,
    pub id: u16,
}

/// What the extractor reports of a frame: the addresses, ports and
/// transaction id of an IPv4 UDP datagram whose whole DNS header is there and
/// counts one question; `None` for any other frame.
pub open spec fn extracted(frame: Seq<u8>) -> Option<Addr> {
    if frame.len() >= 34 && be16(frame, 12) == ETH_P_IP && frame[23] == IPPROTO_UDP
        && l4_offset(frame) + 20 <= frame.len() && be16(frame, l4_offset(frame) + 12) == 1 {
        Some(
            Addr {
                saddr: be32(frame, 26) as u32,
                daddr: be32(frame, 30) as u32,
                sport: be16(frame, l4_offset(frame)) as u16,
                dport: be16(frame, l4_offset(frame) + 2) as u16,
                id: be16(frame, l4_offset(frame) + 8) as u16,
            },
        )
    } else {
        None
    }
}

/// Extracts the addresses, ports and transaction id of a single-question DNS
/// datagram.
pub fn p0f_extractor(frame: &[u8]) -> (r: Option<Addr>)
    ensures
        r == extracted(frame@),
{
    if frame.len() < 34 {
        return None;
    }
    if read_be16(frame, 12) != ETH_P_IP || frame[23] != IPPROTO_UDP {
        return None;
    }
    let udp_at: usize = ETH_HEADER_LEN + (frame[14] % 16) as usize * 4;
    if udp_at + UDP_HEADER_LEN + DNS_HEADER_LEN > frame.len() {
        return None;
    }
    if read_be16(frame, udp_at + 12) != 1 {
        return None;
    }
    Some(
        Addr {
            saddr: read_be32(frame, 26),
            daddr: read_be32(frame, 30),
            sport: read_be16(frame, udp_at),
            dport: read_be16(frame, udp_at + 2),
            id: read_be16(frame, udp_at + 8),
        },
    )
}

/// A frame with a question count other than one is never handed on.
pub proof fn lemma_question_count_decides(frame: Seq<u8>)
    requires
        selects(frame),
    ensures
        be16(frame, l4_offset(frame) + l4_header_len(frame).unwrap() + 4) == 1,
{
}

/// A frame that carries neither UDP nor TCP is never handed on.
pub proof fn lemma_other_protocols_ignored(frame: Seq<u8>)
    requires
        frame.len() < 24 || (frame[23] != IPPROTO_UDP && frame[23] != IPPROTO_TCP),
    ensures
        !selects(frame),
{
}

/// A frame that is handed on is ignored when it is cut off anywhere before
/// the end of its question count.
pub proof fn lemma_truncated_frame_ignored(frame: Seq<u8>, cut: int)
    requires
        selects(frame),
        0 <= cut < l4_offset(frame) + l4_header_len(frame).unwrap() + 6,
    ensures
        !selects(frame.subrange(0, cut)),
{
    let short = frame.subrange(0, cut);
    if cut >= 24 {
        assert(short[14] == frame[14]);
        assert(short[23] == frame[23]);
        if frame[23] != IPPROTO_UDP && l4_offset(frame) + 12 < cut {
            assert(short[l4_offset(frame) + 12] == frame[l4_offset(frame) + 12]);
        }
    }
}

} // verus!
