use dns_reflector::flow::{FlowIdentity, MacAddr};
use dns_reflector::frame::{assemble_frame, build_frame, parse_raw_packet, MAX_FRAME_LEN};

fn reply_flow() -> FlowIdentity {
    FlowIdentity {
        src_ip: 0x0a000001,
        src_port: 53,
        dst_ip: 0x0a000002,
        dst_port: 50001,
        src_mac: MacAddr(0x02, 0, 0, 0, 0, 0x01),
        dst_mac: MacAddr(0x02, 0, 0, 0, 0, 0x02),
    }
}

fn reply_payload() -> Vec<u8> {
    vec![
        0, 1, 128, 0, 0, 1, 0, 1, 0, 0, 0, 0, 4, 54, 54, 54, 54, 3, 99, 111, 109, 0, 0, 1, 0, 1,
        192, 12, 0, 1, 0, 1, 0, 0, 0, 10, 0, 4, 114, 114, 114, 114,
    ]
}

fn expected_frame() -> Vec<u8> {
    vec![
        2, 0, 0, 0, 0, 2, 2, 0, 0, 0, 0, 1, 8, 0, 69, 0, 0, 70, 1, 0, 64, 0, 128, 17, 229, 164, 10,
        0, 0, 1, 10, 0, 0, 2, 0, 53, 195, 81, 0, 50, 194, 26, 0, 1, 128, 0, 0, 1, 0, 1, 0, 0, 0, 0,
        4, 54, 54, 54, 54, 3, 99, 111, 109, 0, 0, 1, 0, 1, 192, 12, 0, 1, 0, 1, 0, 0, 0, 10, 0, 4,
        114, 114, 114, 114,
    ]
}

#[test]
fn built_frame_has_the_expected_bytes() {
    let frame = build_frame(&reply_flow(), &reply_payload()).unwrap();
    assert_eq!(frame, expected_frame());
}

#[test]
fn built_frame_carries_both_checksums() {
    let frame = build_frame(&reply_flow(), &reply_payload()).unwrap();
    assert_eq!(&frame[24..26], &[0xe5, 0xa4]);
    assert_eq!(&frame[40..42], &[0xc2, 0x1a]);
}

#[test]
fn header_checksum_closes_the_ones_complement_sum() {
    let frame = build_frame(&reply_flow(), &reply_payload()).unwrap();
    let mut sum: u32 = 0;
    for i in 0..10 {
        sum += u16::from_be_bytes([frame[14 + 2 * i], frame[15 + 2 * i]]) as u32;
    }
    while sum >> 16 != 0 {
        sum = (sum >> 16) + (sum & 0xffff);
    }
    assert_eq!(sum, 0xffff);
}

#[test]
fn assembled_frame_takes_the_given_checksums() {
    let frame = assemble_frame(&reply_flow(), &reply_payload(), 0xe5a4, 0xc21a);
    assert_eq!(frame, expected_frame());
    let other = assemble_frame(&reply_flow(), &[], 0x0102, 0x0304);
    assert_eq!(other.len(), 42);
    assert_eq!(&other[16..18], &[0, 28]);
    assert_eq!(&other[24..26], &[1, 2]);
    assert_eq!(&other[38..40], &[0, 8]);
    assert_eq!(&other[40..42], &[3, 4]);
}

#[test]
fn built_frame_decodes_to_its_flow_and_payload() {
    let frame = build_frame(&reply_flow(), &reply_payload()).unwrap();
    let (flow, payload) = parse_raw_packet(&frame).unwrap();
    assert_eq!(flow, reply_flow());
    assert_eq!(payload, &reply_payload()[..]);
}

#[test]
fn frame_length_is_bounded() {
    let fits = vec![7u8; MAX_FRAME_LEN - 42];
    let frame = build_frame(&reply_flow(), &fits).unwrap();
    assert_eq!(frame.len(), MAX_FRAME_LEN);
    let too_long = vec![7u8; MAX_FRAME_LEN - 41];
    assert_eq!(build_frame(&reply_flow(), &too_long), None);
}

#[test]
fn empty_payload_is_framed() {
    let frame = build_frame(&reply_flow(), &[]).unwrap();
    assert_eq!(frame.len(), 42);
    let (flow, payload) = parse_raw_packet(&frame).unwrap();
    assert_eq!(flow, reply_flow());
    assert!(payload.is_empty());
}

#[test]
fn decoder_reads_the_header_length() {
    let mut frame = vec![0u8; 14 + 24 + 8 + 3];
    frame[0..6].copy_from_slice(&[1, 2, 3, 4, 5, 6]);
    frame[6..12].copy_from_slice(&[7, 8, 9, 10, 11, 12]);
    frame[12] = 0x08;
    frame[14] = 0x46;
    frame[23] = 17;
    frame[26..30].copy_from_slice(&[192, 168, 1, 10]);
    frame[30..34].copy_from_slice(&[8, 8, 4, 4]);
    frame[38..40].copy_from_slice(&40000u16.to_be_bytes());
    frame[40..42].copy_from_slice(&53u16.to_be_bytes());
    frame[46..49].copy_from_slice(&[0xaa, 0xbb, 0xcc]);
    let (flow, payload) = parse_raw_packet(&frame).unwrap();
    assert_eq!(
        flow,
        FlowIdentity {
            src_ip: 0xc0a8010a,
            src_port: 40000,
            dst_ip: 0x08080404,
            dst_port: 53,
            src_mac: MacAddr(7, 8, 9, 10, 11, 12),
            dst_mac: MacAddr(1, 2, 3, 4, 5, 6),
        }
    );
    assert_eq!(payload, &[0xaa, 0xbb, 0xcc]);
}

#[test]
fn decoder_rejects_what_is_no_udp_over_ipv4() {
    let good = expected_frame();
    let mut tcp = good.clone();
    tcp[23] = 6;
    assert!(parse_raw_packet(&tcp).is_none());
    let mut ipv6 = good.clone();
    ipv6[12] = 0x86;
    ipv6[13] = 0xdd;
    assert!(parse_raw_packet(&ipv6).is_none());
}

#[test]
fn decoder_rejects_truncated_frames() {
    let good = expected_frame();
    for cut in 0..42 {
        assert!(parse_raw_packet(&good[..cut]).is_none(), "cut at {}", cut);
    }
    let (_, payload) = parse_raw_packet(&good[..42]).unwrap();
    assert!(payload.is_empty());
}
