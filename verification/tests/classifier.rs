use dns_reflector::classifier::{dns_queries, p0f_extractor, Addr, SkBuffAction};

fn udp_frame(qdcount: u16) -> Vec<u8> {
    let mut f = vec![0u8; 14 + 20 + 8 + 12];
    f[12] = 0x08;
    f[13] = 0x00;
    f[14] = 0x45;
    f[23] = 17;
    f[26..30].copy_from_slice(&[10, 0, 0, 2]);
    f[30..34].copy_from_slice(&[10, 0, 0, 1]);
    f[34..36].copy_from_slice(&50000u16.to_be_bytes());
    f[36..38].copy_from_slice(&53u16.to_be_bytes());
    f[42..44].copy_from_slice(&0x1234u16.to_be_bytes());
    f[46..48].copy_from_slice(&qdcount.to_be_bytes());
    f
}

fn tcp_frame(data_offset_words: u8, qdcount: u16) -> Vec<u8> {
    let l4 = data_offset_words as usize * 4;
    let mut f = vec![0u8; 14 + 20 + l4 + 12];
    f[12] = 0x08;
    f[14] = 0x45;
    f[23] = 6;
    f[34 + 12] = data_offset_words << 4;
    f[34 + l4 + 4..34 + l4 + 6].copy_from_slice(&qdcount.to_be_bytes());
    f
}

#[test]
fn empty_frame_is_ignored() {
    assert_eq!(dns_queries(&[]), SkBuffAction::Ignore);
}

#[test]
fn single_question_over_udp_is_forwarded() {
    assert_eq!(dns_queries(&udp_frame(1)), SkBuffAction::SendToUserspace);
}

#[test]
fn question_count_zero_or_many_is_ignored() {
    assert_eq!(dns_queries(&udp_frame(0)), SkBuffAction::Ignore);
    assert_eq!(dns_queries(&udp_frame(2)), SkBuffAction::Ignore);
    assert_eq!(dns_queries(&udp_frame(256)), SkBuffAction::Ignore);
    assert_eq!(dns_queries(&udp_frame(257)), SkBuffAction::Ignore);
    assert_eq!(dns_queries(&udp_frame(0xffff)), SkBuffAction::Ignore);
}

#[test]
fn other_protocols_are_ignored() {
    for protocol in [0u8, 1, 2, 41, 47, 50, 58, 132, 255] {
        let mut f = udp_frame(1);
        f[23] = protocol;
        assert_eq!(dns_queries(&f), SkBuffAction::Ignore, "protocol {}", protocol);
    }
}

#[test]
fn other_ethertypes_and_versions_are_ignored() {
    let mut f = udp_frame(1);
    f[12] = 0x86;
    f[13] = 0xdd;
    assert_eq!(dns_queries(&f), SkBuffAction::Ignore);
    let mut f = udp_frame(1);
    f[14] = 0x65;
    assert_eq!(dns_queries(&f), SkBuffAction::Ignore);
}

#[test]
fn every_truncation_is_ignored() {
    let f = udp_frame(1);
    for cut in 0..48 {
        assert_eq!(dns_queries(&f[..cut]), SkBuffAction::Ignore, "cut at {}", cut);
    }
    assert_eq!(dns_queries(&f[..48]), SkBuffAction::SendToUserspace);
}

#[test]
fn ip_options_move_the_question_count() {
    let mut f = vec![0u8; 14 + 24 + 8 + 12];
    f[12] = 0x08;
    f[14] = 0x46;
    f[23] = 17;
    f[14 + 24 + 8 + 5] = 1;
    assert_eq!(dns_queries(&f), SkBuffAction::SendToUserspace);
    f[14] = 0x45;
    assert_eq!(dns_queries(&f), SkBuffAction::Ignore);
}

#[test]
fn tcp_uses_its_data_offset() {
    assert_eq!(dns_queries(&tcp_frame(5, 1)), SkBuffAction::SendToUserspace);
    assert_eq!(dns_queries(&tcp_frame(8, 1)), SkBuffAction::SendToUserspace);
    assert_eq!(dns_queries(&tcp_frame(5, 2)), SkBuffAction::Ignore);
    let f = tcp_frame(5, 1);
    for cut in 0..f.len() - 6 {
        assert_eq!(dns_queries(&f[..cut]), SkBuffAction::Ignore, "cut at {}", cut);
    }
}

#[test]
fn extractor_reports_addresses_ports_and_id() {
    let got = p0f_extractor(&udp_frame(1));
    assert_eq!(
        got,
        Some(Addr { saddr: 0x0a000002, daddr: 0x0a000001, sport: 50000, dport: 53, id: 0x1234 })
    );
}

#[test]
fn extractor_passes_over_other_frames() {
    assert_eq!(p0f_extractor(&udp_frame(0)), None);
    assert_eq!(p0f_extractor(&udp_frame(2)), None);
    assert_eq!(p0f_extractor(&tcp_frame(5, 1)), None);
    let f = udp_frame(1);
    for cut in 0..f.len() {
        assert_eq!(p0f_extractor(&f[..cut]), None, "cut at {}", cut);
    }
}
