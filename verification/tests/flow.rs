use dns_reflector::correlator::correlation_key;
use dns_reflector::flow::{symmetric_flow_hash, FlowIdentity, MacAddr};

fn sample() -> FlowIdentity {
    FlowIdentity {
        src_ip: 0x0a000002,
        src_port: 50000,
        dst_ip: 0x0a000001,
        dst_port: 53,
        src_mac: MacAddr(0x02, 0, 0, 0, 0, 0x02),
        dst_mac: MacAddr(0x02, 0, 0, 0, 0, 0x01),
    }
}

#[test]
fn swapped_exchanges_both_ends() {
    let f = sample();
    let b = f.swapped();
    assert_eq!(b.src_ip, f.dst_ip);
    assert_eq!(b.src_port, f.dst_port);
    assert_eq!(b.dst_ip, f.src_ip);
    assert_eq!(b.dst_port, f.src_port);
    assert_eq!(b.src_mac, f.dst_mac);
    assert_eq!(b.dst_mac, f.src_mac);
    assert_eq!(b.swapped(), f);
}

#[test]
fn hash_is_the_same_in_both_directions() {
    let f = sample();
    assert_eq!(symmetric_flow_hash(&f), symmetric_flow_hash(&f.swapped()));
    let mut g = f;
    g.src_ip = f.dst_ip;
    g.src_port = 53;
    assert_eq!(symmetric_flow_hash(&g), symmetric_flow_hash(&g.swapped()));
    let mut h = f;
    h.src_mac = h.dst_mac;
    assert_eq!(symmetric_flow_hash(&h), symmetric_flow_hash(&h.swapped()));
}

#[test]
fn hash_tells_flows_apart() {
    let f = sample();
    let mut other_port = f;
    other_port.src_port = 50001;
    assert_ne!(symmetric_flow_hash(&f), symmetric_flow_hash(&other_port));
    let mut other_ip = f;
    other_ip.dst_ip = 0x0a000003;
    assert_ne!(symmetric_flow_hash(&f), symmetric_flow_hash(&other_ip));
    let mut other_mac = f;
    other_mac.src_mac = MacAddr(0x02, 0, 0, 0, 0, 0x03);
    assert_ne!(symmetric_flow_hash(&f), symmetric_flow_hash(&other_mac));
}

#[test]
fn hash_is_repeatable() {
    let f = sample();
    assert_eq!(symmetric_flow_hash(&f), symmetric_flow_hash(&f));
}

#[test]
fn key_joins_id_and_hash() {
    let f = sample();
    assert_eq!(correlation_key(&f, 0x1234), (0x1234, symmetric_flow_hash(&f)));
    assert_eq!(correlation_key(&f, 7), correlation_key(&f.swapped(), 7));
    assert_ne!(correlation_key(&f, 7), correlation_key(&f, 8));
}
