use dns_reflector::cache::Cache;
use dns_reflector::correlator::{
    calc_loss, correlation_key, Correlator, Observation, Status, TimeoutStage, TimeoutStep,
    THRESHOLD_PER_MILLE, WAIT_TIME_MS,
};
use dns_reflector::flow::{FlowIdentity, MacAddr};
use dns_reflector::message::{Answer, DnsHeader, DnsMessage, Question, RData};

fn flow(port: u16) -> FlowIdentity {
    FlowIdentity {
        src_ip: 0x0a000002,
        src_port: port,
        dst_ip: 0x0a000001,
        dst_port: 53,
        src_mac: MacAddr(0x02, 0, 0, 0, 0, 0x02),
        dst_mac: MacAddr(0x02, 0, 0, 0, 0, 0x01),
    }
}

fn query(id: u16, names: &[&str]) -> DnsMessage {
    DnsMessage {
        header: DnsHeader { id, is_query: true, rcode: 0 },
        questions: names.iter().map(|n| Question { qname: n.to_string() }).collect(),
        answers: Vec::new(),
    }
}

fn response(id: u16, name: &str, rcode: u8, rdata: Vec<RData>) -> DnsMessage {
    DnsMessage {
        header: DnsHeader { id, is_query: false, rcode },
        questions: vec![Question { qname: name.to_string() }],
        answers: rdata.into_iter().map(|r| Answer { qname: name.to_string(), rdata: r }).collect(),
    }
}

#[test]
fn constants_have_their_defaults() {
    assert_eq!(WAIT_TIME_MS, 5000);
    assert_eq!(THRESHOLD_PER_MILLE, 5);
}

#[test]
fn loss_is_compared_with_half_a_percent() {
    assert!(!calc_loss(0, 0));
    assert!(!calc_loss(0, 3));
    assert!(!calc_loss(100, 0));
    assert!(!calc_loss(200, 1));
    assert!(calc_loss(199, 1));
    assert!(!calc_loss(1000, 5));
    assert!(calc_loss(1000, 6));
    assert!(calc_loss(100, 3));
    assert!(calc_loss(u64::MAX, u64::MAX));
    assert!(!calc_loss(u64::MAX, u64::MAX / 200));
    assert!(calc_loss(u64::MAX, u64::MAX / 200 + 1));
}

#[test]
fn new_correlator_is_empty() {
    let c = Correlator::new();
    let cache = Cache::new();
    assert_eq!(c.total_requests_seen(), 0);
    assert_eq!(c.unmatched_count(), 0);
    assert_eq!(c.pending_len(), 0);
    assert_eq!(c.unmatched_len(), 0);
    assert!(!c.loss_is_high());
    assert_eq!(c.log_status(&cache), Status { total: 0, matching: 0, cached: 0, unmatched: 0 });
    assert!(c.plan_injections(&cache).is_empty());
}

#[test]
fn first_query_is_recorded_once() {
    let mut c = Correlator::new();
    let mut cache = Cache::new();
    let got = c.observe(&mut cache, &flow(50000), &query(7, &["example.net"]), 10);
    assert_eq!(got, Observation::Recorded);
    assert_eq!(c.pending_len(), 1);
    assert_eq!(c.total_requests_seen(), 1);
    assert_eq!(cache.len(), 0);
    let waiting = c.pending();
    assert_eq!(waiting.len(), 1);
    assert_eq!(waiting[0].0, correlation_key(&flow(50000), 7));
    assert_eq!(waiting[0].1.flow, flow(50000));
    assert_eq!(waiting[0].1.qnames, vec!["example.net".to_string()]);
    assert_eq!(waiting[0].1.inserted_at, 10);
}

#[test]
fn unmatched_log_keeps_flow_names_and_time() {
    let mut c = Correlator::new();
    let mut cache = Cache::new();
    c.observe(&mut cache, &flow(50000), &query(7, &["a.net", "b.net"]), 10);
    c.observe(&mut cache, &flow(50001), &query(8, &["c.net"]), 11);
    let key = correlation_key(&flow(50000), 7);
    assert_eq!(c.timeout(key, TimeoutStage::First, 5010), TimeoutStep::Expired);
    let refusal = response(8, "c.net", 5, vec![]);
    assert_eq!(c.observe(&mut cache, &flow(50001).swapped(), &refusal, 5020), Observation::Refused);
    let log = c.unmatched();
    assert_eq!(log.len(), 2);
    assert_eq!(log[0].flow, flow(50000));
    assert_eq!(log[0].qnames, vec!["a.net".to_string(), "b.net".to_string()]);
    assert_eq!(log[0].timed_out_at, 5010);
    assert_eq!(log[1].flow, flow(50001).swapped());
    assert_eq!(log[1].qnames, vec!["c.net".to_string()]);
    assert_eq!(log[1].timed_out_at, 5020);
    assert_eq!(c.unmatched_count(), 1);
    assert_eq!(c.total_requests_seen(), 2);
}

#[test]
fn every_waiting_query_is_listed_once() {
    let mut c = Correlator::new();
    let mut cache = Cache::new();
    for id in 0..20u16 {
        c.observe(&mut cache, &flow(50000 + id), &query(id, &["a.net"]), id as u64);
    }
    let mut keys: Vec<(u16, u64)> = c.pending().into_iter().map(|item| item.0).collect();
    keys.sort();
    let mut expected: Vec<(u16, u64)> =
        (0..20u16).map(|id| correlation_key(&flow(50000 + id), id)).collect();
    expected.sort();
    assert_eq!(keys, expected);
}

#[test]
fn retransmission_overwrites_without_counting() {
    let mut c = Correlator::new();
    let mut cache = Cache::new();
    c.observe(&mut cache, &flow(50000), &query(7, &["example.net"]), 10);
    let got = c.observe(&mut cache, &flow(50000), &query(7, &["example.org"]), 20);
    assert_eq!(got, Observation::Retransmitted);
    assert_eq!(c.pending_len(), 1);
    assert_eq!(c.total_requests_seen(), 1);
    let reply = response(7, "example.org", 0, vec![RData::A(1)]);
    assert_eq!(c.observe(&mut cache, &flow(50000).swapped(), &reply, 30), Observation::Learned);
    assert_eq!(cache.lookup("example.org"), Some(vec![1]));
    assert_eq!(cache.lookup("example.net"), None);
}

#[test]
fn queries_differ_by_id_and_by_flow() {
    let mut c = Correlator::new();
    let mut cache = Cache::new();
    assert_eq!(c.observe(&mut cache, &flow(50000), &query(7, &["a.net"]), 1), Observation::Recorded);
    assert_eq!(c.observe(&mut cache, &flow(50000), &query(8, &["a.net"]), 2), Observation::Recorded);
    assert_eq!(c.observe(&mut cache, &flow(50001), &query(7, &["a.net"]), 3), Observation::Recorded);
    assert_eq!(c.pending_len(), 3);
    assert_eq!(c.total_requests_seen(), 3);
}

#[test]
fn reply_without_query_changes_nothing() {
    let mut c = Correlator::new();
    let mut cache = Cache::new();
    let reply = response(7, "example.net", 0, vec![RData::A(1)]);
    assert_eq!(c.observe(&mut cache, &flow(50000), &reply, 1), Observation::NoPending);
    assert_eq!(c.pending_len(), 0);
    assert_eq!(c.total_requests_seen(), 0);
    assert_eq!(cache.len(), 0);
    c.observe(&mut cache, &flow(50000), &query(7, &["example.net"]), 2);
    let wrong_id = response(8, "example.net", 0, vec![RData::A(1)]);
    assert_eq!(c.observe(&mut cache, &flow(50000).swapped(), &wrong_id, 3), Observation::NoPending);
    let wrong_flow = response(7, "example.net", 0, vec![RData::A(1)]);
    assert_eq!(c.observe(&mut cache, &flow(50001).swapped(), &wrong_flow, 3), Observation::NoPending);
    assert_eq!(c.pending_len(), 1);
    assert_eq!(cache.len(), 0);
}

#[test]
fn reply_without_ipv4_address_drops_the_query() {
    let mut c = Correlator::new();
    let mut cache = Cache::new();
    c.observe(&mut cache, &flow(50000), &query(7, &["example.net"]), 1);
    let reply = response(7, "example.net", 0, vec![RData::AAAA(1), RData::Other]);
    assert_eq!(c.observe(&mut cache, &flow(50000).swapped(), &reply, 2), Observation::NoAddress);
    assert_eq!(c.pending_len(), 0);
    assert_eq!(c.unmatched_len(), 0);
    assert_eq!(c.unmatched_count(), 0);
    assert_eq!(cache.len(), 0);
}

#[test]
fn addresses_are_learned_for_every_name_of_the_query() {
    let mut c = Correlator::new();
    let mut cache = Cache::new();
    c.observe(&mut cache, &flow(50000), &query(7, &["a.net", "b.net"]), 1);
    let reply = response(
        7,
        "a.net",
        0,
        vec![RData::A(10), RData::CNAME("x.net".to_string()), RData::A(20), RData::AAAA(3)],
    );
    assert_eq!(c.observe(&mut cache, &flow(50000).swapped(), &reply, 2), Observation::Learned);
    assert_eq!(cache.lookup("a.net"), Some(vec![10, 20]));
    assert_eq!(cache.lookup("b.net"), Some(vec![10, 20]));
    assert_eq!(cache.lookup("x.net"), None);
    assert_eq!(cache.len(), 2);
}

#[test]
fn later_reply_replaces_the_addresses() {
    let mut c = Correlator::new();
    let mut cache = Cache::new();
    c.observe(&mut cache, &flow(50000), &query(7, &["a.net"]), 1);
    let first = response(7, "a.net", 0, vec![RData::A(10), RData::A(11)]);
    c.observe(&mut cache, &flow(50000).swapped(), &first, 2);
    c.observe(&mut cache, &flow(50000), &query(8, &["a.net"]), 3);
    let second = response(8, "a.net", 0, vec![RData::A(99)]);
    c.observe(&mut cache, &flow(50000).swapped(), &second, 4);
    assert_eq!(cache.lookup("a.net"), Some(vec![99]));
}

#[test]
fn cache_remembers_and_refuses_empty_lists() {
    let mut cache = Cache::new();
    assert_eq!(cache.lookup("6666.com"), None);
    assert!(cache.remember("6666.com".to_string(), vec![0x72727272]));
    assert_eq!(cache.lookup("6666.com"), Some(vec![0x72727272]));
    assert!(!cache.remember("6666.com".to_string(), vec![]));
    assert_eq!(cache.lookup("6666.com"), Some(vec![0x72727272]));
    assert!(!cache.remember("empty.net".to_string(), vec![]));
    assert_eq!(cache.lookup("empty.net"), None);
    assert!(cache.remember("6666.com".to_string(), vec![1, 2]));
    assert_eq!(cache.lookup("6666.com"), Some(vec![1, 2]));
    assert_eq!(cache.len(), 1);
}

#[test]
fn timeout_of_a_gone_query_does_nothing() {
    let mut c = Correlator::new();
    let mut cache = Cache::new();
    c.observe(&mut cache, &flow(50000), &query(7, &["a.net"]), 1);
    let reply = response(7, "a.net", 0, vec![RData::A(10)]);
    c.observe(&mut cache, &flow(50000).swapped(), &reply, 2);
    let key = correlation_key(&flow(50000), 7);
    assert_eq!(c.timeout(key, TimeoutStage::First, 5001), TimeoutStep::Gone);
    assert_eq!(c.unmatched_count(), 0);
    assert_eq!(c.unmatched_len(), 0);
}

#[test]
fn lost_never_exceeds_seen() {
    let mut c = Correlator::new();
    let mut cache = Cache::new();
    for id in 0..50u16 {
        c.observe(&mut cache, &flow(50000), &query(id, &["a.net"]), id as u64);
        assert!(c.unmatched_count() <= c.total_requests_seen());
    }
    for id in 0..60u16 {
        let key = correlation_key(&flow(50000), id);
        c.timeout(key, TimeoutStage::Deferred, 6000);
        c.timeout(key, TimeoutStage::Deferred, 6001);
        assert!(c.unmatched_count() <= c.total_requests_seen());
    }
    assert_eq!(c.total_requests_seen(), 50);
    assert_eq!(c.unmatched_count(), 50);
    assert_eq!(c.unmatched_len(), 50);
    assert_eq!(c.pending_len(), 0);
}

#[test]
fn status_counts_everything() {
    let mut c = Correlator::new();
    let mut cache = Cache::new();
    cache.remember("6666.com".to_string(), vec![0x72727272]);
    for id in 0..4u16 {
        c.observe(&mut cache, &flow(50000), &query(id, &["a.net"]), 1);
    }
    c.timeout(correlation_key(&flow(50000), 0), TimeoutStage::First, 5001);
    let reply = response(1, "a.net", 0, vec![RData::A(10)]);
    c.observe(&mut cache, &flow(50000).swapped(), &reply, 2);
    assert_eq!(c.log_status(&cache), Status { total: 4, matching: 2, cached: 2, unmatched: 1 });
}
