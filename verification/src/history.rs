//! What holds of every run of the correlator: of each single step, and of any
//! sequence of messages, timeouts and releases.

use vstd::prelude::*;
use crate::bytes::be16;
use crate::correlator::{consistent, key_of, observed, timed_out};
use crate::correlator::{CorrelatorView, Observation, TimeoutStage};
use crate::injector::{forged_for, keys_of, plans, Injection};
use crate::flow::{lemma_flow_hash_symmetric, reversed, FlowIdentity};
use crate::frame::{built_frame, decoded, lemma_built_frame_decodes};
use crate::message::{a_addresses, DnsHeader, MessageView, RCODE_REFUSED};
use crate::parser::{lemma_parsed_follows_header, parsed};
use crate::pending::PendingView;
use crate::reply::{is_reply, lemma_reply_starts_with_id, MAX_ANSWERS};

verus! {

/// The correlator together with the cache.
pub struct World {
    pub correlator: CorrelatorView,
    pub cache: Map<Seq<char>, Seq<u32>>,
}

/// One thing that happens to the correlator.
pub enum Event {
    /// A decoded message was observed.
    Message { flow: FlowIdentity, msg: MessageView, now: u64 },
    /// A wait of a timeout was over.
    Timeout { key: (u16, u64), stage: TimeoutStage, now: u64 },
    /// The queries with these keys were released after their forged frames
    /// went out.
    Release { keys: Set<(u16, u64)> },
}

/// The world after one event.
pub open spec fn step(w: World, event: Event) -> World {
    match event {
        Event::Message { flow, msg, now } => World {
            correlator: observed(w.correlator, w.cache, flow, msg, now).correlator,
            cache: observed(w.correlator, w.cache, flow, msg, now).cache,
        },
        Event::Timeout { key, stage, now } => World {
            correlator: timed_out(w.correlator, key, stage, now).correlator,
            cache: w.cache,
        },
        Event::Release { keys } => World {
            correlator: CorrelatorView {
                pending: w.correlator.pending.remove_keys(keys),
                ..w.correlator
            },
            cache: w.cache,
        },
    }
}

/// The world after a sequence of events.
pub open spec fn run(w: World, events: Seq<Event>) -> World
    decreases events.len(),
{
    if events.len() == 0 {
        w
    } else {
        step(run(w, events.drop_last()), events.last())
    }
}

/// One of the events is a reply with at least one IPv4 address, matched to
/// a waiting query that asked for `qname`, and `ips` are its addresses.
pub open spec fn learned_in(w: World, events: Seq<Event>, qname: Seq<char>, ips: Seq<u32>) -> bool {
    exists|i: int|
        0 <= i < events.len() && (#[trigger] events[i] matches Event::Message { flow, msg, now }
            && {
            let before = run(w, events.subrange(0, i)).correlator;
            &&& !msg.header.is_query
            &&& msg.header.rcode != RCODE_REFUSED
            &&& before.pending.contains_key(key_of(flow, msg.header.id))
            &&& before.pending[key_of(flow, msg.header.id)].qnames.contains(qname)
            &&& a_addresses(msg.answers).len() > 0
            &&& ips == a_addresses(msg.answers)
        })
}

/// A query under a key that does not wait yet adds exactly one waiting
/// entry, under that key, and is counted as seen exactly once.
pub proof fn lemma_new_query_is_recorded(
    c: CorrelatorView,
    cache: Map<Seq<char>, Seq<u32>>,
    flow: FlowIdentity,
    msg: MessageView,
    now: u64,
)
    requires
        consistent(c),
        msg.header.is_query,
        !c.pending.contains_key(key_of(flow, msg.header.id)),
    ensures
        observed(c, cache, flow, msg, now).outcome == Observation::Recorded,
        observed(c, cache, flow, msg, now).correlator.pending.contains_key(
            key_of(flow, msg.header.id),
        ),
        observed(c, cache, flow, msg, now).correlator.pending[key_of(flow, msg.header.id)] == (
        PendingView { flow, qnames: msg.questions, inserted_at: now }),
        observed(c, cache, flow, msg, now).correlator.pending.len() == c.pending.len() + 1,
        observed(c, cache, flow, msg, now).correlator.pending.remove(key_of(flow, msg.header.id))
            == c.pending,
        observed(c, cache, flow, msg, now).correlator.total_requests_seen == c.total_requests_seen
            + 1,
{
    let key = key_of(flow, msg.header.id);
    let after = observed(c, cache, flow, msg, now).correlator.pending;
    assert(after.remove(key) =~= c.pending);
}

/// A reply that travels the flow of its query backwards is filed under the
/// key of the query, and so takes the query out of the table.
pub proof fn lemma_reply_meets_query(
    c: CorrelatorView,
    cache: Map<Seq<char>, Seq<u32>>,
    flow: FlowIdentity,
    query: MessageView,
    reply: MessageView,
    t0: u64,
    t1: u64,
)
    requires
        query.header.is_query,
        !reply.header.is_query,
        reply.header.id == query.header.id,
    ensures
        key_of(reversed(flow), reply.header.id) == key_of(flow, query.header.id),
        observed(
            observed(c, cache, flow, query, t0).correlator,
            cache,
            reversed(flow),
            reply,
            t1,
        ).outcome != Observation::NoPending,
        !observed(
            observed(c, cache, flow, query, t0).correlator,
            cache,
            reversed(flow),
            reply,
            t1,
        ).correlator.pending.contains_key(key_of(flow, query.header.id)),
{
    lemma_flow_hash_symmetric(flow);
}

/// One event leaves a consistent correlator consistent, and the cache
/// without an empty entry.
pub proof fn lemma_step_keeps_consistent(w: World, event: Event)
    requires
        consistent(w.correlator),
        forall|q: Seq<char>| #[trigger] w.cache.contains_key(q) ==> w.cache[q].len() > 0,
    ensures
        consistent(step(w, event).correlator),
        forall|q: Seq<char>| #[trigger]
            step(w, event).cache.contains_key(q) ==> step(w, event).cache[q].len() > 0,
{
    match event {
        Event::Message { flow, msg, now } => {},
        Event::Timeout { key, stage, now } => {},
        Event::Release { keys } => {
            let after = w.correlator.pending.remove_keys(keys);
            assert(after.dom() =~= w.correlator.pending.dom().difference(keys));
            vstd::set_lib::lemma_len_subset(after.dom(), w.correlator.pending.dom());
        },
    }
}

/// After any sequence of events a correlator that started consistent is
/// consistent: no more queries are counted as lost than were counted as seen.
pub proof fn lemma_lost_never_exceeds_seen(w: World, events: Seq<Event>)
    requires
        consistent(w.correlator),
        forall|q: Seq<char>| #[trigger] w.cache.contains_key(q) ==> w.cache[q].len() > 0,
    ensures
        consistent(run(w, events).correlator),
        run(w, events).correlator.unmatched_count <= run(w, events).correlator.total_requests_seen,
        forall|q: Seq<char>| #[trigger]
            run(w, events).cache.contains_key(q) ==> run(w, events).cache[q].len() > 0,
    decreases events.len(),
{
    if events.len() > 0 {
        lemma_lost_never_exceeds_seen(w, events.drop_last());
        lemma_step_keeps_consistent(run(w, events.drop_last()), events.last());
    }
}

proof fn lemma_learned_in_extends(
    w: World,
    events: Seq<Event>,
    qname: Seq<char>,
    ips: Seq<u32>,
)
    requires
        events.len() > 0,
        learned_in(w, events.drop_last(), qname, ips),
    ensures
        learned_in(w, events, qname, ips),
{
    let shorter = events.drop_last();
    let i = choose|i: int|
        0 <= i < shorter.len() && (#[trigger] shorter[i] matches Event::Message { flow, msg, now }
            && {
            let before = run(w, shorter.subrange(0, i)).correlator;
            &&& !msg.header.is_query
            &&& msg.header.rcode != RCODE_REFUSED
            &&& before.pending.contains_key(key_of(flow, msg.header.id))
            &&& before.pending[key_of(flow, msg.header.id)].qnames.contains(qname)
            &&& a_addresses(msg.answers).len() > 0
            &&& ips == a_addresses(msg.answers)
        });
    assert(shorter.subrange(0, i) =~= events.subrange(0, i));
    assert(events[i] == shorter[i]);
}

/// Every entry of the cache was there from the start, unchanged, or holds
/// the addresses of an observed reply that carried at least one IPv4 address
/// and answered a query for that name.
pub proof fn lemma_cache_holds_only_what_was_learned(w: World, events: Seq<Event>, qname: Seq<char>)
    requires
        run(w, events).cache.contains_key(qname),
    ensures
        (w.cache.contains_key(qname) && run(w, events).cache[qname] == w.cache[qname])
            || learned_in(w, events, qname, run(w, events).cache[qname]),
    decreases events.len(),
{
    if events.len() > 0 {
        let shorter = events.drop_last();
        let mid = run(w, shorter);
        let end = run(w, events);
        let changed = match events.last() {
            Event::Message { flow, msg, now } => !msg.header.is_query
                && mid.correlator.pending.contains_key(key_of(flow, msg.header.id))
                && msg.header.rcode != RCODE_REFUSED && a_addresses(
                msg.answers,
            ).len() > 0 && mid.correlator.pending[key_of(flow, msg.header.id)].qnames.contains(
                qname,
            ),
            _ => false,
        };
        if changed {
            assert(shorter =~= events.subrange(0, events.len() - 1));
            assert(events[events.len() - 1] == events.last());
        } else {
            assert(mid.cache.contains_key(qname) && end.cache[qname] == mid.cache[qname]);
            lemma_cache_holds_only_what_was_learned(w, shorter, qname);
            if !(w.cache.contains_key(qname) && mid.cache[qname] == w.cache[qname]) {
                lemma_learned_in_extends(w, events, qname, mid.cache[qname]);
            }
        }
    }
}

/// A release takes away only queries whose key is among the frames that
/// were handed in, and leaves every other query as it was.
pub proof fn lemma_release_takes_only_written(
    pending: Map<(u16, u64), PendingView>,
    written: Seq<Injection>,
    key: (u16, u64),
)
    requires
        pending.contains_key(key),
    ensures
        !pending.remove_keys(keys_of(written)).contains_key(key) ==> plans(written, key),
        !plans(written, key) ==> pending.remove_keys(keys_of(written))[key] == pending[key],
{
}

/// A forged frame decodes to the flow of its query, reversed, and to a DNS
/// payload that is a reply with the query's id and the remembered addresses
/// of the query's first name.
pub proof fn lemma_forged_frame_answers_query(
    frame: Seq<u8>,
    key: (u16, u64),
    entry: PendingView,
    cache: Map<Seq<char>, Seq<u32>>,
)
    requires
        forged_for(frame, key, entry, cache),
    ensures
        decoded(frame) is Some,
        decoded(frame).unwrap().0 == reversed(entry.flow),
        is_reply(decoded(frame).unwrap().1, key.0, entry.qnames[0], cache[entry.qnames[0]]),
        be16(decoded(frame).unwrap().1, 0) == key.0,
{
    let ips = cache[entry.qnames[0]];
    let reply = choose|reply: Seq<u8>|
        #[trigger] is_reply(reply, key.0, entry.qnames[0], ips) && reply.len() + 42 <= 1024 && frame
            == built_frame(
            reversed(entry.flow),
            reply,
        );
    lemma_built_frame_decodes(reversed(entry.flow), reply);
    lemma_reply_starts_with_id(reply, key.0, entry.qnames[0], ips);
}

/// A built reply that parses, parses to a response without error that has
/// the id it was built with, one question, and one answer for each address.
pub proof fn lemma_parsed_reply_keeps_id_and_counts(
    bytes: Seq<u8>,
    id: u16,
    domain: Seq<char>,
    ips: Seq<u32>,
)
    requires
        is_reply(bytes, id, domain, ips),
        ips.len() <= MAX_ANSWERS,
        parsed(bytes) is Some,
    ensures
        parsed(bytes).unwrap().header == (DnsHeader { id, is_query: false, rcode: 0 }),
        parsed(bytes).unwrap().questions.len() == 1,
        parsed(bytes).unwrap().answers.len() == ips.len(),
{
    lemma_reply_starts_with_id(bytes, id, domain, ips);
    lemma_parsed_follows_header(bytes);
}

} // verus!
