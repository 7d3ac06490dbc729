//! The injector: when too many queries are lost, it answers waiting queries
//! from the cache.
//!
//! A round has two halves. `plan_injections` forges the frames and changes
//! nothing; the caller writes them to the wire; `release` then takes away the
//! queries whose frames went out. A query whose frame could not be written
//! stays, for the next round or for its timeout.

use vstd::prelude::*;
use crate::cache::Cache;
use crate::correlator::{loss_above_threshold, Correlator, CorrelatorView};
use crate::flow::reversed;
use crate::frame::{build_frame, built_frame, FRAME_HEADERS_LEN, MAX_FRAME_LEN};
use crate::pending::{PendingEntry, PendingView};
use crate::reply::{build_dns_reply, is_reply, lemma_reply_len, name_limit, MAX_ANSWERS};

verus! {

/// A forged reply for one waiting query, ready for the wire. Only
/// `plan_injections` makes one.
pub struct Injection {
    key: (u16, u64),
    frame: Vec<u8>,
}

impl Injection {
    /// The key of the query that the frame answers.
    pub closed spec fn spec_key(&self) -> (u16, u64) {
        self.key
    }

    /// The bytes of the frame.
    pub closed spec fn spec_frame(&self) -> Seq<u8> {
        self.frame@
    }

    /// The key of the query that the frame answers.
    pub fn key(&self) -> (key: (u16, u64))
        ensures
            key == self.spec_key(),
    {
        self.key
    }

    /// The frame to write.
    pub fn frame(&self) -> (frame: &Vec<u8>)
        ensures
            frame@ == self.spec_frame(),
    {
        &self.frame
    }
}

/// Replies are forged: the loss is above the threshold and a query waits.
pub open spec fn injecting(c: CorrelatorView) -> bool {
    loss_above_threshold(c.total_requests_seen, c.unmatched_count) && c.pending.len() > 0
}

/// `frame` answers the waiting query `entry`: its first name has remembered
/// addresses, and the frame carries a reply with the query's id and those
/// addresses back along the query's flow.
pub open spec fn forged_for(
    frame: Seq<u8>,
    key: (u16, u64),
    entry: PendingView,
    cache: Map<Seq<char>, Seq<u32>>,
) -> bool {
    &&& entry.qnames.len() > 0
    &&& cache.contains_key(entry.qnames[0])
    &&& exists|reply: Seq<u8>|
        #[trigger] is_reply(reply, key.0, entry.qnames[0], cache[entry.qnames[0]]) && reply.len()
            + FRAME_HEADERS_LEN <= MAX_FRAME_LEN && frame == built_frame(
            reversed(entry.flow),
            reply,
        )
}

/// No frame is forged for the waiting query `entry`: it asks for no name,
/// nothing is remembered for its first name, or the reply is too long for a
/// message or for a frame.
pub open spec fn passed_over(
    key: (u16, u64),
    entry: PendingView,
    cache: Map<Seq<char>, Seq<u32>>,
) -> bool {
    ||| entry.qnames.len() == 0
    ||| !cache.contains_key(entry.qnames[0])
    ||| cache[entry.qnames[0]].len() > MAX_ANSWERS
    ||| exists|reply: Seq<u8>|
        #[trigger] is_reply(reply, key.0, entry.qnames[0], cache[entry.qnames[0]]) && reply.len()
            + FRAME_HEADERS_LEN > MAX_FRAME_LEN
}

/// A waiting query is not passed over when the cache knows its first name
/// and the reply fits a frame even with every name written at full length.
pub proof fn lemma_short_replies_are_forged(
    key: (u16, u64),
    entry: PendingView,
    cache: Map<Seq<char>, Seq<u32>>,
)
    requires
        entry.qnames.len() > 0,
        cache.contains_key(entry.qnames[0]),
        cache[entry.qnames[0]].len() <= MAX_ANSWERS,
        16 + name_limit(entry.qnames[0]) + cache[entry.qnames[0]].len() * (name_limit(
            entry.qnames[0],
        ) + 14) + FRAME_HEADERS_LEN <= MAX_FRAME_LEN,
    ensures
        !passed_over(key, entry, cache),
{
    assert forall|reply: Seq<u8>| #[trigger]
        is_reply(reply, key.0, entry.qnames[0], cache[entry.qnames[0]]) implies reply.len()
        + FRAME_HEADERS_LEN <= MAX_FRAME_LEN by {
        lemma_reply_len(reply, key.0, entry.qnames[0], cache[entry.qnames[0]]);
    }
}

/// The plan holds a frame for `key`.
pub open spec fn plans(plan: Seq<Injection>, key: (u16, u64)) -> bool {
    exists|p: int| 0 <= p < plan.len() && (#[trigger] plan[p]).spec_key() == key
}

/// The keys of the given frames.
pub open spec fn keys_of(written: Seq<Injection>) -> Set<(u16, u64)> {
    Set::new(|key: (u16, u64)| plans(written, key))
}

/// Forges the frame that answers one waiting query from the cache, if the
/// cache knows the query's first name.
pub fn forge_reply(key: (u16, u64), entry: &PendingEntry, cache: &Cache) -> (r: Option<Vec<u8>>)
    requires
        cache.wf(),
    ensures
        r is Some ==> forged_for(r.unwrap()@, key, entry@, cache@),
        r is None ==> passed_over(key, entry@, cache@),
{
    if entry.qnames.len() == 0 {
        return None;
    }
    let qname = entry.qnames[0].as_str();
    assert(qname@ == entry@.qnames[0]);
    let ips = match cache.lookup(qname) {
        Some(ips) => ips,
        None => {
            return None;
        },
    };
    let reply = match build_dns_reply(key.0, qname, ips.as_slice()) {
        Some(reply) => reply,
        None => {
            return None;
        },
    };
    let back = entry.flow.swapped();
    let frame = build_frame(&back, reply.as_slice());
    proof {
        assert(is_reply(reply@, key.0, entry@.qnames[0], cache@[entry@.qnames[0]]));
    }
    frame
}

impl Correlator {
    /// Forges a frame for every waiting query whose first name the cache
    /// knows, provided that the loss is above the threshold. The correlator is
    /// left as it is: the caller writes the frames and hands those that went
    /// out to `release`.
    pub fn plan_injections(&self, cache: &Cache) -> (plan: Vec<Injection>)
        requires
            self.wf(),
            cache.wf(),
        ensures
            !injecting(self@) ==> plan@.len() == 0,
            forall|p: int|
                0 <= p < plan@.len() ==> self@.pending.contains_key((#[trigger] plan@[p]).spec_key())
                    && forged_for(
                    plan@[p].spec_frame(),
                    plan@[p].spec_key(),
                    self@.pending[plan@[p].spec_key()],
                    cache@,
                ),
            forall|p: int, q: int|
                0 <= p < q < plan@.len() ==> (#[trigger] plan@[p]).spec_key() != (
                #[trigger] plan@[q]).spec_key(),
            injecting(self@) ==> forall|key: (u16, u64)|
                #[trigger] self@.pending.contains_key(key) ==> plans(plan@, key) || passed_over(
                    key,
                    self@.pending[key],
                    cache@,
                ),
    {
        let mut plan: Vec<Injection> = Vec::new();
        if !self.loss_is_high() || self.pending_len() == 0 {
            return plan;
        }
        let items = self.pending();
        let ghost table = self@.pending;
        let mut i: usize = 0;
        while i < items.len()
            invariant
                i <= items.len(),
                cache.wf(),
                forall|j: int|
                    0 <= j < items@.len() ==> table.contains_key((#[trigger] items@[j]).0)
                        && items@[j].1@ == table[items@[j].0],
                forall|j: int, k: int|
                    0 <= j < k < items@.len() ==> (#[trigger] items@[j]).0 != (
                    #[trigger] items@[k]).0,
                forall|p: int|
                    0 <= p < plan@.len() ==> table.contains_key((#[trigger] plan@[p]).spec_key())
                        && forged_for(
                        plan@[p].spec_frame(),
                        plan@[p].spec_key(),
                        table[plan@[p].spec_key()],
                        cache@,
                    ),
                forall|p: int|
                    0 <= p < plan@.len() ==> exists|j: int|
                        0 <= j < i && (#[trigger] items@[j]).0 == (#[trigger] plan@[p]).spec_key(),
                forall|p: int, q: int|
                    0 <= p < q < plan@.len() ==> (#[trigger] plan@[p]).spec_key() != (
                    #[trigger] plan@[q]).spec_key(),
                forall|j: int|
                    0 <= j < i ==> plans(plan@, (#[trigger] items@[j]).0) || passed_over(
                        items@[j].0,
                        table[items@[j].0],
                        cache@,
                    ),
            decreases items.len() - i,
        {
            let key = items[i].0;
            let ghost planned = plan@;
            match forge_reply(key, &items[i].1, cache) {
                Some(frame) => {
                    let injection = Injection { key, frame };
                    plan.push(injection);
                    proof {
                        let last = planned.len() as int;
                        assert(plan@[last].spec_key() == items@[i as int].0);
                        assert forall|j: int| 0 <= j < i + 1 implies plans(
                            plan@,
                            (#[trigger] items@[j]).0,
                        ) || passed_over(items@[j].0, table[items@[j].0], cache@) by {
                            if j < i {
                                if plans(planned, items@[j].0) {
                                    let p = choose|p: int|
                                        0 <= p < planned.len() && (#[trigger] planned[p]).spec_key()
                                            == items@[j].0;
                                    assert(plan@[p].spec_key() == items@[j].0);
                                }
                            }
                        }
                        assert forall|p: int, q: int| 0 <= p < q < plan@.len() implies (
                        #[trigger] plan@[p]).spec_key() != (#[trigger] plan@[q]).spec_key() by {
                            if q == last {
                                assert(planned[p] == plan@[p]);
                                let j = choose|j: int|
                                    0 <= j < i && (#[trigger] items@[j]).0 == planned[p].spec_key();
                                assert(items@[j].0 != items@[i as int].0);
                            } else {
                                assert(planned[p] == plan@[p]);
                                assert(planned[q] == plan@[q]);
                            }
                        }
                        assert forall|p: int| 0 <= p < plan@.len() implies exists|j: int|
                            0 <= j < i + 1 && (#[trigger] items@[j]).0 == (
                            #[trigger] plan@[p]).spec_key() by {
                            if p == last {
                                assert(items@[i as int].0 == plan@[p].spec_key());
                            } else {
                                assert(planned[p] == plan@[p]);
                                let j = choose|j: int|
                                    0 <= j < i && (#[trigger] items@[j]).0 == planned[p].spec_key();
                                assert(items@[j].0 == plan@[p].spec_key());
                            }
                        }
                    }
                },
                None => {},
            }
            i += 1;
        }
        proof {
            assert forall|key: (u16, u64)| #[trigger] table.contains_key(key) implies plans(
                plan@,
                key,
            ) || passed_over(key, table[key], cache@) by {
                let j = choose|j: int| 0 <= j < items@.len() && (#[trigger] items@[j]).0 == key;
                assert(plans(plan@, items@[j].0) || passed_over(
                    items@[j].0,
                    table[items@[j].0],
                    cache@,
                ));
            }
        }
        plan
    }

    /// Takes the queries away whose forged frames went out. Only a query
    /// for which a frame is handed in is removed; to hand in the frame of
    /// a query that waits no more does nothing. Returns how many were removed.
    pub fn release(&mut self, written: &Vec<Injection>) -> (released: usize)
        requires
            old(self).wf(),
        ensures
            final(self).wf(),
            final(self)@.pending == old(self)@.pending.remove_keys(keys_of(written@)),
            final(self)@.unmatched == old(self)@.unmatched,
            final(self)@.total_requests_seen == old(self)@.total_requests_seen,
            final(self)@.unmatched_count == old(self)@.unmatched_count,
            released == old(self)@.pending.len() - final(self)@.pending.len(),
    {
        let ghost before = self@;
        let mut released: usize = 0;
        let mut i: usize = 0;
        assert(self@.pending =~= before.pending.remove_keys(keys_of(written@.subrange(0, 0))));
        while i < written.len()
            invariant
                i <= written.len(),
                self.wf(),
                before.pending.dom().finite(),
                self@.pending == before.pending.remove_keys(
                    keys_of(written@.subrange(0, i as int)),
                ),
                self@.unmatched == before.unmatched,
                self@.total_requests_seen == before.total_requests_seen,
                self@.unmatched_count == before.unmatched_count,
                released <= i,
                released == before.pending.len() - self@.pending.len(),
            decreases written.len() - i,
        {
            let key = written[i].key();
            let ghost done = written@.subrange(0, i as int);
            let ghost next = written@.subrange(0, i + 1);
            let removed = self.take(key);
            proof {
                assert(next[i as int] == written@[i as int]);
                assert forall|k: (u16, u64)| keys_of(next).contains(k) == (keys_of(done).contains(k)
                    || k == key) by {
                    if plans(done, k) {
                        let p = choose|p: int| 0 <= p < done.len() && (#[trigger] done[p]).spec_key() == k;
                        assert(next[p].spec_key() == k);
                    }
                    if plans(next, k) {
                        let p = choose|p: int| 0 <= p < next.len() && (#[trigger] next[p]).spec_key() == k;
                        if p < i {
                            assert(done[p].spec_key() == k);
                        }
                    }
                    if k == key {
                        assert(next[i as int].spec_key() == k);
                    }
                }
                assert(self@.pending =~= before.pending.remove_keys(keys_of(next)));
            }
            if removed.is_some() {
                released = released + 1;
            }
            i += 1;
        }
        assert(written@.subrange(0, i as int) =~= written@);
        released
    }
}

} // verus!
