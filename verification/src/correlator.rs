//! The correlator: it pairs each reply with the query it answers, learns
//! addresses from the replies, ages out queries that stay unanswered and keeps
//! count of the loss.

use vstd::prelude::*;
use vstd::slice::slice_to_vec;
use crate::cache::Cache;
use crate::flow::{flow_hash, symmetric_flow_hash, FlowIdentity};
use crate::message::{a_addresses, DnsMessage, MessageView, RCODE_REFUSED};
use crate::pending::{count_pending, insert_pending, names_view, new_table, no_queries, pending_entries, remove_pending, snapshot_pending};
use crate::pending::{PendingEntry, PendingTable, PendingView};

verus! {

/// Milliseconds that a query waits for its reply before it counts as lost.
pub const WAIT_TIME_MS: u64 = 5000;

/// Milliseconds between two rounds of forging replies.
pub const TICK_MS: u64 = 10;

/// The loss, in lost queries per thousand, above which replies are forged.
pub const THRESHOLD_PER_MILLE: u64 = 5;

/// A query that was given up, or refused by the server.
#[derive(Clone, Debug)]
pub struct UnmatchedRecord {
    pub flow: FlowIdentity,
    pub qnames: Vec<String>,
    pub timed_out_at: u64,
}

/// A record of the unmatched log, as a mathematical value.
pub struct UnmatchedView {
    pub flow: FlowIdentity,
    pub qnames: Seq<Seq<char>>,
    pub timed_out_at: u64,
}

impl View for UnmatchedRecord {
    type V = UnmatchedView;

    open spec fn view(&self) -> UnmatchedView {
        UnmatchedView {
            flow: self.flow,
            qnames: names_view(self.qnames@),
            timed_out_at: self.timed_out_at,
        }
    }
}

/// What the correlator made of one message.
#[derive(Clone, Copy, Debug, PartialEq, Eq, Structural)]
pub enum Observation {
    /// A query under a new key: it now waits, and its timeout is due.
    Recorded,
    /// A query under a key that already waited: the entry was overwritten.
    Retransmitted,
    /// A reply that refuses its query: the query went to the unmatched log.
    Refused,
    /// A reply with addresses: they were remembered for the names of its query.
    Learned,
    /// A reply without an IPv4 address: its query was dropped.
    NoAddress,
    /// A reply to no waiting query.
    NoPending,
}

/// Which of its two waits a timeout has behind it.
#[derive(Clone, Copy, Debug, PartialEq, Eq, Structural)]
pub enum TimeoutStage {
    /// The first wait is over.
    First,
    /// The additional wait under loss is over too.
    Deferred,
}

/// What a timeout does when a wait is over.
#[derive(Clone, Copy, Debug, PartialEq, Eq, Structural)]
pub enum TimeoutStep {
    /// Loss is high: wait once more, then come back as `Deferred`.
    Defer,
    /// The query still waited: it was removed, logged and counted as lost.
    Expired,
    /// The query waits no more: nothing was done.
    Gone,
}

/// The counts that a status line shows.
#[derive(Clone, Copy, Debug, PartialEq, Eq, Structural)]
pub struct Status {
    /// Queries seen under a new key.
    pub total: u64,
    /// Queries that wait for their reply.
    pub matching: usize,
    /// Names with remembered addresses.
    pub cached: usize,
    /// Queries that timed out.
    pub unmatched: u64,
}

/// The waiting queries, the unmatched log and the two loss counters.
pub struct Correlator {
    pending: PendingTable,
    unmatched: Vec<UnmatchedRecord>,
    total_requests_seen: u64,
    unmatched_count: u64,
}

/// The state of a correlator, as a mathematical value.
pub struct CorrelatorView {
    pub pending: Map<(u16, u64), PendingView>,
    pub unmatched: Seq<UnmatchedView>,
    pub total_requests_seen: nat,
    pub unmatched_count: nat,
}

/// The state of correlator and cache after a step, and what the step
/// reports.
pub struct Observed {
    pub correlator: CorrelatorView,
    pub cache: Map<Seq<char>, Seq<u32>>,
    pub outcome: Observation,
}

/// The state of the correlator after a timeout, and what the timeout
/// reports.
pub struct TimedOut {
    pub correlator: CorrelatorView,
    pub step: TimeoutStep,
}

/// The table is finite, and every query that was counted as lost or still
/// waits was counted as seen.
pub open spec fn consistent(c: CorrelatorView) -> bool {
    &&& c.pending.dom().finite()
    &&& c.unmatched_count + c.pending.len() <= c.total_requests_seen
}

/// The key under which a message of `flow` with transaction id `id` is
/// filed. It is the same for both directions of the flow.
pub open spec fn key_of(flow: FlowIdentity, id: u16) -> (u16, u64) {
    (id, flow_hash(flow))
}

/// More than `THRESHOLD_PER_MILLE` in a thousand queries were lost. With no
/// query seen there is no loss.
pub open spec fn loss_above_threshold(total: nat, unmatched: nat) -> bool {
    total > 0 && unmatched * 1000 > total * THRESHOLD_PER_MILLE
}

/// The cache after `ips` was remembered for each of `qnames`.
pub open spec fn learned(
    cache: Map<Seq<char>, Seq<u32>>,
    qnames: Seq<Seq<char>>,
    ips: Seq<u32>,
) -> Map<Seq<char>, Seq<u32>> {
    Map::new(
        |q: Seq<char>| cache.contains_key(q) || qnames.contains(q),
        |q: Seq<char>|
            if qnames.contains(q) {
                ips
            } else {
                cache[q]
            },
    )
}

/// What observing one message does.
///
/// A query is filed under its key, over any entry that waits there, and
/// counts as seen when the key is new. A reply takes the entry under its key
/// away: a refusing one sends it to the unmatched log, one with IPv4 addresses
/// has them remembered for every name of the query, any other drops it. A
/// reply without a waiting query changes nothing.
pub open spec fn observed(
    c: CorrelatorView,
    cache: Map<Seq<char>, Seq<u32>>,
    flow: FlowIdentity,
    msg: MessageView,
    now: u64,
) -> Observed {
    let key = key_of(flow, msg.header.id);
    if msg.header.is_query {
        let entry = PendingView { flow, qnames: msg.questions, inserted_at: now };
        if c.pending.contains_key(key) {
            Observed {
                correlator: CorrelatorView { pending: c.pending.insert(key, entry), ..c },
                cache,
                outcome: Observation::Retransmitted,
            }
        } else {
            Observed {
                correlator: CorrelatorView {
                    pending: c.pending.insert(key, entry),
                    total_requests_seen: c.total_requests_seen + 1,
                    ..c
                },
                cache,
                outcome: Observation::Recorded,
            }
        }
    } else if !c.pending.contains_key(key) {
        Observed { correlator: c, cache, outcome: Observation::NoPending }
    } else if msg.header.rcode == RCODE_REFUSED {
        Observed {
            correlator: CorrelatorView {
                pending: c.pending.remove(key),
                unmatched: c.unmatched.push(
                    UnmatchedView { flow, qnames: c.pending[key].qnames, timed_out_at: now },
                ),
                ..c
            },
            cache,
            outcome: Observation::Refused,
        }
    } else if a_addresses(msg.answers).len() > 0 {
        Observed {
            correlator: CorrelatorView { pending: c.pending.remove(key), ..c },
            cache: learned(cache, c.pending[key].qnames, a_addresses(msg.answers)),
            outcome: Observation::Learned,
        }
    } else {
        Observed {
            correlator: CorrelatorView { pending: c.pending.remove(key), ..c },
            cache,
            outcome: Observation::NoAddress,
        }
    }
}

/// What a timeout does when one of its waits is over.
///
/// After the first wait, under loss above the threshold, it asks for a
/// second wait and changes nothing. Else, if the query still waits, it is
/// removed, logged as unmatched and counted as lost.
pub open spec fn timed_out(
    c: CorrelatorView,
    key: (u16, u64),
    stage: TimeoutStage,
    now: u64,
) -> TimedOut {
    if stage == TimeoutStage::First && loss_above_threshold(
        c.total_requests_seen,
        c.unmatched_count,
    ) {
        TimedOut { correlator: c, step: TimeoutStep::Defer }
    } else if c.pending.contains_key(key) {
        TimedOut {
            correlator: CorrelatorView {
                pending: c.pending.remove(key),
                unmatched: c.unmatched.push(
                    UnmatchedView {
                        flow: c.pending[key].flow,
                        qnames: c.pending[key].qnames,
                        timed_out_at: now,
                    },
                ),
                unmatched_count: c.unmatched_count + 1,
                ..c
            },
            step: TimeoutStep::Expired,
        }
    } else {
        TimedOut { correlator: c, step: TimeoutStep::Gone }
    }
}

/// The key under which a message of `flow` with transaction id `id` is filed.
pub fn correlation_key(flow: &FlowIdentity, id: u16) -> (key: (u16, u64))
    ensures
        key == key_of(*flow, id),
{
    (id, symmetric_flow_hash(flow))
}

/// Tells whether the loss is above the threshold.
pub fn calc_loss(total: u64, unmatched: u64) -> (above: bool)
    ensures
        above == loss_above_threshold(total as nat, unmatched as nat),
{
    let lost: u128 = unmatched as u128 * 1000;
    assert(THRESHOLD_PER_MILLE == 5);
    let allowed: u128 = total as u128 * 5;
    total > 0 && lost > allowed
}

proof fn lemma_learned_step(
    cache: Map<Seq<char>, Seq<u32>>,
    qnames: Seq<Seq<char>>,
    i: int,
    ips: Seq<u32>,
)
    requires
        0 <= i < qnames.len(),
    ensures
        learned(cache, qnames.subrange(0, i + 1), ips) == learned(
            cache,
            qnames.subrange(0, i),
            ips,
        ).insert(qnames[i], ips),
{
    let before = qnames.subrange(0, i);
    let after = qnames.subrange(0, i + 1);
    assert(after =~= before.push(qnames[i]));
    assert forall|q: Seq<char>| after.contains(q) == (before.contains(q) || q == qnames[i]) by {
        if before.contains(q) {
            let j = choose|j: int| 0 <= j < before.len() && before[j] == q;
            assert(after[j] == q);
        }
        if q == qnames[i] {
            assert(after[i] == q);
        }
    }
    assert(learned(cache, after, ips) =~= learned(cache, before, ips).insert(qnames[i], ips));
}

impl View for Correlator {
    type V = CorrelatorView;

    closed spec fn view(&self) -> CorrelatorView {
        CorrelatorView {
            pending: pending_entries(self.pending),
            unmatched: Seq::new(self.unmatched@.len(), |i: int| self.unmatched@[i]@),
            total_requests_seen: self.total_requests_seen as nat,
            unmatched_count: self.unmatched_count as nat,
        }
    }
}

impl Correlator {
    /// The state is consistent and the counters fit their 64 bits.
    pub open spec fn wf(&self) -> bool {
        &&& consistent(self@)
        &&& self@.total_requests_seen <= u64::MAX
    }

    /// A correlator that has seen nothing.
    pub fn new() -> (c: Correlator)
        ensures
            c.wf(),
            c@.pending == no_queries(),
            c@.unmatched.len() == 0,
            c@.total_requests_seen == 0,
            c@.unmatched_count == 0,
    {
        Correlator {
            pending: new_table(),
            unmatched: Vec::new(),
            total_requests_seen: 0,
            unmatched_count: 0,
        }
    }

    /// The number of queries seen under a new key.
    pub fn total_requests_seen(&self) -> (n: u64)
        ensures
            n == self@.total_requests_seen,
    {
        self.total_requests_seen
    }

    /// The number of queries that timed out.
    pub fn unmatched_count(&self) -> (n: u64)
        ensures
            n == self@.unmatched_count,
    {
        self.unmatched_count
    }

    /// The number of queries that wait for their reply.
    pub fn pending_len(&self) -> (n: usize)
        ensures
            n == self@.pending.len(),
    {
        count_pending(&self.pending)
    }

    /// The number of records in the unmatched log.
    pub fn unmatched_len(&self) -> (n: usize)
        ensures
            n == self@.unmatched.len(),
    {
        self.unmatched.len()
    }

    /// The unmatched log, oldest record first.
    pub fn unmatched(&self) -> (log: &Vec<UnmatchedRecord>)
        ensures
            log@.len() == self@.unmatched.len(),
            forall|i: int| 0 <= i < log@.len() ==> (#[trigger] log@[i])@ == self@.unmatched[i],
    {
        &self.unmatched
    }

    /// The waiting queries with their keys: every one once, in no fixed
    /// order.
    pub fn pending(&self) -> (items: Vec<((u16, u64), PendingEntry)>)
        ensures
            forall|i: int|
                0 <= i < items@.len() ==> self@.pending.contains_key((#[trigger] items@[i]).0)
                    && items@[i].1@ == self@.pending[items@[i].0],
            forall|i: int, j: int|
                0 <= i < j < items@.len() ==> (#[trigger] items@[i]).0 != (#[trigger] items@[j]).0,
            forall|key: (u16, u64)|
                #[trigger] self@.pending.contains_key(key) ==> exists|i: int|
                    0 <= i < items@.len() && (#[trigger] items@[i]).0 == key,
    {
        snapshot_pending(&self.pending)
    }

    /// Tells whether the loss is above the threshold.
    pub fn loss_is_high(&self) -> (above: bool)
        ensures
            above == loss_above_threshold(self@.total_requests_seen, self@.unmatched_count),
    {
        calc_loss(self.total_requests_seen, self.unmatched_count)
    }

    /// The counts for a status line.
    pub fn log_status(&self, cache: &Cache) -> (status: Status)
        ensures
            status.total == self@.total_requests_seen,
            status.matching == self@.pending.len(),
            status.cached == cache@.len(),
            status.unmatched == self@.unmatched_count,
    {
        Status {
            total: self.total_requests_seen,
            matching: count_pending(&self.pending),
            cached: cache.len(),
            unmatched: self.unmatched_count,
        }
    }

    /// Observes one decoded DNS message that travelled along `flow` at time
    /// `now`.
    pub fn observe(&mut self, cache: &mut Cache, flow: &FlowIdentity, msg: &DnsMessage, now: u64) -> (outcome: Observation)
        requires
            old(self).wf(),
            old(cache).wf(),
            old(self)@.total_requests_seen < u64::MAX,
        ensures
            final(self).wf(),
            final(cache).wf(),
            observed(old(self)@, old(cache)@, *flow, msg@, now) == (Observed {
                correlator: final(self)@,
                cache: final(cache)@,
                outcome,
            }),
    {
        let key = correlation_key(flow, msg.header.id);
        let ghost before = self@;
        let ghost cache_before = cache@;
        if msg.header.is_query {
            let qnames = msg.question_names();
            let entry = PendingEntry { flow: *flow, qnames, inserted_at: now };
            assert(entry@.qnames =~= msg@.questions);
            let replaced = insert_pending(&mut self.pending, key, entry);
            if replaced {
                assert(self@.unmatched =~= before.unmatched);
                Observation::Retransmitted
            } else {
                self.total_requests_seen = self.total_requests_seen + 1;
                assert(self@.unmatched =~= before.unmatched);
                Observation::Recorded
            }
        } else {
            match remove_pending(&mut self.pending, key) {
                None => {
                    assert(self@.pending =~= before.pending);
                    assert(self@.unmatched =~= before.unmatched);
                    Observation::NoPending
                },
                Some(entry) => {
                    if msg.header.rcode == RCODE_REFUSED {
                        let record = UnmatchedRecord {
                            flow: *flow,
                            qnames: entry.qnames,
                            timed_out_at: now,
                        };
                        self.unmatched.push(record);
                        assert(self@.unmatched =~= before.unmatched.push(record@));
                        Observation::Refused
                    } else {
                        assert(self@.unmatched =~= before.unmatched);
                        let ips = msg.a_records();
                        if ips.len() > 0 {
                            let mut i: usize = 0;
                            assert(entry@.qnames.subrange(0, 0) =~= Seq::<Seq<char>>::empty());
                            assert(cache@ =~= learned(cache_before, entry@.qnames.subrange(0, 0), ips@));
                            while i < entry.qnames.len()
                                invariant
                                    i <= entry.qnames.len(),
                                    ips@.len() > 0,
                                    cache.wf(),
                                    cache@ == learned(
                                        cache_before,
                                        entry@.qnames.subrange(0, i as int),
                                        ips@,
                                    ),
                                decreases entry.qnames.len() - i,
                            {
                                proof {
                                    lemma_learned_step(cache_before, entry@.qnames, i as int, ips@);
                                }
                                let qname = entry.qnames[i].clone();
                                let addresses = slice_to_vec(ips.as_slice());
                                cache.remember(qname, addresses);
                                i += 1;
                            }
                            assert(entry@.qnames.subrange(0, i as int) =~= entry@.qnames);
                            Observation::Learned
                        } else {
                            Observation::NoAddress
                        }
                    }
                },
            }
        }
    }

    /// Acts for the timeout of `key` when one of its waits is over, at time
    /// `now`.
    pub fn timeout(&mut self, key: (u16, u64), stage: TimeoutStage, now: u64) -> (step: TimeoutStep)
        requires
            old(self).wf(),
        ensures
            final(self).wf(),
            timed_out(old(self)@, key, stage, now) == (TimedOut { correlator: final(self)@, step }),
    {
        let ghost before = self@;
        if stage == TimeoutStage::First && self.loss_is_high() {
            return TimeoutStep::Defer;
        }
        match remove_pending(&mut self.pending, key) {
            Some(entry) => {
                let record = UnmatchedRecord {
                    flow: entry.flow,
                    qnames: entry.qnames,
                    timed_out_at: now,
                };
                self.unmatched.push(record);
                self.unmatched_count = self.unmatched_count + 1;
                assert(self@.unmatched =~= before.unmatched.push(record@));
                TimeoutStep::Expired
            },
            None => {
                assert(self@.pending =~= before.pending);
                assert(self@.unmatched =~= before.unmatched);
                TimeoutStep::Gone
            },
        }
    }

    /// Takes the query under `key` out of the table, if one waits there, and
    /// leaves the log and the counters alone.
    pub(crate) fn take(&mut self, key: (u16, u64)) -> (r: Option<PendingEntry>)
        requires
            old(self).wf(),
        ensures
            final(self).wf(),
            final(self)@ == (CorrelatorView {
                pending: old(self)@.pending.remove(key),
                ..old(self)@
            }),
            r is Some <==> old(self)@.pending.contains_key(key),
            r is Some ==> r.unwrap()@ == old(self)@.pending[key],
    {
        let ghost before = self@;
        let r = remove_pending(&mut self.pending, key);
        assert(self@.unmatched =~= before.unmatched);
        r
    }
}

} // verus!
