//! The queries that wait for their reply, each under its correlation key: the
//! transaction id and the hash of the flow.
//!
//! The entries live in a `DashMap`, so that a caller may later share the table
//! between tasks. The order in which the table hands its entries out is not
//! fixed.

use vstd::prelude::*;
use dashmap::DashMap;
use crate::flow::FlowIdentity;

verus! {

/// A query that waits for its reply.
#[derive(Clone, Debug)]
pub struct PendingEntry {
    /// The flow of the query as it was seen.
    pub flow: FlowIdentity,
    /// The names asked for, in the order of the question section.
    pub qnames: Vec<String>,
    /// When the query was seen, on the caller's monotonic clock.
    pub inserted_at: u64,
}

/// A waiting query, as a mathematical value.
pub struct PendingView {
    pub flow: FlowIdentity,
    pub qnames: Seq<Seq<char>>,
    pub inserted_at: u64,
}

/// The names of a list, as sequences of characters.
pub open spec fn names_view(names: Seq<String>) -> Seq<Seq<char>> {
    Seq::new(names.len(), |i: int| names[i]@)
}

impl View for PendingEntry {
    type V = PendingView;

    open spec fn view(&self) -> PendingView {
        PendingView {
            flow: self.flow,
            qnames: names_view(self.qnames@),
            inserted_at: self.inserted_at,
        }
    }
}

/// A table of waiting queries.
pub type PendingTable = DashMap<(u16, u64), PendingEntry>;

/// What a table of waiting queries holds.
pub uninterp spec fn pending_entries(t: PendingTable) -> Map<(u16, u64), PendingView>;

/// The table that holds no query.
pub open spec fn no_queries() -> Map<(u16, u64), PendingView> {
    Map::empty()
}

/// Calls `DashMap::new`: a table that holds nothing.
#[verifier::external_body]
pub(crate) fn new_table() -> (t: PendingTable)
    ensures
        pending_entries(t) == no_queries(),
{
    DashMap::new()
}

/// Calls `DashMap::insert`: afterwards the key maps to the entry, and every
/// other key is as it was. Tells whether the key was there before.
#[verifier::external_body]
pub(crate) fn insert_pending(t: &mut PendingTable, key: (u16, u64), entry: PendingEntry) -> (replaced: bool)
    ensures
        pending_entries(*final(t)) == pending_entries(*old(t)).insert(key, entry@),
        replaced == pending_entries(*old(t)).contains_key(key),
{
    t.insert(key, entry).is_some()
}

/// Calls `DashMap::remove`: afterwards the key is gone, and every other key
/// is as it was. Hands out the entry that was under the key, if there was one.
#[verifier::external_body]
pub(crate) fn remove_pending(t: &mut PendingTable, key: (u16, u64)) -> (r: Option<PendingEntry>)
    ensures
        pending_entries(*final(t)) == pending_entries(*old(t)).remove(key),
        r is Some <==> pending_entries(*old(t)).contains_key(key),
        r is Some ==> r.unwrap()@ == pending_entries(*old(t))[key],
{
    t.remove(&key).map(|pair| pair.1)
}

/// Calls `DashMap::len`: the number of keys.
#[verifier::external_body]
pub(crate) fn count_pending(t: &PendingTable) -> (n: usize)
    ensures
        n == pending_entries(*t).len(),
{
    t.len()
}

/// Calls `DashMap::iter` and copies each key with its entry: every key of
/// the table once, in no fixed order.
#[verifier::external_body]
pub(crate) fn snapshot_pending(t: &PendingTable) -> (items: Vec<((u16, u64), PendingEntry)>)
    ensures
        forall|i: int|
            0 <= i < items@.len() ==> pending_entries(*t).contains_key((#[trigger] items@[i]).0)
                && items@[i].1@ == pending_entries(*t)[items@[i].0],
        forall|i: int, j: int|
            0 <= i < j < items@.len() ==> (#[trigger] items@[i]).0 != (#[trigger] items@[j]).0,
        forall|key: (u16, u64)|
            #[trigger] pending_entries(*t).contains_key(key) ==> exists|i: int|
                0 <= i < items@.len() && (#[trigger] items@[i]).0 == key,
{
    t.iter().map(|item| (*item.key(), item.value().clone())).collect()
}

} // verus!
