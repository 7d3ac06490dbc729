//! The addresses learned for each name.
//!
//! The entries live in a `DashMap`, so that a caller may later share the cache
//! between tasks. An entry is never empty, and the only way in is `remember`.

use vstd::prelude::*;
use dashmap::DashMap;

verus! {

/// Makes the map type of the `dashmap` crate known. Nothing inside a map is
/// visible; what it holds is spoken of through a name.
#[verifier::external_type_specification]
#[verifier::external_body]
#[verifier::reject_recursive_types(K)]
#[verifier::reject_recursive_types(V)]
#[verifier::reject_recursive_types(S)]
pub struct ExDashMap<K, V, S>(dashmap::DashMap<K, V, S>);

/// A map from names to address lists.
pub type AddressTable = DashMap<String, Vec<u32>>;

/// What a map from names to address lists holds.
pub uninterp spec fn cache_entries(m: AddressTable) -> Map<Seq<char>, Seq<u32>>;

/// The map that holds no name.
pub open spec fn no_names() -> Map<Seq<char>, Seq<u32>> {
    Map::empty()
}

/// Calls `DashMap::new`: a map that holds nothing.
#[verifier::external_body]
fn new_entries() -> (m: AddressTable)
    ensures
        cache_entries(m) == no_names(),
{
    DashMap::new()
}

/// Calls `DashMap::insert`: afterwards the key maps to the value, whatever it
/// mapped to before, and every other key is as it was.
#[verifier::external_body]
fn insert_entry(m: &mut AddressTable, qname: String, ips: Vec<u32>)
    ensures
        cache_entries(*final(m)) == cache_entries(*old(m)).insert(qname@, ips@),
{
    m.insert(qname, ips);
}

/// Calls `DashMap::get` and copies the value out: the value under the key,
/// if the map holds the key.
#[verifier::external_body]
fn get_entry(m: &AddressTable, qname: &str) -> (r: Option<Vec<u32>>)
    ensures
        r is Some <==> cache_entries(*m).contains_key(qname@),
        r is Some ==> r.unwrap()@ == cache_entries(*m)[qname@],
{
    m.get(qname).map(|entry| entry.value().clone())
}

/// Calls `DashMap::len`: the number of keys.
#[verifier::external_body]
fn count_entries(m: &AddressTable) -> (n: usize)
    ensures
        n == cache_entries(*m).len(),
{
    m.len()
}

/// The names that were answered, each with the addresses of its latest
/// answer.
pub struct Cache {
    entries: AddressTable,
}

impl View for Cache {
    type V = Map<Seq<char>, Seq<u32>>;

    closed spec fn view(&self) -> Map<Seq<char>, Seq<u32>> {
        cache_entries(self.entries)
    }
}

impl Cache {
    /// The cache holds finitely many names, and no name without an address.
    pub open spec fn wf(&self) -> bool {
        &&& self@.dom().finite()
        &&& forall|qname: Seq<char>| #[trigger] self@.contains_key(qname) ==> self@[qname].len() > 0
    }

    /// A cache that knows no name.
    pub fn new() -> (cache: Cache)
        ensures
            cache.wf(),
            cache@ == no_names(),
    {
        Cache { entries: new_entries() }
    }

    /// Remembers `ips` as the addresses of `qname`, in place of what was
    /// remembered before. An empty list is not remembered.
    pub fn remember(&mut self, qname: String, ips: Vec<u32>) -> (stored: bool)
        requires
            old(self).wf(),
        ensures
            final(self).wf(),
            stored == (ips@.len() > 0),
            stored ==> final(self)@ == old(self)@.insert(qname@, ips@),
            !stored ==> final(self)@ == old(self)@,
    {
        if ips.len() == 0 {
            return false;
        }
        insert_entry(&mut self.entries, qname, ips);
        true
    }

    /// The addresses remembered for `qname`.
    pub fn lookup(&self, qname: &str) -> (r: Option<Vec<u32>>)
        requires
            self.wf(),
        ensures
            r is Some <==> self@.contains_key(qname@),
            r is Some ==> r.unwrap()@ == self@[qname@] && r.unwrap()@.len() > 0,
    {
        get_entry(&self.entries, qname)
    }

    /// The number of names that are remembered.
    pub fn len(&self) -> (n: usize)
        ensures
            n == self@.len(),
    {
        count_entries(&self.entries)
    }
}

} // verus!
