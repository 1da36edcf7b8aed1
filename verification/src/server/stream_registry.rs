//! Which stream numbers are in use and which are spent.
use dashmap::DashMap;
use vstd::prelude::*;

verus! {

/// The concurrent map of the `dashmap` crate. Its contents are spoken of only
/// through exclusive references, or shared ones while nobody writes.
#[verifier::external_type_specification]
#[verifier::external_body]
#[verifier::reject_recursive_types(K)]
#[verifier::reject_recursive_types(V)]
#[verifier::reject_recursive_types(S)]
pub struct ExDashMap<K, V, S>(DashMap<K, V, S>);

/// The streams of a map: whether each is spent, and when it was registered.
pub uninterp spec fn stream_entries(m: DashMap<u128, (bool, u64)>) -> Map<u128, (bool, u64)>;

/// `DashMap::new`.
#[verifier::external_body]
fn streams_new() -> (m: DashMap<u128, (bool, u64)>)
    ensures
        stream_entries(m).dom().is_empty(),
{
    DashMap::new()
}

/// `DashMap::get`, with the entry copied.
#[verifier::external_body]
fn streams_get(m: &DashMap<u128, (bool, u64)>, id: u128) -> (r: Option<(bool, u64)>)
    ensures
        r == stream_entries(*m).get(id),
{
    m.get(&id).map(|e| *e)
}

/// `DashMap::insert`.
#[verifier::external_body]
fn streams_insert(m: &mut DashMap<u128, (bool, u64)>, id: u128, entry: (bool, u64))
    ensures
        stream_entries(*final(m)) == stream_entries(*old(m)).insert(id, entry),
{
    m.insert(id, entry);
}

/// `DashMap::len`.
#[verifier::external_body]
fn streams_len(m: &DashMap<u128, (bool, u64)>) -> (n: usize)
    ensures
        has_size(stream_entries(*m), n),
{
    m.len()
}

/// The map has `n` entries.
pub open spec fn has_size(m: Map<u128, (bool, u64)>, n: usize) -> bool {
    m.dom().finite() && m.dom().len() == n
}

/// `DashMap::retain` with `is_kept`.
#[verifier::external_body]
fn streams_retain(m: &mut DashMap<u128, (bool, u64)>, cutoff: u64)
    ensures
        stream_entries(*final(m)) == kept_streams(stream_entries(*old(m)), cutoff),
{
    m.retain(|_, entry| is_kept(*entry, cutoff))
}

/// `DashMap::shrink_to_fit`: the contents stay. How much memory the map holds on to
/// depends on the allocator and is left open.
#[verifier::external_body]
fn streams_shrink(m: &mut DashMap<u128, (bool, u64)>)
    ensures
        stream_entries(*final(m)) == stream_entries(*old(m)),
{
    m.shrink_to_fit()
}

/// Whether a stream is in use or spent.
#[derive(Debug, Clone, Copy, PartialEq, Eq, Structural)]
pub enum StreamState {
    Active,
    Consumed,
}

/// What is known of a stream number.
#[derive(Debug, Clone, Copy, PartialEq, Eq, Structural)]
pub enum StreamQueryResult {
    Fresh,
    Active,
    Consumed,
}

/// The stream number was spent before.
#[derive(Debug, Clone, Copy)]
pub struct StreamConsumedError;

/// A stream stays while it is in use or not older than `cutoff`.
pub open spec fn keeps(entry: (bool, u64), cutoff: u64) -> bool {
    !entry.0 || entry.1 >= cutoff
}

/// The streams that stay.
pub open spec fn kept_streams(m: Map<u128, (bool, u64)>, cutoff: u64) -> Map<u128, (bool, u64)> {
    m.restrict(Set::new(|id: u128| keeps(m[id], cutoff)))
}

fn is_kept(entry: (bool, u64), cutoff: u64) -> (r: bool)
    ensures
        r == keeps(entry, cutoff),
{
    !entry.0 || entry.1 >= cutoff
}

/// The stream numbers seen so far.
pub struct StreamRegistry {
    streams: DashMap<u128, (bool, u64)>,
}

impl StreamRegistry {
    /// For each number whether it is spent, and when it was registered.
    pub closed spec fn entries(self) -> Map<u128, (bool, u64)> {
        stream_entries(self.streams)
    }

    /// An empty registry.
    pub fn new() -> (r: Self)
        ensures
            r.entries() == Map::<u128, (bool, u64)>::empty(),
    {
        let streams = streams_new();
        proof {
            assert(stream_entries(streams) =~= Map::<u128, (bool, u64)>::empty());
        }
        StreamRegistry { streams }
    }

    /// Registers a number that was never seen; returns whether it was one.
    pub fn register(&mut self, stream_id: u128, now_secs: u64) -> (r: bool)
        ensures
            r == !old(self).entries().contains_key(stream_id),
            final(self).entries() == (if r {
                old(self).entries().insert(stream_id, (false, now_secs))
            } else {
                old(self).entries()
            }),
    {
        match streams_get(&self.streams, stream_id) {
            Some(_) => false,
            None => {
                streams_insert(&mut self.streams, stream_id, (false, now_secs));
                true
            },
        }
    }

    /// Notes that a registered number is spent.
    pub fn mark_consumed(&mut self, stream_id: u128)
        ensures
            final(self).entries() == (if old(self).entries().contains_key(stream_id) {
                old(self).entries().insert(stream_id, (true, old(self).entries()[stream_id].1))
            } else {
                old(self).entries()
            }),
    {
        match streams_get(&self.streams, stream_id) {
            Some(entry) => {
                streams_insert(&mut self.streams, stream_id, (true, entry.1));
            },
            None => {},
        }
    }

    /// What is known of a number.
    pub fn check(&self, stream_id: u128) -> (r: StreamQueryResult)
        ensures
            r == (if !self.entries().contains_key(stream_id) {
                StreamQueryResult::Fresh
            } else if self.entries()[stream_id].0 {
                StreamQueryResult::Consumed
            } else {
                StreamQueryResult::Active
            }),
    {
        match streams_get(&self.streams, stream_id) {
            None => StreamQueryResult::Fresh,
            Some(entry) => if entry.0 {
                StreamQueryResult::Consumed
            } else {
                StreamQueryResult::Active
            },
        }
    }

    /// Forgets the spent numbers older than `cutoff_secs` and returns how many they were.
    pub fn remove_consumed_before(&mut self, cutoff_secs: u64) -> (removed: usize)
        ensures
            final(self).entries() == kept_streams(old(self).entries(), cutoff_secs),
            removed == old(self).entries().dom().len() - final(self).entries().dom().len(),
    {
        let before: usize = streams_len(&self.streams);
        streams_retain(&mut self.streams, cutoff_secs);
        let after: usize = streams_len(&self.streams);
        proof {
            vstd::set_lib::lemma_len_subset(self.entries().dom(), old(self).entries().dom());
        }
        before - after
    }

    /// Gives memory back. Every entry stays as it is.
    pub fn shrink_to_fit(&mut self)
        ensures
            final(self).entries() == old(self).entries(),
    {
        streams_shrink(&mut self.streams);
    }
}

impl Default for StreamRegistry {
    fn default() -> (r: Self)
        ensures
            r.entries() == Map::<u128, (bool, u64)>::empty(),
    {
        StreamRegistry::new()
    }
}

} // verus!
