//! The master keys of the sessions, and when they expire.
use crate::server::constants::MASTER_EXPIRY_SECS;
use dashmap::DashMap;
use vstd::prelude::*;
use vstd::string::*;

verus! {

/// The sessions of a map by name: user, master key and time of creation.
pub uninterp spec fn master_entries(m: DashMap<String, (String, [u8; 32], u64)>) -> Map<
    Seq<char>,
    (Seq<char>, Seq<u8>, u64),
>;

/// `DashMap::new`.
#[verifier::external_body]
fn masters_new() -> (m: DashMap<String, (String, [u8; 32], u64)>)
    ensures
        master_entries(m).dom().is_empty(),
{
    DashMap::new()
}

/// `DashMap::get`, with the entry cloned.
#[verifier::external_body]
fn masters_get(m: &DashMap<String, (String, [u8; 32], u64)>, session: &str) -> (r: Option<
    (String, [u8; 32], u64),
>)
    ensures
        match r {
            Some(e) => master_entries(*m).get(session@) == Some((e.0@, e.1@, e.2)),
            None => master_entries(*m).get(session@) is None,
        },
{
    m.get(session).map(|e| e.value().clone())
}

/// `DashMap::insert`.
#[verifier::external_body]
fn masters_insert(
    m: &mut DashMap<String, (String, [u8; 32], u64)>,
    session: String,
    entry: (String, [u8; 32], u64),
)
    ensures
        master_entries(*final(m)) == master_entries(*old(m)).insert(
            session@,
            (entry.0@, entry.1@, entry.2),
        ),
{
    m.insert(session, entry);
}

/// `DashMap::remove`.
#[verifier::external_body]
fn masters_remove(m: &mut DashMap<String, (String, [u8; 32], u64)>, session: &str)
    ensures
        master_entries(*final(m)) == master_entries(*old(m)).remove(session@),
{
    m.remove(session);
}

/// The map has `n` sessions.
pub open spec fn has_size(m: Map<Seq<char>, (Seq<char>, Seq<u8>, u64)>, n: usize) -> bool {
    m.dom().finite() && m.dom().len() == n
}

/// `DashMap::len`.
#[verifier::external_body]
fn masters_len(m: &DashMap<String, (String, [u8; 32], u64)>) -> (n: usize)
    ensures
        has_size(master_entries(*m), n),
{
    m.len()
}

/// `DashMap::retain` with `is_fresh`.
#[verifier::external_body]
fn masters_retain(m: &mut DashMap<String, (String, [u8; 32], u64)>, now: u64)
    ensures
        master_entries(*final(m)) == fresh_sessions(master_entries(*old(m)), now),
{
    m.retain(|_, entry| is_fresh(entry.2, now))
}

/// How long ago something was, and nothing where it lies ahead.
pub open spec fn age(created: u64, now: u64) -> int {
    if now >= created {
        now - created
    } else {
        0
    }
}

/// The sessions whose keys have not expired.
pub open spec fn fresh_sessions(m: Map<Seq<char>, (Seq<char>, Seq<u8>, u64)>, now: u64) -> Map<
    Seq<char>,
    (Seq<char>, Seq<u8>, u64),
> {
    m.restrict(Set::new(|session: Seq<char>| age(m[session].2, now) < MASTER_EXPIRY_SECS))
}

fn is_fresh(created: u64, now: u64) -> (r: bool)
    ensures
        r == (age(created, now) < MASTER_EXPIRY_SECS),
{
    now.saturating_sub(created) < MASTER_EXPIRY_SECS
}

/// The sessions by name.
pub struct MasterStore {
    sessions: DashMap<String, (String, [u8; 32], u64)>,
}

impl MasterStore {
    /// For each session its user, its master key and when it was made.
    pub closed spec fn entries(self) -> Map<Seq<char>, (Seq<char>, Seq<u8>, u64)> {
        master_entries(self.sessions)
    }

    /// No sessions.
    pub fn new() -> (r: Self)
        ensures
            r.entries() == Map::<Seq<char>, (Seq<char>, Seq<u8>, u64)>::empty(),
    {
        let sessions = masters_new();
        proof {
            assert(master_entries(sessions) =~= Map::<
                Seq<char>,
                (Seq<char>, Seq<u8>, u64),
            >::empty());
        }
        MasterStore { sessions }
    }

    /// Looks a session up.
    pub fn get(&self, session: &str) -> (r: Option<(String, [u8; 32], u64)>)
        ensures
            match r {
                Some(e) => self.entries().get(session@) == Some((e.0@, e.1@, e.2)),
                None => self.entries().get(session@) is None,
            },
    {
        masters_get(&self.sessions, session)
    }

    /// Adds a session, or replaces it.
    pub fn insert(&mut self, session: String, user: String, master: [u8; 32], created: u64)
        ensures
            final(self).entries() == old(self).entries().insert(
                session@,
                (user@, master@, created),
            ),
    {
        masters_insert(&mut self.sessions, session, (user, master, created));
    }

    /// Forgets a session.
    pub fn remove(&mut self, session: &str)
        ensures
            final(self).entries() == old(self).entries().remove(session@),
    {
        masters_remove(&mut self.sessions, session);
    }
}

/// Forgets every session whose key has expired and returns how many they were.
pub fn prune_expired_masters(store: &mut MasterStore, now: u64) -> (pruned: usize)
    ensures
        final(store).entries() == fresh_sessions(old(store).entries(), now),
        pruned == old(store).entries().dom().len() - final(store).entries().dom().len(),
{
    let before: usize = masters_len(&store.sessions);
    masters_retain(&mut store.sessions, now);
    let after: usize = masters_len(&store.sessions);
    proof {
        vstd::set_lib::lemma_len_subset(store.entries().dom(), old(store).entries().dom());
    }
    before - after
}

/// The registration time before which spent stream numbers may be forgotten.
pub fn stream_cutoff(now: u64) -> (r: u64)
    ensures
        r == age(MASTER_EXPIRY_SECS, now),
{
    now.saturating_sub(MASTER_EXPIRY_SECS)
}

} // verus!
