//! Which connection nonces of a session are in use and which are spent.
use crate::chars;
use dashmap::DashMap;
use vstd::prelude::*;
use vstd::string::*;

verus! {

/// The nonces of a map by session and nonce: whether each is spent.
pub uninterp spec fn nonce_entries(m: DashMap<(String, [u8; 16]), bool>) -> Map<
    (Seq<char>, Seq<u8>),
    bool,
>;

/// `DashMap::new`.
#[verifier::external_body]
fn nonces_new() -> (m: DashMap<(String, [u8; 16]), bool>)
    ensures
        nonce_entries(m).dom().is_empty(),
{
    DashMap::new()
}

/// `DashMap::get`, with the entry copied.
#[verifier::external_body]
fn nonces_get(m: &DashMap<(String, [u8; 16]), bool>, session: &str, nonce: &[u8; 16]) -> (r: Option<
    bool,
>)
    ensures
        r == nonce_entries(*m).get((session@, nonce@)),
{
    m.get(&(session.to_owned(), *nonce)).map(|e| *e)
}

/// `DashMap::insert`.
#[verifier::external_body]
fn nonces_insert(
    m: &mut DashMap<(String, [u8; 16]), bool>,
    session: &str,
    nonce: &[u8; 16],
    spent: bool,
)
    ensures
        nonce_entries(*final(m)) == nonce_entries(*old(m)).insert((session@, nonce@), spent),
{
    m.insert((session.to_owned(), *nonce), spent);
}

/// `DashMap::retain` with `is_other_session`.
#[verifier::external_body]
fn nonces_retain_others(m: &mut DashMap<(String, [u8; 16]), bool>, session: &str)
    ensures
        nonce_entries(*final(m)) == without_session(nonce_entries(*old(m)), session@),
{
    m.retain(|key, _| is_other_session(&key.0, session))
}

/// `DashMap::shrink_to_fit`: the contents stay. How much memory the map holds on to
/// depends on the allocator and is left open.
#[verifier::external_body]
fn nonces_shrink(m: &mut DashMap<(String, [u8; 16]), bool>)
    ensures
        nonce_entries(*final(m)) == nonce_entries(*old(m)),
{
    m.shrink_to_fit()
}

/// The nonces of all sessions but one.
pub open spec fn without_session(m: Map<(Seq<char>, Seq<u8>), bool>, session: Seq<char>) -> Map<
    (Seq<char>, Seq<u8>),
    bool,
> {
    m.restrict(Set::new(|key: (Seq<char>, Seq<u8>)| key.0 != session))
}

fn is_other_session(key: &String, session: &str) -> (r: bool)
    ensures
        r == (key@ != session@),
{
    let a: Vec<char> = chars::chars_of(key.as_str());
    let b: Vec<char> = chars::chars_of(session);
    !chars::same_chars(&a, &b)
}

/// Whether a nonce is in use or spent.
#[derive(Debug, Clone, Copy, PartialEq, Eq, Structural)]
pub enum NonceState {
    Active,
    Consumed,
}

/// What is known of a nonce.
#[derive(Debug, Clone, Copy, PartialEq, Eq, Structural)]
pub enum NonceQueryResult {
    Fresh,
    Active,
    Consumed,
}

/// The nonce was spent before.
#[derive(Debug, Clone, Copy, PartialEq, Eq, Structural)]
pub struct NonceConsumedError;

/// The nonces seen so far.
pub struct NonceRegistry {
    sessions: DashMap<(String, [u8; 16]), bool>,
}

/// What a claim of a nonce finds.
pub open spec fn claim_result(m: Map<(Seq<char>, Seq<u8>), bool>, key: (Seq<char>, Seq<u8>)) -> Result<
    bool,
    NonceConsumedError,
> {
    match m.get(key) {
        None => Ok(true),
        Some(spent) => if spent {
            Err(NonceConsumedError)
        } else {
            Ok(false)
        },
    }
}

impl NonceRegistry {
    /// For each session and nonce whether it is spent.
    pub closed spec fn entries(self) -> Map<(Seq<char>, Seq<u8>), bool> {
        nonce_entries(self.sessions)
    }

    /// An empty registry.
    pub fn new() -> (r: Self)
        ensures
            r.entries() == Map::<(Seq<char>, Seq<u8>), bool>::empty(),
    {
        let sessions = nonces_new();
        proof {
            assert(nonce_entries(sessions) =~= Map::<(Seq<char>, Seq<u8>), bool>::empty());
        }
        NonceRegistry { sessions }
    }

    /// Claims a nonce: `true` where it was never seen, `false` where it is in
    /// use, an error where it is spent.
    pub fn try_claim(&mut self, session_id: &str, conn_nonce: &[u8; 16]) -> (r: Result<
        bool,
        NonceConsumedError,
    >)
        ensures
            r == claim_result(old(self).entries(), (session_id@, conn_nonce@)),
            final(self).entries() == (if r == Ok::<bool, NonceConsumedError>(true) {
                old(self).entries().insert((session_id@, conn_nonce@), false)
            } else {
                old(self).entries()
            }),
    {
        match nonces_get(&self.sessions, session_id, conn_nonce) {
            Some(spent) => if spent {
                Err(NonceConsumedError)
            } else {
                Ok(false)
            },
            None => {
                nonces_insert(&mut self.sessions, session_id, conn_nonce, false);
                Ok(true)
            },
        }
    }

    /// Notes that a claimed nonce is spent.
    pub fn mark_consumed(&mut self, session_id: &str, conn_nonce: &[u8; 16])
        ensures
            final(self).entries() == (if old(self).entries().contains_key(
                (session_id@, conn_nonce@),
            ) {
                old(self).entries().insert((session_id@, conn_nonce@), true)
            } else {
                old(self).entries()
            }),
    {
        match nonces_get(&self.sessions, session_id, conn_nonce) {
            Some(_) => {
                nonces_insert(&mut self.sessions, session_id, conn_nonce, true);
            },
            None => {},
        }
    }

    /// What is known of a nonce.
    pub fn check_nonce(&self, session_id: &str, conn_nonce: &[u8; 16]) -> (r: NonceQueryResult)
        ensures
            r == (match self.entries().get((session_id@, conn_nonce@)) {
                None => NonceQueryResult::Fresh,
                Some(spent) => if spent {
                    NonceQueryResult::Consumed
                } else {
                    NonceQueryResult::Active
                },
            }),
    {
        match nonces_get(&self.sessions, session_id, conn_nonce) {
            None => NonceQueryResult::Fresh,
            Some(spent) => if spent {
                NonceQueryResult::Consumed
            } else {
                NonceQueryResult::Active
            },
        }
    }

    /// Forgets every nonce of a session.
    pub fn remove_session(&mut self, session_id: &str)
        ensures
            final(self).entries() == without_session(old(self).entries(), session_id@),
    {
        nonces_retain_others(&mut self.sessions, session_id);
    }

    /// Gives memory back. Every entry stays as it is.
    pub fn shrink_to_fit(&mut self)
        ensures
            final(self).entries() == old(self).entries(),
    {
        nonces_shrink(&mut self.sessions);
    }
}

impl Default for NonceRegistry {
    fn default() -> (r: Self)
        ensures
            r.entries() == Map::<(Seq<char>, Seq<u8>), bool>::empty(),
    {
        NonceRegistry::new()
    }
}

/// A nonce is claimed successfully at most once while its session is known:
/// after a claim, and after it was spent, no further claim succeeds.
pub proof fn law_no_replay(m: Map<(Seq<char>, Seq<u8>), bool>, key: (Seq<char>, Seq<u8>))
    ensures
        claim_result(m.insert(key, false), key) == Ok::<bool, NonceConsumedError>(false),
        claim_result(m.insert(key, true), key) == Err::<bool, NonceConsumedError>(
            NonceConsumedError,
        ),
{
}

/// Claims under one session or nonce do not touch any other.
pub proof fn law_sessions_independent(
    m: Map<(Seq<char>, Seq<u8>), bool>,
    key: (Seq<char>, Seq<u8>),
    other: (Seq<char>, Seq<u8>),
    spent: bool,
)
    requires
        key != other,
    ensures
        claim_result(m.insert(key, spent), other) == claim_result(m, other),
{
}

} // verus!
