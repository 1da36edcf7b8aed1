//! Queries on the wire: their numbers, their frames, and the state of a TLS connection.
use crate::wire;
use std::collections::HashSet;
use vstd::prelude::*;
use vstd::slice::slice_subrange;
use vstd::string::*;

verus! {

/// `rand::random` for a `u16`: some number.
#[verifier::external_body]
fn random_id() -> u16 {
    rand::random()
}

/// The queries that are not yet answered, by their numbers.
pub struct PendingQueries {
    ids: HashSet<u16>,
}

impl PendingQueries {
    /// The numbers.
    pub closed spec fn ids(&self) -> Set<u16> {
        self.ids@
    }

    /// No query.
    pub fn new() -> (r: Self)
        ensures
            r.ids() == Set::<u16>::empty(),
    {
        PendingQueries { ids: HashSet::new() }
    }

    /// Gives a query the number `candidate`, which is written into its header;
    /// where another query has it, another number must be drawn.
    pub fn try_register(&mut self, candidate: u16, data: &mut Vec<u8>) -> (r: bool)
        requires
            old(data)@.len() >= 2,
        ensures
            r == !old(self).ids().contains(candidate),
            if r {
                &&& final(self).ids() == old(self).ids().insert(candidate)
                &&& final(data)@ == wire::be_bytes(candidate as nat, 2) + old(data)@.skip(2)
            } else {
                final(self).ids() == old(self).ids() && final(data)@ == old(data)@
            },
    {
        broadcast use vstd::std_specs::hash::group_hash_axioms;

        if self.ids.contains(&candidate) {
            return false;
        }
        self.ids.insert(candidate);
        let mut numbered: Vec<u8> = Vec::new();
        proof {
            wire::lemma_be_bytes_len(candidate as nat, 2);
        }
        wire::push_u16_be(&mut numbered, candidate);
        let total: usize = data.len();
        let rest = slice_subrange(data.as_slice(), 2, total);
        numbered.extend_from_slice(rest);
        proof {
            assert(numbered@ =~= wire::be_bytes(candidate as nat, 2) + data@.skip(2));
        }
        *data = numbered;
        true
    }

    /// Draws a number for a query; none where another query has it, and it is to
    /// be drawn again.
    pub fn assign_id_and_register(&mut self, data: &mut Vec<u8>) -> (r: Option<u16>)
        requires
            old(data)@.len() >= 2,
        ensures
            match r {
                Some(id) => {
                    &&& !old(self).ids().contains(id)
                    &&& final(self).ids() == old(self).ids().insert(id)
                    &&& final(data)@ == wire::be_bytes(id as nat, 2) + old(data)@.skip(2)
                },
                None => final(self).ids() == old(self).ids() && final(data)@ == old(data)@
                    && !old(self).ids().is_empty(),
            },
    {
        let candidate: u16 = random_id();
        if self.try_register(candidate, data) {
            Some(candidate)
        } else {
            proof {
                assert(self.ids().contains(candidate));
            }
            None
        }
    }

    /// Finds the query that a message answers, and takes it off. A message
    /// without a number, or with one that nobody waits for, answers none.
    pub fn on_message(&mut self, data: &[u8]) -> (r: Option<u16>)
        ensures
            ({
                let id = wire::be_value(data@.take(2)) as u16;
                if data@.len() >= 2 && old(self).ids().contains(id) {
                    r == Some(id) && final(self).ids() == old(self).ids().remove(id)
                } else {
                    r is None && final(self).ids() == old(self).ids()
                }
            }),
    {
        broadcast use vstd::std_specs::hash::group_hash_axioms;

        if data.len() < 2 {
            return None;
        }
        let id: u16 = wire::read_u16_be(data);
        if self.ids.remove(&id) {
            Some(id)
        } else {
            proof {
                assert(self.ids@ =~= old(self).ids());
            }
            None
        }
    }

    /// Gives a query up.
    pub fn forget(&mut self, id: u16)
        ensures
            final(self).ids() == old(self).ids().remove(id),
    {
        broadcast use vstd::std_specs::hash::group_hash_axioms;

        self.ids.remove(&id);
    }

    /// Gives every query up.
    pub fn forget_all(&mut self)
        ensures
            final(self).ids() == Set::<u16>::empty(),
    {
        broadcast use vstd::std_specs::hash::group_hash_axioms;

        self.ids = HashSet::new();
    }
}

/// A message with its length in front, as it goes over a stream.
pub fn frame_message(data: &[u8]) -> (r: Vec<u8>)
    requires
        data@.len() <= 0xffff,
    ensures
        r@ == wire::be_bytes(data@.len(), 2) + data@,
{
    let mut out: Vec<u8> = Vec::new();
    proof {
        wire::lemma_be_bytes_len(data@.len(), 2);
    }
    wire::push_u16_be(&mut out, data.len() as u16);
    out.extend_from_slice(data);
    proof {
        assert(out@ =~= wire::be_bytes(data@.len(), 2) + data@);
    }
    out
}

/// How long the message behind two bytes of length is.
pub fn framed_len(prefix: &[u8; 2]) -> (r: usize)
    ensures
        r == wire::be_value(prefix@),
{
    proof {
        assert(prefix@.take(2) =~= prefix@);
    }
    wire::read_u16_be(prefix) as usize
}

/// A query that is answered has a number of its own: no other query that waits
/// has it.
pub proof fn law_ids_distinct(ids: Set<u16>, candidate: u16, other: u16)
    requires
        !ids.contains(candidate),
        ids.contains(other),
    ensures
        candidate != other,
        ids.insert(candidate).remove(candidate) =~= ids,
{
}

/// The number written into a query is read from it again, as from an answer
/// that repeats it.
pub proof fn law_id_read_back(id: u16, query: Seq<u8>)
    requires
        query.len() >= 2,
    ensures
        wire::be_value((wire::be_bytes(id as nat, 2) + query.skip(2)).take(2)) == id,
{
    wire::lemma_base_pow_values();
    wire::law_be_roundtrip(id as nat, 2);
    wire::lemma_be_bytes_len(id as nat, 2);
    assert((wire::be_bytes(id as nat, 2) + query.skip(2)).take(2) =~= wire::be_bytes(id as nat, 2));
}

/// What happens to a connection over TLS.
#[derive(Debug)]
pub enum DotEvent {
    /// A query is to be sent.
    Query { id: u16 },
    /// The connection is there.
    Connected { id: u16 },
    /// There is no connection.
    ConnectFailed { id: u16, reason: String },
    /// The query was written.
    Written,
    /// The query was not written, or not in time.
    WriteFailed,
    /// Nothing more will be read.
    ReaderEnded,
}

/// What to do next about a connection over TLS.
#[derive(Debug)]
pub enum DotAction {
    /// Connect, for this query.
    Connect { id: u16 },
    /// Write this query.
    Write { id: u16 },
    /// Tell this query that it failed.
    FailOne { id: u16, reason: String },
    /// Drop the connection and tell every query that it failed.
    FailAll { reason: String },
    /// Wait.
    Wait,
}

/// A connection over TLS, made when it is needed.
pub struct DotConnection {
    connected: bool,
}

impl DotConnection {
    /// Whether there is a connection.
    pub closed spec fn connected(&self) -> bool {
        self.connected
    }

    /// No connection yet.
    pub fn new() -> (r: Self)
        ensures
            !r.connected(),
    {
        DotConnection { connected: false }
    }

    /// Decides what to do about what happened.
    pub fn on_event(&mut self, event: DotEvent) -> (r: DotAction)
        ensures
            match event {
                DotEvent::Query { id } => final(self).connected() == old(self).connected() && r == (
                if old(self).connected() {
                    DotAction::Write { id }
                } else {
                    DotAction::Connect { id }
                }),
                DotEvent::Connected { id } => final(self).connected() && r == (DotAction::Write {
                    id,
                }),
                DotEvent::ConnectFailed { id, reason } => {
                    &&& final(self).connected() == old(self).connected()
                    &&& r matches DotAction::FailOne { id: i, reason: words }
                    &&& i == id
                    &&& words@ == "connect failed: "@ + reason@
                },
                DotEvent::Written => final(self).connected() == old(self).connected() && r is Wait,
                DotEvent::WriteFailed => {
                    &&& !final(self).connected()
                    &&& r matches DotAction::FailAll { reason: words }
                    &&& words@ == "write failed, connection reset"@
                },
                DotEvent::ReaderEnded => {
                    &&& !final(self).connected()
                    &&& r matches DotAction::FailAll { reason: words }
                    &&& words@ == "connection reset by remote"@
                },
            },
    {
        match event {
            DotEvent::Query { id } => if self.connected {
                DotAction::Write { id }
            } else {
                DotAction::Connect { id }
            },
            DotEvent::Connected { id } => {
                self.connected = true;
                DotAction::Write { id }
            },
            DotEvent::ConnectFailed { id, reason } => {
                let mut words = String::from_str("connect failed: ");
                words.append(reason.as_str());
                DotAction::FailOne { id, reason: words }
            },
            DotEvent::Written => DotAction::Wait,
            DotEvent::WriteFailed => {
                self.connected = false;
                DotAction::FailAll { reason: String::from_str("write failed, connection reset") }
            },
            DotEvent::ReaderEnded => {
                self.connected = false;
                DotAction::FailAll { reason: String::from_str("connection reset by remote") }
            },
        }
    }
}

} // verus!
