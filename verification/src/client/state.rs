//! The client's session: its ticket, and when it is resumed or begun anew.
use crate::chars;
use crate::client::constants::MASTER_RESUME_WINDOW_SECS;
use crate::client::handshake::{ConnectVerdict, PqSessionTicket};
use vstd::prelude::*;
use vstd::string::*;

verus! {

/// Resolves every name to one configured address.
pub struct ManualResolver {
    pub target_addr: String,
}

impl ManualResolver {
    /// What is looked up, whatever the name: the configured address, with a
    /// port that plays no role.
    pub fn lookup_target(&self) -> (r: String)
        ensures
            r@ == self.target_addr@ + ":0"@,
    {
        let mut out = String::from_str(self.target_addr.as_str());
        out.append(":0");
        out
    }
}

/// Whether a ticket made at `created` is still used at `now`. One from the
/// future is.
pub open spec fn is_fresh(created: u64, now: u64) -> bool {
    now - created < MASTER_RESUME_WINDOW_SECS
}

/// Whether a ticket made at `created` is still used at `now`.
pub fn ticket_is_valid(created: u64, now: u64) -> (r: bool)
    ensures
        r == is_fresh(created, now),
{
    now.saturating_sub(created) < MASTER_RESUME_WINDOW_SECS
}

/// The ticket of the current session, and when it was made.
pub struct TicketStore {
    entry: Option<(String, [u8; 32], u64)>,
}

impl TicketStore {
    /// Session, master key, and time of the stored ticket.
    pub closed spec fn entry(&self) -> Option<(Seq<char>, Seq<u8>, u64)> {
        match self.entry {
            Some((session_id, master, created)) => Some((session_id@, master@, created)),
            None => None,
        }
    }

    /// A store without a ticket.
    pub fn new() -> (r: Self)
        ensures
            r.entry() is None,
    {
        TicketStore { entry: None }
    }

    /// Whether there is a ticket, fresh or not.
    pub fn is_empty(&self) -> (r: bool)
        ensures
            r == (self.entry() is None),
    {
        self.entry.is_none()
    }

    /// Keeps the ticket of a new session.
    pub fn store(&mut self, ticket: &PqSessionTicket, now: u64)
        ensures
            final(self).entry() == Some((ticket.session_id@, ticket.master@, now)),
    {
        self.entry = Some((String::from_str(ticket.session_id.as_str()), ticket.master, now));
    }

    /// The stored ticket, where it is still used; one that is not is dropped.
    pub fn load_and_validate_ticket(&mut self, now: u64) -> (r: Option<PqSessionTicket>)
        ensures
            match old(self).entry() {
                None => r is None && final(self).entry() is None,
                Some((session_id, master, created)) => if is_fresh(created, now) {
                    &&& r matches Some(t)
                    &&& t.session_id@ == session_id
                    &&& t.master@ == master
                    &&& final(self).entry() == old(self).entry()
                } else {
                    r is None && final(self).entry() is None
                },
            },
    {
        let found: Option<PqSessionTicket> = match &self.entry {
            None => None,
            Some((session_id, master, created)) => if ticket_is_valid(*created, now) {
                Some(
                    PqSessionTicket {
                        master: *master,
                        session_id: String::from_str(session_id.as_str()),
                    },
                )
            } else {
                None
            },
        };
        if found.is_none() {
            self.entry = None;
        }
        found
    }

    /// Drops the ticket of a session that the server has refused, unless a newer
    /// one has taken its place.
    pub fn invalidate_stale_master(&mut self, rejected_sid: &str)
        ensures
            final(self).entry() == (match old(self).entry() {
                Some((session_id, _, _)) if session_id == rejected_sid@ => None,
                other => other,
            }),
    {
        let stale: bool = match &self.entry {
            None => false,
            Some((session_id, _, _)) => {
                let held: Vec<char> = chars::chars_of(session_id.as_str());
                let rejected: Vec<char> = chars::chars_of(rejected_sid);
                chars::same_chars(&held, &rejected)
            },
        };
        if stale {
            self.entry = None;
        }
    }
}

/// Where an encrypted connection stands.
pub enum ClientPqFsm {
    /// It is opened under the ticket of an earlier session.
    Resuming(PqSessionTicket),
    /// It is opened under a session begun for it, or by another connection meanwhile.
    Handshaking,
}

/// What to do next for an encrypted connection.
pub enum FsmStep {
    /// Nothing: the connection has run its course.
    Finished,
    /// Begin a new session, unless there is a fresh ticket by now.
    Handshake,
    /// Give up.
    Failed(String),
}

impl ClientPqFsm {
    /// Starts with the stored ticket, where there is a fresh one.
    pub fn new(store: &mut TicketStore, now: u64) -> (r: Self)
        ensures
            match old(store).entry() {
                Some((session_id, master, created)) if is_fresh(created, now) => {
                    &&& r matches ClientPqFsm::Resuming(t)
                    &&& t.session_id@ == session_id
                    &&& t.master@ == master
                    &&& final(store).entry() == old(store).entry()
                },
                _ => r is Handshaking && final(store).entry() is None,
            },
    {
        match store.load_and_validate_ticket(now) {
            Some(ticket) => ClientPqFsm::Resuming(ticket),
            None => ClientPqFsm::Handshaking,
        }
    }

    /// The server has answered. A refused ticket is dropped, and a new session
    /// begun once; any other failure is final.
    pub fn on_connect(&mut self, verdict: ConnectVerdict, store: &mut TicketStore) -> (r: FsmStep)
        ensures
            match (*old(self), verdict) {
                (_, ConnectVerdict::Open) => r is Finished && final(store).entry() == old(store).entry() && *final(self) == *old(self),
                (_, ConnectVerdict::Rejected(reason)) => r == FsmStep::Failed(reason) && final(store).entry() == old(store).entry() && *final(self) == *old(self),
                (ClientPqFsm::Resuming(ticket), ConnectVerdict::Rehandshake(_)) => {
                    &&& r is Handshake
                    &&& *final(self) is Handshaking
                    &&& final(store).entry() == (match old(store).entry() {
                        Some((session_id, _, _)) if session_id == ticket.session_id@ => None,
                        other => other,
                    })
                },
                (ClientPqFsm::Handshaking, ConnectVerdict::Rehandshake(e)) => r
                    == FsmStep::Failed(e.0) && final(store).entry() == old(store).entry()
                    && *final(self) is Handshaking,
            },
    {
        match verdict {
            ConnectVerdict::Open => FsmStep::Finished,
            ConnectVerdict::Rejected(reason) => FsmStep::Failed(reason),
            ConnectVerdict::Rehandshake(e) => match self {
                ClientPqFsm::Resuming(ticket) => {
                    store.invalidate_stale_master(ticket.session_id.as_str());
                    *self = ClientPqFsm::Handshaking;
                    FsmStep::Handshake
                },
                ClientPqFsm::Handshaking => FsmStep::Failed(e.0),
            },
        }
    }
}

/// A ticket that the client still uses has not expired at the server.
pub proof fn law_fresh_ticket_is_known(created: u64, now: u64)
    requires
        is_fresh(created, now),
    ensures
        crate::server::masters::age(created, now) <= crate::server::constants::MASTER_EXPIRY_SECS,
{
}

} // verus!
