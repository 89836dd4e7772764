//! The session broker: issues opaque session identifiers and holds one
//! optional credential per session until the client claims it.
//!
//! A session is created with no credential; a later submission stores the
//! credential against the id (upsert, last write wins, also for ids that were
//! never issued). Polling distinguishes three outcomes: the credential, a
//! pending session, and an unknown id. Sessions are never deleted while the
//! process lives.

use vstd::prelude::*;
use std::collections::HashMap;

verus! {

broadcast use vstd::std_specs::hash::group_hash_axioms;

/// What polling a session yields: the stored credential, a session that
/// exists but has no credential yet, or an id that was never issued. The
/// latter two are distinct outcomes, never conflated.
#[derive(Clone, Debug)]
pub enum PollResult {
    Credential(String),
    Pending,
    NotFound,
}

impl PollResult {
    /// The status code the broker's HTTP surface answers with for this
    /// outcome: the credential with 200, a pending session with 302, an
    /// unknown id with 404.
    pub fn http_status(&self) -> (r: u16)
        ensures
            *self matches PollResult::Credential(_) <==> r == 200,
            *self is Pending <==> r == 302,
            *self is NotFound <==> r == 404,
    {
        match self {
            PollResult::Credential(_) => 200,
            PollResult::Pending => 302,
            PollResult::NotFound => 404,
        }
    }
}

/// Relies on uuid::Uuid::new_v4 to draw a fresh random version-4 identifier,
/// handed on as its 128-bit value. The value is random, so nothing is claimed
/// of it; in particular no freshness, since collisions are possible.
#[verifier::external_body]
pub(crate) fn new_uuid128() -> u128 {
    uuid::Uuid::new_v4().as_u128()
}

/// The broker's whole state: each issued session id, mapped to its credential
/// once one was submitted.
pub struct SessionStore {
    sessions: HashMap<u128, Option<String>>,
}

impl View for SessionStore {
    type V = Map<u128, Option<String>>;

    closed spec fn view(&self) -> Map<u128, Option<String>> {
        self.sessions@
    }
}

impl SessionStore {
    /// An empty broker: no session was issued yet.
    pub fn new() -> (s: Self)
        ensures
            s@ == Map::<u128, Option<String>>::empty(),
    {
        SessionStore { sessions: HashMap::new() }
    }

    /// Issues a session id and records it with no credential. The id is drawn
    /// at random; whatever id comes out, the store afterwards maps it to no
    /// credential.
    pub fn create_session(&mut self) -> (id: u128)
        ensures
            final(self)@ == old(self)@.insert(id, None),
    {
        let id = new_uuid128();
        self.sessions.insert(id, None);
        id
    }

    /// Stores a credential against a session id. An existing credential is
    /// overwritten, and an id that was never issued is accepted and recorded
    /// all the same (upsert, exactly as observed at the HTTP surface).
    pub fn submit_credential(&mut self, id: u128, credential: String)
        ensures
            final(self)@ == old(self)@.insert(id, Some(credential)),
    {
        self.sessions.insert(id, Some(credential));
    }

    /// Looks a session up: the stored credential, untransformed, if one was
    /// submitted; pending if the session exists without one; not-found if the
    /// id was never issued.
    pub fn poll_credential(&self, id: u128) -> (r: PollResult)
        ensures
            r is NotFound <==> !self@.contains_key(id),
            r is Pending <==> self@.contains_key(id) && self@[id] is None,
            (self@.contains_key(id) && self@[id] is Some) ==> r == PollResult::Credential(
                self@[id]->Some_0,
            ),
            r matches PollResult::Credential(c) ==> self@.contains_key(id) && self@[id] == Some(c),
    {
        match self.sessions.get(&id) {
            None => PollResult::NotFound,
            Some(None) => PollResult::Pending,
            Some(Some(credential)) => PollResult::Credential(credential.clone()),
        }
    }

    /// How many sessions have been issued so far.
    pub fn len(&self) -> (n: usize)
        ensures
            n == self@.len(),
    {
        self.sessions.len()
    }
}

/// For every broker state: a session just issued holds no credential, so a
/// poll of it answers pending until a credential is submitted; once one is
/// submitted for the id, the store holds exactly that credential, whatever
/// was stored before.
pub proof fn lemma_credential_handoff(m: Map<u128, Option<String>>, id: u128, credential: String)
    ensures
        m.insert(id, None).contains_key(id),
        m.insert(id, None)[id] is None,
        m.insert(id, Some(credential)).contains_key(id),
        m.insert(id, Some(credential))[id] == Some(credential),
{
}

/// For every broker state: an id that was never issued is absent from the
/// store, so a poll of it answers not-found, which is a different outcome
/// than the pending answer of an issued, credential-less session.
pub proof fn lemma_unissued_id_distinct(m: Map<u128, Option<String>>, id: u128)
    requires
        !m.contains_key(id),
    ensures
        !(PollResult::NotFound is Pending),
        forall|other: u128|
            m.contains_key(other) ==> other != id,
{
}

} // verus!
