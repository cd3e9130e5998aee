use vstd::prelude::*;

use crate::store::KeyedStore;
use crate::terminal::types::{TerminalError, TerminalInfo};

verus! {

/// A registered session: the shell's process id and name, and the handle that drives it.
pub struct Session<S> {
    pub pid: u32,
    pub process_name: String,
    pub handle: S,
}

/// The sessions that are alive, keyed by their ids; at most one session per id.
pub struct SessionRegistry<S> {
    sessions: KeyedStore<Session<S>>,
}

/// Relies on `uuid::Uuid::new_v4` and its `Display`, which writes the hyphenated form:
/// a fresh random id of 36 characters.
#[verifier::external_body]
fn new_session_id() -> (r: String)
    ensures
        r@.len() == 36,
{
    uuid::Uuid::new_v4().to_string()
}

impl<S> View for SessionRegistry<S> {
    type V = Map<Seq<char>, Session<S>>;

    /// The sessions, keyed by id.
    closed spec fn view(&self) -> Map<Seq<char>, Session<S>> {
        self.sessions@
    }
}

impl<S> SessionRegistry<S> {
    /// The registry holds no two sessions under one id.
    pub closed spec fn wf(&self) -> bool {
        self.sessions.wf()
    }

    /// An empty registry.
    pub fn new() -> (r: Self)
        ensures
            r.wf(),
            r@ == Map::<Seq<char>, Session<S>>::empty(),
    {
        SessionRegistry { sessions: KeyedStore::new() }
    }

    /// The number of registered sessions.
    pub fn len(&self) -> (r: usize)
        requires
            self.wf(),
        ensures
            r == self@.len(),
    {
        self.sessions.len()
    }

    /// Whether a session is registered under `id`.
    pub fn contains(&self, id: &str) -> (r: bool)
        requires
            self.wf(),
        ensures
            r == self@.contains_key(id@),
    {
        self.sessions.contains(id)
    }

    /// The handle of the session registered under `id`, or `SessionNotFound`.
    pub fn get(&self, id: &str) -> (r: Result<&S, TerminalError>)
        requires
            self.wf(),
        ensures
            r is Ok <==> self@.contains_key(id@),
            r is Ok ==> *r->Ok_0 == self@[id@].handle,
            r is Err ==> r->Err_0 is SessionNotFound && r->Err_0->SessionNotFound_0@ == id@,
    {
        match self.sessions.get(id) {
            Some(s) => Ok(&s.handle),
            None => Err(TerminalError::SessionNotFound(id.to_owned())),
        }
    }

    /// What `get_terminal_info` reports of the session registered under `id`, or
    /// `SessionNotFound`.
    pub fn info(&self, id: &str) -> (r: Result<TerminalInfo, TerminalError>)
        requires
            self.wf(),
        ensures
            r is Ok <==> self@.contains_key(id@),
            r is Ok ==> r->Ok_0.terminal_id@ == id@ && r->Ok_0.pid == self@[id@].pid
                && r->Ok_0.process_name@ == self@[id@].process_name@,
            r is Err ==> r->Err_0 is SessionNotFound && r->Err_0->SessionNotFound_0@ == id@,
    {
        match self.sessions.get(id) {
            Some(s) => Ok(
                TerminalInfo {
                    terminal_id: id.to_owned(),
                    pid: s.pid,
                    process_name: s.process_name.clone(),
                },
            ),
            None => Err(TerminalError::SessionNotFound(id.to_owned())),
        }
    }

    /// Registers `session` under `id`. A session already under `id` is taken out and
    /// handed back, so that the caller can close it.
    pub fn insert(&mut self, id: String, session: Session<S>) -> (r: Option<Session<S>>)
        requires
            old(self).wf(),
        ensures
            final(self).wf(),
            final(self)@ == old(self)@.insert(id@, session),
            r is Some <==> old(self)@.contains_key(id@),
            r is Some ==> r->Some_0 == old(self)@[id@],
    {
        self.sessions.insert(id, session)
    }

    /// Takes the session registered under `id` out of the registry, the one path by which a
    /// session leaves it; `SessionNotFound` where there is none.
    pub fn remove(&mut self, id: &str) -> (r: Result<Session<S>, TerminalError>)
        requires
            old(self).wf(),
        ensures
            final(self).wf(),
            final(self)@ == old(self)@.remove(id@),
            r is Ok <==> old(self)@.contains_key(id@),
            r is Ok ==> r->Ok_0 == old(self)@[id@],
            r is Err ==> r->Err_0 is SessionNotFound && r->Err_0->SessionNotFound_0@ == id@,
    {
        match self.sessions.remove(id) {
            Some(s) => Ok(s),
            None => Err(TerminalError::SessionNotFound(id.to_owned())),
        }
    }

    /// Registers `session` under `id` where no session holds that id yet, and returns the
    /// id; where one does, nothing changes and `session` is handed back.
    pub fn register_as(&mut self, id: String, session: Session<S>) -> (r: Result<String, Session<S>>)
        requires
            old(self).wf(),
        ensures
            final(self).wf(),
            r is Err <==> old(self)@.contains_key(id@),
            r is Ok ==> r->Ok_0@ == id@ && final(self)@ == old(self)@.insert(id@, session),
            r is Err ==> final(self)@ == old(self)@ && r->Err_0 == session,
    {
        if self.contains(id.as_str()) {
            return Err(session);
        }
        let key = id.clone();
        let _ = self.insert(key, session);
        Ok(id)
    }

    /// Registers `session` under a freshly drawn id and returns the id. Only where the drawn
    /// id is already taken (never on an empty registry) is nothing registered and the
    /// session handed back.
    pub fn register(&mut self, session: Session<S>) -> (r: Result<String, Session<S>>)
        requires
            old(self).wf(),
        ensures
            final(self).wf(),
            r is Ok ==> !old(self)@.contains_key(r->Ok_0@) && r->Ok_0@.len() == 36
                && final(self)@ == old(self)@.insert(r->Ok_0@, session),
            r is Err ==> final(self)@ == old(self)@ && r->Err_0 == session,
            r is Err ==> exists|k: Seq<char>| k.len() == 36 && old(self)@.contains_key(k),
    {
        let id = new_session_id();
        let ghost drawn = id@;
        let r = self.register_as(id, session);
        proof {
            if r is Err {
                assert(drawn.len() == 36 && old(self)@.contains_key(drawn));
            }
        }
        r
    }

    /// The registry holds finitely many sessions.
    pub proof fn lemma_finite(&self)
        requires
            self.wf(),
        ensures
            self@.dom().finite(),
    {
        self.sessions.lemma_finite();
    }

} // impl

/// A session registered into an empty registry is always registered: the drawn id cannot
/// be taken.
pub proof fn lemma_register_on_empty<S>(m: Map<Seq<char>, Session<S>>)
    requires
        m == Map::<Seq<char>, Session<S>>::empty(),
    ensures
        !(exists|k: Seq<char>| k.len() == 36 && m.contains_key(k)),
{
}

/// Closing a session twice: the second close finds nothing, whatever the registry held.
pub proof fn lemma_second_close_not_found<S>(m: Map<Seq<char>, Session<S>>, id: Seq<char>)
    ensures
        !m.remove(id).contains_key(id),
        m.remove(id).remove(id) == m.remove(id),
{
    assert(m.remove(id).remove(id) =~= m.remove(id));
}

/// Closing a session leaves every other session registered as it was.
pub proof fn lemma_close_keeps_others<S>(m: Map<Seq<char>, Session<S>>, id: Seq<char>, other: Seq<char>)
    requires
        other != id,
        m.contains_key(other),
    ensures
        m.remove(id).contains_key(other),
        m.remove(id)[other] == m[other],
{
}

} // verus!
