//! Pending middleware sessions: an intermediary key waiting for the session
//! delegation it will be paired with, keyed by digest.
use vstd::prelude::*;

use crate::hash::views;
use crate::principal::{principal_set, strictly_ordered};
use crate::table::{Expiring, Table};

verus! {

/// What a pending middleware session holds.
pub struct MiddlewareView {
    pub pubkey: Seq<u8>,
    pub session: Seq<u8>,
    pub signature: Seq<u8>,
    pub expiration: u64,
    pub canisters: Seq<Seq<u8>>,
}

/// An intermediary key, the session key it acts for, the signature it
/// produced once known, when it lapses, and the canisters it is scoped to.
pub struct Middleware {
    pubkey: Vec<u8>,
    session: Vec<u8>,
    signature: Vec<u8>,
    expiration: u64,
    canisters: Vec<Vec<u8>>,
}

impl View for Middleware {
    type V = MiddlewareView;

    closed spec fn view(&self) -> MiddlewareView {
        MiddlewareView {
            pubkey: self.pubkey@,
            session: self.session@,
            signature: self.signature@,
            expiration: self.expiration,
            canisters: views(self.canisters@),
        }
    }
}


impl Middleware {
    /// A middleware session without a signature yet.
    pub fn new(pubkey: &[u8], session: &[u8], expiration: u64, canisters: &Vec<Vec<u8>>) -> (r: Middleware)
        ensures
            r@.pubkey == pubkey@,
            r@.session == session@,
            r@.signature == Seq::<u8>::empty(),
            r@.expiration == expiration,
            strictly_ordered(r@.canisters),
            r@.canisters.to_set() == views(canisters@).to_set(),
    {
        Middleware {
            pubkey: crate::utils::copy_bytes(pubkey),
            session: crate::utils::copy_bytes(session),
            signature: Vec::new(),
            expiration,
            canisters: principal_set(canisters),
        }
    }

    /// Records the signature the middleware produced.
    pub fn sign(&mut self, signature: &[u8])
        ensures
            final(self)@ == (MiddlewareView { signature: signature@, ..old(self)@ }),
    {
        self.signature = crate::utils::copy_bytes(signature);
    }

    /// A copy of the middleware session.
    pub fn duplicate(&self) -> (r: Middleware)
        ensures
            r@ == self@,
    {
        Middleware {
            pubkey: crate::utils::copy_bytes(self.pubkey.as_slice()),
            session: crate::utils::copy_bytes(self.session.as_slice()),
            signature: crate::utils::copy_bytes(self.signature.as_slice()),
            expiration: self.expiration,
            canisters: crate::principal::copy_principals(&self.canisters),
        }
    }
}

impl Expiring for Middleware {
    open spec fn expires_at(v: MiddlewareView) -> u64 {
        v.expiration
    }

    fn expiration(&self) -> (r: u64) {
        self.expiration
    }
}

/// The pending middleware sessions, keyed by digest.
pub struct Middlewares {
    map: Table<Middleware>,
}

impl View for Middlewares {
    type V = Map<Seq<u8>, MiddlewareView>;

    closed spec fn view(&self) -> Map<Seq<u8>, MiddlewareView> {
        self.map@
    }
}

/// The sessions of `m` that are still live after `now`.
pub open spec fn live_sessions(m: Map<Seq<u8>, MiddlewareView>, now: u64) -> Map<Seq<u8>, MiddlewareView> {
    m.restrict(m.dom().filter(|k: Seq<u8>| m[k].expiration > now))
}

impl Middlewares {
    pub closed spec fn wf(&self) -> bool {
        self.map.wf()
    }

    /// An empty store.
    pub fn init() -> (r: Middlewares)
        ensures
            r.wf(),
            r@ == Map::<Seq<u8>, MiddlewareView>::empty(),
    {
        Middlewares { map: Table::new() }
    }

    /// The session stored under `hash`, if any.
    pub fn get(&self, hash: &crate::Hash) -> (r: Option<Middleware>)
        requires
            self.wf(),
        ensures
            r is Some <==> self@.contains_key(hash@),
            r matches Some(m) ==> m@ == self@[hash@],
    {
        match self.map.get(hash) {
            Some(m) => Some(m.duplicate()),
            None => None,
        }
    }

    /// Stores a session under `hash`.
    pub fn store(&mut self, hash: crate::Hash, middleware: Middleware)
        requires
            old(self).wf(),
        ensures
            final(self).wf(),
            final(self)@ == old(self)@.insert(hash@, middleware@),
    {
        self.map.insert(hash, middleware);
    }

    /// Drops every session that has expired by `now`.
    pub fn prune(&mut self, now: u64)
        requires
            old(self).wf(),
        ensures
            final(self).wf(),
            final(self)@ == live_sessions(old(self)@, now),
    {
        self.map.prune(now);
    }

    /// Stores a session under `hash` at `now`, after dropping expired ones.
    pub fn put(&mut self, hash: crate::Hash, middleware: Middleware, now: u64)
        requires
            old(self).wf(),
        ensures
            final(self).wf(),
            final(self)@ == live_sessions(old(self)@, now).insert(hash@, middleware@),
    {
        self.prune(now);
        self.store(hash, middleware);
    }

    /// Records `signature` on the session under `hash` at `now`, after
    /// dropping expired ones; nothing happens where no such session is live.
    pub fn modify(&mut self, hash: &crate::Hash, signature: &[u8], now: u64) -> (r: Option<()>)
        requires
            old(self).wf(),
        ensures
            final(self).wf(),
            r is Some <==> live_sessions(old(self)@, now).contains_key(hash@),
            r is Some ==> final(self)@ == live_sessions(old(self)@, now).insert(
                hash@,
                MiddlewareView { signature: signature@, ..live_sessions(old(self)@, now)[hash@] },
            ),
            r is None ==> final(self)@ == live_sessions(old(self)@, now),
    {
        self.prune(now);
        let ghost live = self@;
        match self.map.remove(hash) {
            Some(mut m) => {
                m.sign(signature);
                self.map.insert(*hash, m);
                assert(self@ =~= live.insert(hash@, MiddlewareView { signature: signature@, ..live[hash@] }));
                Some(())
            },
            None => None,
        }
    }
}

} // verus!
