//! The challenge store of the prepare/login handshake: short-lived requests
//! keyed by their digest, redeemed at most once.
use vstd::prelude::*;
use vstd::string::StringExecFns;

use crate::hash::{sha256_of, utf8, views};
use crate::identity::{principal_text, principal_text_of};
use crate::principal::{extend_principals, strictly_ordered};
use crate::setting::Setting;
use crate::table::{Expiring, Table};
use crate::utils::{after_minutes, now_add_minute};

verus! {

/// How long a challenge stays redeemable, in minutes.
pub const CHALLENGE_MINUTES: u64 = 10;

/// What a challenge holds.
pub struct MessageView {
    pub user: Seq<char>,
    pub session: Seq<u8>,
    pub expiration: u64,
    pub canisters: Seq<Seq<u8>>,
}

/// A pending authentication request: a user, the session key to delegate to,
/// when the request lapses, and the canisters the delegation will be scoped to.
pub struct Message {
    user: String,
    session: Vec<u8>,
    expiration: u64,
    canisters: Vec<Vec<u8>>,
}

impl View for Message {
    type V = MessageView;

    closed spec fn view(&self) -> MessageView {
        MessageView {
            user: self.user@,
            session: self.session@,
            expiration: self.expiration,
            canisters: views(self.canisters@),
        }
    }
}

/// The bytes a challenge is keyed by: the user's UTF-8 bytes, the session
/// key, then every target principal in order.
pub open spec fn message_bytes(m: MessageView) -> Seq<u8> {
    utf8(m.user) + m.session + m.canisters.flatten()
}

/// The key of a challenge.
pub open spec fn message_hash(m: MessageView) -> Seq<u8> {
    sha256_of(message_bytes(m))
}

/// The principals of `s`, each followed by a comma and a space but the last.
pub open spec fn joined_texts(s: Seq<Seq<u8>>) -> Seq<char>
    decreases s.len(),
{
    if s.len() == 0 {
        Seq::empty()
    } else if s.len() == 1 {
        principal_text_of(s[0])
    } else {
        joined_texts(s.drop_last()) + ", "@ + principal_text_of(s.last())
    }
}

/// The human-readable form of a challenge.
pub open spec fn message_text(m: MessageView) -> Seq<char> {
    "User "@ + m.user + " want to create delegation for accessing canister(s): "@ + joined_texts(
        m.canisters,
    )
}

/// Every principal of `s` fits the 29 bytes of a principal.
pub open spec fn fits_principals(s: Seq<Seq<u8>>) -> bool {
    forall|i: int| 0 <= i < s.len() ==> (#[trigger] s[i]).len() <= 29
}

impl Message {
    /// The target canisters are kept ordered and free of repeats.
    pub open spec fn wf(&self) -> bool {
        strictly_ordered(self@.canisters)
    }

    /// A challenge issued at `now` for `user` and `session`, scoped to the
    /// trusted canisters of `setting` and to `canisters`.
    pub fn new(user: &str, session: &[u8], canisters: &Vec<Vec<u8>>, setting: &Setting, now: u64) -> (r: Message)
        ensures
            r.wf(),
            r@.user == user@,
            r@.session == session@,
            r@.expiration == after_minutes(now, CHALLENGE_MINUTES),
            r@.canisters.to_set() == setting.spec_canisters().union(views(canisters@).to_set()),
    {
        let mut set: Vec<Vec<u8>> = Vec::new();
        assert(views(set@) =~= Seq::<Seq<u8>>::empty());
        extend_principals(&mut set, setting.canisters());
        extend_principals(&mut set, canisters);
        let r = Message {
            user: String::from_str(user),
            session: crate::utils::copy_bytes(session),
            expiration: now_add_minute(now, CHALLENGE_MINUTES),
            canisters: set,
        };
        assert(Set::<Seq<u8>>::empty().union(setting.spec_canisters()) =~= setting.spec_canisters());
        r
    }

    pub fn user(&self) -> (r: &str)
        ensures
            r@ == self@.user,
    {
        self.user.as_str()
    }

    pub fn session(&self) -> (r: &[u8])
        ensures
            r@ == self@.session,
    {
        self.session.as_slice()
    }

    pub fn expiration(&self) -> (r: u64)
        ensures
            r == self@.expiration,
    {
        self.expiration
    }

    /// The target canisters, in order.
    pub fn canisters(&self) -> (r: &Vec<Vec<u8>>)
        ensures
            views(r@) == self@.canisters,
    {
        &self.canisters
    }

    /// The bytes the challenge is keyed by.
    pub fn to_vec(&self) -> (r: Vec<u8>)
        ensures
            r@ == message_bytes(self@),
    {
        let mut out: Vec<u8> = Vec::new();
        append_bytes(&mut out, self.user.as_str().as_bytes());
        append_bytes(&mut out, self.session.as_slice());
        let mut i: usize = 0;
        let ghost head = utf8(self@.user) + self@.session;
        assert(out@ =~= head + views(self.canisters@).take(0).flatten());
        while i < self.canisters.len()
            invariant
                i <= self.canisters@.len(),
                out@ == head + views(self.canisters@).take(i as int).flatten(),
            decreases self.canisters@.len() - i,
        {
            append_bytes(&mut out, self.canisters[i].as_slice());
            proof {
                let vs = views(self.canisters@);
                assert(vs.take(i as int + 1) =~= vs.take(i as int).push(vs[i as int]));
                vs.take(i as int).lemma_flatten_push(vs[i as int]);
            }
            i = i + 1;
        }
        assert(views(self.canisters@).take(self.canisters@.len() as int) =~= views(self.canisters@));
        out
    }

    /// The key of the challenge.
    pub fn hash(&self) -> (r: crate::Hash)
        ensures
            r@ == message_hash(self@),
    {
        let data = self.to_vec();
        crate::hash::bytes(data.as_slice())
    }

    /// The human-readable form of the challenge, for display out of band.
    pub fn text(&self) -> (r: String)
        requires
            fits_principals(self@.canisters),
        ensures
            r@ == message_text(self@),
    {
        let mut out = String::from_str("User ");
        out.append(self.user.as_str());
        out.append(" want to create delegation for accessing canister(s): ");
        let ghost head = out@;
        let mut i: usize = 0;
        while i < self.canisters.len()
            invariant
                i <= self.canisters@.len(),
                fits_principals(views(self.canisters@)),
                out@ == head + joined_texts(views(self.canisters@).take(i as int)),
            decreases self.canisters@.len() - i,
        {
            if i > 0 {
                out.append(", ");
            }
            assert(views(self.canisters@)[i as int] == self.canisters@[i as int]@);
            let t = principal_text(self.canisters[i].as_slice());
            out.append(t.as_str());
            proof {
                let vs = views(self.canisters@);
                assert(vs.take(i as int + 1).drop_last() =~= vs.take(i as int));
                assert(vs.take(i as int + 1).last() == vs[i as int]);
                if i == 0 {
                    assert(vs.take(0) =~= Seq::<Seq<u8>>::empty());
                }
            }
            i = i + 1;
        }
        assert(views(self.canisters@).take(self.canisters@.len() as int) =~= views(self.canisters@));
        out
    }

    /// A copy of the challenge.
    pub fn duplicate(&self) -> (r: Message)
        ensures
            r@ == self@,
    {
        Message {
            user: self.user.clone(),
            session: crate::utils::copy_bytes(self.session.as_slice()),
            expiration: self.expiration,
            canisters: crate::principal::copy_principals(&self.canisters),
        }
    }
}

impl Expiring for Message {
    open spec fn expires_at(v: MessageView) -> u64 {
        v.expiration
    }

    fn expiration(&self) -> (r: u64) {
        self.expiration
    }
}


/// Appends `data` to `out`.
pub fn append_bytes(out: &mut Vec<u8>, data: &[u8])
    ensures
        final(out)@ == old(out)@ + data@,
{
    let ghost start = out@;
    let mut k: usize = 0;
    while k < data.len()
        invariant
            k <= data@.len(),
            out@ == start + data@.take(k as int),
        decreases data@.len() - k,
    {
        out.push(data[k]);
        assert(data@.take(k as int + 1) =~= data@.take(k as int).push(data@[k as int]));
        k = k + 1;
    }
    assert(data@.take(data@.len() as int) =~= data@);
}

/// The pending challenges, keyed by their digest.
pub struct Messages {
    map: Table<Message>,
}

impl View for Messages {
    type V = Map<Seq<u8>, MessageView>;

    closed spec fn view(&self) -> Map<Seq<u8>, MessageView> {
        self.map@
    }
}

/// The challenges of `m` that are still redeemable after `now`.
pub open spec fn live_after(m: Map<Seq<u8>, MessageView>, now: u64) -> Map<Seq<u8>, MessageView> {
    m.restrict(m.dom().filter(|k: Seq<u8>| m[k].expiration > now))
}

impl Messages {
    pub closed spec fn wf(&self) -> bool {
        self.map.wf()
    }

    /// An empty store.
    pub fn new() -> (r: Messages)
        ensures
            r.wf(),
            r@ == Map::<Seq<u8>, MessageView>::empty(),
    {
        Messages { map: Table::new() }
    }

    /// Drops every challenge that has expired by `now`.
    pub fn prune(&mut self, now: u64) -> (r: &mut Messages)
        requires
            old(self).wf(),
        ensures
            r.wf(),
            r@ == live_after(old(self)@, now),
            *final(self) == *final(r),
    {
        self.map.prune(now);
        self
    }

    /// Stores a challenge under its digest, handing back the one it replaces.
    pub fn insert(&mut self, message: Message) -> (r: Option<Message>)
        requires
            old(self).wf(),
        ensures
            final(self).wf(),
            final(self)@ == old(self)@.insert(message_hash(message@), message@),
            r is Some <==> old(self)@.contains_key(message_hash(message@)),
            r matches Some(m) ==> m@ == old(self)@[message_hash(message@)],
    {
        let key = message.hash();
        self.map.insert(key, message)
    }

    /// The challenge stored under `hash`, if any.
    pub fn get(&self, hash: &crate::Hash) -> (r: Option<Message>)
        requires
            self.wf(),
        ensures
            r is Some <==> self@.contains_key(hash@),
            r matches Some(m) ==> m@ == self@[hash@],
    {
        match self.map.get(hash) {
            Some(m) => Some(m.duplicate()),
            None => None,
        }
    }

    /// Takes the challenge stored under `hash` out of the store.
    pub fn remove(&mut self, hash: &crate::Hash) -> (r: Option<Message>)
        requires
            old(self).wf(),
        ensures
            final(self).wf(),
            final(self)@ == old(self)@.remove(hash@),
            r is Some <==> old(self)@.contains_key(hash@),
            r matches Some(m) ==> m@ == old(self)@[hash@],
    {
        self.map.remove(hash)
    }

    /// Issues a challenge at `now`: expired challenges are dropped first, then
    /// the challenge is stored under its digest, replacing an identical one.
    pub fn put(&mut self, message: &Message, now: u64) -> (r: Option<Message>)
        requires
            old(self).wf(),
        ensures
            final(self).wf(),
            final(self)@ == live_after(old(self)@, now).insert(message_hash(message@), message@),
            r is Some <==> live_after(old(self)@, now).contains_key(message_hash(message@)),
            r matches Some(m) ==> m@ == live_after(old(self)@, now)[message_hash(message@)],
    {
        self.map.prune(now);
        self.insert(message.duplicate())
    }

    /// Redeems the challenge stored under `hash` at `now`: expired challenges
    /// are dropped first, then the challenge is taken out.
    pub fn delete(&mut self, hash: &crate::Hash, now: u64) -> (r: Option<Message>)
        requires
            old(self).wf(),
        ensures
            final(self).wf(),
            final(self)@ == live_after(old(self)@, now).remove(hash@),
            r is Some <==> live_after(old(self)@, now).contains_key(hash@),
            r matches Some(m) ==> m@ == old(self)@[hash@] && m@.expiration > now,
    {
        self.map.prune(now);
        self.remove(hash)
    }
}

/// A challenge is redeemed at most once: after it is issued at `issued` and
/// redeemed at `first` while still live, redeeming its digest again at any
/// `second` finds nothing.
pub proof fn lemma_redeem_once(
    store: Map<Seq<u8>, MessageView>,
    m: MessageView,
    issued: u64,
    first: u64,
    second: u64,
)
    requires
        m.expiration > first,
    ensures
        live_after(live_after(store, issued).insert(message_hash(m), m), first).contains_key(
            message_hash(m),
        ),
        !live_after(
            live_after(live_after(store, issued).insert(message_hash(m), m), first).remove(
                message_hash(m),
            ),
            second,
        ).contains_key(message_hash(m)),
{
    let h = message_hash(m);
    let s1 = live_after(store, issued).insert(h, m);
    assert(s1.contains_key(h) && s1[h] == m);
    assert(s1.dom().filter(|k: Seq<u8>| s1[k].expiration > first).contains(h));
}

/// Issuing the same request twice yields one digest and one stored challenge:
/// the digest does not depend on the expiration, and the second challenge
/// replaces the first.
pub proof fn lemma_prepare_idempotent(
    store: Map<Seq<u8>, MessageView>,
    m1: MessageView,
    m2: MessageView,
    t1: u64,
    t2: u64,
)
    requires
        m1.user == m2.user,
        m1.session == m2.session,
        m1.canisters == m2.canisters,
        m2.expiration > t2,
    ensures
        message_hash(m1) == message_hash(m2),
        live_after(live_after(store, t1).insert(message_hash(m1), m1), t2).insert(
            message_hash(m2),
            m2,
        ) == live_after(live_after(store, t1), t2).insert(message_hash(m2), m2),
{
    let h = message_hash(m1);
    let a = live_after(live_after(store, t1).insert(h, m1), t2).insert(h, m2);
    let b = live_after(live_after(store, t1), t2).insert(h, m2);
    assert(a =~= b);
}

/// Two requests for one user, one session key and one set of target
/// canisters give challenges with the same digest, whenever each was issued.
pub proof fn lemma_same_request_same_digest(m1: MessageView, m2: MessageView)
    requires
        m1.user == m2.user,
        m1.session == m2.session,
        strictly_ordered(m1.canisters),
        strictly_ordered(m2.canisters),
        m1.canisters.to_set() == m2.canisters.to_set(),
    ensures
        message_hash(m1) == message_hash(m2),
{
    crate::principal::lemma_ordered_unique(m1.canisters, m2.canisters);
}

} // verus!
