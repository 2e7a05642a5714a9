//! Delegations: a session key authorized to act for a user, scoped to target
//! canisters until an expiration; their content digest, certification and
//! signed proof.
use vstd::prelude::*;
use vstd::string::StringExecFns;

use crate::cbor::{proof_blob, proof_blob_of};
use crate::certified::{fork, labeled, labeled_hash, pruned, tree_cbor};
use crate::error::AuthError;
use crate::hash::{
    domain_hash, map_hash_of_pairs, pair_hashes, sha256_of, string_hash, varint, views,
    Value,
};
use crate::identity::{self_authenticating, self_authenticating_of, user_key_of};
use crate::principal::{copy_principals, ordered_principals, principal_set, strictly_ordered};
use crate::responses::{Delegated, SignedDelegation};
use crate::setting::Setting;
use crate::payloads::{validate_user_session, validation_of};
use crate::signatures::{certifies, prune_stops_at, with_leaf, with_leaves, without_popped};
use crate::state::{certified_root_of, label_assets, label_sig, State};
use crate::timestamp::Timestamp;
use crate::utils::{copy_bytes, seed_of, trimmed_of};

verus! {

/// What a delegation holds.
pub struct DelegationView {
    pub user: Seq<char>,
    pub pubkey: Seq<u8>,
    pub session: Seq<u8>,
    pub expiration: u64,
    pub targets: Seq<Seq<u8>>,
}

/// The separator of delegation digests, `ic-request-auth-delegation`.
pub open spec fn delegation_domain() -> Seq<u8> {
    seq![
        0x69, 0x63, 0x2d, 0x72, 0x65, 0x71, 0x75, 0x65, 0x73, 0x74, 0x2d, 0x61, 0x75, 0x74, 0x68,
        0x2d, 0x64, 0x65, 0x6c, 0x65, 0x67, 0x61, 0x74, 0x69, 0x6f, 0x6e,
    ]
}

/// The digest of the target array: the digests of the targets, in order,
/// concatenated and hashed.
pub open spec fn targets_digest(targets: Seq<Seq<u8>>) -> Seq<u8> {
    sha256_of(targets.map_values(|t: Seq<u8>| sha256_of(t)).flatten())
}

/// The field digests of a delegation: its session key as `pubkey`, its
/// expiration and its targets.
pub open spec fn delegation_pairs(session: Seq<u8>, expiration: u64, targets: Seq<Seq<u8>>) -> Seq<Seq<u8>> {
    seq![
        string_hash("pubkey"@) + sha256_of(session),
        string_hash("expiration"@) + sha256_of(varint(expiration as nat)),
        string_hash("targets"@) + targets_digest(targets),
    ]
}

/// The content digest of a delegation. The user is not part of it: it is
/// bound by the seed the digest is certified under.
pub open spec fn delegation_hash(d: DelegationView) -> Seq<u8> {
    domain_hash(
        delegation_domain(),
        map_hash_of_pairs(delegation_pairs(d.session, d.expiration, d.targets)),
    )
}

/// The delegation of `session` for `user` until `expiration`, scoped to the
/// principals of `targets`, with the synthetic key derived under `canister`.
pub open spec fn delegation_of(
    user: Seq<char>,
    session: Seq<u8>,
    expiration: u64,
    targets: Set<Seq<u8>>,
    canister: Seq<u8>,
) -> DelegationView {
    DelegationView {
        user,
        pubkey: user_key_of(canister, user),
        session,
        expiration,
        targets: ordered_principals(targets),
    }
}

/// The digests a delegation and the same delegation for a middleware key are
/// certified under, in that order.
pub open spec fn paired_digests(d: DelegationView, middleware: Seq<u8>) -> Seq<Seq<u8>> {
    seq![delegation_hash(d), delegation_hash(DelegationView { session: middleware, ..d })]
}

/// The digest of the seed of `user`: the key the user's delegations are
/// certified under.
pub open spec fn seed_hash_of(user: Seq<char>) -> Seq<u8> {
    sha256_of(seed_of(user))
}

/// A session key authorized to act for a user until an expiration, scoped to
/// target canisters, with the user's synthetic public key.
pub struct Delegation {
    user: String,
    pubkey: Vec<u8>,
    session: Vec<u8>,
    expiration: u64,
    targets: Vec<Vec<u8>>,
}

impl View for Delegation {
    type V = DelegationView;

    closed spec fn view(&self) -> DelegationView {
        DelegationView {
            user: self.user@,
            pubkey: self.pubkey@,
            session: self.session@,
            expiration: self.expiration,
            targets: views(self.targets@),
        }
    }
}

proof fn lemma_targets_digest(arr: Vec<Value>, targets: Seq<Seq<u8>>, n: nat)
    requires
        arr@.len() == targets.len(),
        n <= targets.len(),
        forall|i: int| 0 <= i < targets.len() ==> ((#[trigger] arr@[i]) matches Value::Bytes(b) && b@ == targets[i]),
    ensures
        crate::hash::element_digests(Value::Array(arr), n) == targets.take(n as int).map_values(
            |t: Seq<u8>| sha256_of(t),
        ).flatten(),
    decreases n,
{
    let f = |t: Seq<u8>| sha256_of(t);
    if n > 0 {
        lemma_targets_digest(arr, targets, (n - 1) as nat);
        let prev = targets.take(n - 1).map_values(f);
        assert(targets.take(n as int).map_values(f) =~= prev.push(sha256_of(targets[n - 1])));
        prev.lemma_flatten_push(sha256_of(targets[n - 1]));
        let x = arr@[n - 1];
        assert(x matches Value::Bytes(b) && b@ == targets[n - 1]);
        assert(crate::hash::value_hash(x) == sha256_of(targets[n - 1]));
        assert(crate::hash::element_digests(Value::Array(arr), n) == crate::hash::element_digests(
            Value::Array(arr),
            (n - 1) as nat,
        ) + crate::hash::value_hash(x));
    } else {
        assert(targets.take(0).map_values(f) =~= Seq::<Seq<u8>>::empty());
        assert(Seq::<Seq<u8>>::empty().flatten() =~= Seq::<u8>::empty());
    }
}

impl Delegation {
    /// The targets are kept ordered and free of repeats.
    pub open spec fn wf(&self) -> bool {
        strictly_ordered(self@.targets)
    }

    /// A delegation of `session` for `user` until `expiration`, scoped to
    /// `targets`, whose synthetic key is derived under canister `canister`;
    /// the user and the session key are not checked.
    pub fn build(user: &str, session: &[u8], expiration: u64, targets: &Vec<Vec<u8>>, canister: &Vec<u8>) -> (r: Delegation)
        requires
            canister@.len() + 33 <= usize::MAX / 8,
        ensures
            r.wf(),
            r@.user == user@,
            r@.pubkey == user_key_of(canister@, user@),
            r@.session == session@,
            r@.expiration == expiration,
            r@.targets.to_set() == views(targets@).to_set(),
    {
        let pubkey = crate::identity::user_canister_public_key(canister, user).unwrap();
        Delegation {
            user: String::from_str(user),
            pubkey,
            session: copy_bytes(session),
            expiration,
            targets: principal_set(targets),
        }
    }

    /// A delegation of `session` for `user` until `expiration`, scoped to
    /// `targets`, whose synthetic key is derived under canister `canister`,
    /// after checking that the user is not blank and the session key is DER.
    pub fn new(user: &str, session: &[u8], expiration: u64, targets: &Vec<Vec<u8>>, canister: &Vec<u8>) -> (r: Result<Delegation, AuthError>)
        requires
            canister@.len() + 33 <= usize::MAX / 8,
        ensures
            validation_of(user@, session@) is Err ==> r == Err::<Delegation, AuthError>(
                validation_of(user@, session@)->Err_0,
            ),
            validation_of(user@, session@) is Ok ==> (r matches Ok(d) && d.wf() && d@.user == user@
                && d@.pubkey == user_key_of(canister@, user@) && d@.session == session@
                && d@.expiration == expiration && d@.targets.to_set() == views(targets@).to_set()),
    {
        match validate_user_session(user, session) {
            Err(e) => Err(e),
            Ok(()) => Ok(Delegation::build(user, session, expiration, targets, canister)),
        }
    }

    /// The user, without white space at either end.
    pub fn user(&self) -> (r: &str)
        ensures
            r@ == trimmed_of(self@.user),
            trimmed_of(r@) == r@,
    {
        proof {
            crate::utils::lemma_trim_idempotent(self.user@);
        }
        crate::utils::trim(self.user.as_str())
    }

    /// The seed of the user.
    pub fn seed(&self) -> (r: crate::Hash)
        ensures
            r@ == seed_of(self@.user),
    {
        crate::utils::seed(self.user.as_str())
    }

    /// The digest of the user's seed, the key the delegation is certified under.
    pub fn seed_hash(&self) -> (r: crate::Hash)
        ensures
            r@ == seed_hash_of(self@.user),
    {
        let seed = self.seed();
        crate::hash::bytes(&seed)
    }

    /// The user's synthetic public key.
    pub fn pubkey(&self) -> (r: &[u8])
        ensures
            r@ == self@.pubkey,
    {
        self.pubkey.as_slice()
    }

    /// The user's principal, self-authenticating from the synthetic key.
    pub fn principal(&self) -> (r: Vec<u8>)
        ensures
            r@ == self_authenticating_of(self@.pubkey),
    {
        self_authenticating(self.pubkey.as_slice())
    }

    pub fn session(&self) -> (r: &[u8])
        ensures
            r@ == self@.session,
    {
        self.session.as_slice()
    }

    /// The digest of the session key.
    pub fn session_hash(&self) -> (r: crate::Hash)
        ensures
            r@ == sha256_of(self@.session),
    {
        crate::hash::bytes(self.session.as_slice())
    }

    /// A copy of the delegation.
    pub fn duplicate(&self) -> (r: Delegation)
        ensures
            r@ == self@,
    {
        Delegation {
            user: self.user.clone(),
            pubkey: copy_bytes(self.pubkey.as_slice()),
            session: copy_bytes(self.session.as_slice()),
            expiration: self.expiration,
            targets: copy_principals(&self.targets),
        }
    }

    /// Certifies this delegation and the same delegation for `middleware`
    /// together, under the digest of the user's seed and after one pruning
    /// pass at `now`. Returns this delegation's digest and the certified data
    /// that must then be published.
    pub fn store_with_middleware(&self, middleware: &[u8], state: &mut State, setting: &Setting, now: u64) -> (r: (crate::Hash, crate::Hash))
        requires
            old(state).spec_signatures().wf(),
        ensures
            final(state).spec_signatures().wf(),
            final(state).spec_assets() == old(state).spec_assets(),
            r.0@ == delegation_hash(self@),
            r.1@ == certified_root_of(final(state).spec_assets()@, final(state).spec_signatures().root()),
            exists|n: nat| prune_stops_at(old(state).spec_signatures().queue(), now, n) && #[trigger] final(state).spec_signatures().leaves() == with_leaves(
                without_popped(old(state).spec_signatures().leaves(), old(state).spec_signatures().queue(), n),
                seed_hash_of(self@.user),
                paired_digests(self@, middleware@),
            ),
    {
        let seed_hash = self.seed_hash();
        let hash = self.hash();
        let other = self.duplicate().set_session(middleware);
        let other_hash = other.hash();
        assert(other@ == (DelegationView { session: middleware@, ..self@ }));
        assert(other_hash@ == delegation_hash(DelegationView { session: middleware@, ..self@ }));
        let hashes: Vec<crate::Hash> = vec![hash, other_hash];
        let signatures = state.signatures_mut();
        let stored = signatures.puts(seed_hash, &hashes, setting, now);
        proof {
            assert(hashes@.map_values(|h: crate::Hash| h@) =~= paired_digests(self@, middleware@));
        }
        let root = state.update_root_hash(state.signatures());
        (hash, root)
    }

    /// The same delegation for another session key.
    pub fn set_session(self, session: &[u8]) -> (r: Delegation)
        ensures
            r@ == (DelegationView { session: session@, ..self@ }),
    {
        Delegation { session: copy_bytes(session), ..self }
    }

    pub fn expiration(&self) -> (r: u64)
        ensures
            r == self@.expiration,
    {
        self.expiration
    }

    /// The expiration as a point in time.
    pub fn timestamp(&self) -> (r: Timestamp)
        ensures
            r.spec_nanos() == self@.expiration,
    {
        Timestamp::from_nanos(self.expiration)
    }

    /// The target canisters, in order.
    pub fn targets(&self) -> (r: &Vec<Vec<u8>>)
        ensures
            views(r@) == self@.targets,
    {
        &self.targets
    }

    /// The fields the content digest is taken over.
    pub fn map(&self) -> (r: Vec<(String, Value)>)
        ensures
            pair_hashes(r@) == delegation_pairs(self@.session, self@.expiration, self@.targets),
    {
        let mut arr: Vec<Value> = Vec::new();
        let mut i: usize = 0;
        while i < self.targets.len()
            invariant
                i <= self.targets@.len(),
                arr@.len() == i,
                forall|j: int| 0 <= j < i ==> ((#[trigger] arr@[j]) matches Value::Bytes(b) && b@ == self.targets@[j]@),
            decreases self.targets@.len() - i,
        {
            let t = self.targets[i].clone();
            assert(t@ == self.targets@[i as int]@);
            arr.push(Value::Bytes(t));
            i = i + 1;
        }
        let ghost targets = views(self.targets@);
        proof {
            lemma_targets_digest(arr, targets, targets.len());
            assert(targets.take(targets.len() as int) =~= targets);
        }
        let ghost arr_v = arr;
        let mut s: Vec<u8> = Vec::new();
        crate::messages::append_bytes(&mut s, self.session.as_slice());
        let mut fields: Vec<(String, Value)> = Vec::new();
        fields.push((String::from_str("pubkey"), Value::Bytes(s)));
        fields.push((String::from_str("expiration"), Value::U64(self.expiration)));
        fields.push((String::from_str("targets"), Value::Array(arr)));
        proof {
            assert(crate::hash::value_hash(Value::Array(arr_v)) == targets_digest(targets));
            assert(pair_hashes(fields@) =~= delegation_pairs(self@.session, self@.expiration, self@.targets));
        }
        fields
    }

    /// The content digest.
    pub fn hash(&self) -> (r: crate::Hash)
        ensures
            r@ == delegation_hash(self@),
    {
        let fields = self.map();
        let inner = crate::hash::map(&fields);
        let sep: Vec<u8> = vec![
            0x69, 0x63, 0x2d, 0x72, 0x65, 0x71, 0x75, 0x65, 0x73, 0x74, 0x2d, 0x61, 0x75, 0x74, 0x68,
            0x2d, 0x64, 0x65, 0x6c, 0x65, 0x67, 0x61, 0x74, 0x69, 0x6f, 0x6e,
        ];
        assert(sep@ =~= delegation_domain());
        crate::hash::domain(sep.as_slice(), &inner)
    }

    /// Certifies the delegation at `now`: after a pruning pass, its content
    /// digest goes under the digest of the user's seed until `setting`'s
    /// lifetime after `now`. Returns the content digest and the certified data
    /// that must then be published.
    pub fn store(&self, state: &mut State, setting: &Setting, now: u64) -> (r: (crate::Hash, crate::Hash))
        requires
            old(state).spec_signatures().wf(),
        ensures
            final(state).spec_signatures().wf(),
            final(state).spec_assets() == old(state).spec_assets(),
            r.0@ == delegation_hash(self@),
            r.1@ == certified_root_of(final(state).spec_assets()@, final(state).spec_signatures().root()),
            exists|n: nat| prune_stops_at(old(state).spec_signatures().queue(), now, n) && #[trigger] final(state).spec_signatures().leaves() == with_leaf(
                without_popped(old(state).spec_signatures().leaves(), old(state).spec_signatures().queue(), n),
                seed_hash_of(self@.user),
                delegation_hash(self@),
            ),
    {
        let seed_hash = self.seed_hash();
        let hash = self.hash();
        let signatures = state.signatures_mut();
        let stored = signatures.put(seed_hash, hash, setting, now);
        let root = state.update_root_hash(state.signatures());
        (stored, root)
    }

    /// Signs the delegation with a certificate over the published root: finds
    /// the witness of its digest under the user's seed, checks that it leads
    /// to the live root, and frames the certificate and the proof tree.
    pub fn sign(&self, certificate: &[u8], state: &State) -> (r: Result<SignedDelegation, AuthError>)
        ensures
            !certifies(state.spec_signatures().leaves(), seed_hash_of(self@.user), delegation_hash(self@))
                ==> r == Err::<SignedDelegation, AuthError>(AuthError::SignatureNotFound),
            certifies(state.spec_signatures().leaves(), seed_hash_of(self@.user), delegation_hash(self@))
                ==> r is Ok,
            r matches Err(e) ==> (e == AuthError::SignatureNotFound || (e matches AuthError::RootMismatch {
                reconstructed,
                root,
            } && root@ == state.spec_signatures().root() && reconstructed@ != root@)),
            r matches Ok(s) ==> s.delegation.pubkey@ == self@.session && s.delegation.expiration == self@.expiration
                && views(s.delegation.targets@) == self@.targets && s.pubkey@ == self@.pubkey
                && exists|tree: Seq<u8>| s.signature@ == #[trigger] proof_blob_of(certificate@, tree),
    {
        let hash = self.hash();
        let seed_hash = self.seed_hash();
        let signatures = state.signatures();
        let (witness, reconstructed) = match signatures.witness(&seed_hash, &hash) {
            Some(found) => found,
            None => return Err(AuthError::SignatureNotFound),
        };
        let root = signatures.root_hash();
        if !crate::table::same_key(&reconstructed, &root) {
            return Err(AuthError::RootMismatch { reconstructed, root });
        }
        let assets_label = label_assets();
        let sig_label = label_sig();
        let assets_root = state.assets();
        let assets = labeled_hash(assets_label.as_slice(), &assets_root);
        let tree = fork(pruned(assets), labeled(sig_label.as_slice(), witness));
        let encoded = match tree_cbor(&tree) {
            Ok(bytes) => bytes,
            Err(_) => return Err(AuthError::Encoding),
        };
        let signature = proof_blob(certificate, encoded.as_slice());
        Ok(SignedDelegation {
            delegation: Delegated {
                pubkey: copy_bytes(self.session.as_slice()),
                expiration: self.expiration,
                targets: copy_principals(&self.targets),
            },
            signature,
            pubkey: copy_bytes(self.pubkey.as_slice()),
        })
    }
}

} // verus!
