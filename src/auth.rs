//! The prepare/login/delegation handshake over the challenge store, the
//! signature authority and the setting.
use vstd::prelude::*;

use crate::cbor::proof_blob_of;
use crate::delegation::{delegation_hash, delegation_of, paired_digests, seed_hash_of, Delegation, DelegationView};
use crate::error::AuthError;
use crate::hash::views;
use crate::messages::{
    fits_principals, live_after, message_hash, message_text, MessageView, Messages,
    CHALLENGE_MINUTES,
};
use crate::payloads::{
    middleware_validation_of, validation_of, DelegationPayload, LoginPayload,
    MiddlewareDelegationPayload, MiddlewareLoginPayload, PreparePayload,
};
use crate::principal::{copy_principals, lemma_ordered_is_canonical, strictly_ordered};
use crate::responses::{
    Login, MiddlewareDelegated, MiddlewareSignedDelegation, Prepared, SignedDelegation,
};
use crate::setting::Setting;
use crate::signatures::{certifies, prune_stops_at, with_leaf, with_leaves, without_popped};
use crate::state::{certified_root_of, State};
use crate::utils::{after_minutes, trimmed_of};

verus! {

/// Every principal of a set fits the 29 bytes of a principal.
pub open spec fn set_fits(s: Set<Seq<u8>>) -> bool {
    forall|p: Seq<u8>| #[trigger] s.contains(p) ==> p.len() <= 29
}

/// Lets `caller` through when it is one of the authorities of `setting`.
pub fn authorized(setting: &Setting, caller: &Vec<u8>) -> (r: Result<(), AuthError>)
    ensures
        r is Ok <==> setting.spec_authorities().contains(caller@),
        r matches Err(e) ==> e == AuthError::Unauthorized,
{
    if setting.authorized(caller) {
        Ok(())
    } else {
        Err(AuthError::Unauthorized)
    }
}

/// Issues a challenge at `now` for the request, after validating it. Expired
/// challenges are dropped, and an identical pending challenge is replaced.
pub fn prepare(payload: &PreparePayload, messages: &mut Messages, setting: &Setting, canister: &Vec<u8>, now: u64) -> (r: Result<Prepared, AuthError>)
    requires
        old(messages).wf(),
        canister@.len() <= 29,
        fits_principals(views(payload.canisters@)),
        set_fits(setting.spec_canisters()),
    ensures
        final(messages).wf(),
        validation_of(payload.user@, payload.session@) is Err ==> r == Err::<Prepared, AuthError>(
            validation_of(payload.user@, payload.session@)->Err_0,
        ) && final(messages)@ == old(messages)@,
        validation_of(payload.user@, payload.session@) is Ok ==> r is Ok,
        r matches Ok(p) ==> exists|m: MessageView|
            {
                &&& m.user == trimmed_of(payload.user@)
                &&& m.session == payload.session@
                &&& m.expiration == after_minutes(now, CHALLENGE_MINUTES)
                &&& strictly_ordered(m.canisters)
                &&& m.canisters.to_set() == setting.spec_canisters().union(
                    views(payload.canisters@).to_set(),
                ).insert(canister@)
                &&& final(messages)@ == live_after(old(messages)@, now).insert(message_hash(m), m)
                &&& p.hash@ == #[trigger] message_hash(m)
                &&& p.message@ == message_text(m)
                &&& p.expiration == m.expiration
                &&& p.expired.spec_nanos() == m.expiration
            },
{
    match payload.validate() {
        Err(e) => return Err(e),
        Ok(()) => {},
    }
    let message = payload.into_message(setting, canister, now);
    proof {
        let m = message@;
        assert forall|i: int| 0 <= i < m.canisters.len() implies (#[trigger] m.canisters[i]).len() <= 29 by {
            assert(m.canisters.to_set().contains(m.canisters[i]));
            if !setting.spec_canisters().contains(m.canisters[i]) && m.canisters[i] != canister@ {
                let j = choose|j: int| 0 <= j < views(payload.canisters@).len() && views(payload.canisters@)[j] == m.canisters[i];
            }
        }
    }
    messages.put(&message, now);
    Ok(Prepared::from_message(&message))
}

/// Redeems the challenge under the request's digest at `now` and certifies
/// the delegation it asked for, expiring `setting`'s lifetime after `now`.
/// Returns the login and the certified data to publish.
pub fn login(payload: &LoginPayload, messages: &mut Messages, state: &mut State, setting: &Setting, canister: &Vec<u8>, now: u64) -> (r: Result<(Login, crate::Hash), AuthError>)
    requires
        old(messages).wf(),
        old(state).spec_signatures().wf(),
        canister@.len() <= 29,
    ensures
        final(messages).wf(),
        final(state).spec_signatures().wf(),
        final(messages)@ == live_after(old(messages)@, now).remove(payload.hash@),
        !live_after(old(messages)@, now).contains_key(payload.hash@) ==> r == Err::<(Login, crate::Hash), AuthError>(
            AuthError::NotFoundOrExpired,
        ) && *final(state) == *old(state),
        live_after(old(messages)@, now).contains_key(payload.hash@) ==> r is Ok,
        r matches Err(e) ==> e == AuthError::NotFoundOrExpired,
        r matches Ok((l, root)) ==> exists|d: DelegationView|
            {
                let m = old(messages)@[payload.hash@];
                &&& live_after(old(messages)@, now).contains_key(payload.hash@)
                &&& d == delegation_of(
                    m.user,
                    m.session,
                    after_minutes(now, setting.spec_expiration_minute()),
                    m.canisters.to_set(),
                    canister@,
                )
                &&& l.hash@ == #[trigger] delegation_hash(d)
                &&& l.expiration == d.expiration
                &&& l.expired.spec_nanos() == d.expiration
                &&& views(l.canisters@) == d.targets
                &&& root@ == certified_root_of(final(state).spec_assets()@, final(state).spec_signatures().root())
                &&& exists|n: nat| prune_stops_at(old(state).spec_signatures().queue(), now, n) && #[trigger] final(state).spec_signatures().leaves() == with_leaf(
                    without_popped(old(state).spec_signatures().leaves(), old(state).spec_signatures().queue(), n),
                    seed_hash_of(d.user),
                    delegation_hash(d),
                )
            },
{
    let message = match messages.delete(payload.hash(), now) {
        Some(m) => m,
        None => return Err(AuthError::NotFoundOrExpired),
    };
    let expiration = setting.expiration(now);
    let delegation = Delegation::build(message.user(), message.session(), expiration, message.canisters(), canister);
    proof {
        lemma_ordered_is_canonical(delegation@.targets);
    }
    let (hash, root) = delegation.store(state, setting, now);
    let login = Login {
        expiration: delegation.expiration(),
        expired: delegation.timestamp(),
        canisters: copy_principals(delegation.targets()),
        hash,
    };
    assert(delegation_hash(delegation@) == hash@);
    Ok((login, root))
}

/// Signs the delegation a request names with `certificate`, after validating
/// the request. The delegation is scoped as its challenge was: to the
/// requested canisters, the trusted ones of `setting` and `canister` itself.
pub fn delegation(certificate: &[u8], payload: &DelegationPayload, state: &State, setting: &Setting, canister: &Vec<u8>) -> (r: Result<SignedDelegation, AuthError>)
    requires
        canister@.len() <= 29,
    ensures
        validation_of(payload.user@, payload.session@) is Err ==> r == Err::<SignedDelegation, AuthError>(
            validation_of(payload.user@, payload.session@)->Err_0,
        ),
        validation_of(payload.user@, payload.session@) is Ok ==> {
            let d = delegation_of(
                trimmed_of(payload.user@),
                payload.session@,
                payload.expiration,
                setting.spec_canisters().union(views(payload.canisters@).to_set()).insert(canister@),
                canister@,
            );
            &&& certifies(state.spec_signatures().leaves(), seed_hash_of(d.user), delegation_hash(d)) ==> r is Ok
            &&& !certifies(state.spec_signatures().leaves(), seed_hash_of(d.user), delegation_hash(d))
                ==> r == Err::<SignedDelegation, AuthError>(AuthError::SignatureNotFound)
            &&& r matches Err(e) ==> (e == AuthError::SignatureNotFound || e matches AuthError::RootMismatch { .. })
            &&& r matches Ok(s) ==> {
                &&& s.delegation.pubkey@ == d.session
                &&& s.delegation.expiration == d.expiration
                &&& views(s.delegation.targets@) == d.targets
                &&& s.pubkey@ == d.pubkey
                &&& exists|tree: Seq<u8>| s.signature@ == #[trigger] proof_blob_of(certificate@, tree)
            }
        },
{
    match payload.validate() {
        Err(e) => return Err(e),
        Ok(()) => {},
    }
    let targets = payload.scoped_canisters(setting, canister);
    let d = Delegation::build(payload.user(), payload.session(), payload.expiration(), &targets, canister);
    proof {
        lemma_ordered_is_canonical(d@.targets);
        lemma_ordered_is_canonical(views(targets@));
    }
    d.sign(certificate, state)
}

/// Redeems the challenge under the request's digest at `now` and certifies,
/// under one seed and in one pruning pass, the delegation of its session key
/// and the same delegation for the middleware key; both are scoped to the
/// trusted canisters of `setting`. Returns the login for the session
/// delegation and the certified data to publish.
pub fn middleware_login(payload: &MiddlewareLoginPayload, messages: &mut Messages, state: &mut State, setting: &Setting, canister: &Vec<u8>, now: u64) -> (r: Result<(Login, crate::Hash), AuthError>)
    requires
        old(messages).wf(),
        old(state).spec_signatures().wf(),
        canister@.len() <= 29,
    ensures
        final(messages).wf(),
        final(state).spec_signatures().wf(),
        final(messages)@ == live_after(old(messages)@, now).remove(payload.hash@),
        !live_after(old(messages)@, now).contains_key(payload.hash@) ==> r == Err::<(Login, crate::Hash), AuthError>(
            AuthError::NotFoundOrExpired,
        ) && *final(state) == *old(state),
        live_after(old(messages)@, now).contains_key(payload.hash@) ==> r is Ok,
        r matches Err(e) ==> e == AuthError::NotFoundOrExpired,
        r matches Ok((l, root)) ==> exists|d: DelegationView|
            {
                let m = old(messages)@[payload.hash@];
                &&& live_after(old(messages)@, now).contains_key(payload.hash@)
                &&& d == delegation_of(
                    m.user,
                    m.session,
                    after_minutes(now, setting.spec_expiration_minute()),
                    setting.spec_canisters(),
                    canister@,
                )
                &&& l.hash@ == #[trigger] delegation_hash(d)
                &&& l.expiration == d.expiration
                &&& views(l.canisters@) == d.targets
                &&& root@ == certified_root_of(final(state).spec_assets()@, final(state).spec_signatures().root())
                &&& exists|n: nat| prune_stops_at(old(state).spec_signatures().queue(), now, n) && #[trigger] final(state).spec_signatures().leaves() == with_leaves(
                    without_popped(old(state).spec_signatures().leaves(), old(state).spec_signatures().queue(), n),
                    seed_hash_of(d.user),
                    paired_digests(d, payload.middleware@),
                )
            },
{
    let message = match messages.delete(payload.hash(), now) {
        Some(m) => m,
        None => return Err(AuthError::NotFoundOrExpired),
    };
    let expiration = setting.expiration(now);
    let delegation = Delegation::build(message.user(), message.session(), expiration, setting.canisters(), canister);
    proof {
        lemma_ordered_is_canonical(delegation@.targets);
    }
    let mw = payload.middleware();
    let ghost before = state.spec_signatures();
    let (hash, root) = delegation.store_with_middleware(mw, state, setting, now);
    let login = Login {
        expiration: delegation.expiration(),
        expired: delegation.timestamp(),
        canisters: copy_principals(delegation.targets()),
        hash,
    };
    assert(delegation_hash(delegation@) == hash@);
    assert(mw@ == payload.middleware@ && before == old(state).spec_signatures());
    Ok((login, root))
}

/// Signs the session delegation and the middleware delegation a request names
/// with `certificate`, after validating the request.
pub fn middleware_delegation(certificate: &[u8], payload: &MiddlewareDelegationPayload, state: &State, canister: &Vec<u8>) -> (r: Result<MiddlewareSignedDelegation, AuthError>)
    requires
        canister@.len() <= 29,
    ensures
        middleware_validation_of(payload.request.user@, payload.request.session@, payload.middleware@) is Err
            ==> r == Err::<MiddlewareSignedDelegation, AuthError>(
            middleware_validation_of(payload.request.user@, payload.request.session@, payload.middleware@)->Err_0,
        ),
        middleware_validation_of(payload.request.user@, payload.request.session@, payload.middleware@) is Ok ==> {
            let targets = views(payload.request.canisters@).to_set();
            let user = trimmed_of(payload.request.user@);
            let d1 = delegation_of(user, payload.request.session@, payload.request.expiration, targets, canister@);
            let d2 = delegation_of(user, payload.middleware@, payload.request.expiration, targets, canister@);
            let leaves = state.spec_signatures().leaves();
            &&& certifies(leaves, seed_hash_of(user), delegation_hash(d1)) && certifies(
                leaves,
                seed_hash_of(user),
                delegation_hash(d2),
            ) ==> r is Ok
            &&& !(certifies(leaves, seed_hash_of(user), delegation_hash(d1)) && certifies(
                leaves,
                seed_hash_of(user),
                delegation_hash(d2),
            )) ==> r == Err::<MiddlewareSignedDelegation, AuthError>(AuthError::SignatureNotFound)
            &&& r matches Ok(s) ==> {
                &&& s.session.pubkey@ == d1.session
                &&& s.middleware.pubkey@ == d2.session
                &&& s.expiration == d1.expiration
                &&& views(s.canisters@) == d1.targets
                &&& s.pubkey@ == d1.pubkey
                &&& exists|tree: Seq<u8>| s.session.signature@ == #[trigger] proof_blob_of(certificate@, tree)
                &&& exists|tree: Seq<u8>| s.middleware.signature@ == #[trigger] proof_blob_of(certificate@, tree)
            }
        },
{
    match payload.validate() {
        Err(e) => return Err(e),
        Ok(()) => {},
    }
    let session_delegation = match payload.into_session_delegation(canister) {
        Ok(d) => d,
        Err(e) => return Err(e),
    };
    proof {
        lemma_ordered_is_canonical(session_delegation@.targets);
    }
    let session = match session_delegation.sign(certificate, state) {
        Ok(s) => s,
        Err(e) => return Err(e),
    };
    let middleware_delegation = match payload.into_middleware_delegation(canister) {
        Ok(d) => d,
        Err(e) => return Err(e),
    };
    proof {
        lemma_ordered_is_canonical(middleware_delegation@.targets);
    }
    let middleware = match middleware_delegation.sign(certificate, state) {
        Ok(s) => s,
        Err(e) => return Err(e),
    };
    Ok(MiddlewareSignedDelegation {
        session: MiddlewareDelegated { pubkey: session.delegation.pubkey, signature: session.signature },
        middleware: MiddlewareDelegated {
            pubkey: middleware.delegation.pubkey,
            signature: middleware.signature,
        },
        expiration: session.delegation.expiration,
        canisters: session.delegation.targets,
        pubkey: session.pubkey,
    })
}

} // verus!
