//! The requests of the handshake and delegation calls, and their validation.
use vstd::prelude::*;

use crate::delegation::Delegation;
use crate::error::AuthError;
use crate::hash::views;
use crate::identity::{is_der, parses_as_der, user_key_of};
use crate::messages::{Message, CHALLENGE_MINUTES};
use crate::principal::{extend_principals, insert_principal, strictly_ordered};
use crate::setting::Setting;
use crate::utils::{after_minutes, trimmed_of};

verus! {

/// What validation of a user and a session key yields.
pub open spec fn validation_of(user: Seq<char>, session: Seq<u8>) -> Result<(), AuthError> {
    if trimmed_of(user).len() == 0 {
        Err(AuthError::UserEmpty)
    } else if session.len() == 0 {
        Err(AuthError::SessionEmpty)
    } else if !is_der(session) {
        Err(AuthError::SessionInvalid)
    } else {
        Ok(())
    }
}

/// Checks a user and a session key in the order the calls report them.
pub fn validate_user_session(user: &str, session: &[u8]) -> (r: Result<(), AuthError>)
    ensures
        r == validation_of(user@, session@),
{
    let trimmed = crate::utils::trim(user);
    if trimmed.is_empty() {
        return Err(AuthError::UserEmpty);
    }
    if session.len() == 0 {
        return Err(AuthError::SessionEmpty);
    }
    if !parses_as_der(session) {
        return Err(AuthError::SessionInvalid);
    }
    Ok(())
}

/// A request for a challenge.
pub struct PreparePayload {
    pub user: String,
    pub session: Vec<u8>,
    pub canisters: Vec<Vec<u8>>,
}

impl PreparePayload {
    /// The user, without white space at either end.
    pub fn user(&self) -> (r: &str)
        ensures
            r@ == trimmed_of(self.user@),
            trimmed_of(r@) == r@,
    {
        proof {
            crate::utils::lemma_trim_idempotent(self.user@);
        }
        crate::utils::trim(self.user.as_str())
    }

    pub fn canisters(&self) -> (r: &Vec<Vec<u8>>)
        ensures
            r == &self.canisters,
    {
        &self.canisters
    }

    pub fn session(&self) -> (r: &[u8])
        ensures
            r@ == self.session@,
    {
        self.session.as_slice()
    }

    pub fn validate(&self) -> (r: Result<(), AuthError>)
        ensures
            r == validation_of(self.user@, self.session@),
    {
        validate_user_session(self.user.as_str(), self.session.as_slice())
    }

    /// The challenge this request asks for, issued at `now` by canister
    /// `canister`: the trimmed user, the session key, and the requested
    /// canisters together with `canister` and the trusted ones of `setting`.
    pub fn into_message(&self, setting: &Setting, canister: &Vec<u8>, now: u64) -> (r: Message)
        ensures
            r.wf(),
            r@.user == trimmed_of(self.user@),
            r@.session == self.session@,
            r@.expiration == after_minutes(now, CHALLENGE_MINUTES),
            r@.canisters.to_set() == setting.spec_canisters().union(views(self.canisters@).to_set()).insert(
                canister@,
            ),
    {
        let mut requested = crate::principal::copy_principals(&self.canisters);
        let own = crate::utils::copy_bytes(canister.as_slice());
        let ghost before = views(requested@);
        requested.push(own);
        proof {
            assert(views(requested@) =~= before.push(canister@));
            before.lemma_push_to_set_commute(canister@);
        }
        let r = Message::new(self.user(), self.session(), &requested, setting, now);
        assert(setting.spec_canisters().union(views(requested@).to_set()) =~= setting.spec_canisters().union(
            views(self.canisters@).to_set(),
        ).insert(canister@));
        r
    }
}

/// A request to redeem a challenge.
pub struct LoginPayload {
    pub hash: crate::Hash,
}

impl LoginPayload {
    pub fn hash(&self) -> (r: &crate::Hash)
        ensures
            r == &self.hash,
    {
        &self.hash
    }
}

/// A request for a signed delegation.
pub struct DelegationPayload {
    pub user: String,
    pub session: Vec<u8>,
    pub expiration: u64,
    pub canisters: Vec<Vec<u8>>,
}

impl DelegationPayload {
    /// The user, without white space at either end.
    pub fn user(&self) -> (r: &str)
        ensures
            r@ == trimmed_of(self.user@),
            trimmed_of(r@) == r@,
    {
        proof {
            crate::utils::lemma_trim_idempotent(self.user@);
        }
        crate::utils::trim(self.user.as_str())
    }

    pub fn session(&self) -> (r: &[u8])
        ensures
            r@ == self.session@,
    {
        self.session.as_slice()
    }

    pub fn expiration(&self) -> (r: u64)
        ensures
            r == self.expiration,
    {
        self.expiration
    }

    pub fn canisters(&self) -> (r: &Vec<Vec<u8>>)
        ensures
            r == &self.canisters,
    {
        &self.canisters
    }

    pub fn validate(&self) -> (r: Result<(), AuthError>)
        ensures
            r == validation_of(self.user@, self.session@),
    {
        validate_user_session(self.user.as_str(), self.session.as_slice())
    }

    /// The targets a delegation issued by canister `canister` is scoped to:
    /// the requested canisters together with `canister` and the trusted ones
    /// of `setting`, as for the challenge that led to it.
    pub fn scoped_canisters(&self, setting: &Setting, canister: &Vec<u8>) -> (r: Vec<Vec<u8>>)
        ensures
            strictly_ordered(views(r@)),
            views(r@).to_set() == setting.spec_canisters().union(views(self.canisters@).to_set()).insert(
                canister@,
            ),
    {
        let mut set: Vec<Vec<u8>> = Vec::new();
        assert(views(set@) =~= Seq::<Seq<u8>>::empty());
        extend_principals(&mut set, setting.canisters());
        extend_principals(&mut set, &self.canisters);
        let own = crate::utils::copy_bytes(canister.as_slice());
        insert_principal(&mut set, own);
        assert(Set::<Seq<u8>>::empty().union(setting.spec_canisters()) =~= setting.spec_canisters());
        set
    }

    /// The delegation this request names, with the synthetic key derived under
    /// canister `canister`.
    pub fn into_delegation(&self, canister: &Vec<u8>) -> (r: Result<Delegation, AuthError>)
        requires
            canister@.len() + 33 <= usize::MAX / 8,
        ensures
            validation_of(self.user@, self.session@) is Err ==> r == Err::<Delegation, AuthError>(
                validation_of(self.user@, self.session@)->Err_0,
            ),
            validation_of(self.user@, self.session@) is Ok ==> (r matches Ok(d) && d.wf() && d@.user == trimmed_of(self.user@)
                && d@.pubkey == user_key_of(canister@, trimmed_of(self.user@)) && d@.session == self.session@
                && d@.expiration == self.expiration && d@.targets.to_set() == views(self.canisters@).to_set()),
    {
        let user = self.user();
        assert(validation_of(user@, self.session@) == validation_of(self.user@, self.session@));
        Delegation::new(user, self.session(), self.expiration, &self.canisters, canister)
    }
}

/// A request to redeem a challenge on behalf of a middleware key.
pub struct MiddlewareLoginPayload {
    pub hash: crate::Hash,
    pub middleware: Vec<u8>,
}

impl MiddlewareLoginPayload {
    pub fn hash(&self) -> (r: &crate::Hash)
        ensures
            r == &self.hash,
    {
        &self.hash
    }

    pub fn middleware(&self) -> (r: &[u8])
        ensures
            r@ == self.middleware@,
    {
        self.middleware.as_slice()
    }
}

/// A request for the two signed delegations of the middleware flow.
pub struct MiddlewareDelegationPayload {
    pub request: DelegationPayload,
    pub middleware: Vec<u8>,
}

/// What validation of a middleware request yields.
pub open spec fn middleware_validation_of(user: Seq<char>, session: Seq<u8>, middleware: Seq<u8>) -> Result<(), AuthError> {
    if validation_of(user, session) is Err {
        validation_of(user, session)
    } else if middleware.len() == 0 {
        Err(AuthError::MiddlewareEmpty)
    } else if !is_der(middleware) {
        Err(AuthError::MiddlewareInvalid)
    } else {
        Ok(())
    }
}

impl MiddlewareDelegationPayload {
    /// The user, without white space at either end.
    pub fn user(&self) -> (r: &str)
        ensures
            r@ == trimmed_of(self.request.user@),
            trimmed_of(r@) == r@,
    {
        self.request.user()
    }

    pub fn session(&self) -> (r: &[u8])
        ensures
            r@ == self.request.session@,
    {
        self.request.session()
    }

    pub fn expiration(&self) -> (r: u64)
        ensures
            r == self.request.expiration,
    {
        self.request.expiration()
    }

    pub fn canisters(&self) -> (r: &Vec<Vec<u8>>)
        ensures
            r == &self.request.canisters,
    {
        self.request.canisters()
    }

    pub fn middleware(&self) -> (r: &[u8])
        ensures
            r@ == self.middleware@,
    {
        self.middleware.as_slice()
    }

    pub fn validate(&self) -> (r: Result<(), AuthError>)
        ensures
            r == middleware_validation_of(self.request.user@, self.request.session@, self.middleware@),
    {
        let first = self.request.validate();
        if first.is_err() {
            return first;
        }
        if self.middleware.len() == 0 {
            return Err(AuthError::MiddlewareEmpty);
        }
        if !parses_as_der(self.middleware.as_slice()) {
            return Err(AuthError::MiddlewareInvalid);
        }
        Ok(())
    }

    /// The session delegation this request names.
    pub fn into_session_delegation(&self, canister: &Vec<u8>) -> (r: Result<Delegation, AuthError>)
        requires
            canister@.len() + 33 <= usize::MAX / 8,
        ensures
            validation_of(self.request.user@, self.request.session@) is Err ==> r == Err::<Delegation, AuthError>(
                validation_of(self.request.user@, self.request.session@)->Err_0,
            ),
            validation_of(self.request.user@, self.request.session@) is Ok ==> (r matches Ok(d) && d.wf() && d@.user == trimmed_of(self.request.user@)
                && d@.pubkey == user_key_of(canister@, trimmed_of(self.request.user@)) && d@.session == self.request.session@
                && d@.expiration == self.request.expiration && d@.targets.to_set() == views(self.request.canisters@).to_set()),
    {
        self.request.into_delegation(canister)
    }

    /// The middleware delegation this request names: the same user,
    /// expiration and targets, for the middleware key.
    pub fn into_middleware_delegation(&self, canister: &Vec<u8>) -> (r: Result<Delegation, AuthError>)
        requires
            canister@.len() + 33 <= usize::MAX / 8,
        ensures
            validation_of(self.request.user@, self.middleware@) is Err ==> r == Err::<Delegation, AuthError>(
                validation_of(self.request.user@, self.middleware@)->Err_0,
            ),
            validation_of(self.request.user@, self.middleware@) is Ok ==> (r matches Ok(d) && d.wf() && d@.user == trimmed_of(self.request.user@)
                && d@.pubkey == user_key_of(canister@, trimmed_of(self.request.user@)) && d@.session == self.middleware@
                && d@.expiration == self.request.expiration && d@.targets.to_set() == views(self.request.canisters@).to_set()),
    {
        let user = self.user();
        assert(validation_of(user@, self.middleware@) == validation_of(self.request.user@, self.middleware@));
        Delegation::new(user, self.middleware(), self.expiration(), self.canisters(), canister)
    }
}

} // verus!
