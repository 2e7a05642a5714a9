//! Configuration: delegation lifetime, authorized callers and trusted targets.
use vstd::prelude::*;

use crate::hash::views;
use crate::principal::{extend_principals, insert_principal, members, strictly_ordered};
use crate::utils::{after_minutes, now_add_minute};

verus! {

/// Lifetime of a delegation, in minutes, until configured otherwise.
pub const DEFAULT_EXPIRATION_MINUTE: u64 = 120;

/// Delegation lifetime, the callers allowed to use privileged calls, and the
/// target canisters that every challenge is scoped to.
pub struct Setting {
    expiration_minute: u64,
    authorities: Vec<Vec<u8>>,
    canisters: Vec<Vec<u8>>,
}

impl Setting {
    /// Both principal sets are kept ordered and free of repeats.
    pub closed spec fn wf(&self) -> bool {
        strictly_ordered(views(self.authorities@)) && strictly_ordered(views(self.canisters@))
    }

    pub closed spec fn spec_expiration_minute(&self) -> u64 {
        self.expiration_minute
    }

    pub closed spec fn spec_authorities(&self) -> Set<Seq<u8>> {
        members(self.authorities@)
    }

    pub closed spec fn spec_canisters(&self) -> Set<Seq<u8>> {
        members(self.canisters@)
    }

    /// The initial setting: the default lifetime, the installing caller as the
    /// only authority and the canister itself as the only trusted target.
    pub fn init(caller: Vec<u8>, canister: Vec<u8>) -> (r: Setting)
        ensures
            r.wf(),
            r.spec_expiration_minute() == DEFAULT_EXPIRATION_MINUTE,
            r.spec_authorities() == set![caller@],
            r.spec_canisters() == set![canister@],
    {
        let mut authorities: Vec<Vec<u8>> = Vec::new();
        let mut canisters: Vec<Vec<u8>> = Vec::new();
        assert(views(authorities@) =~= Seq::empty());
        assert(views(canisters@) =~= Seq::empty());
        insert_principal(&mut authorities, caller);
        insert_principal(&mut canisters, canister);
        assert(members(authorities@) =~= set![caller@]);
        assert(members(canisters@) =~= set![canister@]);
        Setting { expiration_minute: DEFAULT_EXPIRATION_MINUTE, authorities, canisters }
    }

    /// When a delegation issued at `now` expires.
    pub fn expiration(&self, now: u64) -> (r: u64)
        ensures
            r == after_minutes(now, self.spec_expiration_minute()),
    {
        now_add_minute(now, self.expiration_minute)
    }

    pub fn expiration_minute(&self) -> (r: u64)
        ensures
            r == self.spec_expiration_minute(),
    {
        self.expiration_minute
    }

    pub fn set_expiration_minute(&mut self, expiration_minute: u64)
        ensures
            final(self).spec_expiration_minute() == expiration_minute,
            final(self).spec_authorities() == old(self).spec_authorities(),
            final(self).spec_canisters() == old(self).spec_canisters(),
            old(self).wf() ==> final(self).wf(),
    {
        self.expiration_minute = expiration_minute;
    }

    /// Whether `principal` may use the privileged calls.
    pub fn authorized(&self, principal: &Vec<u8>) -> (r: bool)
        ensures
            r == self.spec_authorities().contains(principal@),
    {
        let mut i: usize = 0;
        while i < self.authorities.len()
            invariant
                i <= self.authorities@.len(),
                forall|j: int| 0 <= j < i ==> self.authorities@[j]@ != principal@,
            decreases self.authorities@.len() - i,
        {
            if crate::hash::lex_le_exec(&self.authorities[i], principal)
                && crate::hash::lex_le_exec(principal, &self.authorities[i]) {
                proof {
                    crate::hash::lemma_lex_antisymmetric(self.authorities@[i as int]@, principal@);
                    assert(views(self.authorities@)[i as int] == principal@);
                }
                return true;
            }
            proof {
                if self.authorities@[i as int]@ == principal@ {
                    crate::hash::lemma_lex_reflexive(principal@);
                }
            }
            i = i + 1;
        }
        proof {
            if self.spec_authorities().contains(principal@) {
                let k = choose|k: int| 0 <= k < views(self.authorities@).len() && views(self.authorities@)[k] == principal@;
                assert(self.authorities@[k]@ == principal@);
            }
        }
        false
    }

    /// The authorized callers, in order.
    pub fn authorities(&self) -> (r: &Vec<Vec<u8>>)
        ensures
            members(r@) == self.spec_authorities(),
            self.wf() ==> strictly_ordered(views(r@)),
    {
        &self.authorities
    }

    /// The trusted target canisters, in order.
    pub fn canisters(&self) -> (r: &Vec<Vec<u8>>)
        ensures
            members(r@) == self.spec_canisters(),
            self.wf() ==> strictly_ordered(views(r@)),
    {
        &self.canisters
    }

    /// Adds authorities and trusted canisters; the calling principal becomes
    /// an authority and the canister itself a trusted target.
    pub fn extends(
        &mut self,
        authorities: &Vec<Vec<u8>>,
        canisters: &Vec<Vec<u8>>,
        caller: Vec<u8>,
        canister: Vec<u8>,
    )
        requires
            old(self).wf(),
        ensures
            final(self).wf(),
            final(self).spec_expiration_minute() == old(self).spec_expiration_minute(),
            final(self).spec_authorities() == old(self).spec_authorities().union(
                views(authorities@).to_set(),
            ).insert(caller@),
            final(self).spec_canisters() == old(self).spec_canisters().union(
                views(canisters@).to_set(),
            ).insert(canister@),
    {
        extend_principals(&mut self.authorities, authorities);
        insert_principal(&mut self.authorities, caller);
        extend_principals(&mut self.canisters, canisters);
        insert_principal(&mut self.canisters, canister);
    }

    /// Folds this setting into `current`: its lifetime replaces the current
    /// one and its principal sets are added as `extends` does.
    pub fn merge(self, current: &mut Setting, caller: Vec<u8>, canister: Vec<u8>)
        requires
            old(current).wf(),
        ensures
            final(current).wf(),
            final(current).spec_expiration_minute() == self.spec_expiration_minute(),
            final(current).spec_authorities() == old(current).spec_authorities().union(
                self.spec_authorities(),
            ).insert(caller@),
            final(current).spec_canisters() == old(current).spec_canisters().union(
                self.spec_canisters(),
            ).insert(canister@),
    {
        current.set_expiration_minute(self.expiration_minute);
        current.extends(&self.authorities, &self.canisters, caller, canister);
    }
}

} // verus!
