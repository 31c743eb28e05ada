use vstd::prelude::*;
use crate::account::AccountId;
use crate::keyed::KeyedList;

verus! {

#[derive(Debug, Clone, Copy, PartialEq, Eq, Structural)]
pub enum Error {
    /// The claim exists already.
    ClaimAlreadyExist,
    /// The caller does not hold the claim.
    NotClaimOwner,
    /// The claim does not exist.
    ClaimNotExist,
}

/// Notification that a claim was created.
#[derive(Debug, Clone, Copy, PartialEq)]
pub struct ClaimCreated {
    pub claim: crate::account::Hash,
    pub owner: AccountId,
}

/// Notification that a claim was revoked.
#[derive(Debug, Clone, Copy, PartialEq)]
pub struct ClaimRevoked {
    pub claim: crate::account::Hash,
    pub owner: AccountId,
}

/// Notification that a claim passed to a new owner.
#[derive(Debug, Clone, Copy, PartialEq)]
pub struct ClaimTransferred {
    pub claim: crate::account::Hash,
    pub owner: AccountId,
    pub to: AccountId,
}

/// A store of proofs of existence: each claimed content hash has one owner.
pub struct Poe {
    proofs: KeyedList<AccountId>,
}

impl Poe {
    /// The owner of each claimed hash, by the hash's bytes.
    pub closed spec fn claims(&self) -> Map<[u8; 32], AccountId> {
        self.proofs@
    }

    pub closed spec fn wf(&self) -> bool {
        self.proofs.wf()
    }

    /// An empty store.
    pub fn new() -> (r: Self)
        ensures
            r.wf(),
            r.claims() == Map::<[u8; 32], AccountId>::empty(),
    {
        Poe { proofs: KeyedList::new() }
    }

    /// Records `claim` as owned by `caller`.
    pub fn create_claim(&mut self, caller: AccountId, claim: crate::account::Hash) -> (r: Result<ClaimCreated, Error>)
        requires
            old(self).wf(),
        ensures
            final(self).wf(),
            old(self).claims().contains_key(claim.bytes) ==> r == Err::<ClaimCreated, Error>(
                Error::ClaimAlreadyExist,
            ) && *final(self) == *old(self),
            !old(self).claims().contains_key(claim.bytes) ==> r == Ok::<ClaimCreated, Error>(
                (ClaimCreated { claim, owner: caller }),
            ) && final(self).claims() == old(self).claims().insert(claim.bytes, caller),
    {
        if self.proofs.get(&claim.bytes).is_some() {
            return Err(Error::ClaimAlreadyExist);
        }
        self.proofs.insert(claim.bytes, caller);
        Ok(ClaimCreated { claim, owner: caller })
    }

    /// Removes `claim`, which `caller` must own.
    pub fn revoke_claim(&mut self, caller: AccountId, claim: crate::account::Hash) -> (r: Result<ClaimRevoked, Error>)
        requires
            old(self).wf(),
        ensures
            final(self).wf(),
            r is Err ==> *final(self) == *old(self),
            !old(self).claims().contains_key(claim.bytes) ==> r == Err::<ClaimRevoked, Error>(
                Error::ClaimNotExist,
            ),
            old(self).claims().contains_key(claim.bytes) && old(self).claims()[claim.bytes]
                != caller ==> r == Err::<ClaimRevoked, Error>(Error::NotClaimOwner),
            old(self).claims().contains_key(claim.bytes) && old(self).claims()[claim.bytes]
                == caller ==> r == Ok::<ClaimRevoked, Error>(
                (ClaimRevoked { claim, owner: caller }),
            ) && final(self).claims() == old(self).claims().remove(claim.bytes),
    {
        let owner = match self.proofs.get(&claim.bytes) {
            Some(o) => o,
            None => {
                return Err(Error::ClaimNotExist);
            },
        };
        if caller != owner {
            return Err(Error::NotClaimOwner);
        }
        self.proofs.remove(&claim.bytes);
        Ok(ClaimRevoked { claim, owner })
    }

    /// Passes `claim`, which `caller` must own, to `to`.
    pub fn transfer_claim(&mut self, caller: AccountId, claim: crate::account::Hash, to: AccountId) -> (r: Result<
        ClaimTransferred,
        Error,
    >)
        requires
            old(self).wf(),
        ensures
            final(self).wf(),
            r is Err ==> *final(self) == *old(self),
            !old(self).claims().contains_key(claim.bytes) ==> r == Err::<ClaimTransferred, Error>(
                Error::ClaimNotExist,
            ),
            old(self).claims().contains_key(claim.bytes) && old(self).claims()[claim.bytes]
                != caller ==> r == Err::<ClaimTransferred, Error>(Error::NotClaimOwner),
            old(self).claims().contains_key(claim.bytes) && old(self).claims()[claim.bytes]
                == caller ==> r == Ok::<ClaimTransferred, Error>(
                (ClaimTransferred { claim, owner: caller, to }),
            ) && final(self).claims() == old(self).claims().insert(claim.bytes, to),
    {
        let owner = match self.proofs.get(&claim.bytes) {
            Some(o) => o,
            None => {
                return Err(Error::ClaimNotExist);
            },
        };
        if caller != owner {
            return Err(Error::NotClaimOwner);
        }
        self.proofs.insert(claim.bytes, to);
        Ok(ClaimTransferred { claim, owner, to })
    }

    /// The owner of `claim`, if it is claimed.
    pub fn get_owner(&self, claim: crate::account::Hash) -> (r: Option<AccountId>)
        requires
            self.wf(),
        ensures
            r == (if self.claims().contains_key(claim.bytes) {
                Some(self.claims()[claim.bytes])
            } else {
                None::<AccountId>
            }),
    {
        self.proofs.get(&claim.bytes)
    }
}

} // verus!
