use vstd::prelude::*;
use std::collections::HashMap;
use crate::account::AccountId;
use crate::keyed::KeyedList;

verus! {

broadcast use vstd::std_specs::hash::group_hash_axioms;

pub type TokenId = u32;

#[derive(Debug, Clone, Copy, PartialEq, Eq, Structural)]
pub enum Error {
    NotAllowed,
    TokenExists,
    TokenNotFound,
    NotApproved,
    CannotFetchValue,
}

/// Notification of a change of ownership. A newly minted token comes from
/// the sentinel account.
#[derive(Debug, Clone, Copy, PartialEq)]
pub struct Transfer {
    pub from: Option<AccountId>,
    pub to: Option<AccountId>,
    pub id: TokenId,
}

/// Notification that an operator was enabled or disabled for an owner.
#[derive(Debug, Clone, Copy, PartialEq)]
pub struct ApprovalForAll {
    pub owner: AccountId,
    pub operator: AccountId,
    pub approved: bool,
}

/// The tokens that `p` owns.
pub open spec fn tokens_of(owners: Map<TokenId, AccountId>, p: AccountId) -> Set<TokenId> {
    owners.dom().filter(|t: TokenId| owners[t] == p)
}

/// Whether `caller` may move token `id`: it is not the sentinel, and it is
/// the owner, the token's delegate, or an operator of the owner.
pub open spec fn authorized(
    owners: Map<TokenId, AccountId>,
    approvals: Map<TokenId, AccountId>,
    operators: Set<(AccountId, AccountId)>,
    caller: AccountId,
    id: TokenId,
) -> bool {
    &&& !caller.is_zero()
    &&& owners.contains_key(id)
    &&& {
        ||| caller == owners[id]
        ||| (approvals.contains_key(id) && approvals[id] == caller)
        ||| operators.contains((owners[id], caller))
    }
}

proof fn lemma_tokens_insert_new(owners: Map<TokenId, AccountId>, t: TokenId, p: AccountId, q: AccountId)
    requires
        owners.dom().finite(),
        !owners.contains_key(t),
    ensures
        tokens_of(owners.insert(t, p), q) == (if q == p {
            tokens_of(owners, q).insert(t)
        } else {
            tokens_of(owners, q)
        }),
        tokens_of(owners.insert(t, p), q).len() == tokens_of(owners, q).len() + (if q == p {
            1int
        } else {
            0int
        }),
{
    let n = owners.insert(t, p);
    if q == p {
        assert(tokens_of(n, q) =~= tokens_of(owners, q).insert(t));
    } else {
        assert(tokens_of(n, q) =~= tokens_of(owners, q));
    }
    owners.dom().lemma_len_filter(|x: TokenId| owners[x] == q);
}

proof fn lemma_tokens_remove(owners: Map<TokenId, AccountId>, t: TokenId, q: AccountId)
    requires
        owners.dom().finite(),
        owners.contains_key(t),
    ensures
        tokens_of(owners.remove(t), q) == (if owners[t] == q {
            tokens_of(owners, q).remove(t)
        } else {
            tokens_of(owners, q)
        }),
        tokens_of(owners.remove(t), q).len() + (if owners[t] == q {
            1int
        } else {
            0int
        }) == tokens_of(owners, q).len(),
{
    let n = owners.remove(t);
    if owners[t] == q {
        assert(tokens_of(n, q) =~= tokens_of(owners, q).remove(t));
    } else {
        assert(tokens_of(n, q) =~= tokens_of(owners, q));
    }
    owners.dom().lemma_len_filter(|x: TokenId| owners[x] == q);
}

/// A registry of tokens, each owned by one account, with per-token
/// delegates and per-owner operators.
pub struct Erc721 {
    token_owner: HashMap<TokenId, AccountId>,
    token_approvals: HashMap<TokenId, AccountId>,
    owned_tokens_count: KeyedList<u32>,
    operator_approvals: Vec<(AccountId, AccountId)>,
}

impl Erc721 {
    /// Which account owns each token.
    pub closed spec fn owners(&self) -> Map<TokenId, AccountId> {
        self.token_owner@
    }

    /// The delegate of each token that has one.
    pub closed spec fn approvals(&self) -> Map<TokenId, AccountId> {
        self.token_approvals@
    }

    /// The pairs (owner, operator) for which the operator may move every
    /// token of the owner.
    pub closed spec fn operators(&self) -> Set<(AccountId, AccountId)> {
        Set::new(|e: (AccountId, AccountId)| self.operator_approvals@.contains(e))
    }

    /// The count kept for account `p`, zero where none is kept.
    pub closed spec fn balance(&self, p: AccountId) -> nat {
        if self.owned_tokens_count@.contains_key(p.bytes) {
            self.owned_tokens_count@[p.bytes] as nat
        } else {
            0
        }
    }

    /// Whether `caller` may move token `id` in this state.
    pub open spec fn may_transfer(&self, caller: AccountId, id: TokenId) -> bool {
        authorized(self.owners(), self.approvals(), self.operators(), caller, id)
    }

    /// The kept counts match the ownership records, and the sentinel owns
    /// nothing.
    pub closed spec fn wf(&self) -> bool {
        &&& self.owned_tokens_count.wf()
        &&& forall|p: AccountId| #[trigger] self.balance(p) == tokens_of(self.owners(), p).len()
        &&& forall|t: TokenId|
            self.owners().contains_key(t) ==> !(#[trigger] self.owners()[t]).is_zero()
    }

    /// An empty registry.
    pub fn new() -> (r: Self)
        ensures
            r.wf(),
            r.owners() == Map::<TokenId, AccountId>::empty(),
            r.approvals() == Map::<TokenId, AccountId>::empty(),
            r.operators() == Set::<(AccountId, AccountId)>::empty(),
    {
        let r = Erc721 {
            token_owner: HashMap::new(),
            token_approvals: HashMap::new(),
            owned_tokens_count: KeyedList::new(),
            operator_approvals: Vec::new(),
        };
        assert(r.operators() =~= Set::<(AccountId, AccountId)>::empty());
        assert forall|p: AccountId| #[trigger] r.balance(p) == tokens_of(r.owners(), p).len() by {
            assert(tokens_of(r.owners(), p) =~= Set::<TokenId>::empty());
        }
        r
    }

    /// Gives `to` the token `id`, which must not exist yet.
    fn add_token_to(&mut self, to: &AccountId, id: TokenId) -> (r: Result<(), Error>)
        requires
            old(self).wf(),
            old(self).balance(*to) < u32::MAX,
        ensures
            final(self).wf(),
            old(self).owners().contains_key(id) ==> r == Err::<(), Error>(Error::TokenExists),
            !old(self).owners().contains_key(id) && to.is_zero() ==> r == Err::<(), Error>(
                Error::NotAllowed,
            ),
            !old(self).owners().contains_key(id) && !to.is_zero() ==> r is Ok,
            r is Err ==> *final(self) == *old(self),
            r is Ok ==> final(self).owners() == old(self).owners().insert(id, *to),
            final(self).approvals() == old(self).approvals(),
            final(self).operators() == old(self).operators(),
    {
        if self.token_owner.contains_key(&id) {
            return Err(Error::TokenExists);
        }
        if to.check_zero() {
            return Err(Error::NotAllowed);
        }
        let count: u32 = match self.owned_tokens_count.get(&to.bytes) {
            Some(c) => c + 1,
            None => 1,
        };
        let ghost prev = *self;
        self.owned_tokens_count.insert(to.bytes, count);
        self.token_owner.insert(id, *to);
        proof {
            assert forall|p: AccountId|
                #[trigger] self.balance(p) == tokens_of(self.owners(), p).len() by {
                lemma_tokens_insert_new(prev.owners(), id, *to, p);
                assert(prev.balance(p) == tokens_of(prev.owners(), p).len());
            }
        }
        Ok(())
    }

    /// Takes the token `id` away from its owner `from`.
    fn remove_token_from(&mut self, from: &AccountId, id: TokenId) -> (r: Result<(), Error>)
        requires
            old(self).wf(),
            old(self).owners().contains_key(id) ==> old(self).owners()[id] == *from,
        ensures
            final(self).wf(),
            !old(self).owners().contains_key(id) ==> r == Err::<(), Error>(Error::TokenNotFound),
            old(self).owners().contains_key(id) ==> r is Ok,
            r is Err ==> *final(self) == *old(self),
            r is Ok ==> final(self).owners() == old(self).owners().remove(id),
            final(self).approvals() == old(self).approvals(),
            final(self).operators() == old(self).operators(),
    {
        if !self.token_owner.contains_key(&id) {
            return Err(Error::TokenNotFound);
        }
        proof {
            assert(self.balance(*from) == tokens_of(self.owners(), *from).len());
            self.token_owner@.dom().lemma_len_filter(|x: TokenId| self.token_owner@[x] == *from);
            assert(tokens_of(self.owners(), *from).contains(id));
        }
        let count: u32 = match self.owned_tokens_count.get(&from.bytes) {
            Some(c) => c - 1,
            None => {
                return Err(Error::CannotFetchValue);
            },
        };
        let ghost prev = *self;
        self.owned_tokens_count.insert(from.bytes, count);
        self.token_owner.remove(&id);
        proof {
            assert forall|p: AccountId|
                #[trigger] self.balance(p) == tokens_of(self.owners(), p).len() by {
                lemma_tokens_remove(prev.owners(), id, p);
                assert(prev.balance(p) == tokens_of(prev.owners(), p).len());
            }
        }
        Ok(())
    }

    fn clear_approval(&mut self, id: TokenId)
        requires
            old(self).wf(),
        ensures
            final(self).wf(),
            final(self).owners() == old(self).owners(),
            final(self).approvals() == old(self).approvals().remove(id),
            final(self).operators() == old(self).operators(),
            final(self).owned_tokens_count == old(self).owned_tokens_count,
    {
        let ghost before = *self;
        self.token_approvals.remove(&id);
        proof {
            assert forall|p: AccountId|
                #[trigger] self.balance(p) == tokens_of(self.owners(), p).len() by {
                assert(before.balance(p) == tokens_of(before.owners(), p).len());
            }
            assert(self.owners() == before.owners());
        }
    }

    fn token_exists(&self, id: TokenId) -> (r: bool)
        ensures
            r == self.owners().contains_key(id),
    {
        self.token_owner.contains_key(&id)
    }

    /// Whether the operator may move every token of the owner.
    fn approved_for_all(&self, owner: AccountId, operator: AccountId) -> (r: bool)
        ensures
            r == self.operators().contains((owner, operator)),
    {
        let mut i: usize = 0;
        while i < self.operator_approvals.len()
            invariant
                0 <= i <= self.operator_approvals@.len(),
                forall|j: int| 0 <= j < i ==> self.operator_approvals@[j] != (owner, operator),
            decreases self.operator_approvals@.len() - i,
        {
            let e = self.operator_approvals[i];
            if e.0 == owner && e.1 == operator {
                assert(self.operator_approvals@[i as int] == (owner, operator));
                return true;
            }
            i = i + 1;
        }
        false
    }

    /// Decides whether `caller` may move the existing token `id`.
    fn approved_or_owner(&self, caller: &AccountId, id: TokenId) -> (r: bool)
        requires
            self.owners().contains_key(id),
        ensures
            r == self.may_transfer(*caller, id),
    {
        if caller.check_zero() {
            return false;
        }
        let owner: AccountId = match self.token_owner.get(&id) {
            Some(o) => *o,
            None => {
                return false;
            },
        };
        if *caller == owner {
            return true;
        }
        let delegated: bool = match self.token_approvals.get(&id) {
            Some(d) => *d == *caller,
            None => false,
        };
        if delegated {
            return true;
        }
        self.approved_for_all(owner, *caller)
    }

    /// Mints token `id` for `caller`.
    pub fn mint(&mut self, caller: AccountId, id: TokenId) -> (r: Result<Transfer, Error>)
        requires
            old(self).wf(),
            old(self).balance(caller) < u32::MAX,
        ensures
            final(self).wf(),
            old(self).owners().contains_key(id) ==> r == Err::<Transfer, Error>(Error::TokenExists),
            !old(self).owners().contains_key(id) && caller.is_zero() ==> r == Err::<Transfer, Error>(
                Error::NotAllowed,
            ),
            r is Err ==> *final(self) == *old(self),
            !old(self).owners().contains_key(id) && !caller.is_zero() ==> {
                &&& r is Ok
                &&& final(self).owners() == old(self).owners().insert(id, caller)
                &&& final(self).approvals() == old(self).approvals()
                &&& final(self).operators() == old(self).operators()
            },
            r matches Ok(ev) ==> {
                &&& ev.from is Some
                &&& ev.from->Some_0.is_zero()
                &&& ev.to == Some(caller)
                &&& ev.id == id
            },
    {
        match self.add_token_to(&caller, id) {
            Ok(()) => Ok(Transfer { from: Some(AccountId::zero()), to: Some(caller), id }),
            Err(e) => Err(e),
        }
    }

    /// Moves token `id` to `destination` on behalf of `caller`.
    pub fn transfer(&mut self, caller: AccountId, destination: AccountId, id: TokenId) -> (r:
        Result<Transfer, Error>)
        requires
            old(self).wf(),
            old(self).balance(destination) < u32::MAX,
        ensures
            final(self).wf(),
            !old(self).owners().contains_key(id) ==> r == Err::<Transfer, Error>(
                Error::TokenNotFound,
            ),
            old(self).owners().contains_key(id) && !old(self).may_transfer(caller, id) ==> r == Err::<
                Transfer,
                Error,
            >(Error::NotApproved),
            old(self).may_transfer(caller, id) && destination.is_zero() ==> r == Err::<
                Transfer,
                Error,
            >(Error::NotAllowed),
            r is Err ==> *final(self) == *old(self),
            old(self).may_transfer(caller, id) && !destination.is_zero() ==> {
                &&& r == Ok::<Transfer, Error>(
                    (Transfer { from: Some(old(self).owners()[id]), to: Some(destination), id }),
                )
                &&& final(self).owners() == old(self).owners().insert(id, destination)
                &&& final(self).approvals() == old(self).approvals().remove(id)
                &&& final(self).operators() == old(self).operators()
            },
            r is Ok ==> !final(self).approvals().contains_key(id),
    {
        self.transfer_token_from(&caller, &destination, id)
    }

    fn transfer_token_from(&mut self, caller: &AccountId, to: &AccountId, id: TokenId) -> (r:
        Result<Transfer, Error>)
        requires
            old(self).wf(),
            old(self).balance(*to) < u32::MAX,
        ensures
            final(self).wf(),
            !old(self).owners().contains_key(id) ==> r == Err::<Transfer, Error>(
                Error::TokenNotFound,
            ),
            old(self).owners().contains_key(id) && !old(self).may_transfer(*caller, id) ==> r
                == Err::<Transfer, Error>(Error::NotApproved),
            old(self).may_transfer(*caller, id) && to.is_zero() ==> r == Err::<Transfer, Error>(
                Error::NotAllowed,
            ),
            r is Err ==> *final(self) == *old(self),
            old(self).may_transfer(*caller, id) && !to.is_zero() ==> {
                &&& r == Ok::<Transfer, Error>(
                    (Transfer { from: Some(old(self).owners()[id]), to: Some(*to), id }),
                )
                &&& final(self).owners() == old(self).owners().insert(id, *to)
                &&& final(self).approvals() == old(self).approvals().remove(id)
                &&& final(self).operators() == old(self).operators()
            },
    {
        if !self.token_exists(id) {
            return Err(Error::TokenNotFound);
        }
        if !self.approved_or_owner(caller, id) {
            return Err(Error::NotApproved);
        }
        // The destination is checked before anything changes, so a refused
        // transfer leaves the registry as it was.
        if to.check_zero() {
            return Err(Error::NotAllowed);
        }
        let owner: AccountId = match self.token_owner.get(&id) {
            Some(o) => *o,
            None => {
                return Err(Error::TokenNotFound);
            },
        };
        let ghost before = *self;
        self.clear_approval(id);
        proof {
            assert(self.balance(*to) == before.balance(*to));
        }
        match self.remove_token_from(&owner, id) {
            Ok(()) => {},
            Err(e) => {
                return Err(e);
            },
        }
        proof {
            lemma_tokens_remove(before.owners(), id, *to);
            assert(before.balance(*to) == tokens_of(before.owners(), *to).len());
        }
        match self.add_token_to(to, id) {
            Ok(()) => {},
            Err(e) => {
                return Err(e);
            },
        }
        assert(self.owners() =~= before.owners().insert(id, *to));
        Ok(Transfer { from: Some(owner), to: Some(*to), id })
    }

    /// The number of tokens that `owner` holds.
    pub fn balance_of(&self, owner: AccountId) -> (r: u32)
        requires
            self.wf(),
        ensures
            r as nat == self.balance(owner),
            r as nat == tokens_of(self.owners(), owner).len(),
    {
        self.balance_of_or_zero(&owner)
    }

    fn balance_of_or_zero(&self, of: &AccountId) -> (r: u32)
        requires
            self.wf(),
        ensures
            r as nat == self.balance(*of),
    {
        match self.owned_tokens_count.get(&of.bytes) {
            Some(c) => c,
            None => 0,
        }
    }

    /// The owner of token `id`, if it exists.
    pub fn owner_of(&self, id: TokenId) -> (r: Option<AccountId>)
        ensures
            r == (if self.owners().contains_key(id) {
                Some(self.owners()[id])
            } else {
                None::<AccountId>
            }),
    {
        match self.token_owner.get(&id) {
            Some(o) => Some(*o),
            None => None,
        }
    }

    /// The delegate of token `id`, if it has one.
    pub fn get_approved(&self, id: TokenId) -> (r: Option<AccountId>)
        ensures
            r == (if self.approvals().contains_key(id) {
                Some(self.approvals()[id])
            } else {
                None::<AccountId>
            }),
    {
        match self.token_approvals.get(&id) {
            Some(a) => Some(*a),
            None => None,
        }
    }

    /// Whether `operator` may move every token of `owner`.
    pub fn is_approved_for_all(&self, owner: AccountId, operator: AccountId) -> (r: bool)
        ensures
            r == self.operators().contains((owner, operator)),
    {
        self.approved_for_all(owner, operator)
    }

    /// Enables or disables `to` as an operator of the caller.
    pub fn set_approval_for_all(&mut self, caller: AccountId, to: AccountId, approved: bool) -> (r:
        Result<ApprovalForAll, Error>)
        requires
            old(self).wf(),
        ensures
            final(self).wf(),
            to == caller ==> r == Err::<ApprovalForAll, Error>(Error::NotAllowed) && *final(self)
                == *old(self),
            to != caller ==> {
                &&& r == Ok::<ApprovalForAll, Error>(
                    (ApprovalForAll { owner: caller, operator: to, approved }),
                )
                &&& final(self).operators() == (if approved {
                    old(self).operators().insert((caller, to))
                } else {
                    old(self).operators().remove((caller, to))
                })
                &&& final(self).owners() == old(self).owners()
                &&& final(self).approvals() == old(self).approvals()
            },
    {
        self.approve_for_all(caller, to, approved)
    }

    fn approve_for_all(&mut self, caller: AccountId, to: AccountId, approved: bool) -> (r: Result<
        ApprovalForAll,
        Error,
    >)
        requires
            old(self).wf(),
        ensures
            final(self).wf(),
            to == caller ==> r == Err::<ApprovalForAll, Error>(Error::NotAllowed) && *final(self)
                == *old(self),
            to != caller ==> {
                &&& r == Ok::<ApprovalForAll, Error>(
                    (ApprovalForAll { owner: caller, operator: to, approved }),
                )
                &&& final(self).operators() == (if approved {
                    old(self).operators().insert((caller, to))
                } else {
                    old(self).operators().remove((caller, to))
                })
                &&& final(self).owners() == old(self).owners()
                &&& final(self).approvals() == old(self).approvals()
            },
    {
        if to == caller {
            return Err(Error::NotAllowed);
        }
        let ev = ApprovalForAll { owner: caller, operator: to, approved };
        let ghost before = *self;
        if approved {
            if !self.approved_for_all(caller, to) {
                self.operator_approvals.push((caller, to));
                let ghost s0 = before.operator_approvals@;
                let ghost s1 = self.operator_approvals@;
                assert forall|x: (AccountId, AccountId)|
                    #[trigger] s1.contains(x) <==> (s0.contains(x) || x == (caller, to)) by {
                    if s0.contains(x) {
                        let j = choose|j: int| 0 <= j < s0.len() && s0[j] == x;
                        assert(s1[j] == x);
                    }
                    if x == (caller, to) {
                        assert(s1[s0.len() as int] == x);
                    }
                    if s1.contains(x) {
                        let j = choose|j: int| 0 <= j < s1.len() && s1[j] == x;
                        if j < s0.len() {
                            assert(s0[j] == x);
                        }
                    }
                }
            }
            assert(self.operators() =~= before.operators().insert((caller, to)));
        } else {
            let mut kept: Vec<(AccountId, AccountId)> = Vec::new();
            let mut i: usize = 0;
            while i < self.operator_approvals.len()
                invariant
                    0 <= i <= self.operator_approvals@.len(),
                    self.operator_approvals@ == before.operator_approvals@,
                    forall|e: (AccountId, AccountId)|
                        #[trigger] kept@.contains(e) <==> (e != (caller, to)
                            && self.operator_approvals@.subrange(0, i as int).contains(e)),
                decreases self.operator_approvals@.len() - i,
            {
                let e = self.operator_approvals[i];
                let ghost k0 = kept@;
                let ghost sub = self.operator_approvals@.subrange(0, i as int);
                assert(self.operator_approvals@.subrange(0, i + 1) =~= sub.push(e));
                if !(e.0 == caller && e.1 == to) {
                    kept.push(e);
                    assert forall|x: (AccountId, AccountId)|
                        #[trigger] kept@.contains(x) <==> (x != (caller, to)
                            && sub.push(e).contains(x)) by {
                        if kept@.contains(x) {
                            let j = choose|j: int| 0 <= j < kept@.len() && kept@[j] == x;
                            if j < k0.len() {
                                assert(k0.contains(x));
                                let m = choose|m: int| 0 <= m < sub.len() && sub[m] == x;
                                assert(sub.push(e)[m] == x);
                            } else {
                                assert(sub.push(e)[sub.len() as int] == x);
                            }
                        }
                        if x != (caller, to) && sub.push(e).contains(x) {
                            let m = choose|m: int| 0 <= m < sub.len() + 1 && sub.push(e)[m] == x;
                            if m < sub.len() {
                                assert(sub[m] == x);
                                assert(sub.contains(x));
                                assert(k0.contains(x));
                                let j = choose|j: int| 0 <= j < k0.len() && k0[j] == x;
                                assert(kept@[j] == x);
                            } else {
                                assert(kept@[k0.len() as int] == x);
                            }
                        }
                    }
                } else {
                    assert forall|x: (AccountId, AccountId)|
                        #[trigger] kept@.contains(x) <==> (x != (caller, to)
                            && sub.push(e).contains(x)) by {
                        if x != (caller, to) && sub.push(e).contains(x) {
                            let m = choose|m: int| 0 <= m < sub.len() + 1 && sub.push(e)[m] == x;
                            if m < sub.len() {
                                assert(sub[m] == x);
                                assert(sub.contains(x));
                            }
                        }
                        if kept@.contains(x) {
                            let m = choose|m: int| 0 <= m < sub.len() && sub[m] == x;
                            assert(sub.push(e)[m] == x);
                        }
                    }
                }
                i = i + 1;
            }
            assert(self.operator_approvals@.subrange(0, self.operator_approvals@.len() as int)
                =~= self.operator_approvals@);
            self.operator_approvals = kept;
            assert(self.operators() =~= before.operators().remove((caller, to)));
        }
        proof {
            assert(self.owned_tokens_count == before.owned_tokens_count);
            assert(self.token_owner == before.token_owner);
            assert forall|p: AccountId|
                #[trigger] self.balance(p) == tokens_of(self.owners(), p).len() by {
                assert(before.balance(p) == tokens_of(before.owners(), p).len());
            }
            assert(self.owners() == before.owners());
        }
        Ok(ev)
    }
}

/// No token is counted as held by two different accounts.
pub proof fn lemma_single_owner(reg: &Erc721, id: TokenId, p: AccountId, q: AccountId)
    requires
        tokens_of(reg.owners(), p).contains(id),
        tokens_of(reg.owners(), q).contains(id),
    ensures
        p == q,
{
}

/// In every well-formed registry the count kept for an account equals the
/// number of tokens it owns.
pub proof fn lemma_balance_counts_owned(reg: &Erc721, p: AccountId)
    requires
        reg.wf(),
    ensures
        reg.balance(p) == tokens_of(reg.owners(), p).len(),
{
}

/// Being the owner, being the token's delegate, and being an operator of the
/// owner each suffice on their own to move an existing token.
pub proof fn lemma_each_path_authorizes(reg: &Erc721, caller: AccountId, id: TokenId)
    requires
        reg.owners().contains_key(id),
        !caller.is_zero(),
        caller == reg.owners()[id] || (reg.approvals().contains_key(id) && reg.approvals()[id]
            == caller) || reg.operators().contains((reg.owners()[id], caller)),
    ensures
        reg.may_transfer(caller, id),
{
}

/// Taking away one way of authorization leaves a caller authorized when
/// another way still holds: revoking any operator pair keeps the owner and the
/// delegate authorized, and clearing the delegate keeps the owner and the
/// operators authorized.
pub proof fn lemma_revoking_one_path_keeps_others(
    owners: Map<TokenId, AccountId>,
    approvals: Map<TokenId, AccountId>,
    operators: Set<(AccountId, AccountId)>,
    caller: AccountId,
    id: TokenId,
    revoked: (AccountId, AccountId),
)
    requires
        authorized(owners, approvals, operators, caller, id),
    ensures
        caller == owners[id] || (approvals.contains_key(id) && approvals[id] == caller)
            ==> authorized(owners, approvals, operators.remove(revoked), caller, id),
        caller == owners[id] || operators.contains((owners[id], caller)) ==> authorized(
            owners,
            approvals.remove(id),
            operators,
            caller,
            id,
        ),
{
}

} // verus!
