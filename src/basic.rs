//! The basic token contract: numbered tokens, and escrow access that an
//! account gives to other accounts over all of its tokens.
use vstd::prelude::*;
use std::collections::HashMap;
use crate::account::{AccountId, valid_account, is_valid_account_id};
use crate::keyed::{keys_unique, pairs_to_map, lemma_pairs_dom, lemma_pairs_value, lemma_pairs_push, lemma_pairs_update, lemma_pairs_remove, lemma_pairs_len};

verus! {

broadcast use vstd::std_specs::hash::group_hash_axioms;

/// The id of a token of the basic contract.
pub type TokenId = u64;

/// Why the basic contract refused a call. A refused call changes nothing.
#[derive(Debug, Clone, Copy, PartialEq, Eq, Structural)]
pub enum BasicError {
    /// The owner's account name is not well formed.
    InvalidOwner,
    /// Only the contract's owner may mint.
    NotContractOwner,
    /// A token with this id already exists.
    TokenExists,
    /// No token has this id.
    TokenNotFound,
    /// The caller has given escrow access to nobody.
    AccessDoesNotExist,
    /// The caller has not given escrow access to this account.
    EscrowNotFound,
    /// Only the token's owner may call `transfer`.
    NotTokenOwner,
    /// The named owner does not own the token.
    WrongOwner,
    /// The caller has no access to the owner's tokens.
    NoAccess,
}

/// The accounts that `grantor` has given escrow access to in `m`; none if it has no entry.
pub open spec fn granted(m: Map<Seq<char>, Set<Seq<char>>>, grantor: Seq<char>) -> Set<Seq<char>> {
    if m.contains_key(grantor) {
        m[grantor]
    } else {
        Set::empty()
    }
}

/// Whether `caller` may act on the tokens of `account`: it is that account,
/// or that account has given it escrow access.
pub open spec fn has_access(m: Map<Seq<char>, Set<Seq<char>>>, caller: Seq<char>, account: Seq<char>) -> bool {
    caller == account || granted(m, account).contains(caller)
}

/// The accounts of a list, each paired with nothing, to be read as a set.
pub open spec fn unit_pairs(s: Seq<AccountId>) -> Seq<(Seq<char>, ())> {
    s.map_values(|a: AccountId| (a@, ()))
}

/// A set of accounts, kept in the order in which they were added.
pub struct AccountSet {
    items: Vec<AccountId>,
}

impl View for AccountSet {
    type V = Set<Seq<char>>;

    closed spec fn view(&self) -> Set<Seq<char>> {
        pairs_to_map(unit_pairs(self.items@)).dom()
    }
}

impl AccountSet {
    /// No account appears twice.
    pub closed spec fn wf(&self) -> bool {
        keys_unique(unit_pairs(self.items@))
    }

    /// The empty set.
    pub fn new() -> (r: Self)
        ensures
            r.wf(),
            r@ == Set::<Seq<char>>::empty(),
    {
        let r = AccountSet { items: Vec::new() };
        assert(unit_pairs(r.items@).len() == 0);
        assert(r@ =~= Set::<Seq<char>>::empty());
        r
    }

    /// The number of accounts in the set.
    pub fn len(&self) -> (r: usize)
        requires
            self.wf(),
        ensures
            r == self@.len(),
    {
        proof {
            lemma_pairs_len(unit_pairs(self.items@));
        }
        self.items.len()
    }

    fn find(&self, account: &AccountId) -> (r: Option<usize>)
        requires
            self.wf(),
        ensures
            match r {
                Some(i) => i < self.items@.len() && self.items@[i as int]@ == account@ && self@.contains(account@),
                None => !self@.contains(account@),
            },
    {
        let ghost p = unit_pairs(self.items@);
        let mut i: usize = 0;
        while i < self.items.len()
            invariant
                i <= self.items@.len(),
                p == unit_pairs(self.items@),
                forall|j: int| 0 <= j < i ==> (#[trigger] p[j]).0 != account@,
            decreases self.items@.len() - i,
        {
            if self.items[i] == *account {
                proof {
                    lemma_pairs_dom(p, account@);
                    assert(p[i as int].0 == account@);
                }
                return Some(i);
            }
            assert(p[i as int].0 != account@);
            i = i + 1;
        }
        proof {
            lemma_pairs_dom(p, account@);
        }
        None
    }

    /// Whether `account` is in the set.
    pub fn contains(&self, account: &AccountId) -> (r: bool)
        requires
            self.wf(),
        ensures
            r == self@.contains(account@),
    {
        self.find(account).is_some()
    }

    /// Adds `account`; a member already present stays once.
    pub fn insert(&mut self, account: &AccountId)
        requires
            old(self).wf(),
        ensures
            final(self).wf(),
            final(self)@ == old(self)@.insert(account@),
    {
        if self.find(account).is_some() {
            assert(self@.insert(account@) =~= self@);
            return;
        }
        let ghost p = unit_pairs(self.items@);
        self.items.push(account.clone());
        proof {
            let q = (account@, ());
            lemma_pairs_push(p, q);
            assert(unit_pairs(self.items@) =~= p.push(q));
            lemma_pairs_dom(p, account@);
            assert forall|a: int, b: int| 0 <= a < p.push(q).len() && 0 <= b < p.push(q).len() && a != b
                implies #[trigger] p.push(q)[a].0 != #[trigger] p.push(q)[b].0 by {
                if a < p.len() && b < p.len() {
                    assert(p.push(q)[a] == p[a] && p.push(q)[b] == p[b]);
                } else if a < p.len() {
                    assert(p.push(q)[a] == p[a]);
                } else {
                    assert(p.push(q)[b] == p[b]);
                }
            }
            assert(self@ =~= old(self)@.insert(account@));
        }
    }

    /// Removes `account`; says whether it was there.
    pub fn remove(&mut self, account: &AccountId) -> (r: bool)
        requires
            old(self).wf(),
        ensures
            final(self).wf(),
            r == old(self)@.contains(account@),
            final(self)@ == old(self)@.remove(account@),
    {
        let ghost p = unit_pairs(self.items@);
        match self.find(account) {
            Some(i) => {
                self.items.remove(i);
                proof {
                    lemma_pairs_remove(p, i as int);
                    assert(unit_pairs(self.items@) =~= p.remove(i as int));
                    assert(self@ =~= old(self)@.remove(account@));
                }
                true
            },
            None => {
                assert(old(self)@.remove(account@) =~= old(self)@);
                false
            },
        }
    }
}

/// The accounts that `grantor` has given escrow access to.
pub struct AccessEntry {
    pub grantor: AccountId,
    pub escrows: AccountSet,
}

/// The entries of a list as (grantor, escrow set) pairs.
pub open spec fn access_pairs(s: Seq<AccessEntry>) -> Seq<(Seq<char>, Set<Seq<char>>)> {
    s.map_values(|e: AccessEntry| (e.grantor@, e.escrows@))
}

/// For each account that has given escrow access, the accounts it gave it to.
pub struct AccessMap {
    entries: Vec<AccessEntry>,
}

impl View for AccessMap {
    type V = Map<Seq<char>, Set<Seq<char>>>;

    closed spec fn view(&self) -> Map<Seq<char>, Set<Seq<char>>> {
        pairs_to_map(access_pairs(self.entries@))
    }
}

impl AccessMap {
    /// Each grantor appears once, and each set is well formed.
    pub closed spec fn wf(&self) -> bool {
        &&& keys_unique(access_pairs(self.entries@))
        &&& forall|i: int| 0 <= i < self.entries@.len() ==> (#[trigger] self.entries@[i]).escrows.wf()
    }

    /// No grants at all.
    pub fn new() -> (r: Self)
        ensures
            r.wf(),
            r@ == Map::<Seq<char>, Set<Seq<char>>>::empty(),
    {
        let r = AccessMap { entries: Vec::new() };
        assert(access_pairs(r.entries@).len() == 0);
        r
    }

    /// The number of accounts that have given escrow access.
    pub fn len(&self) -> (r: usize)
        requires
            self.wf(),
        ensures
            r == self@.len(),
    {
        proof {
            lemma_pairs_len(access_pairs(self.entries@));
        }
        self.entries.len()
    }

    fn find(&self, grantor: &AccountId) -> (r: Option<usize>)
        requires
            self.wf(),
        ensures
            match r {
                Some(i) => i < self.entries@.len() && self.entries@[i as int].grantor@ == grantor@
                    && self@.contains_key(grantor@) && self@[grantor@] == self.entries@[i as int].escrows@
                    && self.entries@[i as int].escrows.wf(),
                None => !self@.contains_key(grantor@),
            },
    {
        let ghost p = access_pairs(self.entries@);
        let mut i: usize = 0;
        while i < self.entries.len()
            invariant
                i <= self.entries@.len(),
                p == access_pairs(self.entries@),
                keys_unique(p),
                self.wf(),
                forall|j: int| 0 <= j < i ==> (#[trigger] p[j]).0 != grantor@,
            decreases self.entries@.len() - i,
        {
            if self.entries[i].grantor == *grantor {
                proof {
                    assert(p[i as int].0 == grantor@);
                    lemma_pairs_value(p, i as int);
                }
                return Some(i);
            }
            assert(p[i as int].0 != grantor@);
            i = i + 1;
        }
        proof {
            lemma_pairs_dom(p, grantor@);
        }
        None
    }

    /// The accounts that `grantor` has given escrow access to, if it has an entry.
    pub fn get(&self, grantor: &AccountId) -> (r: Option<&AccountSet>)
        requires
            self.wf(),
        ensures
            r is Some <==> self@.contains_key(grantor@),
            r matches Some(s) ==> s.wf() && s@ == self@[grantor@],
    {
        match self.find(grantor) {
            Some(i) => Some(&self.entries[i].escrows),
            None => None,
        }
    }

    /// Whether `grantor` has given escrow access to `escrow`.
    pub fn gives_access(&self, grantor: &AccountId, escrow: &AccountId) -> (r: bool)
        requires
            self.wf(),
        ensures
            r == granted(self@, grantor@).contains(escrow@),
    {
        match self.find(grantor) {
            Some(i) => self.entries[i].escrows.contains(escrow),
            None => false,
        }
    }

    /// Records that `grantor` gives escrow access to `escrow`.
    pub fn grant(&mut self, grantor: &AccountId, escrow: &AccountId)
        requires
            old(self).wf(),
        ensures
            final(self).wf(),
            final(self)@ == old(self)@.insert(grantor@, granted(old(self)@, grantor@).insert(escrow@)),
    {
        let ghost p = access_pairs(self.entries@);
        match self.find(grantor) {
            Some(i) => {
                let ghost before = self.entries@;
                self.entries[i].escrows.insert(escrow);
                proof {
                    let v = self.entries@[i as int].escrows@;
                    lemma_pairs_update(p, i as int, v);
                    assert(access_pairs(self.entries@) =~= p.update(i as int, (p[i as int].0, v)));
                    assert forall|j: int| 0 <= j < self.entries@.len() implies (#[trigger] self.entries@[j]).escrows.wf() by {
                        if j != i {
                            assert(self.entries@[j] == before[j]);
                        }
                    }
                }
            },
            None => {
                let mut s = AccountSet::new();
                s.insert(escrow);
                self.entries.push(AccessEntry { grantor: grantor.clone(), escrows: s });
                proof {
                    let q = (grantor@, s@);
                    lemma_pairs_push(p, q);
                    assert(access_pairs(self.entries@) =~= p.push(q));
                    lemma_pairs_dom(p, grantor@);
                    assert forall|a: int, b: int| 0 <= a < p.push(q).len() && 0 <= b < p.push(q).len() && a != b
                        implies #[trigger] p.push(q)[a].0 != #[trigger] p.push(q)[b].0 by {
                        if a < p.len() && b < p.len() {
                            assert(p.push(q)[a] == p[a] && p.push(q)[b] == p[b]);
                        } else if a < p.len() {
                            assert(p.push(q)[a] == p[a]);
                        } else {
                            assert(p.push(q)[b] == p[b]);
                        }
                    }
                    assert forall|j: int| 0 <= j < self.entries@.len() implies (#[trigger] self.entries@[j]).escrows.wf() by {
                        if j < old(self).entries@.len() {
                            assert(self.entries@[j] == old(self).entries@[j]);
                        }
                    }
                }
            },
        }
    }

    /// Withdraws the escrow access that `grantor` gave to `escrow`; the
    /// grantor's entry stays, though it may now be empty.
    pub fn withdraw(&mut self, grantor: &AccountId, escrow: &AccountId)
        requires
            old(self).wf(),
            old(self)@.contains_key(grantor@),
        ensures
            final(self).wf(),
            final(self)@ == old(self)@.insert(grantor@, old(self)@[grantor@].remove(escrow@)),
    {
        let ghost p = access_pairs(self.entries@);
        let i = match self.find(grantor) {
            Some(i) => i,
            None => return,
        };
        let ghost before = self.entries@;
        self.entries[i].escrows.remove(escrow);
        proof {
            let v = self.entries@[i as int].escrows@;
            lemma_pairs_update(p, i as int, v);
            assert(access_pairs(self.entries@) =~= p.update(i as int, (p[i as int].0, v)));
            assert forall|j: int| 0 <= j < self.entries@.len() implies (#[trigger] self.entries@[j]).escrows.wf() by {
                if j != i {
                    assert(self.entries@[j] == before[j]);
                }
            }
        }
    }
}

/// The calls of the basic token contract. `predecessor` is the account that
/// makes the call.
pub trait NEP4: Sized {
    /// The owner of each token.
    spec fn token_owners(&self) -> Map<TokenId, Seq<char>>;

    /// For each account, the accounts it has given escrow access to.
    spec fn escrows(&self) -> Map<Seq<char>, Set<Seq<char>>>;

    /// The contract's internal invariant.
    spec fn well_formed(&self) -> bool;

    /// Gives `escrow_account_id` access to the caller's tokens.
    fn grant_access(&mut self, predecessor: &AccountId, escrow_account_id: AccountId)
        requires
            old(self).well_formed(),
        ensures
            final(self).well_formed(),
            final(self).token_owners() == old(self).token_owners(),
            final(self).escrows() == old(self).escrows().insert(
                predecessor@,
                granted(old(self).escrows(), predecessor@).insert(escrow_account_id@),
            ),
    ;

    /// Withdraws the access that the caller gave to `escrow_account_id`.
    fn revoke_access(&mut self, predecessor: &AccountId, escrow_account_id: AccountId) -> (r: Result<(), BasicError>)
        requires
            old(self).well_formed(),
        ensures
            final(self).well_formed(),
            !old(self).escrows().contains_key(predecessor@) ==>
                r == Err::<(), BasicError>(BasicError::AccessDoesNotExist) && *final(self) == *old(self),
            old(self).escrows().contains_key(predecessor@) && !old(self).escrows()[predecessor@].contains(escrow_account_id@) ==>
                r == Err::<(), BasicError>(BasicError::EscrowNotFound) && *final(self) == *old(self),
            old(self).escrows().contains_key(predecessor@) && old(self).escrows()[predecessor@].contains(escrow_account_id@) ==> {
                &&& r is Ok
                &&& final(self).token_owners() == old(self).token_owners()
                &&& final(self).escrows() == old(self).escrows().insert(
                        predecessor@,
                        old(self).escrows()[predecessor@].remove(escrow_account_id@),
                    )
            },
    ;

    /// Moves `token_id` from `owner_id` to `new_owner_id`, where the caller has
    /// access to the owner's tokens.
    fn transfer_from(&mut self, predecessor: &AccountId, owner_id: AccountId, new_owner_id: AccountId, token_id: TokenId) -> (r: Result<(), BasicError>)
        requires
            old(self).well_formed(),
        ensures
            final(self).well_formed(),
            !old(self).token_owners().contains_key(token_id) ==>
                r == Err::<(), BasicError>(BasicError::TokenNotFound) && *final(self) == *old(self),
            old(self).token_owners().contains_key(token_id) && old(self).token_owners()[token_id] != owner_id@ ==>
                r == Err::<(), BasicError>(BasicError::WrongOwner) && *final(self) == *old(self),
            old(self).token_owners().contains_key(token_id) && old(self).token_owners()[token_id] == owner_id@
                && !has_access(old(self).escrows(), predecessor@, owner_id@) ==>
                r == Err::<(), BasicError>(BasicError::NoAccess) && *final(self) == *old(self),
            old(self).token_owners().contains_key(token_id) && old(self).token_owners()[token_id] == owner_id@
                && has_access(old(self).escrows(), predecessor@, owner_id@) ==> {
                &&& r is Ok
                &&& final(self).token_owners() == old(self).token_owners().insert(token_id, new_owner_id@)
                &&& final(self).escrows() == old(self).escrows()
            },
    ;

    /// Moves the caller's own token `token_id` to `new_owner_id`.
    fn transfer(&mut self, predecessor: &AccountId, new_owner_id: AccountId, token_id: TokenId) -> (r: Result<(), BasicError>)
        requires
            old(self).well_formed(),
        ensures
            final(self).well_formed(),
            !old(self).token_owners().contains_key(token_id) ==>
                r == Err::<(), BasicError>(BasicError::TokenNotFound) && *final(self) == *old(self),
            old(self).token_owners().contains_key(token_id) && old(self).token_owners()[token_id] != predecessor@ ==>
                r == Err::<(), BasicError>(BasicError::NotTokenOwner) && *final(self) == *old(self),
            old(self).token_owners().contains_key(token_id) && old(self).token_owners()[token_id] == predecessor@ ==> {
                &&& r is Ok
                &&& final(self).token_owners() == old(self).token_owners().insert(token_id, new_owner_id@)
                &&& final(self).escrows() == old(self).escrows()
            },
    ;

    /// Whether the caller has access to the tokens of `account_id`.
    fn check_access(&self, predecessor: &AccountId, account_id: AccountId) -> (r: bool)
        requires
            self.well_formed(),
        ensures
            r == has_access(self.escrows(), predecessor@, account_id@),
    ;

    /// The owner of `token_id`.
    fn get_token_owner(&self, token_id: TokenId) -> (r: Result<AccountId, BasicError>)
        requires
            self.well_formed(),
        ensures
            !self.token_owners().contains_key(token_id) ==> r == Err::<AccountId, BasicError>(BasicError::TokenNotFound),
            self.token_owners().contains_key(token_id) ==> (r matches Ok(o) && o@ == self.token_owners()[token_id]),
    ;
}

/// The basic token contract.
pub struct NonFungibleTokenBasic {
    pub token_to_account: HashMap<TokenId, AccountId>,
    pub account_gives_access: AccessMap,
    pub owner_id: AccountId,
}

impl NonFungibleTokenBasic {
    /// A contract with no tokens and no grants, owned by `owner_id`.
    pub fn new(owner_id: AccountId) -> (r: Result<Self, BasicError>)
        ensures
            valid_account(owner_id@) <==> r is Ok,
            r is Err ==> r == Err::<Self, BasicError>(BasicError::InvalidOwner),
            r matches Ok(c) ==> {
                &&& c.well_formed()
                &&& c.owner_id@ == owner_id@
                &&& c.token_owners() == Map::<TokenId, Seq<char>>::empty()
                &&& c.escrows() == Map::<Seq<char>, Set<Seq<char>>>::empty()
            },
    {
        if !is_valid_account_id(owner_id.as_str()) {
            return Err(BasicError::InvalidOwner);
        }
        let c = NonFungibleTokenBasic {
            token_to_account: HashMap::new(),
            account_gives_access: AccessMap::new(),
            owner_id,
        };
        assert(c.token_owners() =~= Map::<TokenId, Seq<char>>::empty());
        Ok(c)
    }

    /// Creates `token_id` for `owner_id`. Only the contract's owner may mint,
    /// and an id that is taken stays with its token.
    pub fn mint_token(&mut self, predecessor: &AccountId, owner_id: String, token_id: TokenId) -> (r: Result<(), BasicError>)
        requires
            old(self).well_formed(),
        ensures
            final(self).well_formed(),
            predecessor@ != old(self).owner_id@ ==>
                r == Err::<(), BasicError>(BasicError::NotContractOwner) && *final(self) == *old(self),
            predecessor@ == old(self).owner_id@ && old(self).token_owners().contains_key(token_id) ==>
                r == Err::<(), BasicError>(BasicError::TokenExists) && *final(self) == *old(self),
            predecessor@ == old(self).owner_id@ && !old(self).token_owners().contains_key(token_id) ==> {
                &&& r is Ok
                &&& final(self).token_owners() == old(self).token_owners().insert(token_id, owner_id@)
                &&& final(self).escrows() == old(self).escrows()
                &&& final(self).owner_id == old(self).owner_id
            },
    {
        if *predecessor != self.owner_id {
            return Err(BasicError::NotContractOwner);
        }
        if self.token_to_account.contains_key(&token_id) {
            return Err(BasicError::TokenExists);
        }
        self.set_owner(token_id, owner_id);
        Ok(())
    }

    /// Records `owner` as the owner of `token_id`.
    fn set_owner(&mut self, token_id: TokenId, owner: AccountId)
        requires
            old(self).well_formed(),
        ensures
            final(self).well_formed(),
            final(self).token_owners() == old(self).token_owners().insert(token_id, owner@),
            final(self).account_gives_access == old(self).account_gives_access,
            final(self).owner_id == old(self).owner_id,
    {
        let ghost o = owner@;
        self.token_to_account.insert(token_id, owner);
        assert(self.token_owners() =~= old(self).token_owners().insert(token_id, o));
    }
}

impl NEP4 for NonFungibleTokenBasic {
    open spec fn token_owners(&self) -> Map<TokenId, Seq<char>> {
        self.token_to_account@.map_values(|a: AccountId| a@)
    }

    open spec fn escrows(&self) -> Map<Seq<char>, Set<Seq<char>>> {
        self.account_gives_access@
    }

    open spec fn well_formed(&self) -> bool {
        self.account_gives_access.wf()
    }

    fn grant_access(&mut self, predecessor: &AccountId, escrow_account_id: AccountId) {
        self.account_gives_access.grant(predecessor, &escrow_account_id);
    }

    fn revoke_access(&mut self, predecessor: &AccountId, escrow_account_id: AccountId) -> (r: Result<(), BasicError>) {
        let has_escrow = match self.account_gives_access.get(predecessor) {
            Some(existing) => existing.contains(&escrow_account_id),
            None => return Err(BasicError::AccessDoesNotExist),
        };
        if !has_escrow {
            return Err(BasicError::EscrowNotFound);
        }
        self.account_gives_access.withdraw(predecessor, &escrow_account_id);
        Ok(())
    }

    fn transfer_from(&mut self, predecessor: &AccountId, owner_id: AccountId, new_owner_id: AccountId, token_id: TokenId) -> (r: Result<(), BasicError>) {
        let token_owner = match self.get_token_owner(token_id) {
            Ok(o) => o,
            Err(e) => return Err(e),
        };
        if owner_id != token_owner {
            return Err(BasicError::WrongOwner);
        }
        if !self.check_access(predecessor, token_owner) {
            return Err(BasicError::NoAccess);
        }
        self.set_owner(token_id, new_owner_id);
        Ok(())
    }

    fn transfer(&mut self, predecessor: &AccountId, new_owner_id: AccountId, token_id: TokenId) -> (r: Result<(), BasicError>) {
        let token_owner = match self.get_token_owner(token_id) {
            Ok(o) => o,
            Err(e) => return Err(e),
        };
        if *predecessor != token_owner {
            return Err(BasicError::NotTokenOwner);
        }
        self.set_owner(token_id, new_owner_id);
        Ok(())
    }

    fn check_access(&self, predecessor: &AccountId, account_id: AccountId) -> (r: bool) {
        if *predecessor == account_id {
            return true;
        }
        self.account_gives_access.gives_access(&account_id, predecessor)
    }

    fn get_token_owner(&self, token_id: TokenId) -> (r: Result<AccountId, BasicError>) {
        match self.token_to_account.get(&token_id) {
            Some(owner_id) => Ok(owner_id.clone()),
            None => Err(BasicError::TokenNotFound),
        }
    }
}

} // verus!
