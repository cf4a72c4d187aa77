//! The token store: minting, approvals, guarded transfers, the two-phase
//! transfer that notifies the receiver, and enumeration.
use vstd::prelude::*;
use crate::account::{AccountId, valid_account, is_valid_account_id};
use crate::approvals::{ApprovalTable, approved_in};
use crate::keyed::{keys_unique, pairs_to_map, lemma_pairs_dom, lemma_pairs_value, lemma_pairs_push, lemma_pairs_update};

verus! {

/// Why an operation on the token store was refused. A refused operation
/// changes nothing and records no event.
#[derive(Debug, Clone, Copy, PartialEq, Eq, Structural)]
pub enum NftError {
    /// No token has the given id.
    NotFound,
    /// The caller may not perform this operation on the token or the store.
    Unauthorized,
    /// The caller is neither the token's owner nor an approved account.
    NotTokenOwnerOrApproved,
    /// The account to be revoked holds no approval for the token.
    NotApproved,
    /// The caller's approval id is not the one currently stored.
    ApprovalIdMismatch,
    /// A token with the given id already exists.
    AlreadyExists,
    /// The receiver already owns the token.
    SenderIsReceiver,
    /// The account reference is not a well-formed account name.
    InvalidOwner,
    /// The token's approval counter has no next value.
    ApprovalIdsExhausted,
}

/// What the contracts say about one token: its owner, its approvals, and the
/// last approval id handed out.
pub struct TokenState {
    pub owner: Seq<char>,
    pub approvals: Map<Seq<char>, u64>,
    pub counter: u64,
}

/// The state of a token freshly minted to, or just transferred to, `owner`.
pub open spec fn fresh_state(owner: Seq<char>) -> TokenState {
    TokenState { owner, approvals: Map::empty(), counter: 0 }
}

/// One token held by the store.
pub struct Token {
    pub token_id: String,
    pub owner_id: AccountId,
    pub approvals: ApprovalTable,
}

impl Token {
    pub open spec fn state(&self) -> TokenState {
        TokenState { owner: self.owner_id@, approvals: self.approvals@, counter: self.approvals.counter() }
    }
}

/// The tokens of a list, each with its state, in list order.
pub open spec fn token_pairs(s: Seq<Token>) -> Seq<(Seq<char>, TokenState)> {
    s.map_values(|t: Token| (t.token_id@, t.state()))
}

/// The ids of the tokens of `s` that `owner` holds, in the order of `s`.
pub open spec fn owned_ids(s: Seq<(Seq<char>, TokenState)>, owner: Seq<char>) -> Seq<Seq<char>>
    decreases s.len(),
{
    if s.len() == 0 {
        Seq::empty()
    } else if s.last().1.owner == owner {
        owned_ids(s.drop_last(), owner).push(s.last().0)
    } else {
        owned_ids(s.drop_last(), owner)
    }
}

/// The page of `s` that starts at `from_index` (0 if absent) and holds at most
/// `limit` items (all that remain if absent).
pub open spec fn page<A>(s: Seq<A>, from_index: Option<usize>, limit: Option<usize>) -> Seq<A> {
    let start: int = match from_index {
        Some(f) => f as int,
        None => 0,
    };
    if start >= s.len() {
        Seq::empty()
    } else {
        let end: int = match limit {
            Some(l) => if start + l < s.len() { start + l } else { s.len() as int },
            None => s.len() as int,
        };
        s.subrange(start, end)
    }
}

/// An optional string, by its characters.
pub open spec fn opt_chars(s: Option<String>) -> Option<Seq<char>> {
    match s {
        Some(x) => Some(x@),
        None => None,
    }
}

/// The record of one change of ownership.
pub struct TransferEvent {
    pub token_id: String,
    pub old_owner_id: AccountId,
    pub new_owner_id: AccountId,
    /// The account whose call moved the token.
    pub sender_id: AccountId,
    pub memo: Option<String>,
}

/// A transfer event, by the characters of its fields.
pub struct EventView {
    pub token_id: Seq<char>,
    pub old_owner_id: Seq<char>,
    pub new_owner_id: Seq<char>,
    pub sender_id: Seq<char>,
    pub memo: Option<Seq<char>>,
}

impl View for TransferEvent {
    type V = EventView;

    open spec fn view(&self) -> EventView {
        EventView {
            token_id: self.token_id@,
            old_owner_id: self.old_owner_id@,
            new_owner_id: self.new_owner_id@,
            sender_id: self.sender_id@,
            memo: opt_chars(self.memo),
        }
    }
}

/// What a reader of the store is told about a token.
pub struct TokenRecord {
    pub token_id: String,
    pub owner_id: AccountId,
    /// The approved accounts with their approval ids, in the order of their first grant.
    pub approved_account_ids: Vec<(AccountId, u64)>,
}

/// `r` describes the token `token_id` in state `st`.
pub open spec fn record_of(r: TokenRecord, token_id: Seq<char>, st: TokenState) -> bool {
    &&& r.token_id@ == token_id
    &&& r.owner_id@ == st.owner
    &&& r.approved_account_ids@.len() == st.approvals.len()
    &&& forall|i: int| 0 <= i < r.approved_account_ids@.len() ==>
            st.approvals.contains_key((#[trigger] r.approved_account_ids@[i]).0@)
            && st.approvals[r.approved_account_ids@[i].0@] == r.approved_account_ids@[i].1
    &&& forall|a: Seq<char>| #[trigger] st.approvals.contains_key(a) ==>
            exists|i: int| 0 <= i < r.approved_account_ids@.len() && (#[trigger] r.approved_account_ids@[i]).0@ == a
}

/// What an approved account is to be told of its approval.
pub struct ApprovalNotice {
    pub token_id: String,
    pub owner_id: AccountId,
    pub approval_id: u64,
    pub msg: String,
}

/// A transfer whose receiver has been asked to acknowledge it. The token
/// already belongs to `receiver_id`; `resolve_transfer` settles it.
pub struct PendingTransfer {
    pub token_id: String,
    pub sender_id: AccountId,
    pub previous_owner_id: AccountId,
    pub receiver_id: AccountId,
    pub msg: String,
}

/// How the receiver's acknowledgment ended.
#[derive(Debug, Clone, Copy, PartialEq, Eq, Structural)]
pub enum ReceiverOutcome {
    /// It answered; `true` asks for the token to go back to the previous owner.
    Resolved(bool),
    /// It failed, ran out of budget, or does not exist.
    Failed,
}

/// Whether an outcome asks for the token to go back: a `true` answer, and every failure.
pub open spec fn wants_return(o: ReceiverOutcome) -> bool {
    match o {
        ReceiverOutcome::Resolved(b) => b,
        ReceiverOutcome::Failed => true,
    }
}

/// How a pending transfer was settled.
#[derive(Debug, Clone, Copy, PartialEq, Eq, Structural)]
pub enum Resolution {
    /// The receiver keeps the token.
    Committed,
    /// The token went back to its previous owner.
    Reverted,
    /// A return was asked for, but the token had moved on since; nothing changed.
    OwnerChanged,
}

impl Resolution {
    /// Whether the token ended up back with its previous owner.
    pub fn returned_to_sender(&self) -> (r: bool)
        ensures
            r == (*self == Resolution::Reverted),
    {
        match self {
            Resolution::Reverted => true,
            _ => false,
        }
    }
}

/// The store of all tokens of one contract.
pub struct NonFungibleToken {
    owner_id: AccountId,
    tokens: Vec<Token>,
    events: Vec<TransferEvent>,
}

impl NonFungibleToken {
    /// Token ids are unique and every approval table is well formed.
    pub closed spec fn wf(&self) -> bool {
        &&& keys_unique(token_pairs(self.tokens@))
        &&& forall|i: int| 0 <= i < self.tokens@.len() ==> (#[trigger] self.tokens@[i]).approvals.wf()
    }

    /// The account that may mint.
    pub closed spec fn minter(&self) -> Seq<char> {
        self.owner_id@
    }

    /// Every token with its state, in the order in which they were minted.
    pub closed spec fn entries(&self) -> Seq<(Seq<char>, TokenState)> {
        token_pairs(self.tokens@)
    }

    /// The ids of all tokens, in mint order.
    pub open spec fn token_ids(&self) -> Seq<Seq<char>> {
        self.entries().map_values(|p: (Seq<char>, TokenState)| p.0)
    }

    /// Each token id with the state of its token.
    pub open spec fn tokens(&self) -> Map<Seq<char>, TokenState> {
        pairs_to_map(self.entries())
    }

    /// The transfer events recorded so far, oldest first.
    pub closed spec fn events(&self) -> Seq<EventView> {
        self.events@.map_values(|e: TransferEvent| e@)
    }

    /// A store with no tokens, whose minter is `owner_id`.
    pub fn new(owner_id: AccountId) -> (r: Result<Self, NftError>)
        ensures
            valid_account(owner_id@) <==> r is Ok,
            r is Err ==> r == Err::<Self, NftError>(NftError::InvalidOwner),
            r matches Ok(s) ==> {
                &&& s.wf()
                &&& s.minter() == owner_id@
                &&& s.entries().len() == 0
                &&& s.tokens() == Map::<Seq<char>, TokenState>::empty()
                &&& s.events().len() == 0
            },
    {
        if !is_valid_account_id(owner_id.as_str()) {
            return Err(NftError::InvalidOwner);
        }
        let s = NonFungibleToken { owner_id, tokens: Vec::new(), events: Vec::new() };
        assert(s.entries().len() == 0);
        assert(s.events() =~= Seq::<EventView>::empty());
        Ok(s)
    }

    /// The transfer events recorded so far, oldest first.
    pub fn transfer_events(&self) -> (r: &Vec<TransferEvent>)
        ensures
            r@.map_values(|e: TransferEvent| e@) == self.events(),
    {
        &self.events
    }

    /// The minter's account.
    pub fn owner_id(&self) -> (r: &AccountId)
        ensures
            r@ == self.minter(),
    {
        &self.owner_id
    }

    /// Where the token `token_id` stands in the list, if anywhere.
    fn find(&self, token_id: &String) -> (r: Option<usize>)
        requires
            self.wf(),
        ensures
            match r {
                Some(i) => i < self.tokens@.len() && self.tokens@[i as int].token_id@ == token_id@
                    && self.tokens().contains_key(token_id@)
                    && self.tokens()[token_id@] == self.tokens@[i as int].state(),
                None => !self.tokens().contains_key(token_id@),
            },
    {
        let ghost p = token_pairs(self.tokens@);
        let mut i: usize = 0;
        while i < self.tokens.len()
            invariant
                i <= self.tokens@.len(),
                p == token_pairs(self.tokens@),
                keys_unique(p),
                forall|j: int| 0 <= j < i ==> (#[trigger] p[j]).0 != token_id@,
            decreases self.tokens@.len() - i,
        {
            if self.tokens[i].token_id == *token_id {
                proof {
                    assert(p[i as int].0 == token_id@);
                    lemma_pairs_value(p, i as int);
                }
                return Some(i);
            }
            assert(p[i as int].0 != token_id@);
            i = i + 1;
        }
        proof {
            lemma_pairs_dom(p, token_id@);
        }
        None
    }

    /// The number of tokens in the store.
    pub fn total_supply(&self) -> (r: usize)
        ensures
            r == self.token_ids().len(),
    {
        self.tokens.len()
    }

    /// The public record of one token.
    fn record(t: &Token) -> (r: TokenRecord)
        requires
            t.approvals.wf(),
        ensures
            record_of(r, t.token_id@, t.state()),
    {
        TokenRecord {
            token_id: t.token_id.clone(),
            owner_id: t.owner_id.clone(),
            approved_account_ids: t.approvals.to_vec(),
        }
    }

    /// The record of the token `token_id`, or `None` where there is no such token.
    pub fn nft_token(&self, token_id: &String) -> (r: Option<TokenRecord>)
        requires
            self.wf(),
        ensures
            r is Some <==> self.tokens().contains_key(token_id@),
            r matches Some(rec) ==> record_of(rec, token_id@, self.tokens()[token_id@]),
    {
        match self.find(token_id) {
            Some(i) => Some(Self::record(&self.tokens[i])),
            None => None,
        }
    }

    /// Why `caller` may not mint `token_id` to `owner`, if it may not.
    pub open spec fn mint_failure(&self, caller: Seq<char>, token_id: Seq<char>, owner: Seq<char>) -> Option<NftError> {
        if caller != self.minter() {
            Some(NftError::Unauthorized)
        } else if self.tokens().contains_key(token_id) {
            Some(NftError::AlreadyExists)
        } else if !valid_account(owner) {
            Some(NftError::InvalidOwner)
        } else {
            None
        }
    }

    /// Creates the token `token_id`, owned by `owner`, with no approvals.
    /// Only the minter may mint.
    pub fn mint(&mut self, caller: &AccountId, token_id: String, owner: AccountId) -> (r: Result<TokenRecord, NftError>)
        requires
            old(self).wf(),
        ensures
            final(self).wf(),
            final(self).minter() == old(self).minter(),
            match old(self).mint_failure(caller@, token_id@, owner@) {
                Some(e) => r == Err::<TokenRecord, NftError>(e) && *final(self) == *old(self),
                None => {
                    &&& r matches Ok(rec) && record_of(rec, token_id@, fresh_state(owner@))
                    &&& final(self).entries() == old(self).entries().push((token_id@, fresh_state(owner@)))
                    &&& final(self).tokens() == old(self).tokens().insert(token_id@, fresh_state(owner@))
                    &&& final(self).events() == old(self).events()
                },
            },
    {
        if *caller != self.owner_id {
            return Err(NftError::Unauthorized);
        }
        if self.find(&token_id).is_some() {
            return Err(NftError::AlreadyExists);
        }
        if !is_valid_account_id(owner.as_str()) {
            return Err(NftError::InvalidOwner);
        }
        let ghost p = token_pairs(self.tokens@);
        let t = Token { token_id, owner_id: owner, approvals: ApprovalTable::new() };
        let rec = Self::record(&t);
        self.tokens.push(t);
        proof {
            let q = (t.token_id@, t.state());
            assert(t.state() == fresh_state(owner@));
            lemma_pairs_push(p, q);
            assert(token_pairs(self.tokens@) =~= p.push(q));
            lemma_pairs_dom(p, q.0);
            assert forall|a: int, b: int| 0 <= a < p.push(q).len() && 0 <= b < p.push(q).len() && a != b
                implies #[trigger] p.push(q)[a].0 != #[trigger] p.push(q)[b].0 by {
                if a < p.len() && b < p.len() {
                    assert(p.push(q)[a] == p[a] && p.push(q)[b] == p[b]);
                } else if a < p.len() {
                    assert(p.push(q)[a] == p[a]);
                } else {
                    assert(p.push(q)[b] == p[b]);
                }
            }
            assert forall|i: int| 0 <= i < self.tokens@.len() implies (#[trigger] self.tokens@[i]).approvals.wf() by {
                if i < old(self).tokens@.len() {
                    assert(self.tokens@[i] == old(self).tokens@[i]);
                }
            }
        }
        Ok(rec)
    }

    /// Why `caller` may not grant approvals on `token_id`, if it may not.
    pub open spec fn approve_failure(&self, caller: Seq<char>, token_id: Seq<char>) -> Option<NftError> {
        if !self.tokens().contains_key(token_id) {
            Some(NftError::NotFound)
        } else if caller != self.tokens()[token_id].owner {
            Some(NftError::NotTokenOwnerOrApproved)
        } else if self.tokens()[token_id].counter == u64::MAX {
            Some(NftError::ApprovalIdsExhausted)
        } else {
            None
        }
    }

    /// Why `caller` may not revoke the approval of `account` on `token_id`, if it may not.
    pub open spec fn revoke_failure(&self, caller: Seq<char>, token_id: Seq<char>, account: Seq<char>) -> Option<NftError> {
        if !self.tokens().contains_key(token_id) {
            Some(NftError::NotFound)
        } else if caller != self.tokens()[token_id].owner {
            Some(NftError::Unauthorized)
        } else if !self.tokens()[token_id].approvals.contains_key(account) {
            Some(NftError::NotApproved)
        } else {
            None
        }
    }

    /// Why `caller` may not revoke all approvals on `token_id`, if it may not.
    pub open spec fn revoke_all_failure(&self, caller: Seq<char>, token_id: Seq<char>) -> Option<NftError> {
        if !self.tokens().contains_key(token_id) {
            Some(NftError::NotFound)
        } else if caller != self.tokens()[token_id].owner {
            Some(NftError::Unauthorized)
        } else {
            None
        }
    }

    /// `after` is this store with the state of `token_id` replaced by `st`.
    pub open spec fn with_state(&self, after: &Self, token_id: Seq<char>, st: TokenState) -> bool {
        &&& after.tokens() == self.tokens().insert(token_id, st)
        &&& after.token_ids() == self.token_ids()
        &&& after.minter() == self.minter()
    }

    /// Replacing the token at `i` by one with the same id changes that token's state only.
    proof fn lemma_replace_token(before: &Self, after: &Self, i: int)
        requires
            before.wf(),
            0 <= i < before.tokens@.len(),
            after.tokens@.len() == before.tokens@.len(),
            forall|j: int| 0 <= j < before.tokens@.len() && j != i ==> after.tokens@[j] == before.tokens@[j],
            after.tokens@[i].token_id@ == before.tokens@[i].token_id@,
            after.tokens@[i].approvals.wf(),
            after.owner_id == before.owner_id,
        ensures
            after.wf(),
            before.with_state(after, before.tokens@[i].token_id@, after.tokens@[i].state()),
    {
        let p = token_pairs(before.tokens@);
        let k = before.tokens@[i].token_id@;
        let st = after.tokens@[i].state();
        assert(token_pairs(after.tokens@) =~= p.update(i, (p[i].0, st)));
        lemma_pairs_update(p, i, st);
        assert(after.token_ids() =~= before.token_ids());
        assert forall|j: int| 0 <= j < after.tokens@.len() implies (#[trigger] after.tokens@[j]).approvals.wf() by {
            if j != i {
                assert(after.tokens@[j] == before.tokens@[j]);
            }
        }
    }

    /// Grants `account` the next approval id of `token_id`, replacing any id it
    /// held, and returns that id. Only the owner may grant approvals.
    pub fn approve(&mut self, caller: &AccountId, token_id: &String, account: &AccountId) -> (r: Result<u64, NftError>)
        requires
            old(self).wf(),
        ensures
            final(self).wf(),
            match old(self).approve_failure(caller@, token_id@) {
                Some(e) => r == Err::<u64, NftError>(e) && *final(self) == *old(self),
                None => {
                    let st = old(self).tokens()[token_id@];
                    let id = (st.counter + 1) as u64;
                    &&& r == Ok::<u64, NftError>(id)
                    &&& old(self).with_state(final(self), token_id@,
                            TokenState { owner: st.owner, approvals: st.approvals.insert(account@, id), counter: id })
                    &&& final(self).events() == old(self).events()
                },
            },
    {
        let i = match self.find(token_id) {
            Some(i) => i,
            None => return Err(NftError::NotFound),
        };
        if *caller != self.tokens[i].owner_id {
            return Err(NftError::NotTokenOwnerOrApproved);
        }
        if self.tokens[i].approvals.last_id() == u64::MAX {
            return Err(NftError::ApprovalIdsExhausted);
        }
        let ghost before = *self;
        assert(before.tokens@[i as int].approvals.wf());
        let r = self.tokens[i].approvals.approve(account);
        proof {
            Self::lemma_replace_token(&before, self, i as int);
            assert(self.events@ == before.events@);
        }
        match r {
            Some(id) => Ok(id),
            None => Err(NftError::ApprovalIdsExhausted),
        }
    }

    /// Grants an approval as `approve` does, and returns what the approved
    /// account's acknowledgment entrypoint is to be told of it.
    pub fn approve_and_notify(&mut self, caller: &AccountId, token_id: &String, account: &AccountId, msg: String) -> (r: Result<ApprovalNotice, NftError>)
        requires
            old(self).wf(),
        ensures
            final(self).wf(),
            match old(self).approve_failure(caller@, token_id@) {
                Some(e) => r is Err && r->Err_0 == e && *final(self) == *old(self),
                None => {
                    let st = old(self).tokens()[token_id@];
                    let id = (st.counter + 1) as u64;
                    &&& r matches Ok(n) && n.token_id@ == token_id@ && n.owner_id@ == st.owner
                        && n.approval_id == id && n.msg@ == msg@
                    &&& old(self).with_state(final(self), token_id@,
                            TokenState { owner: st.owner, approvals: st.approvals.insert(account@, id), counter: id })
                    &&& final(self).events() == old(self).events()
                },
            },
    {
        match self.approve(caller, token_id, account) {
            Ok(approval_id) => Ok(ApprovalNotice { token_id: token_id.clone(), owner_id: caller.clone(), approval_id, msg }),
            Err(e) => Err(e),
        }
    }

    /// Withdraws the approval of `account` on `token_id`. Only the owner may revoke.
    pub fn revoke(&mut self, caller: &AccountId, token_id: &String, account: &AccountId) -> (r: Result<(), NftError>)
        requires
            old(self).wf(),
        ensures
            final(self).wf(),
            match old(self).revoke_failure(caller@, token_id@, account@) {
                Some(e) => r == Err::<(), NftError>(e) && *final(self) == *old(self),
                None => {
                    let st = old(self).tokens()[token_id@];
                    &&& r is Ok
                    &&& old(self).with_state(final(self), token_id@,
                            TokenState { owner: st.owner, approvals: st.approvals.remove(account@), counter: st.counter })
                    &&& final(self).events() == old(self).events()
                },
            },
    {
        let i = match self.find(token_id) {
            Some(i) => i,
            None => return Err(NftError::NotFound),
        };
        if *caller != self.tokens[i].owner_id {
            return Err(NftError::Unauthorized);
        }
        assert(self.tokens@[i as int].approvals.wf());
        if self.tokens[i].approvals.get(account).is_none() {
            return Err(NftError::NotApproved);
        }
        let ghost before = *self;
        self.tokens[i].approvals.revoke(account);
        proof {
            Self::lemma_replace_token(&before, self, i as int);
            assert(self.events@ == before.events@);
        }
        Ok(())
    }

    /// Withdraws every approval on `token_id`. Only the owner may revoke;
    /// a table that is already empty is no error.
    pub fn revoke_all(&mut self, caller: &AccountId, token_id: &String) -> (r: Result<(), NftError>)
        requires
            old(self).wf(),
        ensures
            final(self).wf(),
            match old(self).revoke_all_failure(caller@, token_id@) {
                Some(e) => r == Err::<(), NftError>(e) && *final(self) == *old(self),
                None => {
                    let st = old(self).tokens()[token_id@];
                    &&& r is Ok
                    &&& old(self).with_state(final(self), token_id@,
                            TokenState { owner: st.owner, approvals: Map::empty(), counter: st.counter })
                    &&& final(self).events() == old(self).events()
                },
            },
    {
        let i = match self.find(token_id) {
            Some(i) => i,
            None => return Err(NftError::NotFound),
        };
        if *caller != self.tokens[i].owner_id {
            return Err(NftError::Unauthorized);
        }
        let ghost before = *self;
        assert(before.tokens@[i as int].approvals.wf());
        self.tokens[i].approvals.clear();
        proof {
            Self::lemma_replace_token(&before, self, i as int);
            assert(self.events@ == before.events@);
        }
        Ok(())
    }

    /// Whether `account` is approved on `token_id`, and, where `expected` is
    /// given, under exactly that approval id.
    pub fn is_approved(&self, token_id: &String, account: &AccountId, expected: Option<u64>) -> (r: Result<bool, NftError>)
        requires
            self.wf(),
        ensures
            !self.tokens().contains_key(token_id@) ==> r == Err::<bool, NftError>(NftError::NotFound),
            self.tokens().contains_key(token_id@) ==>
                r == Ok::<bool, NftError>(approved_in(self.tokens()[token_id@].approvals, account@, expected)),
    {
        match self.find(token_id) {
            Some(i) => {
                assert(self.tokens@[i as int].approvals.wf());
                Ok(self.tokens[i].approvals.is_approved(account, expected))
            },
            None => Err(NftError::NotFound),
        }
    }

    /// Why `caller` may not transfer `token_id` to `receiver`, citing
    /// `approval_id`, if it may not. The owner may always move its token;
    /// another caller needs an approval, and where it cites an id, that id.
    pub open spec fn transfer_failure(&self, caller: Seq<char>, receiver: Seq<char>, token_id: Seq<char>, approval_id: Option<u64>) -> Option<NftError> {
        if !self.tokens().contains_key(token_id) {
            Some(NftError::NotFound)
        } else if receiver == self.tokens()[token_id].owner {
            Some(NftError::SenderIsReceiver)
        } else if caller == self.tokens()[token_id].owner {
            None
        } else if !self.tokens()[token_id].approvals.contains_key(caller) {
            Some(NftError::NotTokenOwnerOrApproved)
        } else if approval_id is Some && self.tokens()[token_id].approvals[caller] != approval_id->Some_0 {
            Some(NftError::ApprovalIdMismatch)
        } else {
            None
        }
    }

    /// `after` is this store with `token_id` moved to `new_owner`, its approvals
    /// cleared and its counter reset, and one event recorded.
    pub open spec fn moved(&self, after: &Self, token_id: Seq<char>, new_owner: Seq<char>, sender: Seq<char>, memo: Option<Seq<char>>) -> bool {
        &&& self.with_state(after, token_id, fresh_state(new_owner))
        &&& after.events() == self.events().push(EventView {
                token_id,
                old_owner_id: self.tokens()[token_id].owner,
                new_owner_id: new_owner,
                sender_id: sender,
                memo,
            })
    }

    /// Moves the token at `i` to `new_owner`, clears its approvals and records
    /// the event; returns the previous owner.
    fn move_token(&mut self, i: usize, new_owner: &AccountId, sender: &AccountId, memo: Option<String>) -> (r: AccountId)
        requires
            old(self).wf(),
            i < old(self).tokens@.len(),
        ensures
            final(self).wf(),
            r@ == old(self).tokens@[i as int].owner_id@,
            old(self).moved(final(self), old(self).tokens@[i as int].token_id@, new_owner@, sender@, opt_chars(memo)),
    {
        proof {
            lemma_pairs_value(token_pairs(self.tokens@), i as int);
        }
        let ghost before = *self;
        let previous = self.tokens[i].owner_id.clone();
        self.tokens[i].owner_id = new_owner.clone();
        self.tokens[i].approvals = ApprovalTable::new();
        proof {
            Self::lemma_replace_token(&before, self, i as int);
            assert(self.tokens@[i as int].state() == fresh_state(new_owner@));
        }
        let ghost mid = *self;
        let ev = TransferEvent {
            token_id: self.tokens[i].token_id.clone(),
            old_owner_id: previous.clone(),
            new_owner_id: new_owner.clone(),
            sender_id: sender.clone(),
            memo,
        };
        self.events.push(ev);
        proof {
            assert(self.events() =~= mid.events().push(ev@));
            assert(self.tokens() == mid.tokens());
        }
        previous
    }

    /// Checks a transfer and, where it is allowed, performs it; returns the previous owner.
    fn checked_transfer(&mut self, caller: &AccountId, receiver_id: &AccountId, token_id: &String, approval_id: Option<u64>, memo: Option<String>) -> (r: Result<AccountId, NftError>)
        requires
            old(self).wf(),
        ensures
            final(self).wf(),
            match old(self).transfer_failure(caller@, receiver_id@, token_id@, approval_id) {
                Some(e) => r == Err::<AccountId, NftError>(e) && *final(self) == *old(self),
                None => r matches Ok(prev) && prev@ == old(self).tokens()[token_id@].owner
                    && old(self).moved(final(self), token_id@, receiver_id@, caller@, opt_chars(memo)),
            },
    {
        let i = match self.find(token_id) {
            Some(i) => i,
            None => return Err(NftError::NotFound),
        };
        if *receiver_id == self.tokens[i].owner_id {
            return Err(NftError::SenderIsReceiver);
        }
        if *caller != self.tokens[i].owner_id {
            assert(self.tokens@[i as int].approvals.wf());
            match self.tokens[i].approvals.get(caller) {
                None => return Err(NftError::NotTokenOwnerOrApproved),
                Some(stored) => match approval_id {
                    Some(expected) => {
                        if stored != expected {
                            return Err(NftError::ApprovalIdMismatch);
                        }
                    },
                    None => {},
                },
            }
        }
        Ok(self.move_token(i, receiver_id, caller, memo))
    }

    /// Moves `token_id` to `receiver_id`: clears its approvals, resets its
    /// counter and records exactly one event. A refused transfer changes nothing.
    pub fn transfer(&mut self, caller: &AccountId, receiver_id: &AccountId, token_id: &String, approval_id: Option<u64>, memo: Option<String>) -> (r: Result<(), NftError>)
        requires
            old(self).wf(),
        ensures
            final(self).wf(),
            match old(self).transfer_failure(caller@, receiver_id@, token_id@, approval_id) {
                Some(e) => r == Err::<(), NftError>(e) && *final(self) == *old(self),
                None => r is Ok && old(self).moved(final(self), token_id@, receiver_id@, caller@, opt_chars(memo)),
            },
    {
        match self.checked_transfer(caller, receiver_id, token_id, approval_id, memo) {
            Ok(_) => Ok(()),
            Err(e) => Err(e),
        }
    }

    /// The first phase of a transfer that notifies the receiver: the transfer
    /// takes effect at once, and the result says what the receiver is to be
    /// told and what `resolve_transfer` needs afterwards.
    pub fn transfer_and_notify(
        &mut self,
        caller: &AccountId,
        receiver_id: &AccountId,
        token_id: &String,
        approval_id: Option<u64>,
        memo: Option<String>,
        msg: String,
    ) -> (r: Result<PendingTransfer, NftError>)
        requires
            old(self).wf(),
        ensures
            final(self).wf(),
            match old(self).transfer_failure(caller@, receiver_id@, token_id@, approval_id) {
                Some(e) => r is Err && r->Err_0 == e && *final(self) == *old(self),
                None => {
                    &&& old(self).moved(final(self), token_id@, receiver_id@, caller@, opt_chars(memo))
                    &&& r matches Ok(p) && p.token_id@ == token_id@ && p.sender_id@ == caller@
                        && p.previous_owner_id@ == old(self).tokens()[token_id@].owner
                        && p.receiver_id@ == receiver_id@ && p.msg@ == msg@
                },
            },
    {
        match self.checked_transfer(caller, receiver_id, token_id, approval_id, memo) {
            Ok(previous) => Ok(PendingTransfer {
                token_id: token_id.clone(),
                sender_id: caller.clone(),
                previous_owner_id: previous,
                receiver_id: receiver_id.clone(),
                msg,
            }),
            Err(e) => Err(e),
        }
    }

    /// The second phase: settles `pending` by the receiver's `outcome`. Where a
    /// return is asked for, the token goes back only if the receiver still owns it.
    pub fn resolve_transfer(&mut self, pending: PendingTransfer, outcome: ReceiverOutcome) -> (r: Resolution)
        requires
            old(self).wf(),
        ensures
            final(self).wf(),
            !wants_return(outcome) ==> r == Resolution::Committed && *final(self) == *old(self),
            wants_return(outcome) && old(self).tokens().contains_key(pending.token_id@)
                && old(self).tokens()[pending.token_id@].owner == pending.receiver_id@ ==> {
                &&& r == Resolution::Reverted
                &&& old(self).moved(final(self), pending.token_id@, pending.previous_owner_id@, pending.receiver_id@, None)
            },
            wants_return(outcome) && !(old(self).tokens().contains_key(pending.token_id@)
                && old(self).tokens()[pending.token_id@].owner == pending.receiver_id@) ==> {
                &&& r == Resolution::OwnerChanged
                &&& *final(self) == *old(self)
            },
    {
        let give_back = match outcome {
            ReceiverOutcome::Resolved(b) => b,
            ReceiverOutcome::Failed => true,
        };
        if !give_back {
            return Resolution::Committed;
        }
        let i = match self.find(&pending.token_id) {
            Some(i) => i,
            None => return Resolution::OwnerChanged,
        };
        if self.tokens[i].owner_id != pending.receiver_id {
            return Resolution::OwnerChanged;
        }
        self.move_token(i, &pending.previous_owner_id, &pending.receiver_id, None);
        Resolution::Reverted
    }

    /// The ids of the tokens that `owner` holds, in mint order. The index by
    /// owner is read off the token list itself, so it always agrees with it.
    pub open spec fn owned_by(&self, owner: Seq<char>) -> Seq<Seq<char>> {
        owned_ids(self.entries(), owner)
    }

    /// The record of the token at `j` describes the `j`-th token of the store.
    proof fn lemma_record_at(&self, j: int)
        requires
            self.wf(),
            0 <= j < self.tokens@.len(),
        ensures
            self.token_ids()[j] == self.tokens@[j].token_id@,
            self.tokens().contains_key(self.tokens@[j].token_id@),
            self.tokens()[self.tokens@[j].token_id@] == self.tokens@[j].state(),
            self.tokens@[j].approvals.wf(),
    {
        lemma_pairs_value(token_pairs(self.tokens@), j);
    }

    /// Where the tokens of `owner` stand in the list, in mint order.
    fn owned_positions(&self, owner: &AccountId) -> (r: Vec<usize>)
        requires
            self.wf(),
        ensures
            r@.len() == self.owned_by(owner@).len(),
            forall|k: int| 0 <= k < r@.len() ==> (#[trigger] r@[k]) < self.tokens@.len()
                && self.tokens@[r@[k] as int].token_id@ == self.owned_by(owner@)[k],
    {
        let ghost e = self.entries();
        let mut out: Vec<usize> = Vec::new();
        let mut i: usize = 0;
        while i < self.tokens.len()
            invariant
                i <= self.tokens@.len(),
                e == token_pairs(self.tokens@),
                out@.len() == owned_ids(e.take(i as int), owner@).len(),
                forall|k: int| 0 <= k < out@.len() ==> (#[trigger] out@[k]) < self.tokens@.len()
                    && self.tokens@[out@[k] as int].token_id@ == owned_ids(e.take(i as int), owner@)[k],
            decreases self.tokens@.len() - i,
        {
            assert(e.take(i as int + 1).drop_last() =~= e.take(i as int));
            if self.tokens[i].owner_id == *owner {
                out.push(i);
            }
            i = i + 1;
        }
        assert(e.take(i as int) =~= e);
        out
    }

    /// The number of tokens that `owner` holds.
    pub fn supply_for_owner(&self, owner: &AccountId) -> (r: usize)
        requires
            self.wf(),
        ensures
            r == self.owned_by(owner@).len(),
    {
        self.owned_positions(owner).len()
    }

    /// The bounds in a list of `len` items of the page that starts at
    /// `from_index` and holds at most `limit` items.
    fn page_bounds(len: usize, from_index: Option<usize>, limit: Option<usize>) -> (r: (usize, usize))
        ensures
            r.0 <= r.1 <= len,
            forall|s: Seq<Seq<char>>| s.len() == len ==> #[trigger] page(s, from_index, limit) == s.subrange(r.0 as int, r.1 as int),
    {
        let start = match from_index {
            Some(f) => f,
            None => 0,
        };
        if start >= len {
            return (len, len);
        }
        let end = match limit {
            Some(l) => if l < len - start { start + l } else { len },
            None => len,
        };
        proof {
            assert forall|s: Seq<Seq<char>>| s.len() == len implies #[trigger] page(s, from_index, limit) == s.subrange(start as int, end as int) by {
            }
        }
        (start, end)
    }

    /// The records of the page of all tokens, in mint order, that starts at
    /// `from_index` and holds at most `limit` tokens.
    pub fn nft_tokens(&self, from_index: Option<usize>, limit: Option<usize>) -> (r: Vec<TokenRecord>)
        requires
            self.wf(),
        ensures
            r@.len() == page(self.token_ids(), from_index, limit).len(),
            forall|k: int| 0 <= k < r@.len() ==> {
                let id = #[trigger] page(self.token_ids(), from_index, limit)[k];
                record_of(r@[k], id, self.tokens()[id])
            },
    {
        let (start, end) = Self::page_bounds(self.tokens.len(), from_index, limit);
        let ghost ids = self.token_ids();
        let ghost pg = page(ids, from_index, limit);
        assert(pg == ids.subrange(start as int, end as int));
        let mut out: Vec<TokenRecord> = Vec::new();
        let mut j: usize = start;
        while j < end
            invariant
                start <= j <= end <= self.tokens@.len(),
                self.wf(),
                ids == self.token_ids(),
                pg == ids.subrange(start as int, end as int),
                out@.len() == j - start,
                forall|k: int| 0 <= k < out@.len() ==> record_of(#[trigger] out@[k], pg[k], self.tokens()[pg[k]]),
            decreases end - j,
        {
            proof {
                self.lemma_record_at(j as int);
            }
            out.push(Self::record(&self.tokens[j]));
            j = j + 1;
        }
        out
    }

    /// The records of the page of the tokens of `owner`, in mint order, that
    /// starts at `from_index` and holds at most `limit` tokens.
    pub fn tokens_for_owner(&self, owner: &AccountId, from_index: Option<usize>, limit: Option<usize>) -> (r: Vec<TokenRecord>)
        requires
            self.wf(),
        ensures
            r@.len() == page(self.owned_by(owner@), from_index, limit).len(),
            forall|k: int| 0 <= k < r@.len() ==> {
                let id = #[trigger] page(self.owned_by(owner@), from_index, limit)[k];
                record_of(r@[k], id, self.tokens()[id])
            },
    {
        let positions = self.owned_positions(owner);
        let (start, end) = Self::page_bounds(positions.len(), from_index, limit);
        let ghost ids = self.owned_by(owner@);
        let ghost pg = page(ids, from_index, limit);
        assert(pg == ids.subrange(start as int, end as int));
        let mut out: Vec<TokenRecord> = Vec::new();
        let mut j: usize = start;
        while j < end
            invariant
                start <= j <= end <= positions@.len(),
                self.wf(),
                ids == self.owned_by(owner@),
                positions@.len() == ids.len(),
                forall|k: int| 0 <= k < positions@.len() ==> (#[trigger] positions@[k]) < self.tokens@.len()
                    && self.tokens@[positions@[k] as int].token_id@ == ids[k],
                pg == ids.subrange(start as int, end as int),
                out@.len() == j - start,
                forall|k: int| 0 <= k < out@.len() ==> record_of(#[trigger] out@[k], pg[k], self.tokens()[pg[k]]),
            decreases end - j,
        {
            let p = positions[j];
            proof {
                assert(positions@[j as int] == p);
                self.lemma_record_at(p as int);
            }
            out.push(Self::record(&self.tokens[p]));
            j = j + 1;
        }
        out
    }
}

} // verus!
