//! Laws of the token store that relate several operations, stated over the
//! same spec functions as the operations' own contracts.
use vstd::prelude::*;
use crate::approvals::approved_in;
use crate::nft::{NonFungibleToken, NftError, TokenState, fresh_state};

verus! {

/// A minted token is owned by the account it was minted to, and minting its
/// id a second time fails with `AlreadyExists`, whoever the new owner would be.
pub proof fn law_mint_owner_and_duplicate(
    before: NonFungibleToken,
    after: NonFungibleToken,
    caller: Seq<char>,
    token_id: Seq<char>,
    owner: Seq<char>,
    other_owner: Seq<char>,
)
    requires
        before.mint_failure(caller, token_id, owner) is None,
        after.tokens() == before.tokens().insert(token_id, fresh_state(owner)),
        after.minter() == before.minter(),
    ensures
        after.tokens()[token_id].owner == owner,
        after.mint_failure(caller, token_id, other_owner) == Some(NftError::AlreadyExists),
{
}

/// After a grant, the account is approved and its stored id is the id that
/// was returned. A second grant to the same account returns a strictly greater
/// id, under which the account is approved, while the first id no longer counts.
pub proof fn law_reapprove_bumps_id(
    s0: NonFungibleToken,
    s1: NonFungibleToken,
    s2: NonFungibleToken,
    caller: Seq<char>,
    token_id: Seq<char>,
    account: Seq<char>,
    id1: u64,
    id2: u64,
)
    requires
        s0.approve_failure(caller, token_id) is None,
        id1 == s0.tokens()[token_id].counter + 1,
        s0.with_state(&s1, token_id, TokenState {
            owner: s0.tokens()[token_id].owner,
            approvals: s0.tokens()[token_id].approvals.insert(account, id1),
            counter: id1,
        }),
        s1.approve_failure(caller, token_id) is None,
        id2 == s1.tokens()[token_id].counter + 1,
        s1.with_state(&s2, token_id, TokenState {
            owner: s1.tokens()[token_id].owner,
            approvals: s1.tokens()[token_id].approvals.insert(account, id2),
            counter: id2,
        }),
    ensures
        approved_in(s1.tokens()[token_id].approvals, account, None),
        s1.tokens()[token_id].approvals[account] == id1,
        id2 > id1,
        !approved_in(s2.tokens()[token_id].approvals, account, Some(id1)),
        approved_in(s2.tokens()[token_id].approvals, account, Some(id2)),
{
}

/// Revoking one account withdraws its approval and no other: every other
/// account is approved, under any id, exactly as before.
pub proof fn law_revoke_one(
    s0: NonFungibleToken,
    s1: NonFungibleToken,
    caller: Seq<char>,
    token_id: Seq<char>,
    account: Seq<char>,
    other: Seq<char>,
    expected: Option<u64>,
)
    requires
        s0.revoke_failure(caller, token_id, account) is None,
        s0.with_state(&s1, token_id, TokenState {
            owner: s0.tokens()[token_id].owner,
            approvals: s0.tokens()[token_id].approvals.remove(account),
            counter: s0.tokens()[token_id].counter,
        }),
    ensures
        approved_in(s0.tokens()[token_id].approvals, account, None),
        !approved_in(s1.tokens()[token_id].approvals, account, expected),
        other != account ==> (approved_in(s1.tokens()[token_id].approvals, other, expected)
            <==> approved_in(s0.tokens()[token_id].approvals, other, expected)),
{
}

/// After revoking all approvals of a token, no account is approved on it.
pub proof fn law_revoke_all_clears(
    s0: NonFungibleToken,
    s1: NonFungibleToken,
    caller: Seq<char>,
    token_id: Seq<char>,
    account: Seq<char>,
    expected: Option<u64>,
)
    requires
        s0.revoke_all_failure(caller, token_id) is None,
        s0.with_state(&s1, token_id, TokenState {
            owner: s0.tokens()[token_id].owner,
            approvals: Map::empty(),
            counter: s0.tokens()[token_id].counter,
        }),
    ensures
        !approved_in(s1.tokens()[token_id].approvals, account, expected),
{
}

/// A transfer clears the token's approvals: afterwards no account but the new
/// owner can move the token, whatever approval id it cites, until the new
/// owner grants a new approval.
pub proof fn law_transfer_clears_approvals(
    s0: NonFungibleToken,
    s1: NonFungibleToken,
    caller: Seq<char>,
    receiver: Seq<char>,
    token_id: Seq<char>,
    approval_id: Option<u64>,
    memo: Option<Seq<char>>,
    other: Seq<char>,
    next_receiver: Seq<char>,
    cited: Option<u64>,
)
    requires
        s0.transfer_failure(caller, receiver, token_id, approval_id) is None,
        s0.moved(&s1, token_id, receiver, caller, memo),
        other != receiver,
    ensures
        s1.tokens()[token_id].approvals == Map::<Seq<char>, u64>::empty(),
        s1.transfer_failure(other, next_receiver, token_id, cited) is Some,
{
}

/// A transfer to the token's current owner always fails with
/// `SenderIsReceiver`, whoever calls and whatever id it cites; the transfer
/// then changes nothing and records no event.
pub proof fn law_self_transfer_fails(
    s: NonFungibleToken,
    caller: Seq<char>,
    token_id: Seq<char>,
    cited: Option<u64>,
)
    requires
        s.tokens().contains_key(token_id),
    ensures
        s.transfer_failure(caller, s.tokens()[token_id].owner, token_id, cited) == Some(NftError::SenderIsReceiver),
{
}

} // verus!
