use non_fungible_token::{
    AccountId, NftError, NonFungibleToken, ReceiverError, ReceiverOutcome, ReceiverReply, Resolution, TokenReceiver,
    ValueReturnTrait,
};

const TOKEN_ID: &str = "0";

fn nft() -> AccountId {
    "nft.test".to_string()
}
fn alice() -> AccountId {
    "alice.test".to_string()
}
fn bob() -> AccountId {
    "bob.test".to_string()
}
fn receiver() -> AccountId {
    "receiver.test".to_string()
}
fn tid(s: &str) -> String {
    s.to_string()
}

fn store_with_token(token_id: &str) -> NonFungibleToken {
    let mut c = NonFungibleToken::new(nft()).unwrap();
    c.mint(&nft(), tid(token_id), nft()).unwrap();
    c
}

fn owner_of(c: &NonFungibleToken, token_id: &str) -> AccountId {
    c.nft_token(&tid(token_id)).unwrap().owner_id
}

/// Runs a transfer that notifies the receiver through to its resolution.
fn transfer_call(c: &mut NonFungibleToken, msg: &str) -> Resolution {
    let pending = c
        .transfer_and_notify(&nft(), &receiver(), &tid(TOKEN_ID), None, Some("transfer & call".to_string()), msg.to_string())
        .unwrap();
    // The token belongs to the receiver while the acknowledgment is outstanding.
    assert_eq!(owner_of(c, TOKEN_ID), receiver());
    let r = TokenReceiver::new(nft());
    let reply = r.nft_on_transfer(&nft(), &pending.sender_id, &pending.previous_owner_id, &pending.token_id, &pending.msg);
    let outcome = r.settle(reply);
    c.resolve_transfer(pending, outcome)
}

#[test]
fn approval() {
    // simple approve
    let mut c = store_with_token(TOKEN_ID);
    assert_eq!(c.approve(&nft(), &tid(TOKEN_ID), &alice()), Ok(1));
    assert_eq!(c.is_approved(&tid(TOKEN_ID), &alice(), None), Ok(true));
    assert_eq!(c.is_approved(&tid(TOKEN_ID), &alice(), Some(1)), Ok(true));
    assert_eq!(c.is_approved(&tid(TOKEN_ID), &alice(), Some(2)), Ok(false));
    let token = c.nft_token(&tid(TOKEN_ID)).unwrap();
    assert_eq!(token.approved_account_ids, vec![(alice(), 1u64)]);
    assert_eq!(c.approve(&nft(), &tid(TOKEN_ID), &alice()), Ok(2));
    assert_eq!(c.is_approved(&tid(TOKEN_ID), &alice(), Some(2)), Ok(true));
    assert_eq!(c.approve(&nft(), &tid(TOKEN_ID), &receiver()), Ok(3));
    assert_eq!(c.is_approved(&tid(TOKEN_ID), &receiver(), Some(3)), Ok(true));

    // an approved account transfers the token to itself
    let mut c = store_with_token(TOKEN_ID);
    assert_eq!(c.approve(&nft(), &tid(TOKEN_ID), &alice()), Ok(1));
    c.transfer(&alice(), &alice(), &tid(TOKEN_ID), Some(1), Some("gotcha! bahahaha".to_string())).unwrap();
    assert_eq!(owner_of(&c, TOKEN_ID), alice());

    // revoke
    let mut c = store_with_token(TOKEN_ID);
    c.approve(&nft(), &tid(TOKEN_ID), &alice()).unwrap();
    c.approve(&nft(), &tid(TOKEN_ID), &receiver()).unwrap();
    c.revoke(&nft(), &tid(TOKEN_ID), &alice()).unwrap();
    assert_eq!(c.is_approved(&tid(TOKEN_ID), &alice(), Some(3)), Ok(false));
    assert_eq!(c.is_approved(&tid(TOKEN_ID), &receiver(), None), Ok(true));
    c.revoke(&nft(), &tid(TOKEN_ID), &receiver()).unwrap();
    assert_eq!(c.is_approved(&tid(TOKEN_ID), &alice(), Some(3)), Ok(false));
    assert_eq!(c.is_approved(&tid(TOKEN_ID), &receiver(), None), Ok(false));
    assert!(c.transfer(&alice(), &alice(), &tid(TOKEN_ID), Some(1), Some("gotcha! bahahaha".to_string())).is_err());

    // revoke all
    let mut c = store_with_token(TOKEN_ID);
    c.approve(&nft(), &tid(TOKEN_ID), &alice()).unwrap();
    c.approve(&nft(), &tid(TOKEN_ID), &receiver()).unwrap();
    c.revoke_all(&nft(), &tid(TOKEN_ID)).unwrap();
    assert_eq!(c.is_approved(&tid(TOKEN_ID), &alice(), Some(3)), Ok(false));
    assert_eq!(c.is_approved(&tid(TOKEN_ID), &receiver(), None), Ok(false));
    assert!(c.transfer(&alice(), &alice(), &tid(TOKEN_ID), Some(1), Some("gotcha! bahahaha".to_string())).is_err());
    assert!(c.transfer(&receiver(), &alice(), &tid(TOKEN_ID), Some(1), Some("gotcha! bahahaha".to_string())).is_err());
}

#[test]
fn core_transfers() {
    let token_id = "id-0";
    // simple transfer
    let mut c = store_with_token(token_id);
    assert_eq!(owner_of(&c, token_id), nft());
    c.transfer(&nft(), &alice(), &tid(token_id), None, Some("simple transfer".to_string())).unwrap();
    assert_eq!(c.transfer_events().len(), 1);
    assert_eq!(owner_of(&c, token_id), alice());

    // a transfer to the current owner fails and records nothing
    let mut c = store_with_token(token_id);
    assert_eq!(
        c.transfer(&nft(), &nft(), &tid(token_id), None, Some("simple transfer".to_string())),
        Err(NftError::SenderIsReceiver)
    );
    assert_eq!(c.transfer_events().len(), 0);
    assert_eq!(owner_of(&c, token_id), nft());
}

#[test]
fn transfer_call_fast_return_to_sender() {
    let mut c = store_with_token(TOKEN_ID);
    assert_eq!(transfer_call(&mut c, "return-it-now"), Resolution::Reverted);
    assert_eq!(owner_of(&c, TOKEN_ID), nft());
}

#[test]
fn transfer_call_slow_return_to_sender() {
    let mut c = store_with_token(TOKEN_ID);
    assert_eq!(transfer_call(&mut c, "return-it-later"), Resolution::Reverted);
    assert_eq!(owner_of(&c, TOKEN_ID), nft());
}

#[test]
fn transfer_call_fast_keep_with_sender() {
    let mut c = store_with_token(TOKEN_ID);
    assert_eq!(transfer_call(&mut c, "keep-it-now"), Resolution::Committed);
    assert_eq!(c.transfer_events().len(), 1);
    assert_eq!(owner_of(&c, TOKEN_ID), receiver());
}

#[test]
fn transfer_call_slow_keep_with_sender() {
    let mut c = store_with_token(TOKEN_ID);
    assert_eq!(transfer_call(&mut c, "keep-it-later"), Resolution::Committed);
    assert_eq!(owner_of(&c, TOKEN_ID), receiver());
}

#[test]
fn transfer_call_receiver_panics() {
    let mut c = store_with_token(TOKEN_ID);
    let res = transfer_call(&mut c, "incorrect message");
    assert_eq!(res, Resolution::Reverted);
    assert!(res.returned_to_sender());
    // the transfer and the return
    let events = c.transfer_events();
    assert_eq!(events.len(), 2);
    assert_eq!(events[1].old_owner_id, receiver());
    assert_eq!(events[1].new_owner_id, nft());
    assert_eq!(owner_of(&c, TOKEN_ID), nft());
}

#[test]
fn enumeration() {
    let mut c = NonFungibleToken::new(nft()).unwrap();
    for id in ["id-0", "id-1", "id-2"] {
        c.mint(&nft(), tid(id), nft()).unwrap();
    }
    assert_eq!(c.total_supply(), 3);

    c.mint(&nft(), tid("id-3"), nft()).unwrap();
    assert_eq!(c.nft_tokens(None, None).len(), 4);
    let tokens = c.nft_tokens(Some(1), None);
    assert_eq!(tokens.len(), 3);
    assert_eq!(tokens[0].token_id, "id-1".to_string());
    assert_eq!(tokens[1].token_id, "id-2".to_string());
    assert_eq!(tokens[2].token_id, "id-3".to_string());
    let tokens = c.nft_tokens(Some(2), Some(1));
    assert_eq!(tokens.len(), 1);
    assert_eq!(tokens[0].token_id, "id-2".to_string());
    let tokens = c.nft_tokens(None, Some(2));
    assert_eq!(tokens.len(), 2);
    assert_eq!(tokens[0].token_id, "id-0".to_string());
    assert_eq!(tokens[1].token_id, "id-1".to_string());

    // supply for owner
    let mut c = NonFungibleToken::new(nft()).unwrap();
    assert_eq!(c.supply_for_owner(&alice()), 0);
    assert_eq!(c.supply_for_owner(&nft()), 0);
    c.mint(&nft(), tid("id-0"), nft()).unwrap();
    c.mint(&nft(), tid("id-1"), nft()).unwrap();
    c.mint(&nft(), tid("id-2"), alice()).unwrap();
    assert_eq!(c.supply_for_owner(&nft()), 2);
    assert_eq!(c.supply_for_owner(&alice()), 1);

    // tokens for owner
    let mut c = NonFungibleToken::new(nft()).unwrap();
    for id in ["id-0", "id-1", "id-2", "id-3"] {
        c.mint(&nft(), tid(id), nft()).unwrap();
    }
    assert_eq!(c.tokens_for_owner(&alice(), None, None).len(), 0);
    assert_eq!(c.tokens_for_owner(&nft(), None, None).len(), 4);
    let t = c.tokens_for_owner(&nft(), Some(2), None);
    assert_eq!(t.len(), 2);
    assert_eq!(t[0].token_id, "id-2".to_string());
    assert_eq!(t[1].token_id, "id-3".to_string());
    let t = c.tokens_for_owner(&nft(), Some(1), Some(1));
    assert_eq!(t.len(), 1);
    assert_eq!(t[0].token_id, "id-1".to_string());
    let t = c.tokens_for_owner(&nft(), None, Some(3));
    assert_eq!(t.len(), 3);
    assert_eq!(t[0].token_id, "id-0".to_string());
    assert_eq!(t[1].token_id, "id-1".to_string());
    assert_eq!(t[2].token_id, "id-2".to_string());
}

#[test]
fn mint_sets_owner_and_rejects_duplicates() {
    let mut c = NonFungibleToken::new(nft()).unwrap();
    let rec = c.mint(&nft(), tid("t"), alice()).unwrap();
    assert_eq!(rec.owner_id, alice());
    assert_eq!(rec.token_id, "t".to_string());
    assert!(rec.approved_account_ids.is_empty());
    assert_eq!(owner_of(&c, "t"), alice());
    assert!(matches!(c.mint(&nft(), tid("t"), bob()), Err(NftError::AlreadyExists)));
    assert_eq!(owner_of(&c, "t"), alice());
    assert!(matches!(c.mint(&alice(), tid("u"), bob()), Err(NftError::Unauthorized)));
    assert!(matches!(c.mint(&nft(), tid("u"), "Bob".to_string()), Err(NftError::InvalidOwner)));
    assert_eq!(c.total_supply(), 1);
    assert!(c.nft_token(&tid("u")).is_none());
}

#[test]
fn new_rejects_malformed_minter() {
    assert!(matches!(NonFungibleToken::new("no spaces".to_string()), Err(NftError::InvalidOwner)));
    assert_eq!(NonFungibleToken::new(nft()).unwrap().owner_id(), &nft());
}

#[test]
fn approve_twice_gives_greater_id_and_stale_id_fails() {
    let mut c = store_with_token(TOKEN_ID);
    let first = c.approve(&nft(), &tid(TOKEN_ID), &alice()).unwrap();
    assert_eq!(c.is_approved(&tid(TOKEN_ID), &alice(), None), Ok(true));
    assert_eq!(c.nft_token(&tid(TOKEN_ID)).unwrap().approved_account_ids, vec![(alice(), first)]);
    let second = c.approve(&nft(), &tid(TOKEN_ID), &alice()).unwrap();
    assert!(second > first);
    assert_eq!(c.is_approved(&tid(TOKEN_ID), &alice(), Some(first)), Ok(false));
    assert_eq!(c.is_approved(&tid(TOKEN_ID), &alice(), Some(second)), Ok(true));
    // re-approval keeps one entry per account
    assert_eq!(c.nft_token(&tid(TOKEN_ID)).unwrap().approved_account_ids, vec![(alice(), second)]);
}

#[test]
fn approved_transfer_citing_first_id() {
    let mut c = NonFungibleToken::new(nft()).unwrap();
    c.mint(&nft(), tid("0"), nft()).unwrap();
    assert_eq!(c.approve(&nft(), &tid("0"), &alice()), Ok(1));
    c.transfer(&alice(), &bob(), &tid("0"), Some(1), None).unwrap();
    let token = c.nft_token(&tid("0")).unwrap();
    assert_eq!(token.owner_id, bob());
    assert!(token.approved_account_ids.is_empty());
    let ev = &c.transfer_events()[0];
    assert_eq!(ev.old_owner_id, nft());
    assert_eq!(ev.new_owner_id, bob());
    assert_eq!(ev.sender_id, alice());
    assert_eq!(ev.memo, None);
}

#[test]
fn stale_approval_id_is_refused() {
    let mut c = store_with_token("0");
    assert_eq!(c.approve(&nft(), &tid("0"), &alice()), Ok(1));
    assert_eq!(c.approve(&nft(), &tid("0"), &alice()), Ok(2));
    assert_eq!(c.transfer(&alice(), &bob(), &tid("0"), Some(1), None), Err(NftError::ApprovalIdMismatch));
    assert_eq!(owner_of(&c, "0"), nft());
    assert_eq!(c.transfer_events().len(), 0);
    c.transfer(&alice(), &bob(), &tid("0"), Some(2), None).unwrap();
    assert_eq!(owner_of(&c, "0"), bob());
}

#[test]
fn revoke_removes_exactly_one_approval() {
    let mut c = store_with_token("0");
    c.approve(&nft(), &tid("0"), &alice()).unwrap();
    c.approve(&nft(), &tid("0"), &bob()).unwrap();
    c.approve(&nft(), &tid("0"), &receiver()).unwrap();
    c.revoke(&nft(), &tid("0"), &bob()).unwrap();
    assert_eq!(c.is_approved(&tid("0"), &bob(), None), Ok(false));
    assert_eq!(c.is_approved(&tid("0"), &alice(), Some(1)), Ok(true));
    assert_eq!(c.is_approved(&tid("0"), &receiver(), Some(3)), Ok(true));
    assert_eq!(
        c.nft_token(&tid("0")).unwrap().approved_account_ids,
        vec![(alice(), 1u64), (receiver(), 3u64)]
    );
    assert_eq!(c.revoke(&nft(), &tid("0"), &bob()), Err(NftError::NotApproved));
    assert_eq!(c.revoke(&alice(), &tid("0"), &alice()), Err(NftError::Unauthorized));
    assert_eq!(c.revoke(&nft(), &tid("1"), &alice()), Err(NftError::NotFound));
}

#[test]
fn revoke_all_clears_and_is_idempotent() {
    let mut c = store_with_token("0");
    c.approve(&nft(), &tid("0"), &alice()).unwrap();
    c.approve(&nft(), &tid("0"), &bob()).unwrap();
    c.revoke_all(&nft(), &tid("0")).unwrap();
    assert_eq!(c.is_approved(&tid("0"), &alice(), None), Ok(false));
    assert_eq!(c.is_approved(&tid("0"), &bob(), None), Ok(false));
    c.revoke_all(&nft(), &tid("0")).unwrap();
    assert_eq!(c.revoke_all(&alice(), &tid("0")), Err(NftError::Unauthorized));
    assert_eq!(c.revoke_all(&nft(), &tid("9")), Err(NftError::NotFound));
    // ids are not handed out twice after a revoke_all
    assert_eq!(c.approve(&nft(), &tid("0"), &alice()), Ok(3));
}

#[test]
fn transfer_clears_approvals_for_good() {
    let mut c = store_with_token("0");
    c.approve(&nft(), &tid("0"), &alice()).unwrap();
    c.approve(&nft(), &tid("0"), &bob()).unwrap();
    c.transfer(&nft(), &receiver(), &tid("0"), None, None).unwrap();
    assert_eq!(c.is_approved(&tid("0"), &alice(), None), Ok(false));
    assert_eq!(c.is_approved(&tid("0"), &bob(), None), Ok(false));
    assert_eq!(c.transfer(&alice(), &alice(), &tid("0"), Some(1), None), Err(NftError::NotTokenOwnerOrApproved));
    assert_eq!(c.transfer(&bob(), &alice(), &tid("0"), None, None), Err(NftError::NotTokenOwnerOrApproved));
    // the counter starts again for the new owner
    assert_eq!(c.approve(&receiver(), &tid("0"), &alice()), Ok(1));
    c.transfer(&alice(), &alice(), &tid("0"), Some(1), None).unwrap();
    assert_eq!(owner_of(&c, "0"), alice());
}

#[test]
fn self_transfer_fails_without_event() {
    let mut c = store_with_token("0");
    c.approve(&nft(), &tid("0"), &alice()).unwrap();
    assert_eq!(c.transfer(&nft(), &nft(), &tid("0"), None, None), Err(NftError::SenderIsReceiver));
    assert_eq!(c.transfer(&alice(), &nft(), &tid("0"), Some(1), None), Err(NftError::SenderIsReceiver));
    assert!(matches!(
        c.transfer_and_notify(&nft(), &nft(), &tid("0"), None, None, "keep-it-now".to_string()),
        Err(NftError::SenderIsReceiver)
    ));
    assert_eq!(c.transfer_events().len(), 0);
    assert_eq!(c.is_approved(&tid("0"), &alice(), Some(1)), Ok(true));
}

#[test]
fn transfer_errors_for_missing_token_and_stranger() {
    let mut c = store_with_token("0");
    assert_eq!(c.transfer(&nft(), &alice(), &tid("1"), None, None), Err(NftError::NotFound));
    assert_eq!(c.transfer(&bob(), &alice(), &tid("0"), None, None), Err(NftError::NotTokenOwnerOrApproved));
    assert_eq!(c.is_approved(&tid("1"), &alice(), None), Err(NftError::NotFound));
    assert_eq!(c.approve(&alice(), &tid("0"), &bob()), Err(NftError::NotTokenOwnerOrApproved));
    assert_eq!(c.approve(&nft(), &tid("1"), &bob()), Err(NftError::NotFound));
    // the owner may cite any id: its own right does not rest on an approval
    c.transfer(&nft(), &alice(), &tid("0"), Some(42), None).unwrap();
    assert_eq!(owner_of(&c, "0"), alice());
}

#[test]
fn transfer_and_notify_outcomes() {
    // acknowledgment true: back with the sender
    let mut c = store_with_token("0");
    let p = c.transfer_and_notify(&nft(), &receiver(), &tid("0"), None, None, "m".to_string()).unwrap();
    assert_eq!(p.previous_owner_id, nft());
    assert_eq!(p.receiver_id, receiver());
    assert_eq!(p.msg, "m".to_string());
    assert_eq!(c.resolve_transfer(p, ReceiverOutcome::Resolved(true)), Resolution::Reverted);
    assert_eq!(owner_of(&c, "0"), nft());

    // acknowledgment false: the receiver keeps it
    let mut c = store_with_token("0");
    let p = c.transfer_and_notify(&nft(), &receiver(), &tid("0"), None, None, "m".to_string()).unwrap();
    let res = c.resolve_transfer(p, ReceiverOutcome::Resolved(false));
    assert_eq!(res, Resolution::Committed);
    assert!(!res.returned_to_sender());
    assert_eq!(owner_of(&c, "0"), receiver());

    // the receiver failed: back with the sender
    let mut c = store_with_token("0");
    let p = c.transfer_and_notify(&nft(), &receiver(), &tid("0"), None, None, "m".to_string()).unwrap();
    assert_eq!(c.resolve_transfer(p, ReceiverOutcome::Failed), Resolution::Reverted);
    assert_eq!(owner_of(&c, "0"), nft());
}

#[test]
fn resolution_does_not_overwrite_a_later_owner() {
    let mut c = store_with_token("0");
    let p = c.transfer_and_notify(&nft(), &receiver(), &tid("0"), None, None, "m".to_string()).unwrap();
    // the receiver moves the token on before the acknowledgment is settled
    c.transfer(&receiver(), &bob(), &tid("0"), None, None).unwrap();
    assert_eq!(c.resolve_transfer(p, ReceiverOutcome::Failed), Resolution::OwnerChanged);
    assert_eq!(owner_of(&c, "0"), bob());
    assert_eq!(c.transfer_events().len(), 2);
}

#[test]
fn receiver_answers_by_message() {
    let r = TokenReceiver::new(nft());
    let a = alice();
    let t = tid("0");
    assert_eq!(r.nft_on_transfer(&nft(), &a, &a, &t, &"return-it-now".to_string()), Ok(ReceiverReply::Now(true)));
    assert_eq!(r.nft_on_transfer(&nft(), &a, &a, &t, &"keep-it-now".to_string()), Ok(ReceiverReply::Now(false)));
    assert_eq!(r.nft_on_transfer(&nft(), &a, &a, &t, &"return-it-later".to_string()), Ok(ReceiverReply::Later(true)));
    assert_eq!(r.nft_on_transfer(&nft(), &a, &a, &t, &"keep-it-later".to_string()), Ok(ReceiverReply::Later(false)));
    assert_eq!(r.nft_on_transfer(&nft(), &a, &a, &t, &"other".to_string()), Err(ReceiverError::UnsupportedMsg));
    assert_eq!(r.nft_on_transfer(&bob(), &a, &a, &t, &"keep-it-now".to_string()), Err(ReceiverError::WrongContract));
    assert!(r.ok_go(true));
    assert!(!r.ok_go(false));
    assert_eq!(r.settle(Ok(ReceiverReply::Later(false))), ReceiverOutcome::Resolved(false));
    assert_eq!(r.settle(Err(ReceiverError::UnsupportedMsg)), ReceiverOutcome::Failed);
}

#[test]
fn tokens_for_owner_second_page_of_two() {
    let mut c = NonFungibleToken::new(nft()).unwrap();
    c.mint(&nft(), tid("a"), alice()).unwrap();
    c.mint(&nft(), tid("x"), bob()).unwrap();
    c.mint(&nft(), tid("b"), alice()).unwrap();
    c.mint(&nft(), tid("c"), alice()).unwrap();
    c.mint(&nft(), tid("d"), alice()).unwrap();
    assert_eq!(c.supply_for_owner(&alice()), 4);
    let page = c.tokens_for_owner(&alice(), Some(1), Some(2));
    let ids: Vec<String> = page.iter().map(|t| t.token_id.clone()).collect();
    assert_eq!(ids, vec!["b".to_string(), "c".to_string()]);
    assert!(page.iter().all(|t| t.owner_id == alice()));
    assert_eq!(c.tokens_for_owner(&alice(), Some(4), Some(2)).len(), 0);
    assert_eq!(c.tokens_for_owner(&alice(), Some(3), Some(0)).len(), 0);
    assert_eq!(c.nft_tokens(Some(9), None).len(), 0);
}

#[test]
fn approve_and_notify_returns_the_notice() {
    let mut c = store_with_token("0");
    let n = c.approve_and_notify(&nft(), &tid("0"), &alice(), "return-now".to_string()).unwrap();
    assert_eq!(n.approval_id, 1);
    assert_eq!(n.owner_id, nft());
    assert_eq!(n.token_id, "0".to_string());
    assert_eq!(n.msg, "return-now".to_string());
    assert_eq!(c.is_approved(&tid("0"), &alice(), Some(1)), Ok(true));
    assert!(matches!(
        c.approve_and_notify(&bob(), &tid("0"), &alice(), "m".to_string()),
        Err(NftError::NotTokenOwnerOrApproved)
    ));
}
