use non_fungible_token::{is_valid_account_id, AccountId, BasicError, NonFungibleTokenBasic, NEP4};

fn joe() -> AccountId {
    "joe.testnet".to_string()
}
fn robert() -> AccountId {
    "robert.testnet".to_string()
}
fn mike() -> AccountId {
    "mike.testnet".to_string()
}

#[test]
fn grant_access() {
    let mut contract = NonFungibleTokenBasic::new(robert()).unwrap();
    let length_before = contract.account_gives_access.len();
    assert_eq!(0, length_before, "Expected empty account access Map.");
    contract.grant_access(&robert(), mike());
    contract.grant_access(&robert(), joe());
    let length_after = contract.account_gives_access.len();
    assert_eq!(1, length_after, "Expected an entry in the account's access Map.");
    let num_grantees = contract.account_gives_access.get(&robert()).unwrap();
    assert_eq!(2, num_grantees.len(), "Expected two accounts to have access to predecessor.");
}

#[test]
#[should_panic(expected = r#"Access does not exist."#)]
fn revoke_access_and_panic() {
    let mut contract = NonFungibleTokenBasic::new(robert()).unwrap();
    if let Err(BasicError::AccessDoesNotExist) = contract.revoke_access(&robert(), joe()) {
        panic!("Access does not exist.");
    }
}

#[test]
fn add_revoke_access_and_check() {
    // Joe grants access to Robert
    let mut contract = NonFungibleTokenBasic::new(joe()).unwrap();
    contract.grant_access(&joe(), robert());

    // does Robert have access to Joe's account? Yes.
    let mut robert_has_access = contract.check_access(&robert(), joe());
    assert_eq!(true, robert_has_access, "After granting access, check_access call failed.");

    // Joe revokes access from Robert
    contract.revoke_access(&joe(), robert()).unwrap();

    // does Robert have access to Joe's account? No
    robert_has_access = contract.check_access(&robert(), joe());
    assert_eq!(false, robert_has_access, "After revoking access, check_access call failed.");
}

#[test]
fn mint_token_get_token_owner() {
    let mut contract = NonFungibleTokenBasic::new(robert()).unwrap();
    contract.mint_token(&robert(), mike(), 19u64).unwrap();
    let owner = contract.get_token_owner(19u64).unwrap();
    assert_eq!(mike(), owner, "Unexpected token owner.");
}

#[test]
#[should_panic(expected = r#"Attempt to transfer a token with no access."#)]
fn transfer_from_with_no_access_should_fail() {
    // Mike owns the token.
    // Robert is trying to transfer it to Robert's account without having access.
    let mut contract = NonFungibleTokenBasic::new(robert()).unwrap();
    let token_id = 19u64;
    contract.mint_token(&robert(), mike(), token_id).unwrap();
    if let Err(BasicError::NoAccess) = contract.transfer_from(&robert(), mike(), robert(), token_id.clone()) {
        panic!("Attempt to transfer a token with no access.");
    }
}

#[test]
fn transfer_from_with_escrow_access() {
    // Escrow account: robert.testnet
    // Owner account: mike.testnet
    // New owner account: joe.testnet
    let mut contract = NonFungibleTokenBasic::new(mike()).unwrap();
    let token_id = 19u64;
    contract.mint_token(&mike(), mike(), token_id).unwrap();
    // Mike grants access to Robert
    contract.grant_access(&mike(), robert());

    // Robert transfers the token to Joe
    contract.transfer_from(&robert(), mike(), joe(), token_id.clone()).unwrap();

    // Check new owner
    let owner = contract.get_token_owner(token_id.clone()).unwrap();
    assert_eq!(joe(), owner, "Token was not transferred after transfer call with escrow.");
}

#[test]
#[should_panic(expected = r#"Attempt to transfer a token from a different owner."#)]
fn transfer_from_with_escrow_access_wrong_owner_id() {
    let mut contract = NonFungibleTokenBasic::new(mike()).unwrap();
    let token_id = 19u64;
    contract.mint_token(&mike(), mike(), token_id).unwrap();
    // Mike grants access to Robert
    contract.grant_access(&mike(), robert());

    // Robert transfers the token to Joe
    if let Err(BasicError::WrongOwner) = contract.transfer_from(&robert(), robert(), joe(), token_id.clone()) {
        panic!("Attempt to transfer a token from a different owner.");
    }
}

#[test]
fn transfer_from_with_your_own_token() {
    // Owner account: robert.testnet
    // New owner account: joe.testnet
    let mut contract = NonFungibleTokenBasic::new(robert()).unwrap();
    let token_id = 19u64;
    contract.mint_token(&robert(), robert(), token_id).unwrap();

    // Robert transfers the token to Joe
    contract.transfer_from(&robert(), robert(), joe(), token_id.clone()).unwrap();

    // Check new owner
    let owner = contract.get_token_owner(token_id.clone()).unwrap();
    assert_eq!(joe(), owner, "Token was not transferred after transfer call with escrow.");
}

#[test]
#[should_panic(expected = r#"Attempt to call transfer on tokens belonging to another account."#)]
fn transfer_with_escrow_access_fails() {
    let mut contract = NonFungibleTokenBasic::new(mike()).unwrap();
    let token_id = 19u64;
    contract.mint_token(&mike(), mike(), token_id).unwrap();
    // Mike grants access to Robert
    contract.grant_access(&mike(), robert());

    // Robert transfers the token to Joe
    if let Err(BasicError::NotTokenOwner) = contract.transfer(&robert(), joe(), token_id.clone()) {
        panic!("Attempt to call transfer on tokens belonging to another account.");
    }
}

#[test]
fn transfer_with_your_own_token() {
    let mut contract = NonFungibleTokenBasic::new(robert()).unwrap();
    let token_id = 19u64;
    contract.mint_token(&robert(), robert(), token_id).unwrap();

    // Robert transfers the token to Joe
    contract.transfer(&robert(), joe(), token_id.clone()).unwrap();

    // Check new owner
    let owner = contract.get_token_owner(token_id.clone()).unwrap();
    assert_eq!(joe(), owner, "Token was not transferred after transfer call with escrow.");
}

#[test]
fn basic_new_rejects_malformed_owner() {
    assert!(matches!(NonFungibleTokenBasic::new("Robert".to_string()), Err(BasicError::InvalidOwner)));
    assert!(matches!(NonFungibleTokenBasic::new("a".to_string()), Err(BasicError::InvalidOwner)));
}

#[test]
fn basic_mint_errors() {
    let mut contract = NonFungibleTokenBasic::new(robert()).unwrap();
    assert_eq!(contract.mint_token(&mike(), mike(), 1), Err(BasicError::NotContractOwner));
    contract.mint_token(&robert(), mike(), 1).unwrap();
    assert_eq!(contract.mint_token(&robert(), joe(), 1), Err(BasicError::TokenExists));
    assert_eq!(contract.get_token_owner(1).unwrap(), mike());
    assert_eq!(contract.get_token_owner(2), Err(BasicError::TokenNotFound));
}

#[test]
fn basic_revoke_unknown_escrow() {
    let mut contract = NonFungibleTokenBasic::new(robert()).unwrap();
    contract.grant_access(&robert(), mike());
    assert_eq!(contract.revoke_access(&robert(), joe()), Err(BasicError::EscrowNotFound));
    assert!(contract.check_access(&mike(), robert()));
    assert!(!contract.check_access(&joe(), robert()));
}

#[test]
fn basic_transfer_errors_change_nothing() {
    let mut contract = NonFungibleTokenBasic::new(robert()).unwrap();
    assert_eq!(contract.transfer(&robert(), joe(), 7), Err(BasicError::TokenNotFound));
    assert_eq!(contract.transfer_from(&robert(), robert(), joe(), 7), Err(BasicError::TokenNotFound));
    contract.mint_token(&robert(), mike(), 7).unwrap();
    assert_eq!(contract.transfer(&robert(), joe(), 7), Err(BasicError::NotTokenOwner));
    assert_eq!(contract.get_token_owner(7).unwrap(), mike());
}

#[test]
fn account_names_follow_the_naming_rule() {
    for good in ["aa", "a-a", "b-o_w_e-n", "bro.wen", "over.9000", "illia.cheapaccounts.near", "10-4.8-2"] {
        assert!(is_valid_account_id(good), "{}", good);
    }
    for bad in ["a", "A", "-near", "near-", "a..b", "a-_b", "not ok", "a@b", ""] {
        assert!(!is_valid_account_id(bad), "{}", bad);
    }
    let longest = "a".repeat(64);
    assert!(is_valid_account_id(&longest));
    let too_long = "a".repeat(65);
    assert!(!is_valid_account_id(&too_long));
}
