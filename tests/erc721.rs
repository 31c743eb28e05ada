use erc721_ledger::account::AccountId;
use erc721_ledger::erc721::{ApprovalForAll, Erc721, Error, Transfer};

fn acct(b: u8) -> AccountId {
    AccountId::from([b; 32])
}

fn zero() -> AccountId {
    AccountId::from([0x00; 32])
}

#[test]
fn mint_gives_caller_the_token() {
    let a = acct(0x0a);
    let mut reg = Erc721::new();
    assert_eq!(
        reg.mint(a, 7),
        Ok(Transfer { from: Some(zero()), to: Some(a), id: 7 })
    );
    assert_eq!(reg.owner_of(7), Some(a));
    assert_eq!(reg.balance_of(a), 1);
}

#[test]
fn mint_existing_token_fails() {
    let a = acct(0x0a);
    let b = acct(0x0b);
    let mut reg = Erc721::new();
    assert!(reg.mint(a, 7).is_ok());
    assert_eq!(reg.mint(b, 7), Err(Error::TokenExists));
    assert_eq!(reg.owner_of(7), Some(a));
    assert_eq!(reg.balance_of(a), 1);
    assert_eq!(reg.balance_of(b), 0);
}

#[test]
fn mint_by_sentinel_fails() {
    let mut reg = Erc721::new();
    assert_eq!(reg.mint(zero(), 3), Err(Error::NotAllowed));
    assert_eq!(reg.owner_of(3), None);
    assert_eq!(reg.balance_of(zero()), 0);
}

#[test]
fn operator_transfers_for_owner() {
    let a = acct(0x0a);
    let c = acct(0x0c);
    let d = acct(0x0d);
    let mut reg = Erc721::new();
    assert!(reg.mint(a, 7).is_ok());
    assert_eq!(
        reg.set_approval_for_all(a, c, true),
        Ok(ApprovalForAll { owner: a, operator: c, approved: true })
    );
    assert!(reg.is_approved_for_all(a, c));
    assert_eq!(
        reg.transfer(c, d, 7),
        Ok(Transfer { from: Some(a), to: Some(d), id: 7 })
    );
    assert_eq!(reg.owner_of(7), Some(d));
    assert_eq!(reg.balance_of(a), 0);
    assert_eq!(reg.balance_of(d), 1);
    assert_eq!(reg.get_approved(7), None);
}

#[test]
fn unauthorized_transfer_fails() {
    let a = acct(0x0a);
    let e = acct(0x0e);
    let mut reg = Erc721::new();
    assert!(reg.mint(a, 7).is_ok());
    assert_eq!(reg.transfer(e, e, 7), Err(Error::NotApproved));
    assert_eq!(reg.owner_of(7), Some(a));
    assert_eq!(reg.balance_of(a), 1);
    assert_eq!(reg.balance_of(e), 0);
}

#[test]
fn transfer_of_unknown_token_fails() {
    let a = acct(0x0a);
    let x = acct(0x11);
    let mut reg = Erc721::new();
    assert!(reg.mint(a, 7).is_ok());
    assert_eq!(reg.transfer(a, x, 999), Err(Error::TokenNotFound));
}

#[test]
fn self_approval_fails() {
    let a = acct(0x0a);
    let c = acct(0x0c);
    let mut reg = Erc721::new();
    assert!(reg.set_approval_for_all(a, c, true).is_ok());
    assert_eq!(reg.set_approval_for_all(a, a, true), Err(Error::NotAllowed));
    assert!(!reg.is_approved_for_all(a, a));
    assert!(reg.is_approved_for_all(a, c));
}

#[test]
fn owner_transfers_own_token() {
    let a = acct(0x0a);
    let b = acct(0x0b);
    let mut reg = Erc721::new();
    assert!(reg.mint(a, 1).is_ok());
    assert!(reg.mint(a, 2).is_ok());
    assert_eq!(reg.balance_of(a), 2);
    assert!(reg.transfer(a, b, 1).is_ok());
    assert_eq!(reg.balance_of(a), 1);
    assert_eq!(reg.balance_of(b), 1);
    assert_eq!(reg.owner_of(1), Some(b));
    assert_eq!(reg.owner_of(2), Some(a));
}

#[test]
fn sentinel_caller_cannot_transfer() {
    let a = acct(0x0a);
    let mut reg = Erc721::new();
    assert!(reg.mint(a, 5).is_ok());
    assert_eq!(reg.transfer(zero(), a, 5), Err(Error::NotApproved));
}

#[test]
fn transfer_to_sentinel_fails_without_change() {
    let a = acct(0x0a);
    let mut reg = Erc721::new();
    assert!(reg.mint(a, 5).is_ok());
    assert_eq!(reg.transfer(a, zero(), 5), Err(Error::NotAllowed));
    assert_eq!(reg.owner_of(5), Some(a));
    assert_eq!(reg.balance_of(a), 1);
}

#[test]
fn revoked_operator_loses_access_owner_keeps_it() {
    let a = acct(0x0a);
    let c = acct(0x0c);
    let d = acct(0x0d);
    let mut reg = Erc721::new();
    assert!(reg.mint(a, 7).is_ok());
    assert!(reg.set_approval_for_all(a, c, true).is_ok());
    assert_eq!(
        reg.set_approval_for_all(a, c, false),
        Ok(ApprovalForAll { owner: a, operator: c, approved: false })
    );
    assert!(!reg.is_approved_for_all(a, c));
    assert_eq!(reg.transfer(c, d, 7), Err(Error::NotApproved));
    assert!(reg.transfer(a, d, 7).is_ok());
    assert_eq!(reg.owner_of(7), Some(d));
}

#[test]
fn repeated_approval_is_reported_and_kept() {
    let a = acct(0x0a);
    let c = acct(0x0c);
    let mut reg = Erc721::new();
    assert!(reg.set_approval_for_all(a, c, true).is_ok());
    assert_eq!(
        reg.set_approval_for_all(a, c, true),
        Ok(ApprovalForAll { owner: a, operator: c, approved: true })
    );
    assert!(reg.is_approved_for_all(a, c));
    assert!(reg.set_approval_for_all(a, c, false).is_ok());
    assert!(!reg.is_approved_for_all(a, c));
}

#[test]
fn transfer_to_current_owner_keeps_balance() {
    let a = acct(0x0a);
    let mut reg = Erc721::new();
    assert!(reg.mint(a, 9).is_ok());
    assert!(reg.transfer(a, a, 9).is_ok());
    assert_eq!(reg.owner_of(9), Some(a));
    assert_eq!(reg.balance_of(a), 1);
    assert_eq!(reg.get_approved(9), None);
}

#[test]
fn counts_follow_every_operation() {
    let a = acct(0x0a);
    let b = acct(0x0b);
    let c = acct(0x0c);
    let mut reg = Erc721::new();
    for id in 0..5u32 {
        assert!(reg.mint(a, id).is_ok());
    }
    assert!(reg.mint(b, 10).is_ok());
    assert_eq!(reg.balance_of(a), 5);
    assert_eq!(reg.balance_of(b), 1);
    assert!(reg.transfer(a, b, 0).is_ok());
    assert!(reg.transfer(a, c, 1).is_ok());
    assert!(reg.transfer(b, c, 10).is_ok());
    assert_eq!(reg.balance_of(a), 3);
    assert_eq!(reg.balance_of(b), 1);
    assert_eq!(reg.balance_of(c), 2);
    assert_eq!(reg.owner_of(0), Some(b));
    assert_eq!(reg.owner_of(1), Some(c));
    assert_eq!(reg.owner_of(10), Some(c));
}

#[test]
fn sentinel_minting_an_existing_token_reports_it_exists() {
    let a = acct(0x0a);
    let mut reg = Erc721::new();
    assert!(reg.mint(a, 7).is_ok());
    assert_eq!(reg.mint(zero(), 7), Err(Error::TokenExists));
    assert_eq!(reg.owner_of(7), Some(a));
}

#[test]
fn operator_is_per_owner() {
    let a = acct(0x0a);
    let b = acct(0x0b);
    let c = acct(0x0c);
    let mut reg = Erc721::new();
    assert!(reg.mint(a, 1).is_ok());
    assert!(reg.mint(b, 2).is_ok());
    assert!(reg.set_approval_for_all(a, c, true).is_ok());
    assert!(!reg.is_approved_for_all(b, c));
    assert!(!reg.is_approved_for_all(c, a));
    assert_eq!(reg.transfer(c, c, 2), Err(Error::NotApproved));
    assert!(reg.transfer(c, c, 1).is_ok());
    assert_eq!(reg.owner_of(1), Some(c));
    assert_eq!(reg.balance_of(c), 1);
}

#[test]
fn sentinel_account_is_recognised() {
    assert!(AccountId::zero().check_zero());
    assert!(!acct(0x01).check_zero());
    let mut bytes = [0u8; 32];
    bytes[31] = 1;
    assert!(!AccountId::from_bytes(bytes).check_zero());
    assert_eq!(AccountId::zero(), zero());
    assert_ne!(AccountId::from_bytes(bytes), zero());
}
