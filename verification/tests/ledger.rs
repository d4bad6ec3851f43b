use multisend::ledger::{Ledger, LedgerError};

#[test]
fn a_new_ledger_is_empty() {
    let ledger = Ledger::new(7);
    assert_eq!(ledger.minimum_balance(), 7);
    assert_eq!(ledger.total_issuance(), 0);
    assert_eq!(ledger.free_balance(1), 0);
}

#[test]
fn set_balance_creates_and_overwrites_accounts() {
    let mut ledger = Ledger::new(1);
    ledger.set_balance(8, 500).unwrap();
    assert_eq!(ledger.free_balance(8), 500);
    assert_eq!(ledger.total_issuance(), 500);

    ledger.set_balance(8, 20).unwrap();
    assert_eq!(ledger.free_balance(8), 20);
    assert_eq!(ledger.total_issuance(), 20);
}

#[test]
fn set_balance_rejects_issuance_overflow() {
    let mut ledger = Ledger::new(1);
    ledger.set_balance(1, u64::MAX).unwrap();
    assert_eq!(ledger.set_balance(2, 1), Err(LedgerError::IssuanceOverflow));
    assert_eq!(ledger.free_balance(2), 0);
    assert_eq!(ledger.total_issuance(), u64::MAX);

    // Lowering the same account's balance still fits.
    ledger.set_balance(1, 5).unwrap();
    assert_eq!(ledger.total_issuance(), 5);
}

#[test]
fn transfer_moves_value_and_conserves_issuance() {
    let mut ledger = Ledger::new(1);
    ledger.set_balance(1, 500).unwrap();
    ledger.set_balance(2, 10).unwrap();

    ledger.transfer(1, 2, 90).unwrap();

    assert_eq!(ledger.free_balance(1), 410);
    assert_eq!(ledger.free_balance(2), 100);
    assert_eq!(ledger.total_issuance(), 510);
}

#[test]
fn transfer_rejects_more_than_the_sender_holds() {
    let mut ledger = Ledger::new(1);
    ledger.set_balance(1, 50).unwrap();

    assert_eq!(ledger.transfer(1, 2, 51), Err(LedgerError::InsufficientFunds));
    assert_eq!(ledger.free_balance(1), 50);
    assert_eq!(ledger.free_balance(2), 0);
}

#[test]
fn transfer_keeps_the_sender_alive() {
    let mut ledger = Ledger::new(10);
    ledger.set_balance(1, 50).unwrap();
    ledger.set_balance(2, 10).unwrap();

    // 50 - 45 = 5 would fall below the minimum balance of 10.
    assert_eq!(ledger.transfer(1, 2, 45), Err(LedgerError::KeepAliveViolated));
    assert_eq!(ledger.free_balance(1), 50);
    assert_eq!(ledger.free_balance(2), 10);

    // 50 - 40 = 10 keeps the sender exactly at the minimum.
    ledger.transfer(1, 2, 40).unwrap();
    assert_eq!(ledger.free_balance(1), 10);
    assert_eq!(ledger.free_balance(2), 50);
}

#[test]
fn transfer_does_not_create_dust_accounts() {
    let mut ledger = Ledger::new(5);
    ledger.set_balance(1, 100).unwrap();

    // A new account would start at 4, below the minimum balance of 5.
    assert_eq!(ledger.transfer(1, 2, 4), Err(LedgerError::BelowMinimumBalance));
    assert_eq!(ledger.free_balance(2), 0);

    // At exactly the minimum, the account is created.
    ledger.transfer(1, 2, 5).unwrap();
    assert_eq!(ledger.free_balance(2), 5);
}

#[test]
fn transfer_to_oneself_changes_nothing() {
    let mut ledger = Ledger::new(1);
    ledger.set_balance(1, 100).unwrap();

    assert_eq!(ledger.transfer(1, 1, 60), Ok(()));
    assert_eq!(ledger.free_balance(1), 100);
    assert_eq!(ledger.total_issuance(), 100);
}

#[test]
fn transfer_of_nothing_changes_nothing() {
    let mut ledger = Ledger::new(5);
    ledger.set_balance(1, 100).unwrap();

    assert_eq!(ledger.transfer(1, 2, 0), Ok(()));
    assert_eq!(ledger.free_balance(1), 100);
    assert_eq!(ledger.free_balance(2), 0);
}

#[test]
fn withdrawals_consistent_with_the_free_balance_are_permitted() {
    let mut ledger = Ledger::new(1);
    ledger.set_balance(1, 100).unwrap();
    assert!(ledger.ensure_can_withdraw(1, 40, 60).is_ok());
}
