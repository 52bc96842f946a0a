use crowdloan_rewards::ledger::{Ledger, LedgerError};

#[test]
fn nobody_holds_anything_in_a_new_ledger() {
    let ledger = Ledger::new();
    assert_eq!(ledger.balance_of(0, 0), 0);
    assert_eq!(ledger.balance_of(u32::MAX, u64::MAX), 0);
}

#[test]
fn deposits_add_up() {
    let mut ledger = Ledger::new();
    assert_eq!(ledger.deposit(0, 5, 100), Ok(()));
    assert_eq!(ledger.deposit(0, 5, 23), Ok(()));
    assert_eq!(ledger.balance_of(0, 5), 123);
    assert_eq!(ledger.balance_of(1, 5), 0);
    assert_eq!(ledger.balance_of(0, 6), 0);
}

#[test]
fn deposit_beyond_the_largest_balance_fails_and_changes_nothing() {
    let mut ledger = Ledger::new();
    ledger.deposit(0, 5, u128::MAX - 1).unwrap();
    assert_eq!(ledger.deposit(0, 5, 2), Err(LedgerError::BalanceOverflow));
    assert_eq!(ledger.balance_of(0, 5), u128::MAX - 1);
    assert_eq!(ledger.deposit(0, 5, 1), Ok(()));
    assert_eq!(ledger.balance_of(0, 5), u128::MAX);
}

#[test]
fn transfer_moves_the_amount() {
    let mut ledger = Ledger::new();
    ledger.deposit(0, 5, 100).unwrap();
    assert_eq!(ledger.transfer(0, 5, 6, 30), Ok(()));
    assert_eq!(ledger.balance_of(0, 5), 70);
    assert_eq!(ledger.balance_of(0, 6), 30);
    assert_eq!(ledger.transfer(0, 5, 6, 70), Ok(()));
    assert_eq!(ledger.balance_of(0, 5), 0);
    assert_eq!(ledger.balance_of(0, 6), 100);
}

#[test]
fn transfer_of_more_than_is_held_fails_and_changes_nothing() {
    let mut ledger = Ledger::new();
    ledger.deposit(0, 5, 100).unwrap();
    assert_eq!(ledger.transfer(0, 5, 6, 101), Err(LedgerError::BalanceTooLow));
    assert_eq!(ledger.transfer(0, 7, 6, 1), Err(LedgerError::BalanceTooLow));
    assert_eq!(ledger.transfer(1, 5, 6, 1), Err(LedgerError::BalanceTooLow));
    assert_eq!(ledger.balance_of(0, 5), 100);
    assert_eq!(ledger.balance_of(0, 6), 0);
}

#[test]
fn transfer_that_the_receiver_cannot_hold_fails_and_changes_nothing() {
    let mut ledger = Ledger::new();
    ledger.deposit(0, 5, 100).unwrap();
    ledger.deposit(0, 6, u128::MAX - 50).unwrap();
    assert_eq!(ledger.transfer(0, 5, 6, 51), Err(LedgerError::BalanceOverflow));
    assert_eq!(ledger.balance_of(0, 5), 100);
    assert_eq!(ledger.balance_of(0, 6), u128::MAX - 50);
    assert_eq!(ledger.transfer(0, 5, 6, 50), Ok(()));
    assert_eq!(ledger.balance_of(0, 6), u128::MAX);
}

#[test]
fn transfer_to_oneself_keeps_the_balance() {
    let mut ledger = Ledger::new();
    ledger.deposit(0, 5, u128::MAX).unwrap();
    assert_eq!(ledger.transfer(0, 5, 5, u128::MAX), Ok(()));
    assert_eq!(ledger.balance_of(0, 5), u128::MAX);
    assert_eq!(ledger.transfer(0, 6, 6, 1), Err(LedgerError::BalanceTooLow));
}

#[test]
fn tokens_and_accounts_do_not_mix() {
    let mut ledger = Ledger::new();
    ledger.deposit(1, 0, 11).unwrap();
    ledger.deposit(0, 1, 22).unwrap();
    ledger.deposit(0, 1 << 32, 33).unwrap();
    ledger.deposit(u32::MAX, u64::MAX, 44).unwrap();
    assert_eq!(ledger.balance_of(1, 0), 11);
    assert_eq!(ledger.balance_of(0, 1), 22);
    assert_eq!(ledger.balance_of(0, 1 << 32), 33);
    assert_eq!(ledger.balance_of(u32::MAX, u64::MAX), 44);
    assert_eq!(ledger.balance_of(0, 0), 0);
    assert_eq!(ledger.balance_of(1, 1), 0);
}

#[test]
fn transfer_of_nothing_succeeds() {
    let mut ledger = Ledger::new();
    assert_eq!(ledger.transfer(0, 5, 6, 0), Ok(()));
    assert_eq!(ledger.balance_of(0, 5), 0);
    assert_eq!(ledger.balance_of(0, 6), 0);
}
