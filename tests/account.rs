use payments::account::{Account, Accounts, TransactionError};
use payments::amount::Amount;
use payments::transaction::{ClientTransaction, DisputeKind, Transaction};

/// The amount nearest to `value`, in ten-thousandths.
fn amount(value: f64) -> Amount {
    Amount((value * 10000.0).round() as i64)
}

fn account_with_100() -> Account {
    let mut account = Account::default();
    account
        .transact(Transaction::deposit(0, amount(100.0)))
        .unwrap();
    account
}

fn client_tx(client: u16, tx: Transaction) -> ClientTransaction {
    ClientTransaction { client, tx }
}

#[test]
fn deposit() {
    let account = account_with_100();
    assert_eq!(account.total(), amount(100.0));
}

#[test]
fn withdrawal() {
    let mut account = account_with_100();
    account
        .transact(Transaction::withdrawal(1, amount(55.5)))
        .unwrap();
    assert_eq!(account.total(), amount(44.5));
    account
        .transact(Transaction::withdrawal(1, amount(60.0)))
        .unwrap_err();
    assert_eq!(account.total(), amount(44.5));
}

#[test]
fn resolve() {
    let mut account = account_with_100();
    account
        .transact(Transaction::dispute(DisputeKind::Initiate, 0))
        .unwrap();
    assert_eq!(account.balance(), amount(0.0));
    assert_eq!(account.held(), amount(100.0));
    account
        .transact(Transaction::dispute(DisputeKind::Resolve, 0))
        .unwrap();
    assert_eq!(account.balance(), amount(100.0));
    assert_eq!(account.held(), amount(0.0));
    assert!(!account.is_frozen());
}

#[test]
fn chargeback() {
    let mut account = account_with_100();
    account
        .transact(Transaction::dispute(DisputeKind::Initiate, 0))
        .unwrap();
    assert_eq!(account.balance(), amount(0.0));
    assert_eq!(account.held(), amount(100.0));
    account
        .transact(Transaction::dispute(DisputeKind::Chargeback, 0))
        .unwrap();
    assert_eq!(account.balance(), amount(0.0));
    assert_eq!(account.held(), amount(0.0));
    assert!(account.is_frozen());
}

#[test]
fn double_chargeback() {
    let mut account = account_with_100();
    account
        .transact(Transaction::dispute(DisputeKind::Initiate, 0))
        .unwrap();
    assert_eq!(account.balance(), amount(0.0));
    assert_eq!(account.held(), amount(100.0));
    account
        .transact(Transaction::dispute(DisputeKind::Chargeback, 0))
        .unwrap();
    assert_eq!(account.balance(), amount(0.0));
    assert_eq!(account.held(), amount(0.0));
    assert!(account.is_frozen());
    account
        .transact(Transaction::dispute(DisputeKind::Chargeback, 0))
        .unwrap_err();
    assert_eq!(account.balance(), amount(0.0));
    assert_eq!(account.held(), amount(0.0));
}

#[test]
fn replay_total_is_deposits_minus_applied_withdrawals() {
    let mut account = Account::default();
    account.transact(Transaction::deposit(1, amount(10.0))).unwrap();
    account.transact(Transaction::deposit(2, amount(2.5))).unwrap();
    account.transact(Transaction::withdrawal(3, amount(4.0))).unwrap();
    assert_eq!(
        account.transact(Transaction::withdrawal(4, amount(100.0))),
        Err(TransactionError::InsufficientFunds {
            current: amount(8.5),
            requested: amount(100.0),
        })
    );
    account.transact(Transaction::deposit(5, amount(0.25))).unwrap();
    assert_eq!(account.total(), amount(10.0 + 2.5 - 4.0 + 0.25));
    assert_eq!(account.total(), Amount(87500));
}

#[test]
fn dispute_then_resolve_restores_balances() {
    let mut account = Account::default();
    account.transact(Transaction::deposit(1, amount(30.0))).unwrap();
    account.transact(Transaction::deposit(2, amount(12.5))).unwrap();
    account.transact(Transaction::withdrawal(3, amount(5.0))).unwrap();
    account
        .transact(Transaction::dispute(DisputeKind::Initiate, 2))
        .unwrap();
    assert_eq!(account.balance(), amount(25.0));
    assert_eq!(account.held(), amount(12.5));
    assert_eq!(account.total(), amount(37.5));
    account
        .transact(Transaction::dispute(DisputeKind::Resolve, 2))
        .unwrap();
    assert_eq!(account.balance(), amount(37.5));
    assert_eq!(account.held(), amount(0.0));
    assert!(!account.is_frozen());
    // the dispute is closed, so the deposit can be disputed again
    account
        .transact(Transaction::dispute(DisputeKind::Initiate, 2))
        .unwrap();
    assert_eq!(account.held(), amount(12.5));
}

#[test]
fn chargeback_blocks_second_dispute() {
    let mut account = account_with_100();
    account.transact(Transaction::deposit(1, amount(7.0))).unwrap();
    account
        .transact(Transaction::dispute(DisputeKind::Initiate, 1))
        .unwrap();
    assert_eq!(account.held(), amount(7.0));
    account
        .transact(Transaction::dispute(DisputeKind::Chargeback, 1))
        .unwrap();
    assert!(account.is_frozen());
    assert_eq!(account.held(), amount(0.0));
    assert_eq!(account.balance(), amount(100.0));
    assert_eq!(
        account.transact(Transaction::dispute(DisputeKind::Initiate, 1)),
        Err(TransactionError::InvalidDispute)
    );
    assert_eq!(
        account.transact(Transaction::dispute(DisputeKind::Chargeback, 1)),
        Err(TransactionError::UndisputedChargeback)
    );
    assert_eq!(account.total(), amount(100.0));
}

#[test]
fn frozen_account_rejects_withdrawal() {
    let mut account = account_with_100();
    account.transact(Transaction::deposit(1, amount(5.0))).unwrap();
    account
        .transact(Transaction::dispute(DisputeKind::Initiate, 1))
        .unwrap();
    account
        .transact(Transaction::dispute(DisputeKind::Chargeback, 1))
        .unwrap();
    assert_eq!(
        account.transact(Transaction::withdrawal(2, amount(1.0))),
        Err(TransactionError::AccountFrozen)
    );
    assert_eq!(account.balance(), amount(100.0));
    assert_eq!(account.held(), amount(0.0));
    // deposits are still accepted
    account.transact(Transaction::deposit(3, amount(1.0))).unwrap();
    assert_eq!(account.balance(), amount(101.0));
}

#[test]
fn reused_id_is_rejected() {
    let mut account = account_with_100();
    assert_eq!(
        account.transact(Transaction::deposit(0, amount(1.0))),
        Err(TransactionError::DuplicateTransactionId(0))
    );
    assert_eq!(
        account.transact(Transaction::withdrawal(0, amount(1.0))),
        Err(TransactionError::DuplicateTransactionId(0))
    );
    account.transact(Transaction::withdrawal(1, amount(1.0))).unwrap();
    assert_eq!(
        account.transact(Transaction::withdrawal(1, amount(1.0))),
        Err(TransactionError::DuplicateTransactionId(1))
    );
    assert_eq!(account.balance(), amount(99.0));
    assert_eq!(account.held(), amount(0.0));
}

#[test]
fn invalid_disputes_are_rejected() {
    let mut account = account_with_100();
    account.transact(Transaction::withdrawal(1, amount(10.0))).unwrap();
    // no such transaction
    assert_eq!(
        account.transact(Transaction::dispute(DisputeKind::Initiate, 9)),
        Err(TransactionError::InvalidDispute)
    );
    // withdrawals cannot be disputed
    assert_eq!(
        account.transact(Transaction::dispute(DisputeKind::Initiate, 1)),
        Err(TransactionError::InvalidDispute)
    );
    account
        .transact(Transaction::dispute(DisputeKind::Initiate, 0))
        .unwrap();
    // already disputed
    assert_eq!(
        account.transact(Transaction::dispute(DisputeKind::Initiate, 0)),
        Err(TransactionError::InvalidDispute)
    );
    assert_eq!(account.balance(), amount(-10.0));
    assert_eq!(account.held(), amount(100.0));
    assert_eq!(account.total(), amount(90.0));
}

#[test]
fn undisputed_resolve_and_chargeback_are_rejected() {
    let mut account = account_with_100();
    assert_eq!(
        account.transact(Transaction::dispute(DisputeKind::Resolve, 0)),
        Err(TransactionError::UndisputedResolution)
    );
    assert_eq!(
        account.transact(Transaction::dispute(DisputeKind::Chargeback, 0)),
        Err(TransactionError::UndisputedChargeback)
    );
    assert_eq!(account.balance(), amount(100.0));
    assert!(!account.is_frozen());
}

#[test]
fn scenario_dispute_resolve_then_overdraw() {
    let mut accounts = Accounts::default();
    accounts
        .transact(client_tx(1, Transaction::deposit(1, amount(100.0))))
        .unwrap();
    accounts
        .transact(client_tx(1, Transaction::dispute(DisputeKind::Initiate, 1)))
        .unwrap();
    accounts
        .transact(client_tx(1, Transaction::dispute(DisputeKind::Resolve, 1)))
        .unwrap();
    let account = accounts.get(1).unwrap();
    assert_eq!(account.balance(), amount(100.0));
    assert_eq!(account.held(), amount(0.0));
    assert!(!account.is_frozen());
    accounts
        .transact(client_tx(1, Transaction::deposit(2, amount(50.0))))
        .unwrap();
    assert_eq!(
        accounts.transact(client_tx(1, Transaction::withdrawal(3, amount(160.0)))),
        Err(TransactionError::InsufficientFunds {
            current: amount(150.0),
            requested: amount(160.0),
        })
    );
    assert_eq!(accounts.get(1).unwrap().balance(), amount(150.0));
}

#[test]
fn scenario_chargeback_freezes() {
    let mut accounts = Accounts::default();
    accounts
        .transact(client_tx(2, Transaction::deposit(10, amount(100.0))))
        .unwrap();
    accounts
        .transact(client_tx(2, Transaction::dispute(DisputeKind::Initiate, 10)))
        .unwrap();
    accounts
        .transact(client_tx(2, Transaction::dispute(DisputeKind::Chargeback, 10)))
        .unwrap();
    let account = accounts.get(2).unwrap();
    assert_eq!(account.balance(), amount(0.0));
    assert_eq!(account.held(), amount(0.0));
    assert!(account.is_frozen());
    accounts
        .transact(client_tx(2, Transaction::deposit(11, amount(5.0))))
        .unwrap();
    assert_eq!(
        accounts.transact(client_tx(2, Transaction::withdrawal(12, amount(1.0)))),
        Err(TransactionError::AccountFrozen)
    );
    assert_eq!(accounts.get(2).unwrap().balance(), amount(5.0));
}

#[test]
fn accounts_are_created_on_first_reference() {
    let mut accounts = Accounts::default();
    assert!(accounts.get(7).is_none());
    assert_eq!(
        accounts.transact(client_tx(7, Transaction::withdrawal(1, amount(1.0)))),
        Err(TransactionError::InsufficientFunds {
            current: amount(0.0),
            requested: amount(1.0),
        })
    );
    let account = accounts.get(7).unwrap();
    assert_eq!(account.total(), amount(0.0));
    assert!(accounts.get(8).is_none());
}

#[test]
fn accounts_iter_lists_each_client_once() {
    let mut accounts = Accounts::default();
    accounts
        .transact(client_tx(3, Transaction::deposit(1, amount(3.0))))
        .unwrap();
    accounts
        .transact(client_tx(1, Transaction::deposit(2, amount(1.0))))
        .unwrap();
    accounts
        .transact(client_tx(3, Transaction::deposit(3, amount(4.0))))
        .unwrap();
    let mut listed: Vec<(u16, Amount)> = accounts
        .iter()
        .into_iter()
        .map(|(id, account)| (id, account.total()))
        .collect();
    listed.sort_by_key(|(id, _)| *id);
    assert_eq!(listed, vec![(1, amount(1.0)), (3, amount(7.0))]);
}

#[test]
fn transaction_ids_are_per_account() {
    let mut accounts = Accounts::default();
    accounts
        .transact(client_tx(1, Transaction::deposit(1, amount(1.0))))
        .unwrap();
    accounts
        .transact(client_tx(2, Transaction::deposit(1, amount(2.0))))
        .unwrap();
    assert_eq!(accounts.get(2).unwrap().total(), amount(2.0));
}

#[test]
fn fits_detects_overflow() {
    let mut account = Account::default();
    let big = Transaction::deposit(1, Amount(i64::MAX));
    assert!(account.fits(big));
    account.transact(big).unwrap();
    assert!(!account.fits(Transaction::deposit(2, Amount(1))));
    // a transaction that would fail changes nothing, so it always fits
    assert!(account.fits(Transaction::deposit(1, Amount(1))));
    let mut accounts = Accounts::default();
    accounts.transact(client_tx(4, big)).unwrap();
    assert!(!accounts.fits(client_tx(4, Transaction::deposit(2, Amount(1)))));
    assert!(accounts.fits(client_tx(5, Transaction::deposit(2, Amount(1)))));
}
