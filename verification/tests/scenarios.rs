use payments::amount::Amount;
use payments::transaction::engine::TransactionEngine;
use payments::transaction::{ClientId, Transaction, TransactionId, TransactionOperation};

fn deposit(engine: &mut TransactionEngine, client: u16, tx: u32, units: i64) {
    engine.process(Transaction {
        client: ClientId(client),
        id: TransactionId(tx),
        operation: TransactionOperation::Deposit(Amount::from_units(units)),
    });
}

fn withdraw(engine: &mut TransactionEngine, client: u16, tx: u32, units: i64) {
    engine.process(Transaction {
        client: ClientId(client),
        id: TransactionId(tx),
        operation: TransactionOperation::Withdrawal(Amount::from_units(units)),
    });
}

fn refer(
    engine: &mut TransactionEngine,
    client: u16,
    tx: u32,
    operation: TransactionOperation,
) -> Option<payments::transaction::Account> {
    engine.process(Transaction { client: ClientId(client), id: TransactionId(tx), operation })
}

#[test]
fn chargeback_locks_account() {
    let mut engine = TransactionEngine::new();
    deposit(&mut engine, 1, 1, 100);
    withdraw(&mut engine, 1, 2, 100);
    refer(&mut engine, 1, 2, TransactionOperation::Dispute);

    let before = engine.account_of(ClientId(1)).unwrap();
    assert_eq!(before.held, Amount::from_units(100));
    assert_eq!(before.total, Amount::zero());

    let account = refer(&mut engine, 1, 2, TransactionOperation::Chargeback).unwrap();
    assert!(account.locked);
    // Held and total each drop by the disputed amount.
    assert_eq!(account.held, Amount::zero());
    assert_eq!(account.total, Amount::from_units(-100));
}

#[test]
fn rejected_withdrawal_occupies_id() {
    let mut engine = TransactionEngine::new();
    deposit(&mut engine, 1, 1, 100);
    // Rejected for insufficient funds, but its id still goes on record.
    withdraw(&mut engine, 1, 2, 200);
    // A later deposit reusing the id is ignored as a replay.
    deposit(&mut engine, 1, 2, 50);

    let account = engine.account_of(ClientId(1)).unwrap();
    assert_eq!(account.available, Amount::from_units(100));
    assert_eq!(account.total, Amount::from_units(100));
}

#[test]
fn replayed_withdrawal_ignored() {
    let mut engine = TransactionEngine::new();
    deposit(&mut engine, 1, 1, 100);
    withdraw(&mut engine, 1, 2, 50);
    withdraw(&mut engine, 1, 2, 50);

    let account = engine.account_of(ClientId(1)).unwrap();
    assert_eq!(account.available, Amount::from_units(50));
    assert_eq!(account.total, Amount::from_units(50));
}

#[test]
fn settlements_against_unknown_client() {
    let mut engine = TransactionEngine::new();
    deposit(&mut engine, 1, 1, 100);

    // No operation but a deposit ever creates an account.
    assert!(refer(&mut engine, 2, 1, TransactionOperation::Withdrawal(Amount::from_units(1)))
        .is_none());
    assert!(refer(&mut engine, 2, 1, TransactionOperation::Dispute).is_none());
    assert!(refer(&mut engine, 2, 1, TransactionOperation::Resolve).is_none());
    assert!(refer(&mut engine, 2, 1, TransactionOperation::Chargeback).is_none());
    assert!(engine.account_of(ClientId(2)).is_none());
}

#[test]
fn dispute_twice_is_noop() {
    let mut engine = TransactionEngine::new();
    deposit(&mut engine, 1, 1, 100);
    refer(&mut engine, 1, 1, TransactionOperation::Dispute);
    let account = refer(&mut engine, 1, 1, TransactionOperation::Dispute).unwrap();
    assert_eq!(account.held, Amount::from_units(100));
    assert_eq!(account.available, Amount::zero());
    assert_eq!(account.total, Amount::from_units(100));
}

#[test]
fn resolve_undisputed_is_noop() {
    let mut engine = TransactionEngine::new();
    deposit(&mut engine, 1, 1, 100);
    let account = refer(&mut engine, 1, 1, TransactionOperation::Resolve).unwrap();
    assert_eq!(account.held, Amount::zero());
    assert_eq!(account.available, Amount::from_units(100));
}

#[test]
fn balances_stay_consistent() {
    // total == available + held at every observation point.
    let mut engine = TransactionEngine::new();
    deposit(&mut engine, 1, 1, 100);
    withdraw(&mut engine, 1, 2, 30);
    refer(&mut engine, 1, 1, TransactionOperation::Dispute);
    refer(&mut engine, 1, 1, TransactionOperation::Resolve);
    refer(&mut engine, 1, 2, TransactionOperation::Dispute);
    let account = refer(&mut engine, 1, 2, TransactionOperation::Chargeback).unwrap();
    assert_eq!(
        account.total,
        Amount::from_minor(account.available.minor + account.held.minor)
    );
}

#[test]
fn snapshots_cover_every_account() {
    let mut engine = TransactionEngine::new();
    deposit(&mut engine, 3, 1, 10);
    deposit(&mut engine, 1, 2, 20);
    deposit(&mut engine, 2, 3, 30);
    deposit(&mut engine, 1, 4, 5);

    let mut accounts = engine.accounts();
    assert_eq!(accounts.len(), 3);
    accounts.sort_by_key(|a| a.client.0);
    assert_eq!(accounts[0].client, ClientId(1));
    assert_eq!(accounts[0].total, Amount::from_units(25));
    assert_eq!(accounts[1].client, ClientId(2));
    assert_eq!(accounts[1].total, Amount::from_units(30));
    assert_eq!(accounts[2].client, ClientId(3));
    assert_eq!(accounts[2].total, Amount::from_units(10));
}

#[test]
fn empty_engine_has_no_accounts() {
    let engine = TransactionEngine::new();
    assert!(engine.accounts().is_empty());
    assert!(engine.account_of(ClientId(1)).is_none());
}
