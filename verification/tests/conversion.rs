use payments::amount::Amount;
use payments::transaction::{
    record_kind, to_transaction, ClientId, ConvertError, RecordKind, TransactionId,
    TransactionOperation,
};

#[test]
fn converts_deposits_and_withdrawals() {
    let t = to_transaction("deposit", 1, 7, Some("1.5")).unwrap();
    assert_eq!(t.client, ClientId(1));
    assert_eq!(t.id, TransactionId(7));
    assert_eq!(t.operation, TransactionOperation::Deposit(Amount::from_minor(15000)));

    let t = to_transaction("withdrawal", 2, 8, Some("100")).unwrap();
    assert_eq!(t.operation, TransactionOperation::Withdrawal(Amount::from_units(100)));
}

#[test]
fn converts_settlements_without_amounts() {
    let t = to_transaction("dispute", 1, 7, None).unwrap();
    assert_eq!(t.operation, TransactionOperation::Dispute);
    let t = to_transaction("resolve", 1, 7, None).unwrap();
    assert_eq!(t.operation, TransactionOperation::Resolve);
    let t = to_transaction("chargeback", 1, 7, None).unwrap();
    assert_eq!(t.operation, TransactionOperation::Chargeback);
    // A spurious amount on a settlement record is ignored.
    let t = to_transaction("dispute", 1, 7, Some("3")).unwrap();
    assert_eq!(t.operation, TransactionOperation::Dispute);
}

#[test]
fn matches_kinds_case_insensitively() {
    assert_eq!(record_kind("DePoSiT"), Some(RecordKind::Deposit));
    assert_eq!(record_kind("WITHDRAWAL"), Some(RecordKind::Withdrawal));
    assert_eq!(record_kind("Resolve"), Some(RecordKind::Resolve));
    assert_eq!(record_kind("transfer"), None);
    assert_eq!(record_kind(""), None);

    let t = to_transaction("Chargeback", 1, 7, None).unwrap();
    assert_eq!(t.operation, TransactionOperation::Chargeback);
}

#[test]
fn reports_unknown_kinds() {
    assert_eq!(to_transaction("transfer", 1, 1, None), Err(ConvertError::UnknownKind));
}

#[test]
fn reports_missing_amounts() {
    assert_eq!(to_transaction("deposit", 1, 1, None), Err(ConvertError::MissingAmount));
    assert_eq!(to_transaction("withdrawal", 1, 1, None), Err(ConvertError::MissingAmount));
}

#[test]
fn reports_invalid_amounts() {
    assert_eq!(to_transaction("deposit", 1, 1, Some("ten")), Err(ConvertError::InvalidAmount));
    assert_eq!(to_transaction("withdrawal", 1, 1, Some("1.23456")), Err(ConvertError::InvalidAmount));
}
