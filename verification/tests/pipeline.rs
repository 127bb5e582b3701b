//! A whole run through the library: raw records in, final snapshot
//! text out, with no file in between.

use payments::output::CsvWriter;
use payments::transaction::engine::TransactionEngine;
use payments::transaction::to_transaction;

#[test]
fn full_run_produces_final_snapshot() {
    let rows: &[(&str, u16, u32, Option<&str>)] = &[
        ("deposit", 1, 1, Some("1.0")),
        ("deposit", 2, 2, Some("2.0")),
        ("deposit", 1, 3, Some("2.0")),
        ("withdrawal", 1, 4, Some("1.5")),
        ("withdrawal", 2, 5, Some("3.0")),
    ];

    let mut engine = TransactionEngine::new();
    for (kind, client, tx, amount) in rows {
        let transaction = to_transaction(kind, *client, *tx, *amount).unwrap();
        engine.process(transaction);
    }

    let mut accounts = engine.accounts();
    accounts.sort_by_key(|a| a.client.0);

    let mut writer = CsvWriter::new();
    for account in &accounts {
        writer.write(account);
    }

    // Client 1 deposited 3, withdrew 1.5; client 2's withdrawal was
    // rejected for insufficient funds.
    assert_eq!(
        writer.out,
        "client,available,held,total,locked\n1,1.5,0,1.5,false\n2,2,0,2,false\n"
    );
}

#[test]
fn full_run_with_a_dispute_and_chargeback() {
    let rows: &[(&str, u16, u32, Option<&str>)] = &[
        ("deposit", 5, 1, Some("10.25")),
        ("dispute", 5, 1, None),
        ("chargeback", 5, 1, None),
    ];

    let mut engine = TransactionEngine::new();
    for (kind, client, tx, amount) in rows {
        let transaction = to_transaction(kind, *client, *tx, *amount).unwrap();
        engine.process(transaction);
    }

    let mut writer = CsvWriter::new();
    for account in &engine.accounts() {
        writer.write(account);
    }

    assert_eq!(
        writer.out,
        "client,available,held,total,locked\n5,0,0,0,true\n"
    );
}
