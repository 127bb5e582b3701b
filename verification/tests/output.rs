use payments::amount::Amount;
use payments::output::CsvWriter;
use payments::transaction::{Account, ClientId};

fn account(client: u16, available: i64, held: i64, total: i64, locked: bool) -> Account {
    Account {
        client: ClientId(client),
        available: Amount::from_minor(available),
        held: Amount::from_minor(held),
        total: Amount::from_minor(total),
        locked,
    }
}

#[test]
fn starts_with_the_header() {
    let writer = CsvWriter::new();
    assert_eq!(writer.out, "client,available,held,total,locked\n");
}

#[test]
fn writes_whole_unit_rows() {
    let mut writer = CsvWriter::new();
    writer.write(&account(1, 100000, 0, 100000, false));
    assert_eq!(
        writer.out,
        "client,available,held,total,locked\n1,10,0,10,false\n"
    );
}

#[test]
fn writes_fractions_without_trailing_zeros() {
    let mut writer = CsvWriter::new();
    writer.write(&account(42, 15000, 10, 15010, false));
    assert_eq!(
        writer.out,
        "client,available,held,total,locked\n42,1.5,0.001,1.501,false\n"
    );
}

#[test]
fn writes_negative_balances_and_locks() {
    let mut writer = CsvWriter::new();
    writer.write(&account(7, -1000000, 0, -1000000, true));
    assert_eq!(
        writer.out,
        "client,available,held,total,locked\n7,-100,0,-100,true\n"
    );
}

#[test]
fn writes_one_row_per_account() {
    let mut writer = CsvWriter::new();
    writer.write(&account(1, 20001, 0, 20001, false));
    writer.write(&account(2, 0, 5000, 5000, true));
    assert_eq!(
        writer.out,
        "client,available,held,total,locked\n1,2.0001,0,2.0001,false\n2,0,0.5,0.5,true\n"
    );
}
