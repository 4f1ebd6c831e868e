use ledger_replay::account::Account;
use ledger_replay::amount::Amount;
use ledger_replay::processor::{
    find_dispute_for_transaction, process, process_file, read_disputes, try_to_fill_dispute_with_transaction,
};
use ledger_replay::transaction::{Transaction, TransactionType};
use rust_decimal::Decimal;
use std::collections::HashMap;
use std::str::FromStr;

fn amt(s: &str) -> Amount {
    let d = Decimal::from_str(s).unwrap();
    Amount::new(d.mantissa(), d.scale()).unwrap()
}

fn dec(s: &str) -> Decimal {
    Decimal::from_str(s).unwrap()
}

fn val(a: Amount) -> Decimal {
    Decimal::from_i128_with_scale(a.mantissa, a.scale)
}

fn rec(kind: TransactionType, client: u16, tx: u32, amount: Option<&str>) -> Transaction {
    Transaction { kind, client, tx, amount: amount.map(amt) }
}

fn dep(client: u16, tx: u32, amount: &str) -> Transaction {
    rec(TransactionType::Deposit, client, tx, Some(amount))
}

fn wd(client: u16, tx: u32, amount: &str) -> Transaction {
    rec(TransactionType::Withdrawal, client, tx, Some(amount))
}

fn disp(client: u16, tx: u32) -> Transaction {
    rec(TransactionType::Dispute, client, tx, None)
}

fn res(client: u16, tx: u32) -> Transaction {
    rec(TransactionType::Resolve, client, tx, None)
}

fn cb(client: u16, tx: u32) -> Transaction {
    rec(TransactionType::Chargeback, client, tx, None)
}

#[test]
fn processor_deposit() {
    let log = vec![dep(1, 1, "1.0"), dep(2, 3, "1.0"), dep(1, 2, "1.3")];
    let result = process(&log);
    let account1 = result.get(&1).unwrap();
    let account2 = result.get(&2).unwrap();
    assert_eq!(val(account1.available), dec("2.3"));
    assert_eq!(val(account2.available), dec("1.0"));
}

#[test]
fn withdrawal() {
    let log = vec![dep(1, 1, "1.0"), dep(1, 2, "1.0"), dep(2, 4, "1.0"), wd(1, 1, "1.3")];
    let result = process(&log);
    let account = result.get(&1).unwrap();
    assert_eq!(val(account.available), dec("0.7"));
}

#[test]
fn withdrawal_not_enough_credit() {
    let log = vec![dep(1, 1, "1.0"), dep(1, 2, "1.0"), wd(1, 1, "3.0")];
    let result = process(&log);
    let account = result.get(&1).unwrap();
    assert_eq!(val(account.available), dec("2.0"));
}

#[test]
fn withdrawal_different_accounts() {
    let log = vec![dep(1, 1, "1.0"), dep(2, 2, "1.0"), wd(2, 1, "0.5")];
    let result = process(&log);
    let account = result.get(&1).unwrap();
    assert_eq!(val(account.available), dec("1.0"));
}

#[test]
fn single_dispute() {
    let log = vec![dep(1, 1, "1.0"), dep(1, 2, "2.0"), disp(1, 1)];
    let result = process(&log);
    let account = result.get(&1).unwrap();
    assert_eq!(val(account.available), dec("2.0"));
    assert_eq!(val(account.held), dec("1.0"));
}

#[test]
fn dispute_unknown_transaction() {
    let log = vec![dep(1, 1, "1.0"), dep(1, 2, "2.0"), disp(1, 3)];
    let result = process(&log);
    let account = result.get(&1).unwrap();
    assert_eq!(val(account.available), dec("3.0"));
    assert_eq!(val(account.held), dec("0.0"));
}

#[test]
fn dispute_resolve() {
    let log = vec![dep(1, 1, "1.0"), dep(1, 2, "2.0"), disp(1, 1), res(1, 1)];
    let result = process(&log);
    let account = result.get(&1).unwrap();
    assert_eq!(val(account.available), dec("3.0"));
    assert_eq!(val(account.held), dec("0.0"));
    assert_eq!(account.locked, false);
}

#[test]
fn dispute_resolve_unknown() {
    let log = vec![dep(1, 1, "1.0"), dep(1, 2, "2.0"), disp(1, 1), res(1, 3)];
    let result = process(&log);
    let account = result.get(&1).unwrap();
    assert_eq!(val(account.available), dec("2.0"));
    assert_eq!(val(account.held), dec("1.0"));
    assert_eq!(account.locked, false);
}

#[test]
fn dispute_chargeback() {
    let log = vec![dep(1, 1, "1.0"), dep(1, 2, "2.0"), disp(1, 1), cb(1, 1)];
    let result = process(&log);
    let account = result.get(&1).unwrap();
    assert_eq!(val(account.available), dec("2.0"));
    assert_eq!(val(account.held), dec("0.0"));
    assert_eq!(account.locked, true);
}

#[test]
fn operations_on_locked_account() {
    let log = vec![
        dep(1, 1, "1.0"),
        dep(1, 2, "2.0"),
        disp(1, 1),
        cb(1, 1),
        dep(1, 3, "1.0"),
        wd(1, 4, "1.0"),
        disp(1, 3),
        cb(1, 4),
    ];
    let result = process(&log);
    let account = result.get(&1).unwrap();
    assert_eq!(val(account.available), dec("2.0"));
    assert_eq!(val(account.held), dec("0.0"));
    assert_eq!(account.locked, true);
}

#[test]
fn dispute_chargeback_unknown() {
    let log = vec![dep(1, 1, "1.0"), dep(1, 2, "2.0"), disp(1, 1), cb(1, 3)];
    let result = process(&log);
    let account = result.get(&1).unwrap();
    assert_eq!(val(account.available), dec("2.0"));
    assert_eq!(val(account.held), dec("1.0"));
    assert_eq!(account.locked, false);
}

#[test]
fn scenario_dispute_holds_funds() {
    let log = vec![dep(1, 1, "1.0"), dep(1, 2, "2.0"), disp(1, 1)];
    let result = process(&log);
    let account = result.get(&1).unwrap();
    assert_eq!(val(account.available), dec("2.0"));
    assert_eq!(val(account.held), dec("1.0"));
    assert_eq!(val(account.total().unwrap()), dec("3.0"));
    assert!(!account.locked);
}

#[test]
fn scenario_deposit_after_chargeback_ignored() {
    let log = vec![dep(1, 1, "1.0"), disp(1, 1), cb(1, 1), dep(1, 2, "5.0")];
    let result = process(&log);
    let account = result.get(&1).unwrap();
    assert_eq!(val(account.available), dec("0.0"));
    assert_eq!(val(account.held), dec("0.0"));
    assert!(account.locked);
}

#[test]
fn scenario_withdrawal_beyond_funds_ignored() {
    let log = vec![dep(1, 1, "1.0"), wd(1, 2, "5.0")];
    let result = process(&log);
    let account = result.get(&1).unwrap();
    assert_eq!(val(account.available), dec("1.0"));
}

#[test]
fn deposits_only_sum_exactly() {
    let log = vec![dep(4, 1, "0.1"), dep(4, 2, "0.2"), dep(4, 3, "0.0001"), dep(4, 4, "12")];
    let result = process(&log);
    assert_eq!(val(result.get(&4).unwrap().available), dec("12.3001"));
}

#[test]
fn dispute_index_keys_collapse_duplicates() {
    let log = vec![dep(1, 1, "1.0"), disp(1, 1), disp(1, 1), disp(2, 9), wd(1, 5, "0.5")];
    let first = read_disputes(&log);
    let second = read_disputes(&log);
    let mut k1: Vec<u32> = first.keys().copied().collect();
    let mut k2: Vec<u32> = second.keys().copied().collect();
    k1.sort();
    k2.sort();
    assert_eq!(k1, vec![1, 9]);
    assert_eq!(k1, k2);
    assert_eq!(first.get(&1).unwrap().kind, TransactionType::Unknown);
    assert!(first.get(&1).unwrap().amount.is_none());
}

#[test]
fn fill_binds_amount_and_lookup_finds_it() {
    let mut disputes: HashMap<u32, Transaction> = HashMap::new();
    disputes.insert(7, Transaction::default(1, 7));
    let probe = disp(1, 7);
    assert!(find_dispute_for_transaction(&probe, &disputes).is_none());
    try_to_fill_dispute_with_transaction(&dep(1, 8, "3.0"), &mut disputes);
    assert!(find_dispute_for_transaction(&probe, &disputes).is_none());
    try_to_fill_dispute_with_transaction(&dep(1, 7, "2.5"), &mut disputes);
    let found = find_dispute_for_transaction(&probe, &disputes).unwrap();
    assert_eq!(found.kind, TransactionType::Deposit);
    assert_eq!(val(found.amount.unwrap()), dec("2.5"));
}

#[test]
fn dispute_before_original_is_ignored() {
    let log = vec![disp(1, 1), dep(1, 1, "1.0")];
    let result = process(&log);
    let account = result.get(&1).unwrap();
    assert_eq!(val(account.available), dec("1.0"));
    assert_eq!(val(account.held), dec("0"));
}

#[test]
fn process_file_lists_clients_in_first_appearance_order() {
    let log = vec![dep(3, 1, "1.0"), dep(1, 2, "2.0"), dep(3, 3, "0.5"), disp(2, 9)];
    let rows: Vec<Account> = process_file(&log);
    assert_eq!(rows.len(), 3);
    assert_eq!(rows[0].id, 3);
    assert_eq!(val(rows[0].available), dec("1.5"));
    assert_eq!(rows[1].id, 1);
    assert_eq!(val(rows[1].available), dec("2.0"));
    assert_eq!(rows[2].id, 2);
    assert_eq!(val(rows[2].available), dec("0"));
}
