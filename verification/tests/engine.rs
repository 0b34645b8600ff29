use bankex::classify::classify_transactions;
use bankex::ledger::InMemoryLedger;
use bankex::{Ledger, LedgerError, Transaction, TransactionType};

// Amounts are counts of ten-thousandths of a currency unit: 1.0 == 10_000.

fn deposit(client: u16, tx: u32, amount: u64) -> Transaction {
    Transaction {
        transaction_type: TransactionType::Deposit,
        client: Some(client),
        tx: Some(tx),
        amount: Some(amount),
    }
}

fn withdrawal(client: u16, tx: u32, amount: u64) -> Transaction {
    Transaction {
        transaction_type: TransactionType::Withdrawal,
        client: Some(client),
        tx: Some(tx),
        amount: Some(amount),
    }
}

fn dispute(client: u16, tx: u32) -> Transaction {
    Transaction {
        transaction_type: TransactionType::Dispute,
        client: Some(client),
        tx: Some(tx),
        amount: None,
    }
}

fn resolve(client: u16, tx: u32) -> Transaction {
    Transaction {
        transaction_type: TransactionType::Resolve,
        client: Some(client),
        tx: Some(tx),
        amount: None,
    }
}

fn chargeback(client: u16, tx: u32) -> Transaction {
    Transaction {
        transaction_type: TransactionType::Chargeback,
        client: Some(client),
        tx: Some(tx),
        amount: None,
    }
}

fn replay(records: Vec<Transaction>) -> InMemoryLedger {
    let (movements, disputes, resolves, chargebacks) =
        classify_transactions(&records).expect("classification should succeed");
    let mut ledger = InMemoryLedger::default();
    ledger
        .read_transactions(&movements, &disputes, &resolves, &chargebacks)
        .expect("replay should succeed");
    ledger
}

#[test]
fn scenario_two_clients_with_withdrawals() {
    let ledger = replay(vec![
        deposit(1, 1, 10_000),
        deposit(2, 2, 20_000),
        deposit(1, 3, 20_000),
        withdrawal(1, 4, 15_000),
        withdrawal(2, 5, 30_000),
    ]);
    assert_eq!(ledger.get_funds_available(1), Some(15_000));
    assert_eq!(ledger.get_funds_held(1), Some(0));
    assert_eq!(ledger.get_funds_total(1), Some(15_000));
    // Client 2's withdrawal exceeds the available funds and is skipped.
    assert_eq!(ledger.get_funds_available(2), Some(20_000));
    assert_eq!(ledger.get_funds_held(2), Some(0));
    assert_eq!(ledger.get_funds_total(2), Some(20_000));
    let rows = ledger.snapshot();
    assert_eq!(rows.len(), 2);
    assert!(rows.iter().all(|row| !row.locked));
}

#[test]
fn scenario_dispute_holds_funds() {
    let ledger = replay(vec![deposit(1, 1, 50_000), dispute(1, 1)]);
    assert_eq!(ledger.get_funds_available(1), Some(0));
    assert_eq!(ledger.get_funds_held(1), Some(50_000));
    assert_eq!(ledger.get_funds_total(1), Some(50_000));
}

#[test]
fn scenario_resolve_returns_funds() {
    let ledger = replay(vec![deposit(1, 1, 50_000), dispute(1, 1), resolve(1, 1)]);
    assert_eq!(ledger.get_funds_available(1), Some(50_000));
    assert_eq!(ledger.get_funds_held(1), Some(0));
    assert_eq!(ledger.get_funds_total(1), Some(50_000));
}

#[test]
fn scenario_chargeback_gated_on_available() {
    // After the dispute all funds are held, so the chargeback's
    // amount-vs-available check fails: a silent no-op, account unlocked.
    let ledger = replay(vec![deposit(1, 1, 50_000), dispute(1, 1), chargeback(1, 1)]);
    assert_eq!(ledger.get_funds_available(1), Some(0));
    assert_eq!(ledger.get_funds_held(1), Some(50_000));
    assert_eq!(ledger.get_funds_total(1), Some(50_000));
    let rows = ledger.snapshot();
    assert_eq!(rows.len(), 1);
    assert!(!rows[0].locked);
}

#[test]
fn duplicate_deposit_rejected() {
    let mut ledger = InMemoryLedger::default();
    assert_eq!(ledger.process_transaction(&deposit(1, 1, 10_000)), Ok(()));
    assert_eq!(
        ledger.process_transaction(&deposit(1, 1, 20_000)),
        Err(LedgerError::DuplicateTransaction)
    );
    assert_eq!(ledger.get_funds_available(1), Some(10_000));
}

#[test]
fn duplicate_withdrawal_rejected_by_handler() {
    let mut ledger = InMemoryLedger::default();
    assert_eq!(ledger.process_deposit(&deposit(1, 1, 10_000)), Ok(()));
    assert_eq!(
        ledger.process_withdrawal(&withdrawal(1, 1, 5_000)),
        Err(LedgerError::DuplicateTransaction)
    );
    assert_eq!(ledger.get_funds_available(1), Some(10_000));
}

#[test]
fn lock_freezes_account() {
    let mut ledger = InMemoryLedger::default();
    assert_eq!(ledger.process_transaction(&deposit(1, 1, 50_000)), Ok(()));
    // All funds are available, so this chargeback applies and locks.
    assert_eq!(ledger.process_transaction(&chargeback(1, 1)), Ok(()));
    let rows = ledger.snapshot();
    assert!(rows[0].locked);
    assert_eq!(ledger.get_funds_available(1), Some(0));
    // Every later record for this client reports success and changes nothing.
    assert_eq!(ledger.process_transaction(&deposit(1, 2, 10_000)), Ok(()));
    assert_eq!(ledger.process_transaction(&withdrawal(1, 3, 1_000)), Ok(()));
    assert_eq!(ledger.process_transaction(&dispute(1, 1)), Ok(()));
    assert_eq!(ledger.process_transaction(&resolve(1, 1)), Ok(()));
    assert_eq!(ledger.process_transaction(&chargeback(1, 1)), Ok(()));
    assert_eq!(ledger.get_funds_available(1), Some(0));
    assert_eq!(ledger.get_funds_held(1), Some(0));
    let rows = ledger.snapshot();
    assert_eq!(rows.len(), 1);
    assert!(rows[0].locked);
}

#[test]
fn replay_processes_movements_in_ascending_tx_order() {
    // Arrival order: deposit tx=5 before withdrawal tx=3. Ascending id
    // order runs the withdrawal first, against an account that does not
    // exist yet, so it is skipped and the deposit stands whole.
    let ledger = replay(vec![deposit(1, 5, 20_000), withdrawal(1, 3, 10_000)]);
    assert_eq!(ledger.get_funds_available(1), Some(20_000));
}

#[test]
fn replay_is_deterministic() {
    let records = vec![
        deposit(1, 5, 20_000),
        deposit(2, 2, 12_345),
        withdrawal(1, 3, 10_000),
        deposit(1, 7, 5_000),
        dispute(1, 5),
        resolve(1, 5),
        dispute(2, 2),
        chargeback(2, 2),
    ];
    let first = replay(records.clone());
    let second = replay(records);
    assert_eq!(first.snapshot(), second.snapshot());
    assert_eq!(first.get_all_client_ids(), second.get_all_client_ids());
}

#[test]
fn missing_client_id_is_a_hard_error() {
    let mut ledger = InMemoryLedger::default();
    let record = Transaction {
        transaction_type: TransactionType::Deposit,
        client: None,
        tx: Some(1),
        amount: Some(10_000),
    };
    assert_eq!(
        ledger.process_transaction(&record),
        Err(LedgerError::MissingClientId)
    );
}

#[test]
fn amount_on_dispute_is_illegal_state() {
    let mut ledger = InMemoryLedger::default();
    let record = Transaction {
        transaction_type: TransactionType::Dispute,
        client: Some(1),
        tx: Some(1),
        amount: Some(10_000),
    };
    assert_eq!(
        ledger.process_transaction(&record),
        Err(LedgerError::IllegalState)
    );
}

#[test]
fn missing_amount_on_deposit_is_illegal_state() {
    let mut ledger = InMemoryLedger::default();
    let record = Transaction {
        transaction_type: TransactionType::Deposit,
        client: Some(1),
        tx: Some(1),
        amount: None,
    };
    assert_eq!(
        ledger.process_transaction(&record),
        Err(LedgerError::IllegalState)
    );
}

#[test]
fn withdrawal_without_funds_is_insufficient() {
    let mut ledger = InMemoryLedger::default();
    assert_eq!(
        ledger.process_withdrawal(&withdrawal(1, 1, 10_000)),
        Err(LedgerError::InsufficientFunds)
    );
    assert_eq!(ledger.process_deposit(&deposit(1, 2, 5_000)), Ok(()));
    assert_eq!(
        ledger.process_withdrawal(&withdrawal(1, 3, 10_000)),
        Err(LedgerError::InsufficientFunds)
    );
    assert_eq!(ledger.get_funds_available(1), Some(5_000));
}

#[test]
fn failed_withdrawal_still_occupies_its_id() {
    let mut ledger = InMemoryLedger::default();
    assert_eq!(ledger.process_transaction(&deposit(1, 1, 50_000)), Ok(()));
    // The withdrawal fails on funds but its id is recorded first.
    assert_eq!(ledger.process_transaction(&withdrawal(1, 2, 100_000)), Ok(()));
    assert_eq!(ledger.get_funds_available(1), Some(50_000));
    assert_eq!(
        ledger.process_transaction(&deposit(1, 2, 10_000)),
        Err(LedgerError::DuplicateTransaction)
    );
    // The recorded-but-unfunded movement is a legitimate dispute target,
    // though its amount exceeds the available funds, so nothing moves.
    assert_eq!(ledger.process_transaction(&dispute(1, 2)), Ok(()));
    assert_eq!(ledger.get_funds_available(1), Some(50_000));
    assert_eq!(ledger.get_funds_held(1), Some(0));
}

#[test]
fn dispute_unknown_reference_is_a_no_op() {
    let mut ledger = InMemoryLedger::default();
    assert_eq!(ledger.process_transaction(&deposit(1, 1, 10_000)), Ok(()));
    assert_eq!(ledger.process_transaction(&dispute(1, 99)), Ok(()));
    assert_eq!(ledger.get_funds_available(1), Some(10_000));
    assert_eq!(ledger.get_funds_held(1), Some(0));
}

#[test]
fn dispute_wrong_client_is_a_no_op() {
    let mut ledger = InMemoryLedger::default();
    assert_eq!(ledger.process_transaction(&deposit(1, 1, 10_000)), Ok(()));
    assert_eq!(ledger.process_transaction(&dispute(2, 1)), Ok(()));
    assert_eq!(ledger.get_funds_available(1), Some(10_000));
    assert_eq!(ledger.get_funds_held(1), Some(0));
}

#[test]
fn dispute_beyond_available_is_a_no_op() {
    let mut ledger = InMemoryLedger::default();
    assert_eq!(ledger.process_transaction(&deposit(1, 1, 50_000)), Ok(()));
    assert_eq!(ledger.process_transaction(&withdrawal(1, 2, 30_000)), Ok(()));
    // The deposit's amount (5.0) now exceeds the available 2.0.
    assert_eq!(ledger.process_transaction(&dispute(1, 1)), Ok(()));
    assert_eq!(ledger.get_funds_available(1), Some(20_000));
    assert_eq!(ledger.get_funds_held(1), Some(0));
}

#[test]
fn resolve_without_held_funds_is_a_no_op() {
    let mut ledger = InMemoryLedger::default();
    assert_eq!(ledger.process_transaction(&deposit(1, 1, 50_000)), Ok(()));
    assert_eq!(ledger.process_transaction(&resolve(1, 1)), Ok(()));
    assert_eq!(ledger.get_funds_available(1), Some(50_000));
    assert_eq!(ledger.get_funds_held(1), Some(0));
}

#[test]
fn getters_on_unseen_client() {
    let ledger = InMemoryLedger::default();
    assert_eq!(ledger.get_funds_available(1), None);
    assert_eq!(ledger.get_funds_held(1), None);
    assert_eq!(ledger.get_funds_total(1), None);
    assert_eq!(ledger.get_all_client_ids(), Vec::<u16>::new());
    assert!(ledger.snapshot().is_empty());
}

#[test]
fn client_ids_in_creation_order() {
    let mut ledger = InMemoryLedger::default();
    assert_eq!(ledger.process_transaction(&deposit(9, 1, 100)), Ok(()));
    assert_eq!(ledger.process_transaction(&deposit(3, 2, 200)), Ok(()));
    assert_eq!(ledger.process_transaction(&deposit(9, 3, 300)), Ok(()));
    assert_eq!(ledger.get_all_client_ids(), vec![9, 3]);
    let rows = ledger.snapshot();
    assert_eq!(rows.len(), 2);
    assert_eq!(rows[0].client, 9);
    assert_eq!(rows[0].available, 400);
    assert_eq!(rows[1].client, 3);
    assert_eq!(rows[1].available, 200);
}

#[test]
fn dispute_resolve_round_trip_is_exact() {
    let mut ledger = InMemoryLedger::default();
    assert_eq!(ledger.process_transaction(&deposit(1, 1, 12_345)), Ok(()));
    assert_eq!(ledger.process_transaction(&deposit(1, 2, 7)), Ok(()));
    let before = ledger.snapshot();
    assert_eq!(ledger.process_transaction(&dispute(1, 1)), Ok(()));
    assert_eq!(ledger.process_transaction(&resolve(1, 1)), Ok(()));
    assert_eq!(ledger.snapshot(), before);
}
