use rs_accountant::amount::Amount;
use rs_accountant::engine::{
    Account, DisputeStatus, InputTransaction, PaymentEngine, TransactionType,
};
use rust_decimal::Decimal;
use std::str::FromStr;

fn dec(s: &str) -> Decimal {
    Decimal::from_str(s).unwrap()
}

fn amount(s: &str) -> Amount {
    let d = dec(s);
    Amount { mantissa: d.mantissa(), scale: d.scale() }
}

fn value(a: Amount) -> Decimal {
    Decimal::from_i128_with_scale(a.mantissa, a.scale)
}

#[test]
fn test_deposit() {
    let mut engine = PaymentEngine::new();
    let tx = InputTransaction {
        transaction_type: TransactionType::Deposit,
        client_id: 1,
        tx_id: 1,
        amount: Some(amount("100.0")),
    };
    engine.handle_deposit(tx);

    let account = engine.accounts.get(&1).unwrap();
    assert_eq!(value(account.available), dec("100.0"));
    assert_eq!(value(account.held), dec("0.0"));
    assert_eq!(value(account.total().unwrap()), dec("100.0"));
    assert!(!account.locked);

    let stored_tx = engine.transactions.get(&1).unwrap();
    assert_eq!(value(stored_tx.amount), dec("100.0"));
}

#[test]
fn test_withdrawal_success() {
    let mut engine = PaymentEngine::new();
    let deposit_tx = InputTransaction {
        transaction_type: TransactionType::Deposit,
        client_id: 1,
        tx_id: 1,
        amount: Some(amount("100.0")),
    };
    engine.handle_deposit(deposit_tx);

    let withdrawal_tx = InputTransaction {
        transaction_type: TransactionType::Withdrawal,
        client_id: 1,
        tx_id: 2,
        amount: Some(amount("50.0")),
    };
    engine.handle_withdrawal(withdrawal_tx);

    let account = engine.accounts.get(&1).unwrap();
    assert_eq!(value(account.available), dec("50.0"));
    assert_eq!(value(account.total().unwrap()), dec("50.0"));
}

#[test]
fn test_withdrawal_insufficient_funds() {
    let mut engine = PaymentEngine::new();
    let deposit_tx = InputTransaction {
        transaction_type: TransactionType::Deposit,
        client_id: 1,
        tx_id: 1,
        amount: Some(amount("100.0")),
    };
    engine.handle_deposit(deposit_tx);

    let withdrawal_tx = InputTransaction {
        transaction_type: TransactionType::Withdrawal,
        client_id: 1,
        tx_id: 2,
        amount: Some(amount("150.0")),
    };
    engine.handle_withdrawal(withdrawal_tx);

    let account = engine.accounts.get(&1).unwrap();
    assert_eq!(value(account.available), dec("100.0")); // Unchanged
}

#[test]
fn test_dispute_resolve_cycle() {
    let mut engine = PaymentEngine::new();
    let deposit_tx = InputTransaction {
        transaction_type: TransactionType::Deposit,
        client_id: 1,
        tx_id: 1,
        amount: Some(amount("100.0")),
    };
    engine.handle_deposit(deposit_tx);

    let dispute_tx = InputTransaction {
        transaction_type: TransactionType::Dispute,
        client_id: 1,
        tx_id: 1,
        amount: None,
    };
    engine.handle_dispute(dispute_tx);

    let account = engine.accounts.get(&1).unwrap();
    assert_eq!(value(account.available), dec("0.0"));
    assert_eq!(value(account.held), dec("100.0"));
    assert_eq!(value(account.total().unwrap()), dec("100.0"));
    assert_eq!(engine.transactions.get(&1).unwrap().dispute_status, DisputeStatus::Disputed);

    let resolve_tx = InputTransaction {
        transaction_type: TransactionType::Resolve,
        client_id: 1,
        tx_id: 1,
        amount: None,
    };
    engine.handle_resolve(resolve_tx);

    let account = engine.accounts.get(&1).unwrap();
    assert_eq!(value(account.available), dec("100.0"));
    assert_eq!(value(account.held), dec("0.0"));
    assert_eq!(value(account.total().unwrap()), dec("100.0"));
    assert_eq!(engine.transactions.get(&1).unwrap().dispute_status, DisputeStatus::Resolved);
}

#[test]
fn test_dispute_chargeback_cycle() {
    let mut engine = PaymentEngine::new();
    let deposit_tx = InputTransaction {
        transaction_type: TransactionType::Deposit,
        client_id: 1,
        tx_id: 1,
        amount: Some(amount("100.0")),
    };
    engine.handle_deposit(deposit_tx);

    let dispute_tx = InputTransaction {
        transaction_type: TransactionType::Dispute,
        client_id: 1,
        tx_id: 1,
        amount: None,
    };
    engine.handle_dispute(dispute_tx);

    let account = engine.accounts.get(&1).unwrap();
    assert_eq!(value(account.held), dec("100.0"));

    let chargeback_tx = InputTransaction {
        transaction_type: TransactionType::Chargeback,
        client_id: 1,
        tx_id: 1,
        amount: None,
    };
    engine.handle_chargeback(chargeback_tx);

    let account = engine.accounts.get(&1).unwrap();
    assert_eq!(value(account.available), dec("0.0"));
    assert_eq!(value(account.held), dec("0.0"));
    assert_eq!(value(account.total().unwrap()), dec("0.0"));
    assert!(account.locked);
    assert_eq!(engine.transactions.get(&1).unwrap().dispute_status, DisputeStatus::ChargedBack);
}

#[test]
fn test_locked_account_withdrawal() {
    let mut engine = PaymentEngine::new();
    engine.accounts.insert(
        1,
        Account { id: 1, available: amount("100.0"), held: amount("0.0"), locked: true },
    );

    let withdrawal_tx = InputTransaction {
        transaction_type: TransactionType::Withdrawal,
        client_id: 1,
        tx_id: 1,
        amount: Some(amount("50.0")),
    };
    engine.handle_withdrawal(withdrawal_tx);

    let account = engine.accounts.get(&1).unwrap();
    assert_eq!(value(account.available), dec("100.0")); // Unchanged
}

#[test]
fn test_locked_account_deposit() {
    let mut engine = PaymentEngine::new();
    engine.accounts.insert(
        1,
        Account { id: 1, available: amount("100.0"), held: amount("0.0"), locked: true },
    );

    let deposit_tx = InputTransaction {
        transaction_type: TransactionType::Deposit,
        client_id: 1,
        tx_id: 1,
        amount: Some(amount("50.0")),
    };
    engine.handle_deposit(deposit_tx);

    let account = engine.accounts.get(&1).unwrap();
    assert_eq!(value(account.available), dec("100.0")); // Unchanged, deposits to locked accounts are blocked
}

#[test]
fn test_re_dispute_resolved_transaction() {
    let mut engine = PaymentEngine::new();

    let deposit_tx = InputTransaction {
        transaction_type: TransactionType::Deposit,
        client_id: 1,
        tx_id: 1,
        amount: Some(amount("100.0")),
    };
    engine.handle_deposit(deposit_tx);

    let dispute_tx = InputTransaction {
        transaction_type: TransactionType::Dispute,
        client_id: 1,
        tx_id: 1,
        amount: None,
    };
    engine.handle_dispute(dispute_tx);

    let resolve_tx = InputTransaction {
        transaction_type: TransactionType::Resolve,
        client_id: 1,
        tx_id: 1,
        amount: None,
    };
    engine.handle_resolve(resolve_tx);

    assert_eq!(engine.transactions.get(&1).unwrap().dispute_status, DisputeStatus::Resolved);
    let account = engine.accounts.get(&1).unwrap();
    assert_eq!(value(account.available), dec("100.0"));
    assert_eq!(value(account.held), dec("0.0"));

    // A resolved transaction may be disputed again.
    let dispute_tx2 = InputTransaction {
        transaction_type: TransactionType::Dispute,
        client_id: 1,
        tx_id: 1,
        amount: None,
    };
    engine.handle_dispute(dispute_tx2);

    assert_eq!(engine.transactions.get(&1).unwrap().dispute_status, DisputeStatus::Disputed);
    let account = engine.accounts.get(&1).unwrap();
    assert_eq!(value(account.available), dec("0.0"));
    assert_eq!(value(account.held), dec("100.0"));
}

#[test]
fn test_cannot_dispute_charged_back_transaction() {
    let mut engine = PaymentEngine::new();

    let deposit_tx = InputTransaction {
        transaction_type: TransactionType::Deposit,
        client_id: 1,
        tx_id: 1,
        amount: Some(amount("100.0")),
    };
    engine.handle_deposit(deposit_tx);

    let dispute_tx = InputTransaction {
        transaction_type: TransactionType::Dispute,
        client_id: 1,
        tx_id: 1,
        amount: None,
    };
    engine.handle_dispute(dispute_tx);

    let chargeback_tx = InputTransaction {
        transaction_type: TransactionType::Chargeback,
        client_id: 1,
        tx_id: 1,
        amount: None,
    };
    engine.handle_chargeback(chargeback_tx);

    assert_eq!(engine.transactions.get(&1).unwrap().dispute_status, DisputeStatus::ChargedBack);
    let account = engine.accounts.get(&1).unwrap();
    assert!(account.locked);
    assert_eq!(value(account.available), dec("0.0"));
    assert_eq!(value(account.held), dec("0.0"));

    // A charged-back transaction cannot be disputed again.
    let dispute_tx2 = InputTransaction {
        transaction_type: TransactionType::Dispute,
        client_id: 1,
        tx_id: 1,
        amount: None,
    };
    engine.handle_dispute(dispute_tx2);

    assert_eq!(engine.transactions.get(&1).unwrap().dispute_status, DisputeStatus::ChargedBack);
    let account = engine.accounts.get(&1).unwrap();
    assert!(account.locked);
    assert_eq!(value(account.available), dec("0.0"));
    assert_eq!(value(account.held), dec("0.0"));
}

#[test]
fn test_dispute_with_insufficient_funds_creates_negative_balance() {
    let mut engine = PaymentEngine::new();

    let deposit_tx = InputTransaction {
        transaction_type: TransactionType::Deposit,
        client_id: 1,
        tx_id: 1,
        amount: Some(amount("100.0")),
    };
    engine.handle_deposit(deposit_tx);

    let withdrawal_tx = InputTransaction {
        transaction_type: TransactionType::Withdrawal,
        client_id: 1,
        tx_id: 2,
        amount: Some(amount("80.0")),
    };
    engine.handle_withdrawal(withdrawal_tx);

    let account = engine.accounts.get(&1).unwrap();
    assert_eq!(value(account.available), dec("20.0"));
    assert_eq!(value(account.held), dec("0.0"));
    assert_eq!(value(account.total().unwrap()), dec("20.0"));

    // Disputing the deposit is allowed with only 20 available: available goes negative.
    let dispute_tx = InputTransaction {
        transaction_type: TransactionType::Dispute,
        client_id: 1,
        tx_id: 1,
        amount: None,
    };
    engine.handle_dispute(dispute_tx);

    let account = engine.accounts.get(&1).unwrap();
    assert_eq!(value(account.available), dec("-80.0")); // 20 - 100 = -80
    assert_eq!(value(account.held), dec("100.0"));
    assert_eq!(value(account.total().unwrap()), dec("20.0"));
    assert_eq!(engine.transactions.get(&1).unwrap().dispute_status, DisputeStatus::Disputed);
}
