use novapay::{
    Counterparty, Currency, Direction, FailReason, LedgerError, Rate, RateTable,
    SettlementOutcome, Transaction, TxStatus, WalletService, RATE_SCALE,
};

fn service() -> WalletService {
    WalletService::new(RateTable::new())
}

fn open(s: &mut WalletService, owner: &str) -> u64 {
    s.create_wallet(owner.to_string(), 1).unwrap()
}

fn fund(s: &mut WalletService, wallet: u64, amount: u64) {
    let id = s
        .deposit_from_mpesa(wallet, amount, Currency::Xlm, "mpesa".to_string(), 2)
        .unwrap();
    s.process_payment(id, SettlementOutcome::Confirmed("dep-ref".to_string()), 3)
        .unwrap();
}

fn completed_sum(history: &[Transaction]) -> i128 {
    history
        .iter()
        .filter(|t| t.status == TxStatus::Completed)
        .map(|t| t.amount as i128)
        .sum()
}

#[test]
fn transfer_scenario_moves_two_hundred() {
    let mut s = service();
    let a = open(&mut s, "alice");
    fund(&mut s, a, 500);
    let b = open(&mut s, "bob");
    assert_eq!(s.get_wallet_balance(b), Ok(0));
    let c = s.transfer_to_wallet(a, b, 200, Currency::Xlm, 10).unwrap();
    assert_eq!(s.get_wallet_balance(a), Ok(300));
    assert_eq!(s.get_wallet_balance(b), Ok(200));
    let legs: Vec<&Transaction> = (0..4u64)
        .filter_map(|i| s.ledger().record(i))
        .filter(|t| t.correlation == Some(c))
        .collect();
    assert_eq!(legs.len(), 2);
    assert!(legs.iter().all(|t| t.status == TxStatus::Completed));
    assert_eq!(legs[0].amount, -200);
    assert_eq!(legs[1].amount, 200);
    assert!(matches!(legs[0].counterparty, Counterparty::Wallet(w) if w == b));
}

#[test]
fn concurrent_debits_one_succeeds() {
    let mut s = service();
    let w = open(&mut s, "carol");
    fund(&mut s, w, 100);
    let first = s.withdraw_to_mpesa(w, 60, Currency::Xlm, "0700".to_string(), 5);
    let second = s.withdraw_to_mpesa(w, 60, Currency::Xlm, "0700".to_string(), 5);
    assert!(first.is_ok());
    assert_eq!(second, Err(LedgerError::InsufficientFunds));
    s.process_payment(first.unwrap(), SettlementOutcome::Confirmed("pay-1".to_string()), 6)
        .unwrap();
    assert_eq!(s.get_wallet_balance(w), Ok(40));
    let history = s.get_user_transactions(w);
    let completed = history.iter().filter(|t| t.amount == -60 && t.status == TxStatus::Completed).count();
    let failed = history
        .iter()
        .filter(|t| {
            t.amount == -60
                && t.status == TxStatus::Failed
                && matches!(t.failure, Some(FailReason::InsufficientFunds))
        })
        .count();
    assert_eq!((completed, failed), (1, 1));
}

#[test]
fn concurrent_transfers_one_succeeds() {
    let mut s = service();
    let w = open(&mut s, "dan");
    let x = open(&mut s, "erin");
    fund(&mut s, w, 100);
    assert!(s.transfer_to_wallet(w, x, 60, Currency::Xlm, 7).is_ok());
    assert_eq!(
        s.transfer_to_wallet(w, x, 60, Currency::Xlm, 7),
        Err(LedgerError::InsufficientFunds)
    );
    assert_eq!(s.get_wallet_balance(w), Ok(40));
    assert_eq!(s.get_wallet_balance(x), Ok(60));
}

#[test]
fn failed_transfer_legs_both_fail() {
    let mut s = service();
    let w = open(&mut s, "fay");
    let x = open(&mut s, "gus");
    fund(&mut s, w, 10);
    assert_eq!(
        s.transfer_to_wallet(w, x, 11, Currency::Xlm, 8),
        Err(LedgerError::InsufficientFunds)
    );
    let legs: Vec<&Transaction> = (0..3u64)
        .filter_map(|i| s.ledger().record(i))
        .filter(|t| t.correlation.is_some())
        .collect();
    assert_eq!(legs.len(), 2);
    assert_eq!(legs[0].correlation, legs[1].correlation);
    assert!(legs.iter().all(|t| t.status == TxStatus::Failed));
    assert_eq!(s.get_wallet_balance(w), Ok(10));
    assert_eq!(s.get_wallet_balance(x), Ok(0));
}

#[test]
fn finalize_twice_is_rejected() {
    let mut s = service();
    let w = open(&mut s, "hal");
    let id = s
        .deposit_from_mpesa(w, 70, Currency::Xlm, "src".to_string(), 2)
        .unwrap();
    s.process_payment(id, SettlementOutcome::Confirmed("r1".to_string()), 3)
        .unwrap();
    assert_eq!(s.get_wallet_balance(w), Ok(70));
    assert_eq!(
        s.process_payment(id, SettlementOutcome::Confirmed("r2".to_string()), 4),
        Err(LedgerError::InvalidTransition)
    );
    assert_eq!(
        s.process_payment(id, SettlementOutcome::Rejected("late".to_string()), 4),
        Err(LedgerError::InvalidTransition)
    );
    assert_eq!(
        s.process_payment(id, SettlementOutcome::Ambiguous, 4),
        Err(LedgerError::InvalidTransition)
    );
    assert_eq!(
        s.process_payment(99, SettlementOutcome::Ambiguous, 4),
        Err(LedgerError::NotFound)
    );
    assert_eq!(s.get_wallet_balance(w), Ok(70));
    let rec = s.ledger().record(id).unwrap();
    assert_eq!(rec.status, TxStatus::Completed);
    assert_eq!(rec.settlement_ref.as_deref(), Some("r1"));
    assert_eq!(rec.completed_at, Some(3));
}

#[test]
fn quoted_rate_is_fixed_at_creation() {
    let mut s = service();
    s.publish_rate(Currency::Kes, Currency::Xlm, 10_000);
    let w = open(&mut s, "ida");
    let id = s
        .deposit_from_mpesa(w, 12_000, Currency::Kes, "mpesa".to_string(), 2)
        .unwrap();
    s.publish_rate(Currency::Kes, Currency::Xlm, 20_000);
    s.process_payment(id, SettlementOutcome::Confirmed("x".to_string()), 3)
        .unwrap();
    assert_eq!(s.get_wallet_balance(w), Ok(120));
    let rec = s.ledger().record(id).unwrap();
    assert_eq!(rec.quote.rate, Rate { num: 10_000, den: RATE_SCALE });
    assert_eq!(rec.quote.from_currency, Currency::Kes);
    assert_eq!(rec.quote.to_currency, Currency::Xlm);
}

#[test]
fn rejected_deposit_leaves_balance() {
    let mut s = service();
    let w = open(&mut s, "jon");
    fund(&mut s, w, 25);
    let id = s
        .deposit_from_mpesa(w, 40, Currency::Xlm, "mpesa".to_string(), 4)
        .unwrap();
    assert_eq!(
        s.process_payment(id, SettlementOutcome::Rejected("card declined".to_string()), 5),
        Err(LedgerError::RailRejected)
    );
    assert_eq!(s.get_wallet_balance(w), Ok(25));
    let failed: Vec<Transaction> = s
        .get_user_transactions(w)
        .into_iter()
        .filter(|t| t.status == TxStatus::Failed)
        .collect();
    assert_eq!(failed.len(), 1);
    assert!(matches!(&failed[0].failure, Some(FailReason::Rejected(r)) if r == "card declined"));
}

#[test]
fn payout_beyond_balance_fails_at_once() {
    let mut s = service();
    let w = open(&mut s, "kim");
    fund(&mut s, w, 30);
    assert_eq!(
        s.withdraw_to_mpesa(w, 50, Currency::Xlm, "0711".to_string(), 6),
        Err(LedgerError::InsufficientFunds)
    );
    assert_eq!(s.get_wallet_balance(w), Ok(30));
    let history = s.get_user_transactions(w);
    assert_eq!(history.len(), 2);
    assert_eq!(history[0].status, TxStatus::Failed);
    assert_eq!(history[0].amount, -50);
    assert!(!history[0].reserved);
}

#[test]
fn rejected_payout_returns_reserved_debit() {
    let mut s = service();
    let w = open(&mut s, "lee");
    fund(&mut s, w, 90);
    let id = s
        .withdraw_to_mpesa(w, 40, Currency::Xlm, "0722".to_string(), 6)
        .unwrap();
    assert_eq!(s.get_wallet_balance(w), Ok(50));
    let ins = s.instruction(id).unwrap();
    assert_eq!(ins.direction, Direction::Payout);
    assert_eq!(ins.amount, 40);
    assert_eq!(ins.wallet, w);
    assert_eq!(
        s.process_payment(id, SettlementOutcome::Rejected("no such number".to_string()), 7),
        Err(LedgerError::RailRejected)
    );
    let rec = s.ledger().record(id).unwrap();
    assert_eq!(rec.status, TxStatus::Failed);
    assert!(matches!(&rec.failure, Some(FailReason::Rejected(r)) if r == "no such number"));
    assert_eq!(s.get_wallet_balance(w), Ok(90));
    assert_eq!(s.instruction(id), None);
}

#[test]
fn ambiguous_answer_keeps_record_pending() {
    let mut s = service();
    let w = open(&mut s, "max");
    let id = s
        .deposit_from_mpesa(w, 15, Currency::Xlm, "mpesa".to_string(), 2)
        .unwrap();
    assert_eq!(
        s.process_payment(id, SettlementOutcome::Ambiguous, 3),
        Err(LedgerError::RailAmbiguous)
    );
    assert_eq!(s.ledger().record(id).unwrap().status, TxStatus::Pending);
    assert_eq!(s.get_wallet_balance(w), Ok(0));
    let ins = s.instruction(id).unwrap();
    assert_eq!(ins.direction, Direction::Deposit);
    assert_eq!(ins.amount, 15);
}

#[test]
fn balance_equals_completed_sum() {
    let mut s = service();
    let a = open(&mut s, "ned");
    let b = open(&mut s, "oli");
    fund(&mut s, a, 400);
    s.transfer_to_wallet(a, b, 150, Currency::Xlm, 3).unwrap();
    let _ = s.transfer_to_wallet(b, a, 1_000, Currency::Xlm, 3);
    let p = s.withdraw_to_mpesa(a, 20, Currency::Xlm, "0733".to_string(), 4).unwrap();
    s.process_payment(p, SettlementOutcome::Confirmed("ok".to_string()), 5).unwrap();
    let q = s.withdraw_to_mpesa(b, 30, Currency::Xlm, "0733".to_string(), 4).unwrap();
    assert_eq!(
        s.process_payment(q, SettlementOutcome::Rejected("no".to_string()), 5),
        Err(LedgerError::RailRejected)
    );
    let _pending = s.deposit_from_mpesa(b, 999, Currency::Xlm, "m".to_string(), 6).unwrap();
    for w in [a, b] {
        let history = s.get_user_transactions(w);
        assert_eq!(s.get_wallet_balance(w).unwrap() as i128, completed_sum(&history));
    }
    assert_eq!(s.get_wallet_balance(a), Ok(230));
    assert_eq!(s.get_wallet_balance(b), Ok(150));
}

#[test]
fn history_is_newest_first() {
    let mut s = service();
    let a = open(&mut s, "pat");
    fund(&mut s, a, 5);
    fund(&mut s, a, 6);
    let h = s.get_user_transactions(a);
    assert_eq!(h.len(), 2);
    assert_eq!(h[0].amount, 6);
    assert_eq!(h[1].amount, 5);
    assert!(h[0].id > h[1].id);
}

#[test]
fn invalid_requests_change_nothing() {
    let mut s = service();
    let a = open(&mut s, "quin");
    let b = open(&mut s, "rae");
    fund(&mut s, a, 50);
    assert_eq!(s.transfer_to_wallet(a, b, 0, Currency::Xlm, 1), Err(LedgerError::InvalidRequest));
    assert_eq!(s.transfer_to_wallet(a, a, 5, Currency::Xlm, 1), Err(LedgerError::InvalidRequest));
    assert_eq!(s.transfer_to_wallet(a, 9, 5, Currency::Xlm, 1), Err(LedgerError::NotFound));
    assert_eq!(
        s.transfer_to_wallet(a, b, 5, Currency::Usd, 1),
        Err(LedgerError::UnsupportedCurrencyPair)
    );
    assert_eq!(
        s.withdraw_to_mpesa(7, 5, Currency::Xlm, "x".to_string(), 1),
        Err(LedgerError::NotFound)
    );
    assert_eq!(
        s.deposit_from_mpesa(a, 0, Currency::Xlm, "x".to_string(), 1),
        Err(LedgerError::InvalidRequest)
    );
    assert_eq!(s.get_user_transactions(a).len(), 1);
    assert_eq!(s.get_wallet_balance(a), Ok(50));
    assert_eq!(s.get_wallet_balance(5), Err(LedgerError::NotFound));
}

#[test]
fn one_wallet_per_owner() {
    let mut s = service();
    assert_eq!(s.create_wallet("sam".to_string(), 1), Ok(0));
    assert_eq!(s.create_wallet("tia".to_string(), 1), Ok(1));
    assert_eq!(s.create_wallet("sam".to_string(), 2), Err(LedgerError::AlreadyExists));
    assert_eq!(s.ledger().wallet(1).unwrap().owner, "tia");
    assert_eq!(s.ledger().wallet_of(&"sam".to_string()), Some(0));
    assert_eq!(s.ledger().wallet_of(&"uma".to_string()), None);
}

#[test]
fn identity_rate_for_same_currency() {
    let s = service();
    assert_eq!(s.rates().rate(Currency::Kes, Currency::Kes), Ok(Rate { num: 1, den: 1 }));
}

#[test]
fn history_pages_restart_from_last_id() {
    let mut s = service();
    let a = open(&mut s, "vic");
    let b = open(&mut s, "wes");
    for k in 1..=5u64 {
        fund(&mut s, a, k);
        fund(&mut s, b, 10 * k);
    }
    let first = s.get_user_transactions_page(a, u64::MAX, 2);
    assert_eq!(first.iter().map(|t| t.amount).collect::<Vec<_>>(), vec![5, 4]);
    let next = s.get_user_transactions_page(a, first[1].id, 2);
    assert_eq!(next.iter().map(|t| t.amount).collect::<Vec<_>>(), vec![3, 2]);
    let last = s.get_user_transactions_page(a, next[1].id, 2);
    assert_eq!(last.iter().map(|t| t.amount).collect::<Vec<_>>(), vec![1]);
    assert!(s.get_user_transactions_page(a, last[0].id, 2).is_empty());
    assert!(s.get_user_transactions_page(a, u64::MAX, 0).is_empty());
}

#[test]
fn creation_times_never_go_back() {
    let mut s = service();
    let a = open(&mut s, "xan");
    s.deposit_from_mpesa(a, 1, Currency::Xlm, "m".to_string(), 50).unwrap();
    s.deposit_from_mpesa(a, 2, Currency::Xlm, "m".to_string(), 40).unwrap();
    s.deposit_from_mpesa(a, 3, Currency::Xlm, "m".to_string(), 60).unwrap();
    let h = s.get_user_transactions(a);
    let times: Vec<u64> = h.iter().map(|t| t.created_at).collect();
    assert_eq!(times, vec![60, 50, 50]);
    assert_eq!(h.iter().map(|t| t.amount).collect::<Vec<_>>(), vec![3, 2, 1]);
}
