//! Wallet ledger and remittance transaction engine.
//!
//! The engine keeps one balance per wallet, in the smallest unit of the
//! settlement asset, and an append-mostly log of transaction records. Every
//! balance change happens together with the terminal write of a record, so a
//! wallet's balance is always the sum of what its records have applied.
//!
//! - `rates`: the rate converter, a snapshot of published fixed-point rates.
//! - `ledger`: the wallet store and the transaction log, with their invariant.
//! - `engine`: the orchestrator that runs transfers, deposits and payouts.
//! - `sdk`: Stellar key handling and wallet bookkeeping.
//! - `users`: account payloads and their validation.
//! - `requests`: movement requests, their minimum amounts and currency defaults.

mod engine;
mod ledger;
mod rates;
mod requests;
mod sdk;
mod users;

pub use engine::{
    as_finalized, conversion_of, quote_of, rail_outcome, Direction, PaymentInstruction, SettlementOutcome,
    WalletService, SETTLEMENT_ASSET,
};
pub use ledger::{
    applies, balance_delta, completed_sum, create_pending_post, credit_leg, debit_leg,
    finalize_post, finalized, has_reservation, held, held_sum, law_balance_is_completed_sum,
    law_debits_accumulate, law_debits_serialize, law_inert_records_hold_nothing,
    law_finalize_keeps_terms, law_finalized_is_terminal, law_transfer_legs_share_fate,
    lemma_newest_first_ordered, newest_first, newest_ordered, pending_record, reserve_post,
    reserved_total, stamp, transfer_post, wf_parts, Counterparty, FailReason,
    Ledger, LedgerError, Outcome, Quote, Transaction, TxStatus, Wallet,
};
pub use rates::{
    code_of, convert, converted, latest_rate, quoted_rate, Currency, Rate, RateEntry, RateError,
    RateTable, RATE_SCALE,
};
pub use requests::{
    CreateTransaction, DepositRequest, TransferRequest, WithdrawRequest, MIN_DEPOSIT, MIN_MOVEMENT,
};
pub use sdk::{
    entries_map, hex_digit, ids_unique, lemma_entries_map_update, hex_of, horizon_of, is_key, lemma_pair_keys, pair_from, public_of, AccountBalance,
    Balance, NovaPayWallet, PaymentResult, SendPaymentRequest, SmsService, StellarAccount,
    StellarService, WalletBalanceResponse, WalletConfig, WalletCreateRequest,
    WalletCreateResponse, WalletError, WalletManager, WalletSDKService,
};
pub use users::{valid_email, Claims, CreateUser, LoginUser, UpdateUserProfile, UserResponse};
