use vstd::prelude::*;
use crate::ledger::{
    finalize_post, finalized, newest_ordered, pending_record, stamp, transfer_post, Counterparty, FailReason, Ledger,
    LedgerError, Outcome, Quote, Transaction, TxStatus, Wallet, newest_first,
};
use crate::rates::{convert, converted, quoted_rate, Currency, RateEntry, RateTable};

verus! {

/// The asset that wallet balances are held in.
pub const SETTLEMENT_ASSET: Currency = Currency::Xlm;

#[derive(PartialEq, Eq, Structural, Clone, Copy, Debug)]
pub enum Direction {
    Deposit,
    Payout,
}

/// What a settlement rail answers to a payment instruction.
pub enum SettlementOutcome {
    Confirmed(String),
    Rejected(String),
    Ambiguous,
}

/// What the settlement rail is asked to do for a pending external movement.
#[derive(PartialEq, Eq, Structural, Clone, Copy, Debug)]
pub struct PaymentInstruction {
    pub direction: Direction,
    pub wallet: u64,
    pub amount: u64,
    pub asset: Currency,
}

/// The terminal state a rail answer settles a record with; none for an ambiguous answer,
/// which leaves the record pending for reconciliation.
pub open spec fn rail_outcome(o: SettlementOutcome) -> Option<Outcome> {
    match o {
        SettlementOutcome::Confirmed(r) => Some(Outcome::Completed(Some(r))),
        SettlementOutcome::Rejected(reason) => Some(Outcome::Failed(FailReason::Rejected(reason))),
        SettlementOutcome::Ambiguous => None,
    }
}

/// What finalizing returned, given what settling a rejection returned: the rejection is
/// reported as `RailRejected` where finalizing succeeded.
pub open spec fn as_finalized(r: Result<(), LedgerError>) -> Result<(), LedgerError> {
    if r == Err::<(), LedgerError>(LedgerError::RailRejected) {
        Ok(())
    } else {
        r
    }
}

/// The settlement amount and the quote fixed for moving `amount` units of `currency`
/// under the published rates `table`.
pub open spec fn quote_of(table: Seq<RateEntry>, currency: Currency, amount: u64) -> Result<
    (u64, Quote),
    LedgerError,
> {
    match quoted_rate(table, currency, SETTLEMENT_ASSET) {
        None => Err(LedgerError::UnsupportedCurrencyPair),
        Some(q) => {
            let a = converted(amount as nat, q);
            if a == 0 || a > i64::MAX {
                Err(LedgerError::InvalidRequest)
            } else {
                Ok(
                    (
                        a as u64,
                        Quote { from_currency: currency, to_currency: SETTLEMENT_ASSET, rate: q },
                    ),
                )
            }
        },
    }
}

/// `amount` units of `from` expressed in `to` under the published rates `table`.
pub open spec fn conversion_of(table: Seq<RateEntry>, from: Currency, to: Currency, amount: u64)
    -> Result<u64, LedgerError> {
    match quoted_rate(table, from, to) {
        None => Err(LedgerError::UnsupportedCurrencyPair),
        Some(q) => if converted(amount as nat, q) > u64::MAX {
            Err(LedgerError::InvalidRequest)
        } else {
            Ok(converted(amount as nat, q) as u64)
        },
    }
}

/// The transfer orchestrator: it holds the ledger and the rate snapshot, and runs every
/// value movement so that balances change only together with a record's terminal state.
pub struct WalletService {
    ledger: Ledger,
    rates: RateTable,
}

impl WalletService {
    pub closed spec fn book(&self) -> Ledger {
        self.ledger
    }

    pub closed spec fn table(&self) -> RateTable {
        self.rates
    }

    pub open spec fn wf(&self) -> bool {
        self.book().wf() && self.table().wf()
    }

    /// A service with no wallets and the rate snapshot `rates`.
    pub fn new(rates: RateTable) -> (s: WalletService)
        requires
            rates.wf(),
        ensures
            s.wf(),
            s.table() == rates,
            s.book().wallets() == Seq::<Wallet>::empty(),
            s.book().records() == Seq::<Transaction>::empty(),
    {
        WalletService { ledger: Ledger::new(), rates }
    }

    pub fn ledger(&self) -> (r: &Ledger)
        ensures
            *r == self.book(),
    {
        &self.ledger
    }

    pub fn rates(&self) -> (r: &RateTable)
        ensures
            *r == self.table(),
    {
        &self.rates
    }

    /// Publishes a new rate. Records already created keep the rate they were quoted at.
    pub fn publish_rate(&mut self, from: Currency, to: Currency, rate: u64)
        requires
            old(self).wf(),
            rate > 0,
        ensures
            final(self).wf(),
            final(self).book() == old(self).book(),
            final(self).table()@ == old(self).table()@.push(RateEntry { from, to, rate }),
    {
        self.rates.publish(from, to, rate);
    }

    /// Opens the wallet of `owner`; an owner holds at most one.
    pub fn create_wallet(&mut self, owner: String, now: u64) -> (r: Result<u64, LedgerError>)
        requires
            old(self).wf(),
        ensures
            final(self).wf(),
            final(self).table() == old(self).table(),
            ({
                let ws = old(self).book().wallets();
                &&& (exists|i: int| 0 <= i < ws.len() && (#[trigger] ws[i]).owner@ == owner@)
                    ==> r == Err::<u64, LedgerError>(LedgerError::AlreadyExists)
                    && final(self).book() == old(self).book()
                &&& (forall|i: int| 0 <= i < ws.len() ==> (#[trigger] ws[i]).owner@ != owner@)
                    ==> r == Ok::<u64, LedgerError>(ws.len() as u64)
                    && final(self).book().wallets() == ws.push(
                    (Wallet { id: ws.len() as u64, owner, balance: 0, created_at: now }),
                ) && final(self).book().records() == old(self).book().records()
            }),
    {
        self.ledger.create_wallet(owner, now)
    }

    /// The balance of wallet `wallet`, read from the wallet store.
    pub fn get_wallet_balance(&self, wallet: u64) -> (r: Result<u64, LedgerError>)
        requires
            self.wf(),
        ensures
            wallet < self.book().wallets().len() ==> r == Ok::<u64, LedgerError>(
                self.book().wallets()[wallet as int].balance,
            ),
            wallet >= self.book().wallets().len() ==> r == Err::<u64, LedgerError>(
                LedgerError::NotFound,
            ),
    {
        self.ledger.get_balance(wallet)
    }

    /// The records of wallet `wallet`, newest first.
    pub fn get_user_transactions(&self, wallet: u64) -> (r: Vec<Transaction>)
        requires
            self.wf(),
        ensures
            r@ == newest_first(self.book().records(), wallet),
            newest_ordered(r@),
    {
        self.ledger.list_for_wallet(wallet)
    }

    /// One page of the records of wallet `wallet`, newest first: at most `limit` of those
    /// created before record `before`.
    pub fn get_user_transactions_page(&self, wallet: u64, before: u64, limit: usize) -> (r: Vec<
        Transaction,
    >)
        requires
            self.wf(),
        ensures
            newest_ordered(r@),
            ({
                let rs = self.book().records();
                let end = if before < rs.len() {
                    before as int
                } else {
                    rs.len() as int
                };
                let all = newest_first(rs.subrange(0, end), wallet);
                r@ == if all.len() <= limit {
                    all
                } else {
                    all.take(limit as int)
                }
            }),
    {
        self.ledger.list_page(wallet, before, limit)
    }

    /// The settlement amount and quote for moving `amount` units of `currency`.
    pub fn quote(&self, currency: Currency, amount: u64) -> (r: Result<(u64, Quote), LedgerError>)
        requires
            self.wf(),
        ensures
            r == quote_of(self.table()@, currency, amount),
    {
        match self.rates.rate(currency, SETTLEMENT_ASSET) {
            Err(_) => Err(LedgerError::UnsupportedCurrencyPair),
            Ok(q) => match convert(amount, q) {
                None => Err(LedgerError::InvalidRequest),
                Some(a) => {
                    if a == 0 || a > i64::MAX as u64 {
                        Err(LedgerError::InvalidRequest)
                    } else {
                        let quote = Quote {
                            from_currency: currency,
                            to_currency: SETTLEMENT_ASSET,
                            rate: q,
                        };
                        Ok((a, quote))
                    }
                },
            },
        }
    }

    /// `amount` units of `from` expressed in `to`, rounded down.
    pub fn convert(&self, amount: u64, from: Currency, to: Currency) -> (r: Result<
        u64,
        LedgerError,
    >)
        requires
            self.wf(),
        ensures
            r == conversion_of(self.table()@, from, to, amount),
    {
        match self.rates.rate(from, to) {
            Err(_) => Err(LedgerError::UnsupportedCurrencyPair),
            Ok(q) => match convert(amount, q) {
                None => Err(LedgerError::InvalidRequest),
                Some(a) => Ok(a),
            },
        }
    }

    /// A settlement-asset amount expressed in Kenyan shillings.
    pub fn convert_xlm_to_kes(&self, amount: u64) -> (r: Result<u64, LedgerError>)
        requires
            self.wf(),
        ensures
            r == conversion_of(self.table()@, Currency::Xlm, Currency::Kes, amount),
    {
        self.convert(amount, Currency::Xlm, Currency::Kes)
    }

    /// A Kenyan shilling amount expressed in the settlement asset.
    pub fn convert_kes_to_xlm(&self, amount: u64) -> (r: Result<u64, LedgerError>)
        requires
            self.wf(),
        ensures
            r == conversion_of(self.table()@, Currency::Kes, Currency::Xlm, amount),
    {
        self.convert(amount, Currency::Kes, Currency::Xlm)
    }

    /// Moves `amount` units of `currency` from wallet `from` to wallet `to`, converted to
    /// the settlement asset at the rate published now, as one all-or-nothing transfer.
    /// Returns the correlation id shared by its two records.
    pub fn transfer_to_wallet(
        &mut self,
        from: u64,
        to: u64,
        amount: u64,
        currency: Currency,
        now: u64,
    ) -> (r: Result<u64, LedgerError>)
        requires
            old(self).wf(),
        ensures
            final(self).wf(),
            final(self).table() == old(self).table(),
            (amount == 0 || from == to) ==> r == Err::<u64, LedgerError>(
                LedgerError::InvalidRequest,
            )
                && final(self).book() == old(self).book(),
            !(amount == 0 || from == to) ==> match quote_of(old(self).table()@, currency, amount) {
                Err(e) => r == Err::<u64, LedgerError>(e) && final(self).book() == old(self).book(),
                Ok((a, q)) => transfer_post(
                    old(self).book(),
                    final(self).book(),
                    from,
                    to,
                    a,
                    q,
                    now,
                    r,
                ),
            },
    {
        if amount == 0 || from == to {
            return Err(LedgerError::InvalidRequest);
        }
        match self.quote(currency, amount) {
            Err(e) => Err(e),
            Ok((a, q)) => self.ledger.transfer(from, to, a, q, now),
        }
    }

    /// Opens a payout of `amount` units of `currency` from wallet `wallet` to the outside
    /// `destination`. The debit is reserved at once, ahead of the rail; a wallet that
    /// cannot cover it gets a record that fails at once, and its balance is not touched.
    /// Returns the id of the pending record to hand to the rail.
    pub fn withdraw_to_mpesa(
        &mut self,
        wallet: u64,
        amount: u64,
        currency: Currency,
        destination: String,
        now: u64,
    ) -> (r: Result<u64, LedgerError>)
        requires
            old(self).wf(),
        ensures
            final(self).wf(),
            final(self).table() == old(self).table(),
            match quote_of(old(self).table()@, currency, amount) {
                Err(e) => r == Err::<u64, LedgerError>(e) && final(self).book() == old(self).book(),
                Ok((a, q)) => {
                    let ws = old(self).book().wallets();
                    let rs = old(self).book().records();
                    let rec = pending_record(
                        rs.len() as u64,
                        wallet,
                        Counterparty::External(destination),
                        -a as i64,
                        q,
                        None,
                        stamp(rs, now),
                    );
                    &&& wallet >= ws.len() ==> r == Err::<u64, LedgerError>(LedgerError::NotFound)
                        && final(self).book() == old(self).book()
                    &&& (wallet < ws.len() && ws[wallet as int].balance < a) ==> r == Err::<
                        u64,
                        LedgerError,
                    >(LedgerError::InsufficientFunds) && final(self).book().wallets() == ws
                        && final(self).book().records() == rs.push(
                        finalized(rec, Outcome::Failed(FailReason::InsufficientFunds), now),
                    )
                    &&& (wallet < ws.len() && ws[wallet as int].balance >= a) ==> r == Ok::<
                        u64,
                        LedgerError,
                    >(rs.len() as u64) && final(self).book().records() == rs.push(
                        Transaction { reserved: true, ..rec },
                    ) && final(self).book().wallets() == ws.update(
                        wallet as int,
                        Wallet {
                            balance: (ws[wallet as int].balance - a) as u64,
                            ..ws[wallet as int]
                        },
                    )
                },
            },
    {
        let (a, q) = match self.quote(currency, amount) {
            Err(e) => {
                return Err(e);
            },
            Ok(p) => p,
        };
        let id = match self.ledger.create_pending(
            wallet,
            Counterparty::External(destination),
            -(a as i64),
            q,
            now,
        ) {
            Err(e) => {
                return Err(e);
            },
            Ok(id) => id,
        };
        match self.ledger.reserve(id) {
            Ok(_) => Ok(id),
            Err(_) => {
                let _ = self.ledger.finalize(
                    id,
                    Outcome::Failed(FailReason::InsufficientFunds),
                    now,
                );
                Err(LedgerError::InsufficientFunds)
            },
        }
    }

    /// Opens a deposit of `amount` units of `currency` into wallet `wallet` from the
    /// outside `source`. Nothing is credited before the rail confirms. Returns the id of
    /// the pending record to hand to the rail.
    pub fn deposit_from_mpesa(
        &mut self,
        wallet: u64,
        amount: u64,
        currency: Currency,
        source: String,
        now: u64,
    ) -> (r: Result<u64, LedgerError>)
        requires
            old(self).wf(),
        ensures
            final(self).wf(),
            final(self).table() == old(self).table(),
            match quote_of(old(self).table()@, currency, amount) {
                Err(e) => r == Err::<u64, LedgerError>(e) && final(self).book() == old(self).book(),
                Ok((a, q)) => {
                    let ws = old(self).book().wallets();
                    let rs = old(self).book().records();
                    &&& wallet >= ws.len() ==> r == Err::<u64, LedgerError>(LedgerError::NotFound)
                        && final(self).book() == old(self).book()
                    &&& wallet < ws.len() ==> r == Ok::<u64, LedgerError>(rs.len() as u64)
                        && final(self).book().wallets() == ws && final(self).book().records()
                        == rs.push(
                        pending_record(
                            rs.len() as u64,
                            wallet,
                            Counterparty::External(source),
                            a as i64,
                            q,
                            None,
                            stamp(rs, now),
                        ),
                    )
                },
            },
    {
        let (a, q) = match self.quote(currency, amount) {
            Err(e) => {
                return Err(e);
            },
            Ok(p) => p,
        };
        self.ledger.create_pending(wallet, Counterparty::External(source), a as i64, q, now)
    }

    /// The instruction for the rail that pending external record `id` stands for.
    pub fn instruction(&self, id: u64) -> (r: Option<PaymentInstruction>)
        requires
            self.wf(),
        ensures
            ({
                let rs = self.book().records();
                if id < rs.len() && rs[id as int].status == TxStatus::Pending
                    && rs[id as int].counterparty is External {
                    let rec = rs[id as int];
                    r == Some(
                        PaymentInstruction {
                            direction: if rec.amount < 0 {
                                Direction::Payout
                            } else {
                                Direction::Deposit
                            },
                            wallet: rec.wallet,
                            amount: (if rec.amount < 0 {
                                -rec.amount
                            } else {
                                rec.amount as int
                            }) as u64,
                            asset: SETTLEMENT_ASSET,
                        },
                    )
                } else {
                    r is None
                }
            }),
    {
        match self.ledger.record(id) {
            None => None,
            Some(rec) => {
                if rec.status != TxStatus::Pending {
                    return None;
                }
                match &rec.counterparty {
                    Counterparty::External(_) => {
                        let (direction, amount) = if rec.amount < 0 {
                            (Direction::Payout, (-(rec.amount as i128)) as u64)
                        } else {
                            (Direction::Deposit, rec.amount as u64)
                        };
                        Some(
                            PaymentInstruction {
                                direction,
                                wallet: rec.wallet,
                                amount,
                                asset: SETTLEMENT_ASSET,
                            },
                        )
                    },
                    _ => None,
                }
            },
        }
    }

    /// Settles pending external record `id` with the rail's answer. A confirmation completes
    /// it with the rail's reference. A rejection fails it with the rail's reason, returns a
    /// reserved debit, and is reported as `RailRejected`. An ambiguous answer changes nothing
    /// and is reported as `RailAmbiguous`. A record that is missing or no longer pending is
    /// refused first, whatever the answer. The record settles at the amount fixed when it was
    /// created, whatever rates are published since.
    pub fn process_payment(&mut self, id: u64, outcome: SettlementOutcome, now: u64) -> (r: Result<
        (),
        LedgerError,
    >)
        requires
            old(self).wf(),
        ensures
            final(self).wf(),
            final(self).table() == old(self).table(),
            id >= old(self).book().records().len() ==> r == Err::<(), LedgerError>(
                LedgerError::NotFound,
            ) && final(self).book() == old(self).book(),
            id < old(self).book().records().len() && old(self).book().records()[id as int].status
                != TxStatus::Pending ==> r == Err::<(), LedgerError>(LedgerError::InvalidTransition)
                && final(self).book() == old(self).book(),
            id < old(self).book().records().len() && old(self).book().records()[id as int].status
                == TxStatus::Pending ==> match rail_outcome(outcome) {
                None => r == Err::<(), LedgerError>(LedgerError::RailAmbiguous)
                    && final(self).book() == old(self).book(),
                Some(o) => match o {
                    Outcome::Completed(_) => finalize_post(
                        old(self).book(),
                        final(self).book(),
                        id,
                        o,
                        now,
                        r,
                    ),
                    Outcome::Failed(_) => r != Ok::<(), LedgerError>(()) && finalize_post(
                        old(self).book(),
                        final(self).book(),
                        id,
                        o,
                        now,
                        as_finalized(r),
                    ),
                },
            },
    {
        match self.ledger.record(id) {
            None => {
                return Err(LedgerError::NotFound);
            },
            Some(rec) => {
                if rec.status != TxStatus::Pending {
                    return Err(LedgerError::InvalidTransition);
                }
            },
        }
        match outcome {
            SettlementOutcome::Confirmed(reference) => self.ledger.finalize(
                id,
                Outcome::Completed(Some(reference)),
                now,
            ),
            SettlementOutcome::Rejected(reason) => {
                match self.ledger.finalize(id, Outcome::Failed(FailReason::Rejected(reason)), now) {
                    Ok(()) => Err(LedgerError::RailRejected),
                    Err(e) => Err(e),
                }
            },
            SettlementOutcome::Ambiguous => Err(LedgerError::RailAmbiguous),
        }
    }
}

} // verus!
