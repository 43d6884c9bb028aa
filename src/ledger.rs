use vstd::prelude::*;
use crate::rates::{Currency, Rate};

verus! {

/// A balance-holding account, owned by one principal. `balance` is in the settlement
/// asset's smallest unit and changes only together with a record's terminal state.
pub struct Wallet {
    pub id: u64,
    pub owner: String,
    pub balance: u64,
    pub created_at: u64,
}

/// Who is on the other side of a movement.
pub enum Counterparty {
    Email(String),
    Wallet(u64),
    External(String),
}

/// A record starts `Pending` and moves once to `Completed` or `Failed`, where it stays.
#[derive(PartialEq, Eq, Structural, Clone, Copy, Debug)]
pub enum TxStatus {
    Pending,
    Completed,
    Failed,
}

/// Why a record ended `Failed`.
pub enum FailReason {
    InsufficientFunds,
    BalanceOverflow,
    Rejected(String),
}

/// How a pending record ends.
pub enum Outcome {
    Completed(Option<String>),
    Failed(FailReason),
}

/// Why an operation was refused. Every refusal leaves the ledger as it was, except that a
/// movement refused for funds or overflow keeps its failed records.
#[derive(PartialEq, Eq, Structural, Clone, Copy, Debug)]
pub enum LedgerError {
    /// No wallet or record has that id.
    NotFound,
    /// The owner already holds a wallet.
    AlreadyExists,
    /// The debit would take the balance below zero.
    InsufficientFunds,
    /// The credit would take the balance beyond what a `u64` holds.
    BalanceOverflow,
    /// The record is not in a state that allows the change.
    InvalidTransition,
    /// The request itself is malformed: a zero or oversized amount, or a wallet paying itself.
    InvalidRequest,
    /// The log has no room for another record id.
    Full,
    /// No rate is published for the currency pair.
    UnsupportedCurrencyPair,
    /// The settlement rail's answer was ambiguous; the record stays pending.
    RailAmbiguous,
    /// The settlement rail rejected the movement; its record is failed with the rail's reason.
    RailRejected,
}

/// The conversion fixed into a record when it is created.
#[derive(PartialEq, Eq, Structural, Clone, Copy, Debug)]
pub struct Quote {
    pub from_currency: Currency,
    pub to_currency: Currency,
    pub rate: Rate,
}

/// One signed balance movement of one wallet: positive credits the owner, negative debits.
pub struct Transaction {
    pub id: u64,
    pub wallet: u64,
    pub counterparty: Counterparty,
    pub amount: i64,
    pub quote: Quote,
    /// The id shared by the two legs of a transfer; none for a single-sided movement.
    pub correlation: Option<u64>,
    /// The settlement rail's reference, once the rail confirmed.
    pub settlement_ref: Option<String>,
    pub failure: Option<FailReason>,
    pub status: TxStatus,
    /// Whether the debit was taken from the balance while the record was still pending.
    pub reserved: bool,
    pub created_at: u64,
    pub completed_at: Option<u64>,
}

fn clone_opt_string(s: &Option<String>) -> (r: Option<String>)
    ensures
        r == *s,
{
    match s {
        Some(x) => Some(x.clone()),
        None => None,
    }
}

impl Clone for Counterparty {
    fn clone(&self) -> (r: Self)
        ensures
            r == *self,
    {
        match self {
            Counterparty::Email(s) => Counterparty::Email(s.clone()),
            Counterparty::Wallet(w) => Counterparty::Wallet(*w),
            Counterparty::External(s) => Counterparty::External(s.clone()),
        }
    }
}

impl Clone for FailReason {
    fn clone(&self) -> (r: Self)
        ensures
            r == *self,
    {
        match self {
            FailReason::InsufficientFunds => FailReason::InsufficientFunds,
            FailReason::BalanceOverflow => FailReason::BalanceOverflow,
            FailReason::Rejected(s) => FailReason::Rejected(s.clone()),
        }
    }
}

impl Clone for Transaction {
    fn clone(&self) -> (r: Self)
        ensures
            r == *self,
    {
        let failure = match &self.failure {
            Some(f) => Some(f.clone()),
            None => None,
        };
        Transaction {
            id: self.id,
            wallet: self.wallet,
            counterparty: self.counterparty.clone(),
            amount: self.amount,
            quote: self.quote,
            correlation: self.correlation,
            settlement_ref: clone_opt_string(&self.settlement_ref),
            failure,
            status: self.status,
            reserved: self.reserved,
            created_at: self.created_at,
            completed_at: self.completed_at,
        }
    }
}

/// A record whose amount the wallet balance currently holds: completed, or pending with
/// its debit already reserved.
pub open spec fn applies(r: Transaction) -> bool {
    r.status == TxStatus::Completed || (r.status == TxStatus::Pending && r.reserved)
}

/// What record `r` contributes to the balance of wallet `w`.
pub open spec fn held(r: Transaction, w: u64) -> int {
    if r.wallet == w && applies(r) {
        r.amount as int
    } else {
        0
    }
}

/// The sum of what the records of `s` contribute to wallet `w`.
pub open spec fn held_sum(s: Seq<Transaction>, w: u64) -> int
    decreases s.len(),
{
    if s.len() == 0 {
        0
    } else {
        held_sum(s.drop_last(), w) + held(s.last(), w)
    }
}

/// The sum of the amounts of the completed records of wallet `w` in `s`.
pub open spec fn completed_sum(s: Seq<Transaction>, w: u64) -> int
    decreases s.len(),
{
    if s.len() == 0 {
        0
    } else {
        completed_sum(s.drop_last(), w) + (if s.last().wallet == w && s.last().status
            == TxStatus::Completed {
            s.last().amount as int
        } else {
            0
        })
    }
}

/// Whether `s` holds a pending record of wallet `w` whose debit is reserved.
pub open spec fn has_reservation(s: Seq<Transaction>, w: u64) -> bool {
    exists|i: int|
        0 <= i < s.len() && #[trigger] s[i].wallet == w && s[i].status == TxStatus::Pending
            && s[i].reserved
}

/// The records of wallet `w` in `s`, newest first.
pub open spec fn newest_first(s: Seq<Transaction>, w: u64) -> Seq<Transaction>
    decreases s.len(),
{
    if s.len() == 0 {
        Seq::empty()
    } else if s.last().wallet == w {
        seq![s.last()] + newest_first(s.drop_last(), w)
    } else {
        newest_first(s.drop_last(), w)
    }
}

pub proof fn lemma_held_sum_push(s: Seq<Transaction>, r: Transaction, w: u64)
    ensures
        held_sum(s.push(r), w) == held_sum(s, w) + held(r, w),
{
    assert(s.push(r).drop_last() =~= s);
}

pub proof fn lemma_held_sum_update(s: Seq<Transaction>, i: int, r: Transaction, w: u64)
    requires
        0 <= i < s.len(),
    ensures
        held_sum(s.update(i, r), w) == held_sum(s, w) - held(s[i], w) + held(r, w),
    decreases s.len(),
{
    let t = s.update(i, r);
    if i == s.len() - 1 {
        assert(t.drop_last() =~= s.drop_last());
    } else {
        assert(t.drop_last() =~= s.drop_last().update(i, r));
        lemma_held_sum_update(s.drop_last(), i, r, w);
    }
}

/// Where no reserved debit of `w` is pending, what the records hold for `w` is the sum of
/// its completed records.
pub proof fn lemma_held_is_completed(s: Seq<Transaction>, w: u64)
    requires
        !has_reservation(s, w),
    ensures
        held_sum(s, w) == completed_sum(s, w),
    decreases s.len(),
{
    if s.len() > 0 {
        let d = s.drop_last();
        assert(!has_reservation(d, w)) by {
            if has_reservation(d, w) {
                let i = choose|i: int|
                    0 <= i < d.len() && #[trigger] d[i].wallet == w && d[i].status
                        == TxStatus::Pending && d[i].reserved;
                assert(s[i] == d[i]);
            }
        }
        assert(s[s.len() - 1] == s.last());
        lemma_held_is_completed(d, w);
    }
}

/// A wallet that no record names holds nothing.
pub proof fn lemma_held_sum_zero(s: Seq<Transaction>, w: u64)
    requires
        forall|i: int| 0 <= i < s.len() ==> (#[trigger] s[i]).wallet < w,
    ensures
        held_sum(s, w) == 0,
    decreases s.len(),
{
    if s.len() > 0 {
        assert(s[s.len() - 1] == s.last());
        let d = s.drop_last();
        assert forall|i: int| 0 <= i < d.len() implies (#[trigger] d[i]).wallet < w by {
            assert(s.drop_last()[i] == s[i]);
        }
        lemma_held_sum_zero(s.drop_last(), w);
    }
}

/// A freshly created pending record.
pub open spec fn pending_record(
    id: u64,
    wallet: u64,
    counterparty: Counterparty,
    amount: i64,
    quote: Quote,
    correlation: Option<u64>,
    now: u64,
) -> Transaction {
    Transaction {
        id,
        wallet,
        counterparty,
        amount,
        quote,
        correlation,
        settlement_ref: None,
        failure: None,
        status: TxStatus::Pending,
        reserved: false,
        created_at: now,
        completed_at: None,
    }
}

/// Record `r` after it reaches the terminal state that `outcome` names at time `now`.
pub open spec fn finalized(r: Transaction, outcome: Outcome, now: u64) -> Transaction {
    match outcome {
        Outcome::Completed(sref) => Transaction {
            status: TxStatus::Completed,
            settlement_ref: sref,
            completed_at: Some(now),
            ..r
        },
        Outcome::Failed(reason) => Transaction {
            status: TxStatus::Failed,
            failure: Some(reason),
            completed_at: Some(now),
            ..r
        },
    }
}

/// How the owner's balance moves when pending record `r` ends as `outcome`: a completed
/// record applies its amount unless it was reserved already; a failed one returns a
/// reserved debit.
pub open spec fn balance_delta(r: Transaction, outcome: Outcome) -> int {
    match outcome {
        Outcome::Completed(_) => if r.reserved { 0 } else { r.amount as int },
        Outcome::Failed(_) => if r.reserved { -(r.amount as int) } else { 0 },
    }
}

/// The ledger's invariant: identifiers are positions, each balance is what the
/// records hold for it, one wallet per owner, and the two legs of a transfer are
/// terminal and share their fate.
pub open spec fn wf_parts(ws: Seq<Wallet>, rs: Seq<Transaction>) -> bool {
    &&& forall|i: int| 0 <= i < ws.len() ==> (#[trigger] ws[i]).id == i
    &&& forall|i: int|
        0 <= i < rs.len() ==> (#[trigger] rs[i]).id == i && rs[i].wallet < ws.len()
    &&& forall|i: int|
        0 <= i < ws.len() ==> (#[trigger] ws[i]).balance == held_sum(rs, i as u64)
    &&& forall|i: int, j: int|
        0 <= i < ws.len() && 0 <= j < ws.len() && i != j ==> (#[trigger] ws[i]).owner@
            != (#[trigger] ws[j]).owner@
    &&& forall|i: int| 0 <= i < rs.len() && (#[trigger] rs[i]).reserved ==> rs[i].amount < 0
    &&& forall|i: int|
        0 <= i < rs.len() && (#[trigger] rs[i]).correlation is Some ==> rs[i].status
            != TxStatus::Pending && rs[i].correlation->0 <= i
    &&& forall|i: int, j: int|
        0 <= i < rs.len() && 0 <= j < rs.len() && (#[trigger] rs[i]).correlation is Some
            && (#[trigger] rs[j]).correlation == rs[i].correlation ==> rs[i].status
            == rs[j].status
    &&& forall|i: int, j: int|
        0 <= i <= j < rs.len() ==> (#[trigger] rs[i]).created_at <= (#[trigger] rs[j]).created_at
}

/// The creation time given to the next record: `now`, or the newest record's time where
/// the clock reads earlier, so that creation times never decrease along the log.
pub open spec fn stamp(rs: Seq<Transaction>, now: u64) -> u64 {
    if rs.len() > 0 && rs.last().created_at > now {
        rs.last().created_at
    } else {
        now
    }
}

/// `s` ordered newest first: creation times never increase along it.
pub open spec fn newest_ordered(s: Seq<Transaction>) -> bool {
    forall|i: int, j: int|
        0 <= i <= j < s.len() ==> (#[trigger] s[i]).created_at >= (#[trigger] s[j]).created_at
}

/// No record of `newest_first(s, w)` was created after `bound` where none of `s` was.
pub proof fn lemma_newest_first_bounded(s: Seq<Transaction>, w: u64, bound: u64)
    requires
        forall|i: int| 0 <= i < s.len() ==> (#[trigger] s[i]).created_at <= bound,
    ensures
        forall|k: int|
            0 <= k < newest_first(s, w).len() ==> (#[trigger] newest_first(s, w)[k]).created_at
                <= bound,
    decreases s.len(),
{
    if s.len() > 0 {
        let d = s.drop_last();
        assert forall|i: int| 0 <= i < d.len() implies (#[trigger] d[i]).created_at <= bound by {
            assert(d[i] == s[i]);
        }
        lemma_newest_first_bounded(d, w, bound);
        assert(s[s.len() - 1] == s.last());
    }
}

/// Where creation times never decrease along `s`, the records of `w` newest first are
/// ordered by creation time, latest first.
pub proof fn lemma_newest_first_ordered(s: Seq<Transaction>, w: u64)
    requires
        forall|i: int, j: int|
            0 <= i <= j < s.len() ==> (#[trigger] s[i]).created_at <= (#[trigger] s[j]).created_at,
    ensures
        newest_ordered(newest_first(s, w)),
    decreases s.len(),
{
    if s.len() > 0 {
        let d = s.drop_last();
        assert forall|i: int, j: int| 0 <= i <= j < d.len() implies (#[trigger] d[i]).created_at
            <= (#[trigger] d[j]).created_at by {
            assert(d[i] == s[i] && d[j] == s[j]);
        }
        lemma_newest_first_ordered(d, w);
        assert forall|i: int| 0 <= i < d.len() implies (#[trigger] d[i]).created_at
            <= s.last().created_at by {
            assert(d[i] == s[i]);
            assert(s[s.len() - 1] == s.last());
        }
        lemma_newest_first_bounded(d, w, s.last().created_at);
        if s.last().wallet == w {
            let t = seq![s.last()] + newest_first(d, w);
            assert forall|i: int, j: int| 0 <= i <= j < t.len() implies (#[trigger] t[i]).created_at
                >= (#[trigger] t[j]).created_at by {
                if i > 0 {
                    assert(t[i] == newest_first(d, w)[i - 1]);
                    assert(t[j] == newest_first(d, w)[j - 1]);
                } else if j > 0 {
                    assert(t[j] == newest_first(d, w)[j - 1]);
                }
            }
        }
    }
}

/// The debit leg of a transfer whose legs share correlation id `c`, in the state `outcome` gives.
pub open spec fn debit_leg(
    c: u64,
    from: u64,
    to: u64,
    amount: u64,
    quote: Quote,
    outcome: Outcome,
    now: u64,
) -> Transaction {
    finalized(
        pending_record(c, from, Counterparty::Wallet(to), -amount as i64, quote, Some(c), now),
        outcome,
        now,
    )
}

/// The credit leg of the same transfer.
pub open spec fn credit_leg(
    c: u64,
    from: u64,
    to: u64,
    amount: u64,
    quote: Quote,
    outcome: Outcome,
    now: u64,
) -> Transaction {
    finalized(
        pending_record(
            (c + 1) as u64,
            to,
            Counterparty::Wallet(from),
            amount as i64,
            quote,
            Some(c),
            now,
        ),
        outcome,
        now,
    )
}

/// What `create_pending` does: a pending record for an existing wallet is appended.
pub open spec fn create_pending_post(
    old: Ledger,
    new: Ledger,
    wallet: u64,
    counterparty: Counterparty,
    amount: i64,
    quote: Quote,
    now: u64,
    r: Result<u64, LedgerError>,
) -> bool {
    &&& wallet >= old.wallets().len() ==> r == Err::<u64, LedgerError>(
            LedgerError::NotFound,
        ) && new == old
    &&& wallet < old.wallets().len() ==> r == Ok::<u64, LedgerError>(
            old.records().len() as u64,
        ) && new.wallets() == old.wallets() && new.records()
            == old.records().push(
            pending_record(
                old.records().len() as u64,
                wallet,
                counterparty,
                amount,
                quote,
                None,
                stamp(old.records(), now),
            ),
        )
}

/// What `reserve` does: a pending, unreserved debit leaves its wallet's balance if the
/// balance covers it; anything else is refused and changes nothing.
pub open spec fn reserve_post(old: Ledger, new: Ledger, id: u64, r: Result<u64, LedgerError>)
    -> bool {
    &&& id >= old.records().len() ==> r == Err::<u64, LedgerError>(
            LedgerError::NotFound,
        ) && new == old
    &&& id < old.records().len() ==> {
            let rec = old.records()[id as int];
            let bal = old.wallets()[rec.wallet as int].balance;
            &&& (rec.status != TxStatus::Pending || rec.reserved) ==> r == Err::<
                u64,
                LedgerError,
            >(LedgerError::InvalidTransition) && new == old
            &&& (rec.status == TxStatus::Pending && !rec.reserved && rec.amount >= 0) ==> r
                == Err::<u64, LedgerError>(LedgerError::InvalidRequest) && new == old
            &&& (rec.status == TxStatus::Pending && !rec.reserved && rec.amount < 0 && bal
                + rec.amount < 0) ==> r == Err::<u64, LedgerError>(
                LedgerError::InsufficientFunds,
            ) && new == old
            &&& (rec.status == TxStatus::Pending && !rec.reserved && rec.amount < 0 && bal
                + rec.amount >= 0) ==> r == Ok::<u64, LedgerError>((bal + rec.amount) as u64)
                && new.records() == old.records().update(
                id as int,
                Transaction { reserved: true, ..rec },
            ) && new.wallets() == old.wallets().update(
                rec.wallet as int,
                Wallet { balance: (bal + rec.amount) as u64, ..old.wallets()[rec.wallet as int] },
            )
        }
}

/// What `finalize` does: only a pending record moves, once, to a terminal state, together
/// with the balance change that state means; a terminal record is refused with nothing changed.
pub open spec fn finalize_post(
    old: Ledger,
    new: Ledger,
    id: u64,
    outcome: Outcome,
    now: u64,
    r: Result<(), LedgerError>,
) -> bool {
    &&& id >= old.records().len() ==> r == Err::<(), LedgerError>(LedgerError::NotFound)
            && new == old
    &&& id < old.records().len() ==> {
            let rec = old.records()[id as int];
            let bal = old.wallets()[rec.wallet as int].balance + balance_delta(
                rec,
                outcome,
            );
            &&& rec.status != TxStatus::Pending ==> r == Err::<(), LedgerError>(
                LedgerError::InvalidTransition,
            ) && new == old
            &&& (rec.status == TxStatus::Pending && bal < 0) ==> r == Err::<(), LedgerError>(
                LedgerError::InsufficientFunds,
            ) && new == old
            &&& (rec.status == TxStatus::Pending && bal > u64::MAX) ==> r == Err::<
                (),
                LedgerError,
            >(LedgerError::BalanceOverflow) && new == old
            &&& (rec.status == TxStatus::Pending && 0 <= bal <= u64::MAX) ==> r == Ok::<
                (),
                LedgerError,
            >(()) && new.records() == old.records().update(
                id as int,
                finalized(rec, outcome, now),
            ) && new.wallets() == old.wallets().update(
                rec.wallet as int,
                Wallet { balance: bal as u64, ..old.wallets()[rec.wallet as int] },
            )
        }
}

/// What `transfer` does from ledger `old` to ledger `new` with result `r`.
pub open spec fn transfer_post(
    old: Ledger,
    new: Ledger,
    from: u64,
    to: u64,
    amount: u64,
    quote: Quote,
    now: u64,
    r: Result<u64, LedgerError>,
) -> bool {
    &&& ({
            let ws = old.wallets();
            let rs = old.records();
            let c = rs.len() as u64;
            let invalid = amount == 0 || amount > i64::MAX || from == to;
            let missing = from >= ws.len() || to >= ws.len() || rs.len() >= u64::MAX;
            let at = stamp(rs, now);
            let short = Outcome::Failed(FailReason::InsufficientFunds);
            let over = Outcome::Failed(FailReason::BalanceOverflow);
            &&& invalid ==> r == Err::<u64, LedgerError>(LedgerError::InvalidRequest)
                && new == old
            &&& (!invalid && (from >= ws.len() || to >= ws.len())) ==> r == Err::<
                u64,
                LedgerError,
            >(LedgerError::NotFound) && new == old
            &&& (!invalid && from < ws.len() && to < ws.len() && rs.len() >= u64::MAX) ==> r
                == Err::<u64, LedgerError>(LedgerError::Full) && new == old
            &&& (!invalid && !missing && ws[from as int].balance < amount) ==> r == Err::<
                u64,
                LedgerError,
            >(LedgerError::InsufficientFunds) && new.wallets() == ws
                && new.records() == rs.push(
                debit_leg(c, from, to, amount, quote, short, at),
            ).push(
                credit_leg(c, from, to, amount, quote, short, at),
            )
            &&& (!invalid && !missing && ws[from as int].balance >= amount
                && ws[to as int].balance + amount > u64::MAX) ==> r == Err::<u64, LedgerError>(
                LedgerError::BalanceOverflow,
            ) && new.wallets() == ws && new.records() == rs.push(
                debit_leg(c, from, to, amount, quote, over, at),
            ).push(
                credit_leg(c, from, to, amount, quote, over, at),
            )
            &&& (!invalid && !missing && ws[from as int].balance >= amount
                && ws[to as int].balance + amount <= u64::MAX) ==> r == Ok::<u64, LedgerError>(c)
                && new.wallets() == ws.update(
                from as int,
                Wallet { balance: (ws[from as int].balance - amount) as u64, ..ws[from as int] },
            ).update(
                to as int,
                Wallet { balance: (ws[to as int].balance + amount) as u64, ..ws[to as int] },
            ) && new.records() == rs.push(
                debit_leg(c, from, to, amount, quote, Outcome::Completed(None), at),
            ).push(credit_leg(c, from, to, amount, quote, Outcome::Completed(None), at))
        })
}

/// A finalized record is terminal, so finalizing it again is refused.
pub proof fn law_finalized_is_terminal(r: Transaction, outcome: Outcome, now: u64)
    ensures
        finalized(r, outcome, now).status != TxStatus::Pending,
{
}

/// Finalizing keeps what was fixed when the record was created: wallet, counterparty,
/// amount, and the quote whose rate produced the amount.
pub proof fn law_finalize_keeps_terms(r: Transaction, outcome: Outcome, now: u64)
    ensures
        finalized(r, outcome, now).wallet == r.wallet,
        finalized(r, outcome, now).counterparty == r.counterparty,
        finalized(r, outcome, now).amount == r.amount,
        finalized(r, outcome, now).quote == r.quote,
        finalized(r, outcome, now).created_at == r.created_at,
{
}

/// Appending a record stamped by `stamp` keeps creation times non-decreasing.
pub proof fn lemma_stamp_push(s: Seq<Transaction>, r: Transaction)
    requires
        forall|i: int, j: int|
            0 <= i <= j < s.len() ==> (#[trigger] s[i]).created_at <= (#[trigger] s[j]).created_at,
        s.len() > 0 ==> r.created_at >= s.last().created_at,
    ensures
        forall|i: int, j: int|
            0 <= i <= j < s.push(r).len() ==> (#[trigger] s.push(r)[i]).created_at <= (
            #[trigger] s.push(r)[j]).created_at,
{
    let t = s.push(r);
    assert forall|i: int, j: int| 0 <= i <= j < t.len() implies (#[trigger] t[i]).created_at
        <= (#[trigger] t[j]).created_at by {
        if j < s.len() {
            assert(t[i] == s[i] && t[j] == s[j]);
        } else if i < s.len() {
            assert(t[i] == s[i]);
            assert(s[i].created_at <= s[s.len() - 1].created_at);
        }
    }
}

/// The wallet store and the transaction log, kept consistent with each other.
pub struct Ledger {
    wallets: Vec<Wallet>,
    txs: Vec<Transaction>,
}

impl Ledger {
    pub closed spec fn wallets(&self) -> Seq<Wallet> {
        self.wallets@
    }

    pub closed spec fn records(&self) -> Seq<Transaction> {
        self.txs@
    }

    /// The ledger's invariant.
    pub open spec fn wf(&self) -> bool {
        wf_parts(self.wallets(), self.records())
    }

    fn next_stamp(&self, now: u64) -> (r: u64)
        ensures
            r == stamp(self.records(), now),
    {
        let n = self.txs.len();
        if n > 0 && self.txs[n - 1].created_at > now {
            self.txs[n - 1].created_at
        } else {
            now
        }
    }

    /// An empty ledger.
    pub fn new() -> (l: Ledger)
        ensures
            l.wf(),
            l.wallets() == Seq::<Wallet>::empty(),
            l.records() == Seq::<Transaction>::empty(),
    {
        Ledger { wallets: Vec::new(), txs: Vec::new() }
    }

    /// The wallet with id `id`, if there is one.
    pub fn wallet(&self, id: u64) -> (r: Option<&Wallet>)
        ensures
            id < self.wallets().len() ==> r == Some(&self.wallets()[id as int]),
            id >= self.wallets().len() ==> r is None,
    {
        if id < self.wallets.len() as u64 {
            Some(&self.wallets[id as usize])
        } else {
            None
        }
    }

    /// The record with id `id`, if there is one.
    pub fn record(&self, id: u64) -> (r: Option<&Transaction>)
        ensures
            id < self.records().len() ==> r == Some(&self.records()[id as int]),
            id >= self.records().len() ==> r is None,
    {
        if id < self.txs.len() as u64 {
            Some(&self.txs[id as usize])
        } else {
            None
        }
    }

    /// The wallet owned by `owner`, if there is one.
    pub fn wallet_of(&self, owner: &String) -> (r: Option<u64>)
        requires
            self.wf(),
        ensures
            r matches Some(id) ==> id < self.wallets().len() && self.wallets()[id as int].owner@
                == owner@,
            r is None ==> forall|i: int|
                0 <= i < self.wallets().len() ==> (#[trigger] self.wallets()[i]).owner@ != owner@,
    {
        let mut i: usize = 0;
        while i < self.wallets.len()
            invariant
                i <= self.wallets@.len(),
                forall|j: int| 0 <= j < i ==> (#[trigger] self.wallets@[j]).owner@ != owner@,
            decreases self.wallets@.len() - i,
        {
            if self.wallets[i].owner == *owner {
                return Some(i as u64);
            }
            i = i + 1;
        }
        None
    }

    /// Opens a wallet with a zero balance for `owner`; an owner holds at most one wallet.
    pub fn create_wallet(&mut self, owner: String, now: u64) -> (r: Result<u64, LedgerError>)
        requires
            old(self).wf(),
        ensures
            final(self).wf(),
            (exists|i: int|
                0 <= i < old(self).wallets().len() && (#[trigger] old(self).wallets()[i]).owner@
                    == owner@) ==> r == Err::<u64, LedgerError>(LedgerError::AlreadyExists)
                && *final(self) == *old(self),
            (forall|i: int|
                0 <= i < old(self).wallets().len() ==> (#[trigger] old(self).wallets()[i]).owner@
                    != owner@) ==> r == Ok::<u64, LedgerError>(old(self).wallets().len() as u64)
                && final(self).wallets() == old(self).wallets().push(
                (Wallet {
                    id: old(self).wallets().len() as u64,
                    owner,
                    balance: 0,
                    created_at: now,
                }),
            ) && final(self).records() == old(self).records(),
    {
        if let Some(_) = self.wallet_of(&owner) {
            return Err(LedgerError::AlreadyExists);
        }
        let id = self.wallets.len() as u64;
        let ghost old_ws = self.wallets@;
        self.wallets.push(Wallet { id, owner, balance: 0, created_at: now });
        proof {
            let ws = self.wallets@;
            let rs = self.txs@;
            assert forall|i: int| 0 <= i < ws.len() implies (#[trigger] ws[i]).balance == held_sum(
                rs,
                i as u64,
            ) by {
                if i == ws.len() - 1 {
                    lemma_held_sum_zero(rs, i as u64);
                } else {
                    assert(ws[i] == old_ws[i]);
                }
            }
            assert forall|i: int, j: int|
                0 <= i < ws.len() && 0 <= j < ws.len() && i != j implies (#[trigger] ws[i]).owner@
                != (#[trigger] ws[j]).owner@ by {
                if i < old_ws.len() && j < old_ws.len() {
                    assert(ws[i] == old_ws[i] && ws[j] == old_ws[j]);
                }
            }
        }
        Ok(id)
    }

    /// The balance of wallet `id`.
    pub fn get_balance(&self, id: u64) -> (r: Result<u64, LedgerError>)
        requires
            self.wf(),
        ensures
            id < self.wallets().len() ==> r == Ok::<u64, LedgerError>(
                self.wallets()[id as int].balance,
            ),
            id >= self.wallets().len() ==> r == Err::<u64, LedgerError>(LedgerError::NotFound),
    {
        match self.wallet(id) {
            Some(w) => Ok(w.balance),
            None => Err(LedgerError::NotFound),
        }
    }

    /// Appends a pending single-sided record for wallet `wallet` and returns its id. The
    /// balance is not touched. (The two legs of a transfer are written by `transfer`.)
    pub fn create_pending(
        &mut self,
        wallet: u64,
        counterparty: Counterparty,
        amount: i64,
        quote: Quote,
        now: u64,
    ) -> (r: Result<u64, LedgerError>)
        requires
            old(self).wf(),
        ensures
            final(self).wf(),
            create_pending_post(
                *old(self),
                *final(self),
                wallet,
                counterparty,
                amount,
                quote,
                now,
                r,
            ),
    {
        if wallet >= self.wallets.len() as u64 {
            return Err(LedgerError::NotFound);
        }
        let id = self.txs.len() as u64;
        let at = self.next_stamp(now);
        let rec = Transaction {
            id,
            wallet,
            counterparty,
            amount,
            quote,
            correlation: None,
            settlement_ref: None,
            failure: None,
            status: TxStatus::Pending,
            reserved: false,
            created_at: at,
            completed_at: None,
        };
        let ghost old_rs = self.txs@;
        self.txs.push(rec);
        proof {
            let rs = self.txs@;
            assert forall|w: int| 0 <= w < self.wallets@.len() implies (
            #[trigger] self.wallets@[w]).balance == held_sum(rs, w as u64) by {
                lemma_held_sum_push(old_rs, rec, w as u64);
            }
            assert forall|i: int, j: int|
                0 <= i < rs.len() && 0 <= j < rs.len() && (#[trigger] rs[i]).correlation is Some
                    && (#[trigger] rs[j]).correlation == rs[i].correlation implies rs[i].status
                == rs[j].status by {
                assert(i < old_rs.len() && j < old_rs.len());
                assert(rs[i] == old_rs[i] && rs[j] == old_rs[j]);
            }
            assert forall|i: int|
                0 <= i < rs.len() && (#[trigger] rs[i]).correlation is Some implies rs[i].status
                != TxStatus::Pending && rs[i].correlation->0 <= i by {
                assert(rs[i] == old_rs[i]);
            }
            lemma_stamp_push(old_rs, rec);
        }
        Ok(id)
    }

    /// Reserves the debit of pending record `id`: its amount leaves the wallet's balance now,
    /// ahead of its terminal state. Returns the new balance.
    pub fn reserve(&mut self, id: u64) -> (r: Result<u64, LedgerError>)
        requires
            old(self).wf(),
        ensures
            final(self).wf(),
            reserve_post(*old(self), *final(self), id, r),
    {
        if id >= self.txs.len() as u64 {
            return Err(LedgerError::NotFound);
        }
        let i = id as usize;
        if self.txs[i].status != TxStatus::Pending || self.txs[i].reserved {
            return Err(LedgerError::InvalidTransition);
        }
        let amount = self.txs[i].amount;
        if amount >= 0 {
            return Err(LedgerError::InvalidRequest);
        }
        let nw = self.wallets.len();
        proof {
            assert(self.records()[i as int].wallet < nw);
        }
        let w = self.txs[i].wallet as usize;
        let bal = self.wallets[w].balance;
        let debit: u64 = (-(amount as i128)) as u64;
        if bal < debit {
            return Err(LedgerError::InsufficientFunds);
        }
        let ghost old_rs = self.txs@;
        let ghost old_ws = self.wallets@;
        self.txs[i].reserved = true;
        self.wallets[w].balance = bal - debit;
        proof {
            assert(self.txs@ =~= old_rs.update(i as int, self.txs@[i as int]));
            assert(self.wallets@ =~= old_ws.update(w as int, self.wallets@[w as int]));
            self.lemma_update_preserves(old_ws, old_rs, i as int, w as int);
        }
        Ok(bal - debit)
    }

    /// Moves pending record `id` to its terminal state and applies what that state means
    /// for the wallet's balance, in one step.
    pub fn finalize(&mut self, id: u64, outcome: Outcome, now: u64) -> (r: Result<(), LedgerError>)
        requires
            old(self).wf(),
        ensures
            final(self).wf(),
            finalize_post(*old(self), *final(self), id, outcome, now, r),
    {
        if id >= self.txs.len() as u64 {
            return Err(LedgerError::NotFound);
        }
        let i = id as usize;
        if self.txs[i].status != TxStatus::Pending {
            return Err(LedgerError::InvalidTransition);
        }
        let amount = self.txs[i].amount;
        let reserved = self.txs[i].reserved;
        let nw = self.wallets.len();
        proof {
            assert(self.records()[i as int].wallet < nw);
        }
        let w = self.txs[i].wallet as usize;
        let bal = self.wallets[w].balance;
        let delta: i128 = match &outcome {
            Outcome::Completed(_) => if reserved { 0 } else { amount as i128 },
            Outcome::Failed(_) => if reserved { -(amount as i128) } else { 0 },
        };
        let nb: i128 = bal as i128 + delta;
        if nb < 0 {
            return Err(LedgerError::InsufficientFunds);
        }
        if nb > u64::MAX as i128 {
            return Err(LedgerError::BalanceOverflow);
        }
        let ghost old_rs = self.txs@;
        let ghost old_ws = self.wallets@;
        match outcome {
            Outcome::Completed(sref) => {
                self.txs[i].status = TxStatus::Completed;
                self.txs[i].settlement_ref = sref;
            },
            Outcome::Failed(reason) => {
                self.txs[i].status = TxStatus::Failed;
                self.txs[i].failure = Some(reason);
            },
        }
        self.txs[i].completed_at = Some(now);
        self.wallets[w].balance = nb as u64;
        proof {
            assert(self.txs@ =~= old_rs.update(i as int, self.txs@[i as int]));
            assert(self.wallets@ =~= old_ws.update(w as int, self.wallets@[w as int]));
            self.lemma_update_preserves(old_ws, old_rs, i as int, w as int);
        }
        Ok(())
    }

    /// After record `i` of wallet `w` and the balance of `w` change together, consistently
    /// with what the record holds, the ledger is still well formed.
    proof fn lemma_update_preserves(
        &self,
        old_ws: Seq<Wallet>,
        old_rs: Seq<Transaction>,
        i: int,
        w: int,
    )
        requires
            0 <= i < old_rs.len(),
            old_rs[i].wallet == w,
            old_rs[i].status == TxStatus::Pending,
            old_rs[i].correlation is None,
            self.records().len() == old_rs.len(),
            self.wallets().len() == old_ws.len(),
            self.records() == old_rs.update(i, self.records()[i]),
            self.wallets() == old_ws.update(w, self.wallets()[w]),
            self.records()[i].id == old_rs[i].id,
            self.records()[i].wallet == old_rs[i].wallet,
            self.records()[i].amount == old_rs[i].amount,
            self.records()[i].correlation is None,
            self.records()[i].created_at == old_rs[i].created_at,
            self.records()[i].reserved ==> self.records()[i].amount < 0,
            self.wallets()[w].id == old_ws[w].id,
            self.wallets()[w].owner == old_ws[w].owner,
            self.wallets()[w].balance == old_ws[w].balance - held(old_rs[i], w as u64) + held(
                self.records()[i],
                w as u64,
            ),
            wf_parts(old_ws, old_rs),
        ensures
            self.wf(),
    {
        let ws = self.wallets();
        let rs = self.records();
        assert forall|k: int| 0 <= k < ws.len() implies (#[trigger] ws[k]).balance == held_sum(
            rs,
            k as u64,
        ) by {
            lemma_held_sum_update(old_rs, i, rs[i], k as u64);
            if k != w {
                assert(ws[k] == old_ws[k]);
            }
        }
        assert forall|a: int, b: int|
            0 <= a < ws.len() && 0 <= b < ws.len() && a != b implies (#[trigger] ws[a]).owner@
            != (#[trigger] ws[b]).owner@ by {
            assert(old_ws[a].owner@ != old_ws[b].owner@);
        }
        assert forall|a: int, b: int|
            0 <= a < rs.len() && 0 <= b < rs.len() && (#[trigger] rs[a]).correlation is Some
                && (#[trigger] rs[b]).correlation == rs[a].correlation implies rs[a].status
            == rs[b].status by {
            assert(rs[a] == old_rs[a] && rs[b] == old_rs[b]);
        }
        assert forall|a: int|
            0 <= a < rs.len() && (#[trigger] rs[a]).correlation is Some implies rs[a].status
            != TxStatus::Pending && rs[a].correlation->0 <= a by {
            assert(rs[a] == old_rs[a]);
        }
        assert forall|a: int| 0 <= a < rs.len() implies (#[trigger] rs[a]).id == a && rs[a].wallet
            < ws.len() by {
            assert(old_rs[a].id == a);
        }
        assert forall|a: int| 0 <= a < rs.len() && (#[trigger] rs[a]).reserved implies rs[a].amount
            < 0 by {
            if a != i { assert(rs[a] == old_rs[a]); }
        }
    }

    /// Moves `amount` from wallet `from` to wallet `to` as one unit: two records sharing a
    /// correlation id are appended, and both complete with both balances updated, or both
    /// fail with neither balance touched. Returns the correlation id.
    pub fn transfer(&mut self, from: u64, to: u64, amount: u64, quote: Quote, now: u64) -> (r:
        Result<u64, LedgerError>)
        requires
            old(self).wf(),
        ensures
            final(self).wf(),
            transfer_post(*old(self), *final(self), from, to, amount, quote, now, r),
    {
        if amount == 0 || amount > i64::MAX as u64 || from == to {
            return Err(LedgerError::InvalidRequest);
        }
        let nw = self.wallets.len();
        if from >= nw as u64 || to >= nw as u64 {
            return Err(LedgerError::NotFound);
        }
        if self.txs.len() as u64 == u64::MAX {
            return Err(LedgerError::Full);
        }
        let f = from as usize;
        let t = to as usize;
        let bf = self.wallets[f].balance;
        let bt = self.wallets[t].balance;
        let (status, failure) = if bf < amount {
            (TxStatus::Failed, Some(FailReason::InsufficientFunds))
        } else if bt > u64::MAX - amount {
            (TxStatus::Failed, Some(FailReason::BalanceOverflow))
        } else {
            (TxStatus::Completed, None)
        };
        let c = self.txs.len() as u64;
        let at = self.next_stamp(now);
        let failure2 = match &failure {
            Some(f) => Some(f.clone()),
            None => None,
        };
        let debit = Transaction {
            id: c,
            wallet: from,
            counterparty: Counterparty::Wallet(to),
            amount: -(amount as i64),
            quote,
            correlation: Some(c),
            settlement_ref: None,
            failure,
            status,
            reserved: false,
            created_at: at,
            completed_at: Some(at),
        };
        let credit = Transaction {
            id: c + 1,
            wallet: to,
            counterparty: Counterparty::Wallet(from),
            amount: amount as i64,
            quote,
            correlation: Some(c),
            settlement_ref: None,
            failure: failure2,
            status,
            reserved: false,
            created_at: at,
            completed_at: Some(at),
        };
        let ghost old_rs = self.txs@;
        let ghost old_ws = self.wallets@;
        self.txs.push(debit);
        self.txs.push(credit);
        if status == TxStatus::Completed {
            self.wallets[f].balance = bf - amount;
            self.wallets[t].balance = bt + amount;
        }
        proof {
            let rs = self.txs@;
            let ws = self.wallets@;
            assert(rs =~= old_rs.push(debit).push(credit));
            lemma_stamp_push(old_rs, debit);
            lemma_stamp_push(old_rs.push(debit), credit);
            assert forall|k: int| 0 <= k < ws.len() implies (#[trigger] ws[k]).balance == held_sum(
                rs,
                k as u64,
            ) by {
                lemma_held_sum_push(old_rs, debit, k as u64);
                lemma_held_sum_push(old_rs.push(debit), credit, k as u64);
                assert(old_ws[k].balance == held_sum(old_rs, k as u64));
            }
            assert forall|a: int, b: int|
                0 <= a < ws.len() && 0 <= b < ws.len() && a != b implies (#[trigger] ws[a]).owner@
                != (#[trigger] ws[b]).owner@ by {
                assert(old_ws[a].owner@ != old_ws[b].owner@);
            }
            assert forall|a: int|
                0 <= a < rs.len() && (#[trigger] rs[a]).correlation is Some implies rs[a].status
                != TxStatus::Pending && rs[a].correlation->0 <= a by {
                if a < old_rs.len() {
                    assert(rs[a] == old_rs[a]);
                }
            }
            assert forall|a: int, b: int|
                0 <= a < rs.len() && 0 <= b < rs.len() && (#[trigger] rs[a]).correlation is Some
                    && (#[trigger] rs[b]).correlation == rs[a].correlation implies rs[a].status
                == rs[b].status by {
                if a < old_rs.len() {
                    assert(rs[a] == old_rs[a]);
                    assert(old_rs[a].correlation->0 <= a);
                }
                if b < old_rs.len() {
                    assert(rs[b] == old_rs[b]);
                    assert(old_rs[b].correlation->0 <= b);
                }
            }
            assert forall|a: int| 0 <= a < rs.len() implies (#[trigger] rs[a]).id == a
                && rs[a].wallet < ws.len() by {
                if a < old_rs.len() {
                    assert(rs[a] == old_rs[a]);
                }
            }
            assert forall|a: int| 0 <= a < rs.len() && (#[trigger] rs[a]).reserved implies rs[a].amount
                < 0 by {
                if a < old_rs.len() {
                    assert(rs[a] == old_rs[a]);
                }
            }
            assert forall|a: int| 0 <= a < ws.len() implies (#[trigger] ws[a]).id == a by {
                assert(old_ws[a].id == a);
            }
        }
        if status == TxStatus::Completed {
            Ok(c)
        } else if bf < amount {
            Err(LedgerError::InsufficientFunds)
        } else {
            Err(LedgerError::BalanceOverflow)
        }
    }

    /// The records of wallet `wallet`, newest first.
    pub fn list_for_wallet(&self, wallet: u64) -> (r: Vec<Transaction>)
        requires
            self.wf(),
        ensures
            r@ == newest_first(self.records(), wallet),
            newest_ordered(r@),
    {
        proof {
            lemma_newest_first_ordered(self.records(), wallet);
        }
        let mut out: Vec<Transaction> = Vec::new();
        let mut i: usize = self.txs.len();
        assert(self.txs@.subrange(0, i as int) =~= self.txs@);
        while i > 0
            invariant
                i <= self.txs@.len(),
                newest_first(self.txs@, wallet) == out@ + newest_first(
                    self.txs@.subrange(0, i as int),
                    wallet,
                ),
            decreases i,
        {
            let ghost pre = self.txs@.subrange(0, i as int);
            assert(pre.drop_last() =~= self.txs@.subrange(0, i - 1));
            assert(pre.last() == self.txs@[i - 1]);
            if self.txs[i - 1].wallet == wallet {
                let ghost before = out@;
                out.push(self.txs[i - 1].clone());
                assert(before + newest_first(pre, wallet) =~= out@ + newest_first(
                    self.txs@.subrange(0, i - 1),
                    wallet,
                ));
            }
            i = i - 1;
        }
        assert(out@ + newest_first(self.txs@.subrange(0, 0), wallet) =~= out@);
        out
    }

    /// One page of the records of wallet `wallet`, newest first: those created before
    /// record `before`, at most `limit` of them. Passing the id of a page's last record as
    /// `before` gives the next page.
    pub fn list_page(&self, wallet: u64, before: u64, limit: usize) -> (r: Vec<Transaction>)
        requires
            self.wf(),
        ensures
            newest_ordered(r@),
            ({
                let end = if before < self.records().len() {
                    before as int
                } else {
                    self.records().len() as int
                };
                let all = newest_first(self.records().subrange(0, end), wallet);
                r@ == if all.len() <= limit {
                    all
                } else {
                    all.take(limit as int)
                }
            }),
    {
        let mut out: Vec<Transaction> = Vec::new();
        let n = self.txs.len();
        let mut i: usize = if before < n as u64 {
            before as usize
        } else {
            n
        };
        let ghost end = i as int;
        let ghost all = newest_first(self.txs@.subrange(0, end), wallet);
        while i > 0 && out.len() < limit
            invariant
                i <= end <= self.txs@.len(),
                out@.len() <= limit,
                all == newest_first(self.txs@.subrange(0, end), wallet),
                all == out@ + newest_first(self.txs@.subrange(0, i as int), wallet),
            decreases i,
        {
            let ghost pre = self.txs@.subrange(0, i as int);
            assert(pre.drop_last() =~= self.txs@.subrange(0, i - 1));
            assert(pre.last() == self.txs@[i - 1]);
            if self.txs[i - 1].wallet == wallet {
                let ghost before_push = out@;
                out.push(self.txs[i - 1].clone());
                assert(before_push + newest_first(pre, wallet) =~= out@ + newest_first(
                    self.txs@.subrange(0, i - 1),
                    wallet,
                ));
            }
            i = i - 1;
        }
        if i == 0 {
            assert(all =~= out@);
        } else {
            assert(all.take(limit as int) =~= out@);
        }
        proof {
            let sub = self.txs@.subrange(0, end);
            assert forall|a: int, b: int| 0 <= a <= b < sub.len() implies (#[trigger] sub[a]).created_at
                <= (#[trigger] sub[b]).created_at by {
                assert(sub[a] == self.txs@[a] && sub[b] == self.txs@[b]);
            }
            lemma_newest_first_ordered(sub, wallet);
            assert forall|a: int, b: int| 0 <= a <= b < out@.len() implies (#[trigger] out@[a]).created_at
                >= (#[trigger] out@[b]).created_at by {
                assert(out@[a] == all[a] && out@[b] == all[b]);
            }
        }
        out
    }
}

/// A wallet's balance is the sum of the signed amounts of its completed records, and of
/// nothing else, whenever no debit of it is reserved for a movement still in flight.
pub proof fn law_balance_is_completed_sum(l: &Ledger, w: u64)
    requires
        l.wf(),
        w < l.wallets().len(),
        !has_reservation(l.records(), w),
    ensures
        l.wallets()[w as int].balance == completed_sum(l.records(), w),
{
    lemma_held_is_completed(l.records(), w);
}

/// The two records of a transfer always share their fate: both completed or both failed.
pub proof fn law_transfer_legs_share_fate(l: &Ledger, i: int, j: int)
    requires
        l.wf(),
        0 <= i < l.records().len(),
        0 <= j < l.records().len(),
        l.records()[i].correlation is Some,
        l.records()[j].correlation == l.records()[i].correlation,
    ensures
        l.records()[i].status == l.records()[j].status,
        l.records()[i].status != TxStatus::Pending,
{
}

/// Two debits reserved one after the other against the same wallet both succeed only
/// where its balance covered both, and the balance then drops by exactly their sum: a
/// second debit is judged against the balance the first one left.
pub proof fn law_debits_serialize(
    l0: Ledger,
    l1: Ledger,
    l2: Ledger,
    i: u64,
    j: u64,
    r1: Result<u64, LedgerError>,
    r2: Result<u64, LedgerError>,
)
    requires
        l0.wf(),
        reserve_post(l0, l1, i, r1),
        reserve_post(l1, l2, j, r2),
        i < l0.records().len(),
        j < l0.records().len(),
        l0.records()[i as int].wallet == l0.records()[j as int].wallet,
        r1 is Ok,
        r2 is Ok,
    ensures
        i != j,
        ({
            let w = l0.records()[i as int].wallet as int;
            let a = l0.records()[i as int].amount + l0.records()[j as int].amount;
            &&& l0.wallets()[w].balance + a >= 0
            &&& l2.wallets()[w].balance == l0.wallets()[w].balance + a
        }),
{
    assert(l1.records()[i as int].reserved);
    if i != j {
        assert(l1.records()[j as int] == l0.records()[j as int]);
    }
}

/// A failed record, or a pending one with nothing reserved, changes neither what a wallet's
/// records hold nor the sum of its completed records.
pub proof fn law_inert_records_hold_nothing(s: Seq<Transaction>, r: Transaction, w: u64)
    requires
        r.status == TxStatus::Failed || (r.status == TxStatus::Pending && !r.reserved),
    ensures
        held_sum(s.push(r), w) == held_sum(s, w),
        completed_sum(s.push(r), w) == completed_sum(s, w),
{
    lemma_held_sum_push(s, r, w);
    assert(s.push(r).drop_last() =~= s);
}

/// What the debits `ids[0..n]` took from their wallet: the amounts of those whose
/// reservation `rs` reports as done, read from ledger `l`.
pub open spec fn reserved_total(
    l: Ledger,
    ids: Seq<u64>,
    rs: Seq<Result<u64, LedgerError>>,
    n: int,
) -> int
    decreases n,
{
    if n <= 0 {
        0
    } else {
        reserved_total(l, ids, rs, n - 1) + (if rs[n - 1] is Ok {
            -(l.records()[ids[n - 1] as int].amount as int)
        } else {
            0
        })
    }
}

proof fn lemma_debits_prefix(
    ls: Seq<Ledger>,
    ids: Seq<u64>,
    rs: Seq<Result<u64, LedgerError>>,
    w: u64,
    n: int,
)
    requires
        ls.len() == ids.len() + 1,
        rs.len() == ids.len(),
        0 <= n <= ids.len(),
        ls[0].wf(),
        w < ls[0].wallets().len(),
        forall|k: int| 0 <= k < ids.len() ==> reserve_post(#[trigger] ls[k], ls[k + 1], ids[k], rs[k]),
        forall|k: int|
            0 <= k < ids.len() ==> #[trigger] ids[k] < ls[0].records().len()
                && ls[0].records()[ids[k] as int].wallet == w,
    ensures
        ls[n].wallets().len() == ls[0].wallets().len(),
        ls[n].records().len() == ls[0].records().len(),
        forall|j: int|
            0 <= j < ls[0].records().len() ==> (#[trigger] ls[n].records()[j]).wallet
                == ls[0].records()[j].wallet && ls[n].records()[j].amount
                == ls[0].records()[j].amount,
        ls[n].wallets()[w as int].balance == ls[0].wallets()[w as int].balance - reserved_total(
            ls[0],
            ids,
            rs,
            n,
        ),
    decreases n,
{
    if n > 0 {
        let k = n - 1;
        lemma_debits_prefix(ls, ids, rs, w, k);
        assert(reserve_post(ls[k], ls[k + 1], ids[k], rs[k]));
        assert(ids[k] < ls[0].records().len());
        let rec = ls[k].records()[ids[k] as int];
        assert(rec.wallet == w && rec.amount == ls[0].records()[ids[k] as int].amount);
        if rs[k] is Ok {
            assert forall|j: int| 0 <= j < ls[0].records().len() implies (
            #[trigger] ls[n].records()[j]).wallet == ls[0].records()[j].wallet
                && ls[n].records()[j].amount == ls[0].records()[j].amount by {
                assert(ls[k].records()[j].wallet == ls[0].records()[j].wallet);
            }
        }
    }
}

/// Debits reserved one after another against one wallet never take more than it held: the
/// balance after any number of them is the starting balance less exactly the amounts of
/// those that succeeded, and so never below zero.
pub proof fn law_debits_accumulate(
    ls: Seq<Ledger>,
    ids: Seq<u64>,
    rs: Seq<Result<u64, LedgerError>>,
    w: u64,
)
    requires
        ls.len() == ids.len() + 1,
        rs.len() == ids.len(),
        ls[0].wf(),
        w < ls[0].wallets().len(),
        forall|k: int| 0 <= k < ids.len() ==> reserve_post(#[trigger] ls[k], ls[k + 1], ids[k], rs[k]),
        forall|k: int|
            0 <= k < ids.len() ==> #[trigger] ids[k] < ls[0].records().len()
                && ls[0].records()[ids[k] as int].wallet == w,
    ensures
        forall|n: int|
            0 <= n <= ids.len() ==> (#[trigger] ls[n]).wallets()[w as int].balance
                == ls[0].wallets()[w as int].balance - reserved_total(ls[0], ids, rs, n),
        reserved_total(ls[0], ids, rs, ids.len() as int) <= ls[0].wallets()[w as int].balance,
{
    assert forall|n: int| 0 <= n <= ids.len() implies (#[trigger] ls[n]).wallets()[w as int].balance
        == ls[0].wallets()[w as int].balance - reserved_total(ls[0], ids, rs, n) by {
        lemma_debits_prefix(ls, ids, rs, w, n);
    }
    assert(ls[ids.len() as int].wallets()[w as int].balance >= 0);
}

} // verus!
