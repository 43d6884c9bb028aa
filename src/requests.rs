use vstd::prelude::*;
use crate::rates::Currency;
use crate::users::{email_is_valid, valid_email};

verus! {

/// The smallest deposit, in hundredths of a shilling: one shilling.
pub const MIN_DEPOSIT: u64 = 100;

/// The smallest withdrawal, transfer or payment, in hundredths of a unit.
pub const MIN_MOVEMENT: u64 = 1;

/// A payment to the holder of an e-mail address. `amount` is in hundredths of `currency`;
/// a currency left out defaults to dollars, a target left out to shillings.
pub struct CreateTransaction {
    pub recipient_email: String,
    pub amount: u64,
    pub currency: Option<Currency>,
    pub target_currency: Option<Currency>,
}

/// A deposit from mobile money, in hundredths of a shilling.
pub struct DepositRequest {
    pub kes_amount: u64,
    pub mpesa_ref: String,
}

/// A withdrawal to mobile money, in hundredths of the settlement asset.
pub struct WithdrawRequest {
    pub xlm_amount: u64,
    pub mpesa_number: String,
}

/// A transfer to another wallet, in hundredths of the settlement asset.
pub struct TransferRequest {
    pub xlm_amount: u64,
    pub to_wallet_id: String,
}

impl CreateTransaction {
    pub open spec fn spec_valid(&self) -> bool {
        valid_email(self.recipient_email@) && self.amount >= MIN_MOVEMENT
    }

    pub fn validate(&self) -> (r: bool)
        ensures
            r == self.spec_valid(),
    {
        let email_ok = email_is_valid(self.recipient_email.as_str());
        self.validate_with_email(email_ok)
    }

    /// The rules of `validate`, given whether the recipient's address is valid.
    pub fn validate_with_email(&self, email_ok: bool) -> (r: bool)
        ensures
            r == (email_ok && self.amount >= MIN_MOVEMENT),
    {
        email_ok && self.amount >= MIN_MOVEMENT
    }

    /// The source and target currencies, with their defaults applied.
    pub fn currencies(&self) -> (r: (Currency, Currency))
        ensures
            r.0 == match self.currency {
                Some(c) => c,
                None => Currency::Usd,
            },
            r.1 == match self.target_currency {
                Some(c) => c,
                None => Currency::Kes,
            },
    {
        let from = match self.currency {
            Some(c) => c,
            None => Currency::Usd,
        };
        let to = match self.target_currency {
            Some(c) => c,
            None => Currency::Kes,
        };
        (from, to)
    }
}

impl DepositRequest {
    pub fn validate(&self) -> (r: bool)
        ensures
            r == (self.kes_amount >= MIN_DEPOSIT),
    {
        self.kes_amount >= MIN_DEPOSIT
    }
}

impl WithdrawRequest {
    pub fn validate(&self) -> (r: bool)
        ensures
            r == (self.xlm_amount >= MIN_MOVEMENT),
    {
        self.xlm_amount >= MIN_MOVEMENT
    }
}

impl TransferRequest {
    pub fn validate(&self) -> (r: bool)
        ensures
            r == (self.xlm_amount >= MIN_MOVEMENT),
    {
        self.xlm_amount >= MIN_MOVEMENT
    }
}

} // verus!
