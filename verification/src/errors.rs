//! The failures that account operations report.

use vstd::prelude::*;
use vstd::string::StringExecFns;
use crate::text::{signed_string, signed_text};

verus! {

/// Why a deposit was refused.
#[derive(Debug, Clone, Copy, PartialEq, Eq, Structural)]
pub enum DepositError {
    /// The amount offered was below zero.
    NegativeAmount(i64),
}

/// Why a withdrawal, a purchase or a sale was refused.
#[derive(Debug, Clone, Copy, PartialEq, Eq, Structural)]
pub enum WithdrawalError {
    /// More was asked for than could be raised.
    InsufficientFunds { requested: i64, available: i64 },
    /// The amount or fraction given was out of range.
    NegativeAmount(i64),
}

/// Why a transfer was refused.
#[derive(Debug, Clone, Copy, PartialEq, Eq, Structural)]
pub enum TransferError {
    /// The paying account could not raise the amount.
    InsufficientFunds { requested: i64, available: i64 },
    /// The amount given was below zero.
    NegativeAmount(i64),
    /// The receiving account refused the money, which went back to the payer.
    DepositFailed,
}

/// The message of an `InsufficientFunds` failure after its opening words.
pub open spec fn funds_text(requested: int, available: int) -> Seq<char> {
    "insufficient funds: requested "@ + signed_text(requested) + " cents, available "@
        + signed_text(available) + " cents"@
}

fn funds_string(requested: i64, available: i64) -> (s: String)
    ensures
        s@ == funds_text(requested as int, available as int),
{
    let mut s: String = String::from_str("insufficient funds: requested ");
    s.append(signed_string(requested as i128).as_str());
    s.append(" cents, available ");
    s.append(signed_string(available as i128).as_str());
    s.append(" cents");
    s
}

impl DepositError {
    /// The message of the failure.
    pub open spec fn spec_message(&self) -> Seq<char> {
        match *self {
            DepositError::NegativeAmount(amount) => "cannot deposit a negative amount: "@
                + signed_text(amount as int) + " cents"@,
        }
    }

    /// The message of the failure.
    pub fn message(&self) -> (s: String)
        ensures
            s@ == self.spec_message(),
    {
        match *self {
            DepositError::NegativeAmount(amount) => {
                let mut s: String = String::from_str("cannot deposit a negative amount: ");
                s.append(signed_string(amount as i128).as_str());
                s.append(" cents");
                s
            },
        }
    }
}

impl WithdrawalError {
    /// The message of the failure.
    pub open spec fn spec_message(&self) -> Seq<char> {
        match *self {
            WithdrawalError::InsufficientFunds { requested, available } => funds_text(
                requested as int,
                available as int,
            ),
            WithdrawalError::NegativeAmount(amount) => "cannot withdraw negative amount: "@
                + signed_text(amount as int) + " cents"@,
        }
    }

    /// The message of the failure.
    pub fn message(&self) -> (s: String)
        ensures
            s@ == self.spec_message(),
    {
        match *self {
            WithdrawalError::InsufficientFunds { requested, available } => funds_string(
                requested,
                available,
            ),
            WithdrawalError::NegativeAmount(amount) => {
                let mut s: String = String::from_str("cannot withdraw negative amount: ");
                s.append(signed_string(amount as i128).as_str());
                s.append(" cents");
                s
            },
        }
    }
}

impl TransferError {
    /// The message of the failure.
    pub open spec fn spec_message(&self) -> Seq<char> {
        match *self {
            TransferError::InsufficientFunds { requested, available } => "transfer failed - "@
                + funds_text(requested as int, available as int),
            TransferError::NegativeAmount(amount) => "cannot transfer negative amount: "@
                + signed_text(amount as int) + " cents"@,
            TransferError::DepositFailed => "transfer failed during deposit phase"@,
        }
    }

    /// The message of the failure.
    pub fn message(&self) -> (s: String)
        ensures
            s@ == self.spec_message(),
    {
        match *self {
            TransferError::InsufficientFunds { requested, available } => {
                let mut s: String = String::from_str("transfer failed - ");
                s.append(funds_string(requested, available).as_str());
                s
            },
            TransferError::NegativeAmount(amount) => {
                let mut s: String = String::from_str("cannot transfer negative amount: ");
                s.append(signed_string(amount as i128).as_str());
                s.append(" cents");
                s
            },
            TransferError::DepositFailed => String::from_str("transfer failed during deposit phase"),
        }
    }

    /// The transfer failure that stands for a failed withdrawal.
    pub open spec fn spec_from_withdrawal(e: WithdrawalError) -> TransferError {
        match e {
            WithdrawalError::InsufficientFunds { requested, available } => {
                TransferError::InsufficientFunds { requested, available }
            },
            WithdrawalError::NegativeAmount(amount) => TransferError::NegativeAmount(amount),
        }
    }

    /// Turns a failed withdrawal into the transfer failure that stands for it.
    pub fn from_withdrawal(e: WithdrawalError) -> (t: TransferError)
        ensures
            t == Self::spec_from_withdrawal(e),
    {
        match e {
            WithdrawalError::InsufficientFunds { requested, available } => {
                TransferError::InsufficientFunds { requested, available }
            },
            WithdrawalError::NegativeAmount(amount) => TransferError::NegativeAmount(amount),
        }
    }
}

} // verus!
