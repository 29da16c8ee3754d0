//! What every kind of account offers.

use vstd::prelude::*;
use vstd::string::StringExecFns;
use crate::errors::{DepositError, WithdrawalError};
use crate::fixed::MAX_MONEY;
use crate::notes::spec_plain_note;
use crate::statement::{render_statement, statement_text};
use crate::text::{signed_string, signed_text};
use crate::transaction::{
    amounts_bounded, entries, extends, lemma_total_bounds, net_flow, summarize, Entry,
    Transaction, TransactionSummary, TransactionType,
};

verus! {

/// The balance that the ledger accounts for: the starting balance with all
/// inflows added and all outflows taken away.
pub open spec fn expected_balance(starting: int, ledger: Seq<Transaction>) -> int {
    starting + net_flow(ledger)
}

/// The text of a balance that the ledger does not account for.
pub open spec fn mismatch_text(actual: int, expected: int) -> Seq<char> {
    "Balance mismatch: actual "@ + signed_text(actual) + " cents, expected "@ + signed_text(
        expected,
    ) + " cents. Diff: "@ + signed_text(actual - expected) + " cents"@
}

fn mismatch_string(actual: i128, expected: i128) -> (s: String)
    requires
        i128::MIN <= actual - expected <= i128::MAX,
    ensures
        s@ == mismatch_text(actual as int, expected as int),
{
    let mut s: String = String::from_str("Balance mismatch: actual ");
    s.append(signed_string(actual).as_str());
    s.append(" cents, expected ");
    s.append(signed_string(expected).as_str());
    s.append(" cents. Diff: ");
    s.append(signed_string(actual - expected).as_str());
    s.append(" cents");
    s
}

/// The largest gap between balance and ledger that still validates, in cents.
pub const BALANCE_TOLERANCE: i128 = 1;

/// An account that takes deposits, pays out withdrawals, accrues what it
/// earns over a period, and keeps a ledger of all of it.
pub trait Account: Sized {
    /// The account is in a state that its operations keep up.
    spec fn wf(&self) -> bool;

    /// The account's name.
    spec fn spec_name(&self) -> Seq<char>;

    /// The total balance in cents: cash and the value of everything held.
    spec fn spec_balance(&self) -> int;

    /// The cash on hand in cents.
    spec fn spec_cash_balance(&self) -> int;

    /// The balance with which the account was opened.
    spec fn spec_starting_balance(&self) -> int;

    /// The ledger, oldest entry first.
    spec fn spec_ledger(&self) -> Seq<Transaction>;

    /// What the next accrual will credit.
    spec fn spec_accrual(&self) -> int;

    /// The next accrual stays within the range of what the account can hold.
    spec fn spec_can_accrue(&self) -> bool;

    /// A well-formed account keeps its amounts within range.
    proof fn lemma_bounds(&self)
        requires
            self.wf(),
        ensures
            -MAX_MONEY <= self.spec_balance() <= MAX_MONEY,
            -MAX_MONEY <= self.spec_cash_balance() <= MAX_MONEY,
            -MAX_MONEY <= self.spec_starting_balance() <= MAX_MONEY,
            amounts_bounded(self.spec_ledger()),
    ;

    /// Credits `amount` cents and records the deposit. A negative amount is
    /// refused and changes nothing.
    fn deposit(&mut self, amount: i64, note: Option<&str>) -> (r: Result<i64, DepositError>)
        requires
            old(self).wf(),
            amount <= MAX_MONEY,
            old(self).spec_balance() + amount <= MAX_MONEY,
        ensures
            final(self).wf(),
            final(self).spec_name() == old(self).spec_name(),
            final(self).spec_starting_balance() == old(self).spec_starting_balance(),
            extends(final(self).spec_ledger(), old(self).spec_ledger()),
            amount < 0 ==> r == Err::<i64, DepositError>(DepositError::NegativeAmount(amount))
                && *final(self) == *old(self),
            amount >= 0 ==> r == Ok::<i64, DepositError>(amount) && final(self).spec_balance()
                == old(self).spec_balance() + amount && final(self).spec_cash_balance() == old(self).spec_cash_balance() + amount && entries(final(self).spec_ledger()) == entries(
                old(self).spec_ledger(),
            ).push(
                Entry {
                    kind: TransactionType::Deposit,
                    amount: amount as int,
                    note: spec_plain_note(note),
                },
            ),
    ;

    /// Pays out `amount` cents and records the withdrawal. A negative amount
    /// is refused and changes nothing. A paid withdrawal lowers the balance by
    /// the amount and by whatever it cost to raise it; a refused one never
    /// raises the balance.
    fn withdraw(&mut self, amount: i64, note: Option<&str>) -> (r: Result<i64, WithdrawalError>)
        requires
            old(self).wf(),
            amount <= MAX_MONEY,
        ensures
            final(self).wf(),
            final(self).spec_name() == old(self).spec_name(),
            final(self).spec_starting_balance() == old(self).spec_starting_balance(),
            extends(final(self).spec_ledger(), old(self).spec_ledger()),
            amount < 0 ==> r == Err::<i64, WithdrawalError>(WithdrawalError::NegativeAmount(amount))
                && *final(self) == *old(self),
            r is Ok ==> r == Ok::<i64, WithdrawalError>(amount) && amount >= 0 && final(self).spec_balance() + amount <= old(self).spec_balance(),
            r is Err ==> final(self).spec_balance() <= old(self).spec_balance(),
    ;

    /// Decides whether the next accrual stays within range, as `accrue`
    /// demands.
    fn can_accrue(&self) -> (r: bool)
        requires
            self.wf(),
        ensures
            r == self.spec_can_accrue(),
    ;

    /// Credits what the account earned over one period and returns it.
    fn accrue(&mut self) -> (credited: i64)
        requires
            old(self).wf(),
            old(self).spec_can_accrue(),
        ensures
            final(self).wf(),
            final(self).spec_name() == old(self).spec_name(),
            final(self).spec_starting_balance() == old(self).spec_starting_balance(),
            extends(final(self).spec_ledger(), old(self).spec_ledger()),
            credited == old(self).spec_accrual(),
            0 <= credited,
            final(self).spec_balance() == old(self).spec_balance() + credited,
    ;

    /// The total balance in cents.
    fn get_balance(&self) -> (b: i64)
        requires
            self.wf(),
        ensures
            b == self.spec_balance(),
            -MAX_MONEY <= b <= MAX_MONEY,
    ;

    /// The cash on hand in cents.
    fn get_cash_balance(&self) -> (b: i64)
        requires
            self.wf(),
        ensures
            b == self.spec_cash_balance(),
            -MAX_MONEY <= b <= MAX_MONEY,
    ;

    /// The account's name.
    fn get_name(&self) -> (n: &str)
        ensures
            n@ == self.spec_name(),
    ;

    /// The balance with which the account was opened.
    fn get_starting_balance(&self) -> (b: i64)
        ensures
            b == self.spec_starting_balance(),
    ;

    /// The ledger, oldest entry first.
    fn generate_transactions(&self) -> (ledger: &Vec<Transaction>)
        ensures
            ledger@ == self.spec_ledger(),
    ;

    /// The statement of the account for the entries recorded from `start_date`
    /// to `end_date`, both in milliseconds since the Unix epoch and both
    /// optional. The balances run from the starting balance.
    fn generate_statement(&self, start_date: Option<i64>, end_date: Option<i64>) -> (text: String)
        requires
            self.wf(),
        ensures
            text@ == statement_text(
                self.spec_name(),
                self.spec_starting_balance(),
                self.spec_balance(),
                self.spec_ledger(),
                start_date,
                end_date,
            ),
    {
        proof {
            self.lemma_bounds();
        }
        render_statement(
            self.get_name(),
            self.get_starting_balance(),
            self.get_balance(),
            self.generate_transactions(),
            start_date,
            end_date,
        )
    }

    /// The summed amounts of the ledger, kind by kind.
    fn summarize_transactions(&self) -> (s: TransactionSummary)
        requires
            self.wf(),
        ensures
            s.summarizes(self.spec_ledger()),
    {
        proof {
            self.lemma_bounds();
        }
        summarize(self.generate_transactions())
    }

    /// Holds the balance against the ledger. The balance validates when it is
    /// within `BALANCE_TOLERANCE` of the starting balance with deposits,
    /// interest and unrealized gains added and withdrawals, taxes and fees
    /// taken away; otherwise the mismatch is described.
    fn validate_balance(&self) -> (r: Result<(), String>)
        requires
            self.wf(),
        ensures
            r is Ok <==> -BALANCE_TOLERANCE <= self.spec_balance() - expected_balance(
                self.spec_starting_balance(),
                self.spec_ledger(),
            ) <= BALANCE_TOLERANCE,
            r matches Err(message) ==> message@ == mismatch_text(
                self.spec_balance(),
                expected_balance(self.spec_starting_balance(), self.spec_ledger()),
            ),
    {
        let summary = self.summarize_transactions();
        let count: usize = self.generate_transactions().len();
        proof {
            self.lemma_bounds();
            assert(self.spec_ledger().len() == count);
            let ledger = self.spec_ledger();
            lemma_total_bounds(ledger, TransactionType::Deposit);
            lemma_total_bounds(ledger, TransactionType::Interest);
            lemma_total_bounds(ledger, TransactionType::UnrealizedGain);
            lemma_total_bounds(ledger, TransactionType::Withdrawal);
            lemma_total_bounds(ledger, TransactionType::Tax);
            lemma_total_bounds(ledger, TransactionType::Fee);
            assert(ledger.len() * MAX_MONEY <= 0xffff_ffff_ffff_ffff * 10_000_000_000_000)
                by (nonlinear_arith)
                requires
                    ledger.len() <= 0xffff_ffff_ffff_ffff,
            ;
            assert(summary.spec_get(TransactionType::Deposit) == crate::transaction::total_of(ledger, TransactionType::Deposit));
            assert(summary.spec_get(TransactionType::Interest) == crate::transaction::total_of(ledger, TransactionType::Interest));
            assert(summary.spec_get(TransactionType::UnrealizedGain) == crate::transaction::total_of(ledger, TransactionType::UnrealizedGain));
            assert(summary.spec_get(TransactionType::Withdrawal) == crate::transaction::total_of(ledger, TransactionType::Withdrawal));
            assert(summary.spec_get(TransactionType::Tax) == crate::transaction::total_of(ledger, TransactionType::Tax));
            assert(summary.spec_get(TransactionType::Fee) == crate::transaction::total_of(ledger, TransactionType::Fee));
        }
        let total_in: i128 = summary.deposits + summary.interest + summary.unrealized_gains;
        let total_out: i128 = summary.withdrawals + summary.taxes + summary.fees;
        let expected: i128 = self.get_starting_balance() as i128 + total_in - total_out;
        let actual: i128 = self.get_balance() as i128;
        let diff: i128 = actual - expected;
        if -BALANCE_TOLERANCE <= diff && diff <= BALANCE_TOLERANCE {
            Ok(())
        } else {
            Err(mismatch_string(actual, expected))
        }
    }
}

} // verus!
