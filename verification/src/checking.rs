//! The checking or savings account: a cash balance that earns interest and
//! may be overdrawn up to a limit, for a fee.

use vstd::prelude::*;
use vstd::string::StringExecFns;
use crate::account::{expected_balance, Account};
use crate::errors::{DepositError, TransferError, WithdrawalError};
use crate::fixed::{
    lemma_div_bounds, lemma_mul_bounds, mul_div, spec_mul_div, MAX_MONEY, RATE_SCALE,
};
use crate::notes::{
    interest_note, interest_text, plain_note, spec_plain_note, transfer_in_note,
    transfer_in_text, transfer_out_note, transfer_out_text,
};
use crate::transaction::{
    amounts_bounded, entries, extends, lemma_push_entry, net_flow, Entry, Transaction,
    TransactionType,
};

verus! {

/// An account that holds cash alone.
pub struct CheckingSavingsAccount {
    name: String,
    starting_balance: i64,
    balance: i64,
    interest_rate: u32,
    overdraft_limit: i64,
    overdraft_fee: i64,
    transactions: Vec<Transaction>,
}

/// The note of an overdraft fee.
pub open spec fn overdraft_text() -> Seq<char> {
    "Overdraft fee"@
}

/// The opening words of the note of an interest credit.
pub open spec fn checking_interest_opening() -> Seq<char> {
    "Interest at "@
}

/// The interest that `balance` cents earn in one period at `rate` basis
/// points; nothing on a balance that is not above zero.
pub open spec fn interest_on(balance: int, rate: int) -> int {
    if balance > 0 {
        spec_mul_div(balance, rate, RATE_SCALE as int)
    } else {
        0
    }
}

impl CheckingSavingsAccount {
    /// The balance in cents; below zero while the account is overdrawn.
    pub closed spec fn cash(&self) -> int {
        self.balance as int
    }

    /// The ledger, oldest entry first.
    pub closed spec fn ledger(&self) -> Seq<Transaction> {
        self.transactions@
    }

    /// The balance with which the account was opened.
    pub closed spec fn starting(&self) -> int {
        self.starting_balance as int
    }

    /// The interest paid for one period, in basis points.
    pub closed spec fn rate(&self) -> int {
        self.interest_rate as int
    }

    /// The cents by which the account may be overdrawn.
    pub closed spec fn limit(&self) -> int {
        self.overdraft_limit as int
    }

    /// The fee for a withdrawal that overdraws the account.
    pub closed spec fn fee(&self) -> int {
        self.overdraft_fee as int
    }

    /// The account's name.
    pub closed spec fn name(&self) -> Seq<char> {
        self.name@
    }

    /// The state that every operation keeps up: amounts within range and a
    /// balance that the ledger accounts for to the cent.
    pub open spec fn inv(&self) -> bool {
        &&& -MAX_MONEY <= self.cash() <= MAX_MONEY
        &&& -MAX_MONEY <= self.starting() <= MAX_MONEY
        &&& 0 <= self.limit()
        &&& 0 <= self.fee()
        &&& self.limit() + self.fee() <= MAX_MONEY
        &&& amounts_bounded(self.ledger())
        &&& self.cash() == self.starting() + net_flow(self.ledger())
    }

    /// Name, starting balance, interest rate and overdraft terms are those of
    /// `other`.
    pub open spec fn same_terms(&self, other: &CheckingSavingsAccount) -> bool {
        &&& self.name() == other.name()
        &&& self.starting() == other.starting()
        &&& self.rate() == other.rate()
        &&& self.limit() == other.limit()
        &&& self.fee() == other.fee()
    }

    /// Opens an account with `balance` cents that pays `interest_rate` basis
    /// points each period and may be overdrawn by `overdraft_limit` cents at
    /// `overdraft_fee` cents a time.
    pub fn new(
        name: &str,
        balance: i64,
        interest_rate: u32,
        overdraft_limit: i64,
        overdraft_fee: i64,
    ) -> (account: Self)
        requires
            -MAX_MONEY <= balance <= MAX_MONEY,
            0 <= overdraft_limit,
            0 <= overdraft_fee,
            overdraft_limit + overdraft_fee <= MAX_MONEY,
        ensures
            account.inv(),
            account.name() == name@,
            account.starting() == balance,
            account.cash() == balance,
            account.rate() == interest_rate,
            account.limit() == overdraft_limit,
            account.fee() == overdraft_fee,
            account.ledger() == Seq::<Transaction>::empty(),
    {
        CheckingSavingsAccount {
            name: String::from_str(name),
            starting_balance: balance,
            balance,
            interest_rate,
            overdraft_limit,
            overdraft_fee,
            transactions: Vec::new(),
        }
    }

    /// The ledger entries that a withdrawal of `amount` cents adds: the fee
    /// first where the withdrawal overdraws the account.
    pub open spec fn withdrawal_entries(&self, amount: int, note: Option<Seq<char>>) -> Seq<Entry> {
        let paid = Entry { kind: TransactionType::Withdrawal, amount, note };
        if amount > self.cash() {
            seq![
                Entry {
                    kind: TransactionType::Fee,
                    amount: self.fee(),
                    note: Some(overdraft_text()),
                },
                paid,
            ]
        } else {
            seq![paid]
        }
    }

    /// The account is what `before` becomes by a withdrawal of `amount` cents,
    /// for an amount that is not negative: refused and unchanged where the
    /// amount exceeds balance and overdraft limit, and otherwise paid, with
    /// the fee charged where the amount exceeds the balance.
    pub open spec fn withdrawn_from(
        &self,
        before: &CheckingSavingsAccount,
        amount: int,
        note: Option<Seq<char>>,
    ) -> bool {
        if amount > before.cash() + before.limit() {
            *self == *before
        } else {
            &&& self.cash() == before.cash() - amount - (if amount > before.cash() {
                before.fee()
            } else {
                0
            })
            &&& extends(self.ledger(), before.ledger())
            &&& entries(self.ledger()) == entries(before.ledger()) + before.withdrawal_entries(
                amount,
                note,
            )
        }
    }

    /// What a withdrawal of `amount` cents returns, for an amount that is not
    /// negative.
    pub open spec fn withdrawal_result(&self, amount: i64) -> Result<i64, WithdrawalError> {
        if amount > self.cash() + self.limit() {
            Err(
                WithdrawalError::InsufficientFunds {
                    requested: amount,
                    available: self.cash() as i64,
                },
            )
        } else {
            Ok(amount)
        }
    }

    /// Moves `amount` cents to another account: a withdrawal here, as
    /// `withdraw` makes it, and a deposit there. A negative amount is refused
    /// and changes nothing. A withdrawal that fails ends the transfer with
    /// its failure and nothing changed. A deposit that failed would have the
    /// money put back here and the transfer end with `DepositFailed`; no
    /// deposit of an amount that was withdrawn fails.
    pub fn transfer<A: Account>(&mut self, other: &mut A, amount: i64, note: Option<&str>) -> (r:
        Result<i64, TransferError>)
        requires
            old(self).inv(),
            old(other).wf(),
            amount <= MAX_MONEY,
            old(other).spec_balance() + amount <= MAX_MONEY,
        ensures
            final(self).inv(),
            final(other).wf(),
            final(self).same_terms(old(self)),
            final(other).spec_name() == old(other).spec_name(),
            final(other).spec_starting_balance() == old(other).spec_starting_balance(),
            extends(final(other).spec_ledger(), old(other).spec_ledger()),
            amount < 0 ==> r == Err::<i64, TransferError>(TransferError::NegativeAmount(amount))
                && *final(self) == *old(self) && *final(other) == *old(other),
            0 <= amount ==> final(self).withdrawn_from(
                old(self),
                amount as int,
                Some(transfer_out_text(note, old(other).spec_name())),
            ),
            0 <= amount && old(self).withdrawal_result(amount) is Err ==> r == Err::<
                i64,
                TransferError,
            >(
                TransferError::InsufficientFunds {
                    requested: amount,
                    available: old(self).cash() as i64,
                },
            ) && *final(other) == *old(other),
            0 <= amount && old(self).withdrawal_result(amount) is Ok ==> {
                &&& r == Ok::<i64, TransferError>(amount)
                &&& final(other).spec_balance() == old(other).spec_balance() + amount
                &&& final(other).spec_cash_balance() == old(other).spec_cash_balance() + amount
                &&& entries(final(other).spec_ledger()) == entries(old(other).spec_ledger()).push(
                    Entry {
                        kind: TransactionType::Deposit,
                        amount: amount as int,
                        note: Some(transfer_in_text(note, old(self).name())),
                    },
                )
            },
    {
        if amount < 0 {
            return Err(TransferError::NegativeAmount(amount));
        }
        let withdraw_note: String = transfer_out_note(note, other.get_name());
        let withdrawn_amount: i64 = match self.withdraw(amount, Some(withdraw_note.as_str())) {
            Ok(paid) => paid,
            Err(e) => {
                return Err(TransferError::from_withdrawal(e));
            },
        };
        let deposit_note: String = transfer_in_note(note, self.get_name());
        match other.deposit(withdrawn_amount, Some(deposit_note.as_str())) {
            Ok(deposited_amount) => Ok(deposited_amount),
            Err(_) => {
                let _ = self.deposit(withdrawn_amount, None);
                Err(TransferError::DepositFailed)
            },
        }
    }
}

/// The ledger of a well-formed account accounts for its balance to the cent.
/// Every operation keeps the account well formed, so `validate_balance`
/// succeeds after any sequence of them.
pub proof fn law_ledger_accounts_for_balance(account: &CheckingSavingsAccount)
    requires
        account.wf(),
    ensures
        account.spec_balance() == expected_balance(
            account.spec_starting_balance(),
            account.spec_ledger(),
        ),
{
}

impl Account for CheckingSavingsAccount {
    open spec fn wf(&self) -> bool {
        self.inv()
    }

    open spec fn spec_name(&self) -> Seq<char> {
        self.name()
    }

    open spec fn spec_balance(&self) -> int {
        self.cash()
    }

    open spec fn spec_cash_balance(&self) -> int {
        self.cash()
    }

    open spec fn spec_starting_balance(&self) -> int {
        self.starting()
    }

    open spec fn spec_ledger(&self) -> Seq<Transaction> {
        self.ledger()
    }

    open spec fn spec_accrual(&self) -> int {
        interest_on(self.cash(), self.rate())
    }

    open spec fn spec_can_accrue(&self) -> bool {
        self.cash() + interest_on(self.cash(), self.rate()) <= MAX_MONEY
    }

    proof fn lemma_bounds(&self) {
        assert(self.inv());
        assert(self.spec_balance() == self.cash());
        assert(self.spec_cash_balance() == self.cash());
        assert(self.spec_starting_balance() == self.starting());
        assert(self.spec_ledger() == self.ledger());
    }

    /// Credits `amount` cents to the balance.
    fn deposit(&mut self, amount: i64, note: Option<&str>) -> (r: Result<i64, DepositError>)
        ensures
            final(self).same_terms(old(self)),
    {
        if amount < 0 {
            return Err(DepositError::NegativeAmount(amount));
        }
        let entry = Transaction::record(TransactionType::Deposit, amount, plain_note(note));
        proof {
            lemma_push_entry(self.transactions@, entry);
        }
        self.balance = self.balance + amount;
        self.transactions.push(entry);
        Ok(amount)
    }

    /// Pays out `amount` cents. An amount that exceeds the balance and the
    /// overdraft limit together is refused and changes nothing. An amount
    /// that exceeds the balance alone is paid, and the overdraft fee is
    /// charged and recorded before it.
    fn withdraw(&mut self, amount: i64, note: Option<&str>) -> (r: Result<i64, WithdrawalError>)
        ensures
            final(self).same_terms(old(self)),
            0 <= amount ==> r == old(self).withdrawal_result(amount) && final(self).withdrawn_from(
                old(self),
                amount as int,
                spec_plain_note(note),
            ),
    {
        if amount < 0 {
            return Err(WithdrawalError::NegativeAmount(amount));
        }
        if amount > self.balance + self.overdraft_limit {
            return Err(
                WithdrawalError::InsufficientFunds { requested: amount, available: self.balance },
            );
        }
        let ghost ledger = self.transactions@;
        if amount > self.balance {
            let fee = Transaction::record(
                TransactionType::Fee,
                self.overdraft_fee,
                Some(String::from_str("Overdraft fee")),
            );
            proof {
                lemma_push_entry(self.transactions@, fee);
            }
            self.balance = self.balance - self.overdraft_fee;
            self.transactions.push(fee);
        }
        let entry = Transaction::record(TransactionType::Withdrawal, amount, plain_note(note));
        proof {
            lemma_push_entry(self.transactions@, entry);
            assert(entries(self.transactions@.push(entry)) =~= entries(ledger) + old(
                self,
            ).withdrawal_entries(amount as int, spec_plain_note(note)));
        }
        self.balance = self.balance - amount;
        self.transactions.push(entry);
        Ok(amount)
    }

    fn can_accrue(&self) -> (r: bool) {
        if self.balance <= 0 {
            return true;
        }
        proof {
            lemma_mul_bounds(
                self.balance as int,
                self.interest_rate as int,
                MAX_MONEY as int,
                u32::MAX as int,
            );
            lemma_div_bounds(
                self.balance * self.interest_rate,
                MAX_MONEY * u32::MAX,
                RATE_SCALE as int,
            );
        }
        let interest: i64 = mul_div(self.balance, self.interest_rate as i64, RATE_SCALE);
        interest <= MAX_MONEY - self.balance
    }

    /// Credits one period's interest on a balance above zero and records it
    /// where it is above zero.
    fn accrue(&mut self) -> (credited: i64)
        ensures
            final(self).same_terms(old(self)),
            entries(final(self).ledger()) == entries(old(self).ledger()) + (if interest_on(
                old(self).cash(),
                old(self).rate(),
            ) > 0 {
                seq![
                    Entry {
                        kind: TransactionType::Interest,
                        amount: interest_on(old(self).cash(), old(self).rate()),
                        note: Some(interest_text(checking_interest_opening(), old(self).rate())),
                    },
                ]
            } else {
                Seq::<Entry>::empty()
            }),
    {
        proof {
            assert(entries(self.transactions@) + Seq::<Entry>::empty() =~= entries(
                self.transactions@,
            ));
        }
        if self.balance <= 0 {
            return 0;
        }
        proof {
            lemma_mul_bounds(
                self.balance as int,
                self.interest_rate as int,
                MAX_MONEY as int,
                u32::MAX as int,
            );
            lemma_div_bounds(
                self.balance * self.interest_rate,
                MAX_MONEY * u32::MAX,
                RATE_SCALE as int,
            );
        }
        let interest: i64 = mul_div(self.balance, self.interest_rate as i64, RATE_SCALE);
        if interest > 0 {
            let entry = Transaction::record(
                TransactionType::Interest,
                interest,
                Some(interest_note("Interest at ", self.interest_rate)),
            );
            proof {
                lemma_push_entry(self.transactions@, entry);
                assert(entries(self.transactions@).push(entry@) =~= entries(self.transactions@)
                    + seq![entry@]);
            }
            self.balance = self.balance + interest;
            self.transactions.push(entry);
            interest
        } else {
            0
        }
    }

    fn get_balance(&self) -> (b: i64) {
        self.balance
    }

    fn get_cash_balance(&self) -> (b: i64) {
        self.balance
    }

    fn get_name(&self) -> (n: &str) {
        self.name.as_str()
    }

    fn get_starting_balance(&self) -> (b: i64) {
        self.starting_balance
    }

    fn generate_transactions(&self) -> (ledger: &Vec<Transaction>) {
        &self.transactions
    }
}

} // verus!
