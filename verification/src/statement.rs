//! Replaying a ledger into a statement with running balances.

use vstd::prelude::*;
use vstd::string::StringExecFns;
use crate::fixed::MAX_MONEY;
use crate::text::{signed_string, signed_text};
use crate::transaction::{
    amounts_bounded, cash_flow_of, flow_of, note_view, Transaction, TransactionType,
};

verus! {

/// The name under which a kind of entry is listed.
pub open spec fn kind_text(kind: TransactionType) -> Seq<char> {
    match kind {
        TransactionType::Deposit => "Deposit"@,
        TransactionType::Withdrawal => "Withdrawal"@,
        TransactionType::Interest => "Interest"@,
        TransactionType::UnrealizedGain => "UnrealizedGain"@,
        TransactionType::Fee => "Fee"@,
        TransactionType::Tax => "Tax"@,
        TransactionType::Sale => "Sale"@,
        TransactionType::Purchase => "Purchase"@,
    }
}

fn kind_name(kind: TransactionType) -> (s: &'static str)
    ensures
        s@ == kind_text(kind),
{
    match kind {
        TransactionType::Deposit => "Deposit",
        TransactionType::Withdrawal => "Withdrawal",
        TransactionType::Interest => "Interest",
        TransactionType::UnrealizedGain => "UnrealizedGain",
        TransactionType::Fee => "Fee",
        TransactionType::Tax => "Tax",
        TransactionType::Sale => "Sale",
        TransactionType::Purchase => "Purchase",
    }
}

/// The entry was recorded within the period: not before `start` and not
/// after `end`, where these are given.
pub open spec fn in_period(t: Transaction, start: Option<i64>, end: Option<i64>) -> bool {
    &&& start matches Some(s) ==> t.timestamp >= s
    &&& end matches Some(e) ==> t.timestamp <= e
}

/// The entries recorded within the period, in order.
pub open spec fn listed(ledger: Seq<Transaction>, start: Option<i64>, end: Option<i64>) -> Seq<
    Transaction,
>
    decreases ledger.len(),
{
    if ledger.len() == 0 {
        ledger
    } else if in_period(ledger.last(), start, end) {
        listed(ledger.drop_last(), start, end).push(ledger.last())
    } else {
        listed(ledger.drop_last(), start, end)
    }
}

/// The summed change that the entries make to the total balance.
pub open spec fn balance_change(shown: Seq<Transaction>) -> int
    decreases shown.len(),
{
    if shown.len() == 0 {
        0
    } else {
        balance_change(shown.drop_last()) + flow_of(shown.last())
    }
}

/// The summed change that the entries make to the cash on hand.
pub open spec fn cash_change(shown: Seq<Transaction>) -> int
    decreases shown.len(),
{
    if shown.len() == 0 {
        0
    } else {
        cash_change(shown.drop_last()) + cash_flow_of(shown.last())
    }
}

/// The text of a note; empty where there is none.
pub open spec fn note_text(note: Option<Seq<char>>) -> Seq<char> {
    match note {
        Some(s) => s,
        None => Seq::empty(),
    }
}

/// One line of a statement: time, kind, amount, the running cash and total
/// balances after the entry, and the note.
pub open spec fn line_text(t: Transaction, running_cash: int, running_balance: int) -> Seq<char> {
    signed_text(t.timestamp as int) + " | "@ + kind_text(t.transaction_type) + " | "@
        + signed_text(t.amount as int) + " | "@ + signed_text(running_cash) + " | "@ + signed_text(
        running_balance,
    ) + " | "@ + note_text(note_view(t.description)) + "\n"@
}

/// The lines of a statement for the entries shown. The running balances
/// start from `starting` and follow the entries shown alone.
pub open spec fn lines_text(starting: int, shown: Seq<Transaction>) -> Seq<char>
    decreases shown.len(),
{
    if shown.len() == 0 {
        Seq::empty()
    } else {
        lines_text(starting, shown.drop_last()) + line_text(
            shown.last(),
            starting + cash_change(shown),
            starting + balance_change(shown),
        )
    }
}

/// The head of a statement.
pub open spec fn head_text(name: Seq<char>) -> Seq<char> {
    "Statement for: "@ + name + "\n"@
        + "Time (ms) | Type | Amount | Cash Balance | Total Balance | Description\n"@
}

/// The foot of a statement.
pub open spec fn foot_text(balance: int) -> Seq<char> {
    "\nCurrent Balance: "@ + signed_text(balance) + " cents"@
}

/// A statement: head, one line for each entry recorded within the period,
/// and the current balance.
pub open spec fn statement_text(
    name: Seq<char>,
    starting: int,
    balance: int,
    ledger: Seq<Transaction>,
    start: Option<i64>,
    end: Option<i64>,
) -> Seq<char> {
    head_text(name) + lines_text(starting, listed(ledger, start, end)) + foot_text(balance)
}

/// The running changes of bounded entries stay within their number times
/// `MAX_MONEY`, and the entries listed are no more than the entries given.
pub proof fn lemma_listed_bounds(ledger: Seq<Transaction>, start: Option<i64>, end: Option<i64>)
    requires
        amounts_bounded(ledger),
    ensures
        listed(ledger, start, end).len() <= ledger.len(),
        -(ledger.len() * MAX_MONEY) <= balance_change(listed(ledger, start, end)) <= ledger.len()
            * MAX_MONEY,
        -(ledger.len() * MAX_MONEY) <= cash_change(listed(ledger, start, end)) <= ledger.len()
            * MAX_MONEY,
    decreases ledger.len(),
{
    if ledger.len() > 0 {
        let front = ledger.drop_last();
        assert forall|i: int| 0 <= i < front.len() implies 0 <= (#[trigger] front[i]).amount
            <= MAX_MONEY by {
            assert(front[i] == ledger[i]);
        }
        lemma_listed_bounds(front, start, end);
        assert(0 <= ledger.last().amount <= MAX_MONEY);
        assert(ledger.len() * MAX_MONEY == front.len() * MAX_MONEY + MAX_MONEY) by (nonlinear_arith)
            requires
                ledger.len() == front.len() + 1,
        ;
        if in_period(ledger.last(), start, end) {
            assert(listed(ledger, start, end).drop_last() =~= listed(front, start, end));
        }
    }
}

fn append_line(text: &mut String, t: &Transaction, running_cash: i128, running_balance: i128)
    ensures
        final(text)@ == old(text)@ + line_text(*t, running_cash as int, running_balance as int),
{
    let ghost before = text@;
    text.append(signed_string(t.timestamp as i128).as_str());
    text.append(" | ");
    text.append(kind_name(t.transaction_type));
    text.append(" | ");
    text.append(signed_string(t.amount as i128).as_str());
    text.append(" | ");
    text.append(signed_string(running_cash).as_str());
    text.append(" | ");
    text.append(signed_string(running_balance).as_str());
    text.append(" | ");
    match &t.description {
        Some(note) => {
            text.append(note.as_str());
        },
        None => {
            proof {
                assert(text@ + Seq::<char>::empty() =~= text@);
            }
        },
    }
    text.append("\n");
    proof {
        assert(text@ =~= before + line_text(*t, running_cash as int, running_balance as int));
    }
}

/// Writes the statement of an account: its name, one line for each ledger
/// entry recorded within the period with the balances running from the
/// starting balance, and the current balance.
pub fn render_statement(
    name: &str,
    starting: i64,
    balance: i64,
    ledger: &Vec<Transaction>,
    start: Option<i64>,
    end: Option<i64>,
) -> (text: String)
    requires
        amounts_bounded(ledger@),
    ensures
        text@ == statement_text(name@, starting as int, balance as int, ledger@, start, end),
{
    let mut text: String = String::from_str("Statement for: ");
    text.append(name);
    text.append("\n");
    text.append("Time (ms) | Type | Amount | Cash Balance | Total Balance | Description\n");
    let mut running_balance: i128 = starting as i128;
    let mut running_cash: i128 = starting as i128;
    let mut i: usize = 0;
    proof {
        assert(ledger@.take(0) =~= Seq::<Transaction>::empty());
        assert(text@ =~= head_text(name@) + lines_text(
            starting as int,
            listed(ledger@.take(0), start, end),
        ));
    }
    while i < ledger.len()
        invariant
            0 <= i <= ledger.len(),
            amounts_bounded(ledger@),
            running_balance == starting + balance_change(
                listed(ledger@.take(i as int), start, end),
            ),
            running_cash == starting + cash_change(listed(ledger@.take(i as int), start, end)),
            text@ == head_text(name@) + lines_text(
                starting as int,
                listed(ledger@.take(i as int), start, end),
            ),
        decreases ledger.len() - i,
    {
        let t: &Transaction = &ledger[i];
        let ghost before = ledger@.take(i as int);
        let ghost after = ledger@.take(i + 1);
        proof {
            assert(after.drop_last() =~= before);
            assert(after.last() == *t);
            assert forall|j: int| 0 <= j < before.len() implies 0 <= (#[trigger] before[j]).amount
                <= MAX_MONEY by {
                assert(before[j] == ledger@[j]);
            }
            lemma_listed_bounds(before, start, end);
            assert(before.len() * MAX_MONEY <= 0xffff_ffff_ffff_ffff * 10_000_000_000_000)
                by (nonlinear_arith)
                requires
                    before.len() <= 0xffff_ffff_ffff_ffff,
            ;
            assert(0 <= t.amount <= MAX_MONEY);
        }
        let early: bool = match start {
            Some(s) => t.timestamp < s,
            None => false,
        };
        let late: bool = match end {
            Some(e) => t.timestamp > e,
            None => false,
        };
        if !early && !late {
            let amount: i128 = t.amount as i128;
            match t.transaction_type {
                TransactionType::Deposit | TransactionType::Interest => {
                    running_balance = running_balance + amount;
                    running_cash = running_cash + amount;
                },
                TransactionType::UnrealizedGain => {
                    running_balance = running_balance + amount;
                },
                TransactionType::Withdrawal | TransactionType::Fee | TransactionType::Tax => {
                    running_balance = running_balance - amount;
                    running_cash = running_cash - amount;
                },
                TransactionType::Purchase => {
                    running_cash = running_cash - amount;
                },
                TransactionType::Sale => {
                    running_cash = running_cash + amount;
                },
            }
            proof {
                assert(listed(after, start, end).drop_last() =~= listed(before, start, end));
            }
            let ghost lines = lines_text(starting as int, listed(before, start, end));
            append_line(&mut text, t, running_cash, running_balance);
            proof {
                assert(text@ =~= head_text(name@) + (lines + line_text(
                    *t,
                    running_cash as int,
                    running_balance as int,
                )));
            }
        }
        i = i + 1;
    }
    proof {
        assert(ledger@.take(ledger.len() as int) =~= ledger@);
    }
    text.append("\nCurrent Balance: ");
    text.append(signed_string(balance as i128).as_str());
    text.append(" cents");
    proof {
        assert(text@ =~= statement_text(
            name@,
            starting as int,
            balance as int,
            ledger@,
            start,
            end,
        ));
    }
    text
}

} // verus!
