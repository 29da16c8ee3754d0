//! Ledger entries and the totals taken over a ledger.

use vstd::prelude::*;
use crate::clock::now_millis;
use crate::fixed::MAX_MONEY;

verus! {

/// What a ledger entry records.
#[derive(Debug, Clone, Copy, PartialEq, Eq, Hash, Structural)]
pub enum TransactionType {
    Deposit,
    Withdrawal,
    Interest,
    UnrealizedGain,
    Fee,
    Tax,
    Sale,
    Purchase,
}

/// One ledger entry. `amount` is in cents and never negative; `timestamp`
/// counts milliseconds since the Unix epoch.
#[derive(Debug, Clone)]
pub struct Transaction {
    pub transaction_type: TransactionType,
    pub amount: i64,
    pub timestamp: i64,
    pub description: Option<String>,
}

/// What an entry says once the time of its recording is set aside.
pub struct Entry {
    pub kind: TransactionType,
    pub amount: int,
    pub note: Option<Seq<char>>,
}

/// The text of an optional note.
pub open spec fn note_view(note: Option<String>) -> Option<Seq<char>> {
    match note {
        Some(s) => Some(s@),
        None => None,
    }
}

impl View for Transaction {
    type V = Entry;

    open spec fn view(&self) -> Entry {
        Entry {
            kind: self.transaction_type,
            amount: self.amount as int,
            note: note_view(self.description),
        }
    }
}

impl Transaction {
    /// Makes an entry stamped with the current time.
    pub fn record(kind: TransactionType, amount: i64, description: Option<String>) -> (t:
        Transaction)
        ensures
            t.transaction_type == kind,
            t.amount == amount,
            t.description == description,
            t@ == (Entry { kind, amount: amount as int, note: note_view(description) }),
    {
        Transaction { transaction_type: kind, amount, timestamp: now_millis(), description }
    }
}

/// What the entries of a ledger say, in order.
pub open spec fn entries(ledger: Seq<Transaction>) -> Seq<Entry> {
    Seq::new(ledger.len(), |i: int| ledger[i]@)
}

/// The ledger `after` is the ledger `before` with entries added behind it:
/// nothing that was recorded has been changed or removed.
pub open spec fn extends(after: Seq<Transaction>, before: Seq<Transaction>) -> bool {
    &&& before.len() <= after.len()
    &&& forall|i: int| 0 <= i < before.len() ==> after[i] == before[i]
}

/// Every amount in the ledger lies between zero and `MAX_MONEY`.
pub open spec fn amounts_bounded(ledger: Seq<Transaction>) -> bool {
    forall|i: int| 0 <= i < ledger.len() ==> 0 <= (#[trigger] ledger[i]).amount <= MAX_MONEY
}

/// The summed amount of the entries of one kind.
pub open spec fn total_of(ledger: Seq<Transaction>, kind: TransactionType) -> int
    decreases ledger.len(),
{
    if ledger.len() == 0 {
        0
    } else if ledger.last().transaction_type == kind {
        total_of(ledger.drop_last(), kind) + ledger.last().amount
    } else {
        total_of(ledger.drop_last(), kind)
    }
}

/// What has flowed into an account: deposits, interest and unrealized gains.
pub open spec fn inflows(ledger: Seq<Transaction>) -> int {
    total_of(ledger, TransactionType::Deposit) + total_of(ledger, TransactionType::Interest)
        + total_of(ledger, TransactionType::UnrealizedGain)
}

/// What has flowed out of an account: withdrawals, taxes and fees.
pub open spec fn outflows(ledger: Seq<Transaction>) -> int {
    total_of(ledger, TransactionType::Withdrawal) + total_of(ledger, TransactionType::Tax)
        + total_of(ledger, TransactionType::Fee)
}

/// Inflows less outflows. Sales and purchases move money inside the account
/// and count for nothing here.
pub open spec fn net_flow(ledger: Seq<Transaction>) -> int {
    inflows(ledger) - outflows(ledger)
}

/// The change that one entry makes to the net flow.
pub open spec fn flow_of(t: Transaction) -> int {
    match t.transaction_type {
        TransactionType::Deposit | TransactionType::Interest | TransactionType::UnrealizedGain => {
            t.amount as int
        },
        TransactionType::Withdrawal | TransactionType::Tax | TransactionType::Fee => -(t.amount as int),
        TransactionType::Sale | TransactionType::Purchase => 0,
    }
}

/// The change that one entry makes to the cash on hand when the ledger is
/// replayed: sales bring cash in and purchases take it out, while an
/// unrealized gain moves no cash.
pub open spec fn cash_flow_of(t: Transaction) -> int {
    match t.transaction_type {
        TransactionType::Deposit | TransactionType::Interest | TransactionType::Sale => {
            t.amount as int
        },
        TransactionType::Withdrawal | TransactionType::Tax | TransactionType::Fee
        | TransactionType::Purchase => -(t.amount as int),
        TransactionType::UnrealizedGain => 0,
    }
}

/// Appending an entry adds its flow to the net flow and keeps the bounds.
pub proof fn lemma_push_entry(ledger: Seq<Transaction>, t: Transaction)
    ensures
        net_flow(ledger.push(t)) == net_flow(ledger) + flow_of(t),
        forall|k: TransactionType|
            #[trigger] total_of(ledger.push(t), k) == total_of(ledger, k) + (if t.transaction_type
                == k {
                t.amount as int
            } else {
                0
            }),
        entries(ledger.push(t)) == entries(ledger).push(t@),
        amounts_bounded(ledger) && 0 <= t.amount <= MAX_MONEY ==> amounts_bounded(ledger.push(t)),
{
    assert(ledger.push(t).drop_last() =~= ledger);
    assert(entries(ledger.push(t)) =~= entries(ledger).push(t@));
}

/// The totals of a ledger with bounded amounts are bounded by its length.
pub proof fn lemma_total_bounds(ledger: Seq<Transaction>, kind: TransactionType)
    requires
        amounts_bounded(ledger),
    ensures
        0 <= total_of(ledger, kind) <= ledger.len() * MAX_MONEY,
    decreases ledger.len(),
{
    if ledger.len() > 0 {
        let front = ledger.drop_last();
        assert forall|i: int| 0 <= i < front.len() implies 0 <= (#[trigger] front[i]).amount
            <= MAX_MONEY by {
            assert(front[i] == ledger[i]);
        }
        lemma_total_bounds(front, kind);
        assert(0 <= ledger.last().amount <= MAX_MONEY);
        assert(ledger.len() * MAX_MONEY == front.len() * MAX_MONEY + MAX_MONEY) by (nonlinear_arith)
            requires
                ledger.len() == front.len() + 1,
        ;
    }
}

/// The summed amounts of a ledger, kind by kind.
#[derive(Debug, Clone, Copy, PartialEq, Eq, Structural)]
pub struct TransactionSummary {
    pub deposits: i128,
    pub withdrawals: i128,
    pub interest: i128,
    pub unrealized_gains: i128,
    pub fees: i128,
    pub taxes: i128,
    pub sales: i128,
    pub purchases: i128,
}

impl TransactionSummary {
    /// The total recorded for one kind.
    pub open spec fn spec_get(&self, kind: TransactionType) -> int {
        match kind {
            TransactionType::Deposit => self.deposits as int,
            TransactionType::Withdrawal => self.withdrawals as int,
            TransactionType::Interest => self.interest as int,
            TransactionType::UnrealizedGain => self.unrealized_gains as int,
            TransactionType::Fee => self.fees as int,
            TransactionType::Tax => self.taxes as int,
            TransactionType::Sale => self.sales as int,
            TransactionType::Purchase => self.purchases as int,
        }
    }

    /// The summary holds the totals of `ledger`.
    pub open spec fn summarizes(&self, ledger: Seq<Transaction>) -> bool {
        forall|k: TransactionType| self.spec_get(k) == #[trigger] total_of(ledger, k)
    }

    /// The total recorded for one kind; zero for a kind that never occurred.
    pub fn get(&self, kind: TransactionType) -> (r: i128)
        ensures
            r == self.spec_get(kind),
    {
        match kind {
            TransactionType::Deposit => self.deposits,
            TransactionType::Withdrawal => self.withdrawals,
            TransactionType::Interest => self.interest,
            TransactionType::UnrealizedGain => self.unrealized_gains,
            TransactionType::Fee => self.fees,
            TransactionType::Tax => self.taxes,
            TransactionType::Sale => self.sales,
            TransactionType::Purchase => self.purchases,
        }
    }
}

/// Adds up the amounts of a ledger, kind by kind.
pub fn summarize(ledger: &Vec<Transaction>) -> (s: TransactionSummary)
    requires
        amounts_bounded(ledger@),
    ensures
        s.summarizes(ledger@),
{
    let mut s = TransactionSummary {
        deposits: 0,
        withdrawals: 0,
        interest: 0,
        unrealized_gains: 0,
        fees: 0,
        taxes: 0,
        sales: 0,
        purchases: 0,
    };
    let mut i: usize = 0;
    proof {
        assert(ledger@.take(0) =~= Seq::<Transaction>::empty());
    }
    while i < ledger.len()
        invariant
            0 <= i <= ledger.len(),
            amounts_bounded(ledger@),
            s.summarizes(ledger@.take(i as int)),
        decreases ledger.len() - i,
    {
        let ghost before = ledger@.take(i as int);
        let ghost after = ledger@.take(i + 1);
        proof {
            assert(after.drop_last() =~= before);
            assert(after.last() == ledger@[i as int]);
            assert forall|j: int| 0 <= j < before.len() implies 0 <= (#[trigger] before[j]).amount
                <= MAX_MONEY by {
                assert(before[j] == ledger@[j]);
            }
            assert forall|k: TransactionType| 0 <= #[trigger] total_of(before, k) <= i
                * MAX_MONEY by {
                lemma_total_bounds(before, k);
            }
            assert(i * MAX_MONEY <= usize::MAX * MAX_MONEY) by (nonlinear_arith)
                requires
                    i <= usize::MAX,
            ;
            assert(s.spec_get(TransactionType::Deposit) == total_of(before, TransactionType::Deposit));
            assert(s.spec_get(TransactionType::Withdrawal) == total_of(before, TransactionType::Withdrawal));
            assert(s.spec_get(TransactionType::Interest) == total_of(before, TransactionType::Interest));
            assert(s.spec_get(TransactionType::UnrealizedGain) == total_of(before, TransactionType::UnrealizedGain));
            assert(s.spec_get(TransactionType::Fee) == total_of(before, TransactionType::Fee));
            assert(s.spec_get(TransactionType::Tax) == total_of(before, TransactionType::Tax));
            assert(s.spec_get(TransactionType::Sale) == total_of(before, TransactionType::Sale));
            assert(s.spec_get(TransactionType::Purchase) == total_of(before, TransactionType::Purchase));
        }
        let amount: i128 = ledger[i].amount as i128;
        match ledger[i].transaction_type {
            TransactionType::Deposit => {
                s.deposits = s.deposits + amount;
            },
            TransactionType::Withdrawal => {
                s.withdrawals = s.withdrawals + amount;
            },
            TransactionType::Interest => {
                s.interest = s.interest + amount;
            },
            TransactionType::UnrealizedGain => {
                s.unrealized_gains = s.unrealized_gains + amount;
            },
            TransactionType::Fee => {
                s.fees = s.fees + amount;
            },
            TransactionType::Tax => {
                s.taxes = s.taxes + amount;
            },
            TransactionType::Sale => {
                s.sales = s.sales + amount;
            },
            TransactionType::Purchase => {
                s.purchases = s.purchases + amount;
            },
        }
        i = i + 1;
    }
    proof {
        assert(ledger@.take(ledger.len() as int) =~= ledger@);
    }
    s
}

} // verus!
