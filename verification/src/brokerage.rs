//! The brokerage account: cash, purchase lots and a ledger, with trading that
//! keeps the books exact.

use vstd::prelude::*;
use vstd::string::StringExecFns;
use crate::account::{expected_balance, Account};
use crate::asset::{
    all_wf, lemma_class_partition, lemma_total_value_bounds, lemma_total_value_concat,
    lemma_total_value_step, lots_of_class, lots_outside_class, spec_lot_value, total_value,
    Asset, AssetClass,
};
use crate::errors::{DepositError, TransferError, WithdrawalError};
use crate::fixed::{
    lemma_div_bounds, lemma_mul_bounds, lemma_proportion_bounds, mul_div, spec_mul_div,
    FRACTION_SCALE, MAX_MONEY, MAX_PRICE, RATE_SCALE, SHARE_SCALE,
};
use crate::notes::{
    gains_note, gains_text, interest_note, interest_text, plain_note, purchase_note, sale_note,
    spec_withdrawal_note, transfer_in_note, transfer_in_text, transfer_out_note,
    transfer_out_text, withdrawal_note, withdrawal_text,
};
use crate::outcome::{
    accrued_lots, alloc_of, buy_outcome, class_value, correction_outcome, fraction_of,
    hard_outcome, interest_opening, lemma_accrued_lot, lemma_accrued_lots, lemma_whole_lots,
    liquidate_outcome, liquidation_entries, liquidation_tax_text, paid_outcome, payment_result,
    rebalance_buy_outcome, rebalance_result, raw_needs, sale_candidates, sale_entries,
    sale_tax_text, sell_outcome, soft_outcome, spec_buffered, swap_outcome,
    tax_entries, valid_target, whole_lots, withdraw_outcome, Holdings, Outcome,
    REBALANCE_MARGIN, REBALANCE_SHARES, SALE_MARGIN_PERCENT,
};
use crate::sale::{
    calc_cap_gains_tax, lemma_gain_bounds, lemma_sale_plan, lemma_sorted_by_gain, plan_sale,
    sale_plan, sold_bounded, sold_positive, sort_by_gain, sorted_by_gain, spec_sold_whole,
    spec_tax, SalePlan, SoldLot,
};
use crate::transaction::{
    amounts_bounded, entries, extends, lemma_push_entry, net_flow, Entry, Transaction,
    TransactionType,
};

verus! {

/// An account that holds cash and purchase lots of securities.
pub struct BrokerageAccount {
    name: String,
    starting_balance: i64,
    cash_balance: i64,
    cash_interest: u32,
    assets: Vec<Asset>,
    transactions: Vec<Transaction>,
}

impl BrokerageAccount {
    /// The cash on hand in cents.
    pub closed spec fn cash(&self) -> int {
        self.cash_balance as int
    }

    /// The lots held, in the order in which the store keeps them.
    pub closed spec fn lots(&self) -> Seq<Asset> {
        self.assets@
    }

    /// The ledger, oldest entry first.
    pub closed spec fn ledger(&self) -> Seq<Transaction> {
        self.transactions@
    }

    /// The balance with which the account was opened.
    pub closed spec fn starting(&self) -> int {
        self.starting_balance as int
    }

    /// The interest paid on cash for one period, in basis points.
    pub closed spec fn interest_rate(&self) -> int {
        self.cash_interest as int
    }

    /// The account's name.
    pub closed spec fn name(&self) -> Seq<char> {
        self.name@
    }

    /// The total balance: cash and the value of every lot.
    pub open spec fn balance(&self) -> int {
        self.cash() + total_value(self.lots())
    }

    /// The state that every operation keeps up: amounts within range, lots
    /// well formed, and a balance that the ledger accounts for to the cent.
    pub open spec fn inv(&self) -> bool {
        &&& 0 <= self.cash()
        &&& all_wf(self.lots())
        &&& self.balance() <= MAX_MONEY
        &&& 0 <= self.starting() <= MAX_MONEY
        &&& amounts_bounded(self.ledger())
        &&& self.balance() == self.starting() + net_flow(self.ledger())
    }

    /// Name, starting balance and interest rate are those of `other`.
    pub open spec fn same_terms(&self, other: &BrokerageAccount) -> bool {
        &&& self.name() == other.name()
        &&& self.starting() == other.starting()
        &&& self.interest_rate() == other.interest_rate()
    }

    /// The shares of cash, equity and bonds in the total balance, in parts per
    /// million; all zero for an account that holds nothing.
    pub open spec fn spec_asset_alloc(&self) -> (int, int, int) {
        alloc_of(self.holdings())
    }

    /// What the account holds.
    pub open spec fn holdings(&self) -> Holdings {
        Holdings { cash: self.cash(), lots: self.lots() }
    }

    /// The account is what `before` becomes by an operation with outcome `o`:
    /// it holds what the outcome says, and its ledger is the ledger of
    /// `before` with the outcome's entries added behind it.
    pub open spec fn follows(&self, before: &BrokerageAccount, o: Outcome) -> bool {
        &&& self.holdings() == o.holdings
        &&& extends(self.ledger(), before.ledger())
        &&& entries(self.ledger()) == entries(before.ledger()) + o.added
    }

    /// Opens an account that holds `starting_balance` cents in cash and pays
    /// `cash_interest` basis points on cash each period.
    pub fn new(name: &str, starting_balance: i64, cash_interest: u32) -> (account: Self)
        requires
            0 <= starting_balance <= MAX_MONEY,
        ensures
            account.inv(),
            account.name() == name@,
            account.starting() == starting_balance,
            account.cash() == starting_balance,
            account.interest_rate() == cash_interest,
            account.lots() == Seq::<Asset>::empty(),
            account.ledger() == Seq::<Transaction>::empty(),
    {
        BrokerageAccount {
            name: String::from_str(name),
            starting_balance,
            cash_interest,
            cash_balance: starting_balance,
            assets: Vec::new(),
            transactions: Vec::new(),
        }
    }

    fn has_enough_cash(&self, amount: i64) -> (r: bool)
        ensures
            r == (self.cash() >= amount),
    {
        self.cash_balance >= amount
    }

    /// The summed value of all lots.
    fn value_of_lots(&self) -> (v: i64)
        requires
            all_wf(self.lots()),
            total_value(self.lots()) <= MAX_MONEY,
        ensures
            v == total_value(self.lots()),
            0 <= v <= MAX_MONEY,
    {
        let mut v: i64 = 0;
        let mut i: usize = 0;
        proof {
            assert(self.assets@.take(0) =~= Seq::<Asset>::empty());
            lemma_total_value_bounds(self.assets@);
        }
        while i < self.assets.len()
            invariant
                0 <= i <= self.assets.len(),
                all_wf(self.assets@),
                total_value(self.assets@) <= MAX_MONEY,
                v == total_value(self.assets@.take(i as int)),
                forall|j: int|
                    0 <= j <= self.assets@.len() ==> 0 <= #[trigger] total_value(
                        self.assets@.take(j),
                    ) <= total_value(self.assets@),
            decreases self.assets.len() - i,
        {
            proof {
                lemma_total_value_step(self.assets@, i as int);
                assert(0 <= total_value(self.assets@.take(i + 1)) <= total_value(self.assets@));
            }
            v = v + self.assets[i].get_value();
            i = i + 1;
        }
        proof {
            assert(self.assets@.take(self.assets.len() as int) =~= self.assets@);
        }
        v
    }

    /// The lots of one class, in their order.
    pub fn get_assets_of_type(&self, class: AssetClass) -> (found: Vec<Asset>)
        ensures
            found@ == lots_of_class(self.lots(), class),
    {
        let mut found: Vec<Asset> = Vec::new();
        let mut i: usize = 0;
        proof {
            assert(self.assets@.take(0) =~= Seq::<Asset>::empty());
        }
        while i < self.assets.len()
            invariant
                0 <= i <= self.assets.len(),
                found@ == lots_of_class(self.assets@.take(i as int), class),
            decreases self.assets.len() - i,
        {
            proof {
                assert(self.assets@.take(i + 1).drop_last() =~= self.assets@.take(i as int));
                assert(self.assets@.take(i + 1).last() == self.assets@[i as int]);
            }
            if self.assets[i].asset_class == class {
                found.push(self.assets[i]);
            }
            i = i + 1;
        }
        proof {
            assert(self.assets@.take(self.assets.len() as int) =~= self.assets@);
        }
        found
    }

    /// The lots of every class but one, in their order.
    fn assets_outside_type(&self, class: AssetClass) -> (found: Vec<Asset>)
        ensures
            found@ == lots_outside_class(self.lots(), class),
    {
        let mut found: Vec<Asset> = Vec::new();
        let mut i: usize = 0;
        proof {
            assert(self.assets@.take(0) =~= Seq::<Asset>::empty());
        }
        while i < self.assets.len()
            invariant
                0 <= i <= self.assets.len(),
                found@ == lots_outside_class(self.assets@.take(i as int), class),
            decreases self.assets.len() - i,
        {
            proof {
                assert(self.assets@.take(i + 1).drop_last() =~= self.assets@.take(i as int));
                assert(self.assets@.take(i + 1).last() == self.assets@[i as int]);
            }
            if self.assets[i].asset_class != class {
                found.push(self.assets[i]);
            }
            i = i + 1;
        }
        proof {
            assert(self.assets@.take(self.assets.len() as int) =~= self.assets@);
        }
        found
    }

    /// The summed value of the lots of one class.
    pub fn value_of_class(&self, class: AssetClass) -> (v: i64)
        requires
            self.inv(),
        ensures
            v == class_value(self.lots(), class),
            0 <= v <= total_value(self.lots()),
    {
        let found = self.get_assets_of_type(class);
        proof {
            lemma_class_partition(self.assets@, class);
            lemma_total_value_bounds(found@);
            lemma_total_value_bounds(lots_outside_class(self.assets@, class));
        }
        let mut v: i64 = 0;
        let mut i: usize = 0;
        proof {
            assert(found@.take(0) =~= Seq::<Asset>::empty());
        }
        while i < found.len()
            invariant
                0 <= i <= found.len(),
                all_wf(found@),
                total_value(found@) <= MAX_MONEY,
                v == total_value(found@.take(i as int)),
                forall|j: int|
                    0 <= j <= found@.len() ==> 0 <= #[trigger] total_value(found@.take(j))
                        <= total_value(found@),
            decreases found.len() - i,
        {
            proof {
                lemma_total_value_step(found@, i as int);
                assert(0 <= total_value(found@.take(i + 1)) <= total_value(found@));
            }
            v = v + found[i].get_value();
            i = i + 1;
        }
        proof {
            assert(found@.take(found.len() as int) =~= found@);
        }
        v
    }

    /// The shares of cash, equity and bonds in the total balance, in parts per
    /// million.
    pub fn get_asset_alloc(&self) -> (alloc: (i64, i64, i64))
        requires
            self.inv(),
        ensures
            (alloc.0 as int, alloc.1 as int, alloc.2 as int) == self.spec_asset_alloc(),
            0 <= alloc.0 <= FRACTION_SCALE,
            0 <= alloc.1 <= FRACTION_SCALE,
            0 <= alloc.2 <= FRACTION_SCALE,
    {
        let lots_value: i64 = self.value_of_lots();
        let total: i64 = self.cash_balance + lots_value;
        if total == 0 {
            return (0, 0, 0);
        }
        let equity: i64 = self.value_of_class(AssetClass::Equity);
        let bond: i64 = self.value_of_class(AssetClass::Bond);
        proof {
            lemma_proportion_bounds(FRACTION_SCALE as int, self.cash_balance as int, total as int);
            lemma_proportion_bounds(FRACTION_SCALE as int, equity as int, total as int);
            lemma_proportion_bounds(FRACTION_SCALE as int, bond as int, total as int);
        }
        (
            mul_div(FRACTION_SCALE, self.cash_balance, total),
            mul_div(FRACTION_SCALE, equity, total),
            mul_div(FRACTION_SCALE, bond, total),
        )
    }

    /// Buys `shares` share units at `price` cents a share for the price of
    /// `shares * price / SHARE_SCALE` cents, as a new lot of its own. The
    /// purchase is refused, and nothing changes, where the cash on hand does
    /// not cover the price. A purchase leaves the total balance as it was.
    pub fn buy(&mut self, shares: i64, price: i64, asset_class: AssetClass) -> (r: Result<
        i64,
        WithdrawalError,
    >)
        requires
            old(self).inv(),
            0 < shares,
            0 < price <= MAX_PRICE,
        ensures
            final(self).inv(),
            final(self).same_terms(old(self)),
            final(self).follows(
                old(self),
                buy_outcome(old(self).holdings(), shares as int, price as int, asset_class),
            ),
            r == payment_result(
                buy_outcome(old(self).holdings(), shares as int, price as int, asset_class),
                spec_lot_value(shares as int, price as int) as i64,
            ),
            final(self).balance() == old(self).balance(),
            r is Err ==> *final(self) == *old(self),
    {
        proof {
            lemma_proportion_bounds(shares as int, price as int, SHARE_SCALE as int);
        }
        let amount: i64 = mul_div(shares, price, SHARE_SCALE);
        if !self.has_enough_cash(amount) {
            proof {
                assert(entries(self.transactions@) + Seq::<Entry>::empty() =~= entries(
                    self.transactions@,
                ));
            }
            return Err(
                WithdrawalError::InsufficientFunds {
                    requested: amount,
                    available: self.cash_balance,
                },
            );
        }
        let lot = Asset { asset_class, shares, cost_basis: amount, current_price: price };
        proof {
            lemma_total_value_bounds(self.assets@);
            assert(lot.spec_value() == amount);
            assert(lot.wf());
            assert(self.assets@.push(lot).drop_last() =~= self.assets@);
            assert forall|i: int| 0 <= i < self.assets@.push(lot).len() implies (
            #[trigger] self.assets@.push(lot)[i]).wf() by {
                if i < self.assets@.len() {
                    assert(self.assets@.push(lot)[i] == self.assets@[i]);
                }
            }
        }
        self.cash_balance = self.cash_balance - amount;
        self.assets.push(lot);
        let alloc = self.get_asset_alloc();
        let note: String = purchase_note(&lot, alloc);
        let entry = Transaction::record(TransactionType::Purchase, amount, Some(note));
        proof {
            lemma_push_entry(self.transactions@, entry);
            assert(entries(self.transactions@).push(entry@) =~= entries(self.transactions@)
                + seq![entry@]);
        }
        self.transactions.push(entry);
        Ok(amount)
    }

    /// Sells every lot at its value, pays the tax on the net gain out of the
    /// proceeds, and returns what is left of them. The ledger gets one sale
    /// for each lot and, where tax is due, the tax. The total balance falls by
    /// the tax and by nothing else, and an account that held anything is all
    /// cash afterwards.
    pub fn liquidate(&mut self) -> (r: Result<i64, WithdrawalError>)
        requires
            old(self).inv(),
        ensures
            final(self).inv(),
            final(self).same_terms(old(self)),
            final(self).follows(old(self), liquidate_outcome(old(self).holdings())),
            r == Ok::<i64, WithdrawalError>(
                (total_value(old(self).lots()) - spec_tax(whole_lots(old(self).lots()))) as i64,
            ),
            0 <= spec_tax(whole_lots(old(self).lots())) <= total_value(old(self).lots()),
            final(self).balance() == old(self).balance() - spec_tax(whole_lots(old(self).lots())),
            old(self).balance() > 0 ==> final(self).spec_asset_alloc() == (
                FRACTION_SCALE as int,
                0int,
                0int,
            ),
    {
        let ghost lots = self.assets@;
        let ghost ledger = self.transactions@;
        let mut sold: Vec<SoldLot> = Vec::new();
        let mut i: usize = 0;
        proof {
            lemma_whole_lots(lots);
            lemma_total_value_bounds(lots);
        }
        while i < self.assets.len()
            invariant
                0 <= i <= self.assets.len(),
                self.assets@ == lots,
                all_wf(lots),
                sold@ == whole_lots(lots.take(i as int)),
            decreases self.assets.len() - i,
        {
            let lot: Asset = self.assets[i];
            let value: i64 = lot.get_value();
            sold.push(SoldLot { asset: lot, proceeds: value });
            proof {
                assert(sold@ =~= whole_lots(lots.take(i + 1)));
            }
            i = i + 1;
        }
        proof {
            assert(lots.take(lots.len() as int) =~= lots);
        }
        let proceeds: i64 = self.value_of_lots();
        let tax: i64 = calc_cap_gains_tax(&sold);
        let mut k: usize = 0;
        proof {
            assert(entries(ledger) + liquidation_entries(lots.take(0)) =~= entries(ledger));
        }
        while k < sold.len()
            invariant
                0 <= k <= sold.len(),
                sold@ == whole_lots(lots),
                sold_bounded(sold@),
                all_wf(lots),
                self.assets@ == lots,
                self.cash_balance == old(self).cash_balance,
                self.starting_balance == old(self).starting_balance,
                self.cash_interest == old(self).cash_interest,
                self.name == old(self).name,
                amounts_bounded(self.transactions@),
                extends(self.transactions@, ledger),
                net_flow(self.transactions@) == net_flow(ledger),
                entries(self.transactions@) == entries(ledger) + liquidation_entries(
                    lots.take(k as int),
                ),
            decreases sold.len() - k,
        {
            let entry = Transaction::record(
                TransactionType::Sale,
                sold[k].proceeds,
                Some(String::from_str("Selling shares as part of liquidation")),
            );
            proof {
                lemma_push_entry(self.transactions@, entry);
                assert(sold@[k as int] == spec_sold_whole(lots[k as int]));
                assert(entries(ledger) + liquidation_entries(lots.take(k + 1)) =~= (entries(ledger)
                    + liquidation_entries(lots.take(k as int))).push(entry@));
            }
            self.transactions.push(entry);
            k = k + 1;
        }
        proof {
            assert(lots.take(lots.len() as int) =~= lots);
            lemma_gain_bounds(sold@);
        }
        self.cash_balance = self.cash_balance + proceeds - tax;
        self.assets.clear();
        if tax > 0 {
            let entry = Transaction::record(
                TransactionType::Tax,
                tax,
                Some(String::from_str("Tax paid on capital gains during liquidation")),
            );
            proof {
                lemma_push_entry(self.transactions@, entry);
                assert(entries(self.transactions@.push(entry)) =~= entries(ledger)
                    + liquidation_entries(lots) + tax_entries(tax as int, liquidation_tax_text()));
            }
            self.transactions.push(entry);
        } else {
            proof {
                assert(entries(self.transactions@) =~= entries(ledger) + liquidation_entries(lots)
                    + tax_entries(tax as int, liquidation_tax_text()));
            }
        }
        proof {
            assert(entries(ledger) + liquidation_entries(lots) + tax_entries(
                tax as int,
                liquidation_tax_text(),
            ) =~= entries(ledger) + (liquidation_entries(lots) + tax_entries(
                tax as int,
                liquidation_tax_text(),
            )));
            assert(lots_of_class(self.assets@, AssetClass::Equity) =~= Seq::<Asset>::empty());
            assert(lots_of_class(self.assets@, AssetClass::Bond) =~= Seq::<Asset>::empty());
            if old(self).balance() > 0 {
                let c = self.cash_balance as int;
                assert(c > 0);
                assert((FRACTION_SCALE * c) / c == FRACTION_SCALE) by (nonlinear_arith)
                    requires
                        c > 0,
                ;
                assert((FRACTION_SCALE * 0) / c == 0) by (nonlinear_arith)
                    requires
                        c > 0,
                ;
            }
        }
        Ok(proceeds - tax)
    }

    /// The interest that the cash on hand earns in one period.
    pub open spec fn spec_interest(&self) -> int {
        spec_mul_div(self.cash(), self.interest_rate(), RATE_SCALE as int)
    }

    /// What the lots gain in value over one period.
    pub open spec fn spec_gains(&self) -> int {
        total_value(accrued_lots(self.lots())) - total_value(self.lots())
    }

    /// The plan by which the account would raise `amount` cents from its lots
    /// of one class.
    pub open spec fn spec_sale_plan(&self, amount: int, class: AssetClass) -> SalePlan {
        sale_plan(sale_candidates(self.lots(), class), amount)
    }

    /// Raises `amount` cents by selling lots of one class, least gain first.
    ///
    /// Whole lots go while they are worth no more than is still needed, and
    /// the lot that is worth more is split. The tax on the net gain is paid
    /// from the cash that was on hand before the sale. On success the cash
    /// grows by the amount less the tax and the total balance falls by the
    /// tax alone. Where the lots of the class are worth less than the amount,
    /// or the cash does not cover the tax, the sale is refused and nothing
    /// changes. An amount that exceeds the whole balance liquidates the
    /// account first, and the sale is refused for want of lots.
    pub fn sell(&mut self, amount: i64, class: AssetClass) -> (r: Result<i64, WithdrawalError>)
        requires
            old(self).inv(),
        ensures
            final(self).inv(),
            final(self).same_terms(old(self)),
            amount < 0 ==> r == Err::<i64, WithdrawalError>(WithdrawalError::NegativeAmount(amount))
                && *final(self) == *old(self),
            0 <= amount ==> final(self).follows(
                old(self),
                sell_outcome(old(self).holdings(), amount as int, class),
            ) && r == payment_result(
                sell_outcome(old(self).holdings(), amount as int, class),
                amount,
            ),
            r is Ok ==> {
                let tax = spec_tax(old(self).spec_sale_plan(amount as int, class).sold);
                &&& 0 <= tax <= amount
                &&& final(self).cash() == old(self).cash() + amount - tax
                &&& final(self).balance() == old(self).balance() - tax
            },
            r is Err && amount <= old(self).balance() ==> *final(self) == *old(self),
    {
        proof {
            lemma_total_value_bounds(self.assets@);
        }
        if amount < 0 {
            return Err(WithdrawalError::NegativeAmount(amount));
        }
        let lots_value: i64 = self.value_of_lots();
        if amount > self.cash_balance + lots_value {
            let _ = self.liquidate();
            return Err(WithdrawalError::InsufficientFunds { requested: amount, available: 0 });
        }
        let ghost lots = self.assets@;
        let ghost ledger = self.transactions@;
        let class_lots = self.get_assets_of_type(class);
        let mut others = self.assets_outside_type(class);
        proof {
            lemma_class_partition(lots, class);
            lemma_sorted_by_gain(class_lots@);
            lemma_total_value_bounds(others@);
            lemma_total_value_bounds(class_lots@);
            lemma_sale_plan(sorted_by_gain(class_lots@), amount as int);
        }
        let sorted = sort_by_gain(class_lots);
        let plan = plan_sale(&sorted, amount);
        let sold: Vec<SoldLot> = plan.0;
        let mut kept: Vec<Asset> = plan.1;
        let raised: i64 = plan.2;
        proof {
            assert(entries(ledger) + Seq::<Entry>::empty() =~= entries(ledger));
        }
        if raised < amount {
            return Err(WithdrawalError::InsufficientFunds { requested: amount, available: raised });
        }
        let tax: i64 = calc_cap_gains_tax(&sold);
        if self.cash_balance < tax {
            return Err(
                WithdrawalError::InsufficientFunds {
                    requested: tax,
                    available: self.cash_balance,
                },
            );
        }
        let ghost kept_lots = kept@;
        proof {
            lemma_total_value_concat(others@, kept_lots);
            assert forall|i: int| 0 <= i < (others@ + kept_lots).len() implies (#[trigger] (others@
                + kept_lots)[i]).wf() by {
                if i < others@.len() {
                    assert((others@ + kept_lots)[i] == others@[i]);
                } else {
                    assert((others@ + kept_lots)[i] == kept_lots[i - others@.len()]);
                }
            }
        }
        others.append(&mut kept);
        self.assets = others;
        self.cash_balance = self.cash_balance - tax + amount;
        if tax > 0 {
            let entry = Transaction::record(
                TransactionType::Tax,
                tax,
                Some(String::from_str("Capital gains tax paid on asset sale")),
            );
            proof {
                lemma_push_entry(self.transactions@, entry);
                assert(entries(self.transactions@.push(entry)) =~= entries(ledger) + tax_entries(
                    tax as int,
                    sale_tax_text(),
                ));
            }
            self.transactions.push(entry);
        } else {
            proof {
                assert(entries(self.transactions@) =~= entries(ledger) + tax_entries(
                    tax as int,
                    sale_tax_text(),
                ));
            }
        }
        let ghost taxed = self.transactions@;
        let mut k: usize = 0;
        proof {
            assert(entries(taxed) + sale_entries(sold@.take(0)) =~= entries(taxed));
        }
        while k < sold.len()
            invariant
                0 <= k <= sold.len(),
                sold_bounded(sold@),
                sold_positive(sold@),
                self.assets@ == lots_outside_class(lots, class) + kept_lots,
                self.cash_balance == old(self).cash_balance - tax + amount,
                self.starting_balance == old(self).starting_balance,
                self.cash_interest == old(self).cash_interest,
                self.name == old(self).name,
                amounts_bounded(self.transactions@),
                extends(self.transactions@, ledger),
                net_flow(self.transactions@) == net_flow(taxed),
                entries(self.transactions@) == entries(taxed) + sale_entries(sold@.take(k as int)),
            decreases sold.len() - k,
        {
            let piece: SoldLot = sold[k];
            let entry = Transaction::record(
                TransactionType::Sale,
                piece.proceeds,
                Some(sale_note(&piece.asset)),
            );
            proof {
                lemma_push_entry(self.transactions@, entry);
                assert(entries(taxed) + sale_entries(sold@.take(k + 1)) =~= (entries(taxed)
                    + sale_entries(sold@.take(k as int))).push(entry@));
            }
            self.transactions.push(entry);
            k = k + 1;
        }
        proof {
            assert(sold@.take(sold.len() as int) =~= sold@);
            assert(entries(ledger) + tax_entries(tax as int, sale_tax_text()) + sale_entries(sold@)
                =~= entries(ledger) + (tax_entries(tax as int, sale_tax_text()) + sale_entries(
                sold@,
            )));
        }
        Ok(amount)
    }
}

impl BrokerageAccount {
    /// The cents by which equity and bonds fall short of their targets.
    fn rebalance_needs(&self, target_equity: i64, target_cash: i64) -> (needs: (i64, i64))
        requires
            self.inv(),
            valid_target(target_equity as int),
            valid_target(target_cash as int),
        ensures
            (needs.0 as int, needs.1 as int) == raw_needs(
                self.holdings(),
                target_equity as int,
                target_cash as int,
            ),
            -MAX_MONEY <= needs.0 <= self.balance(),
            -2 * MAX_MONEY <= needs.1 <= self.balance(),
    {
        let lots_value: i64 = self.value_of_lots();
        let total: i64 = self.cash_balance + lots_value;
        let equity: i64 = self.value_of_class(AssetClass::Equity);
        let bond: i64 = self.value_of_class(AssetClass::Bond);
        proof {
            lemma_proportion_bounds(total as int, target_equity as int, FRACTION_SCALE as int);
            lemma_proportion_bounds(total as int, target_cash as int, FRACTION_SCALE as int);
        }
        let equity_target: i64 = mul_div(total, target_equity, FRACTION_SCALE);
        let cash_target: i64 = mul_div(total, target_cash, FRACTION_SCALE);
        let bond_target: i64 = total - cash_target - equity_target;
        (equity_target - equity, bond_target - bond)
    }

    /// Buys ten shares of one class for `need` cents, or nothing where a
    /// tenth of the need is less than a cent.
    fn rebalance_buy(&mut self, need: i64, class: AssetClass) -> (r: Result<(), WithdrawalError>)
        requires
            old(self).inv(),
            need <= MAX_MONEY,
        ensures
            final(self).inv(),
            final(self).same_terms(old(self)),
            final(self).balance() == old(self).balance(),
            final(self).follows(
                old(self),
                rebalance_buy_outcome(old(self).holdings(), need as int, class),
            ),
            r is Err <==> rebalance_buy_outcome(old(self).holdings(), need as int, class).error
                is Some,
            r is Err ==> r == Err::<(), WithdrawalError>(
                rebalance_buy_outcome(old(self).holdings(), need as int, class).error.unwrap(),
            ),
    {
        proof {
            assert(entries(self.transactions@) + Seq::<Entry>::empty() =~= entries(
                self.transactions@,
            ));
        }
        if need <= 0 {
            return Ok(());
        }
        let price: i64 = need / 10;
        if price <= 0 {
            return Ok(());
        }
        match self.buy(REBALANCE_SHARES, price, class) {
            Ok(_) => Ok(()),
            Err(e) => Err(e),
        }
    }

    /// Uses cash to buy equity and bonds towards the target allocation, and
    /// sells nothing. The targets are fractions of the total balance in parts
    /// per million: `target_equity_alloc` for equity, `target_cash_alloc` for
    /// cash, and what they leave for bonds. A target below zero or not below
    /// one is refused with `NegativeAmount` and nothing changes. Where the
    /// cash on hand does not cover what both classes need, both needs are
    /// scaled down together. At most one lot of ten shares is bought for each
    /// class. Returns the allocation afterwards.
    pub fn soft_rebalance(&mut self, target_equity_alloc: i64, target_cash_alloc: i64) -> (r:
        Result<(i64, i64, i64), WithdrawalError>)
        requires
            old(self).inv(),
        ensures
            final(self).inv(),
            final(self).same_terms(old(self)),
            final(self).balance() == old(self).balance(),
            !valid_target(target_cash_alloc as int) ==> r == Err::<
                (i64, i64, i64),
                WithdrawalError,
            >(WithdrawalError::NegativeAmount(target_cash_alloc)) && *final(self) == *old(self),
            valid_target(target_cash_alloc as int) && !valid_target(target_equity_alloc as int)
                ==> r == Err::<(i64, i64, i64), WithdrawalError>(
                WithdrawalError::NegativeAmount(target_equity_alloc),
            ) && *final(self) == *old(self),
            valid_target(target_cash_alloc as int) && valid_target(target_equity_alloc as int)
                ==> final(self).follows(
                old(self),
                soft_outcome(
                    old(self).holdings(),
                    target_equity_alloc as int,
                    target_cash_alloc as int,
                ),
            ) && r == rebalance_result(
                soft_outcome(
                    old(self).holdings(),
                    target_equity_alloc as int,
                    target_cash_alloc as int,
                ),
            ),
    {
        if target_cash_alloc >= FRACTION_SCALE || target_cash_alloc < 0 {
            return Err(WithdrawalError::NegativeAmount(target_cash_alloc));
        }
        if target_equity_alloc >= FRACTION_SCALE || target_equity_alloc < 0 {
            return Err(WithdrawalError::NegativeAmount(target_equity_alloc));
        }
        let ghost ledger = self.transactions@;
        let raw = self.rebalance_needs(target_equity_alloc, target_cash_alloc);
        let mut need_for_equity: i64 = raw.0;
        let mut need_for_bond: i64 = raw.1;
        proof {
            lemma_total_value_bounds(self.assets@);
        }
        if self.cash_balance < need_for_bond + need_for_equity {
            let needed: i64 = need_for_bond + need_for_equity;
            proof {
                lemma_proportion_bounds(
                    FRACTION_SCALE as int,
                    self.cash_balance as int,
                    needed as int,
                );
            }
            let covered: i64 = mul_div(FRACTION_SCALE, self.cash_balance, needed);
            let ratio: i64 = if covered > REBALANCE_MARGIN {
                covered - REBALANCE_MARGIN
            } else {
                0
            };
            if need_for_equity > 0 {
                proof {
                    lemma_proportion_bounds(
                        need_for_equity as int,
                        ratio as int,
                        FRACTION_SCALE as int,
                    );
                }
                need_for_equity = mul_div(need_for_equity, ratio, FRACTION_SCALE);
            }
            if need_for_bond > 0 {
                proof {
                    lemma_proportion_bounds(
                        need_for_bond as int,
                        ratio as int,
                        FRACTION_SCALE as int,
                    );
                }
                need_for_bond = mul_div(need_for_bond, ratio, FRACTION_SCALE);
            }
        }
        let ghost first = rebalance_buy_outcome(
            self.holdings(),
            need_for_equity as int,
            AssetClass::Equity,
        );
        match self.rebalance_buy(need_for_equity, AssetClass::Equity) {
            Ok(_) => {},
            Err(e) => {
                return Err(e);
            },
        }
        let ghost second = rebalance_buy_outcome(
            self.holdings(),
            need_for_bond as int,
            AssetClass::Bond,
        );
        let ghost middle = self.transactions@;
        match self.rebalance_buy(need_for_bond, AssetClass::Bond) {
            Ok(_) => {},
            Err(e) => {
                proof {
                    assert(entries(ledger) + (first.added + second.added) =~= entries(middle)
                        + second.added);
                }
                return Err(e);
            },
        }
        proof {
            assert(entries(ledger) + (first.added + second.added) =~= entries(middle)
                + second.added);
        }
        Ok(self.get_asset_alloc())
    }

    /// Sells `amount` cents of one class and buys another with what the sale
    /// brought in.
    fn swap(&mut self, amount: i64, from: AssetClass, to: AssetClass) -> (r: Result<
        (),
        WithdrawalError,
    >)
        requires
            old(self).inv(),
            0 < amount,
        ensures
            final(self).inv(),
            final(self).same_terms(old(self)),
            final(self).balance() <= old(self).balance(),
            final(self).follows(
                old(self),
                swap_outcome(old(self).holdings(), amount as int, from, to),
            ),
            r is Err <==> swap_outcome(old(self).holdings(), amount as int, from, to).error
                is Some,
            r is Err ==> r == Err::<(), WithdrawalError>(
                swap_outcome(old(self).holdings(), amount as int, from, to).error.unwrap(),
            ),
    {
        let ghost ledger = self.transactions@;
        let ghost sale = sell_outcome(self.holdings(), amount as int, from);
        proof {
            lemma_total_value_bounds(self.assets@);
        }
        match self.sell(amount, from) {
            Ok(_) => {},
            Err(e) => {
                return Err(e);
            },
        }
        proof {
            lemma_total_value_bounds(self.assets@);
        }
        let ghost purchase = rebalance_buy_outcome(self.holdings(), amount as int, to);
        let ghost middle = self.transactions@;
        let r = self.rebalance_buy(amount, to);
        proof {
            assert(entries(ledger) + (sale.added + purchase.added) =~= entries(middle)
                + purchase.added);
        }
        r
    }

    /// Rebalances by buying, as `soft_rebalance` does, and follows with one
    /// corrective pass: equity above its target is sold and bonds are bought
    /// with what the sale brought in; failing that, bonds above their target
    /// are sold and equity is bought. One pass is made and no more. Returns
    /// the allocation afterwards, or the failure of the step that failed,
    /// with the account as the steps before it left it.
    pub fn hard_rebalance(&mut self, target_equity_alloc: i64, target_cash_alloc: i64) -> (r:
        Result<(i64, i64, i64), WithdrawalError>)
        requires
            old(self).inv(),
        ensures
            final(self).inv(),
            final(self).same_terms(old(self)),
            final(self).balance() <= old(self).balance(),
            !valid_target(target_cash_alloc as int) ==> r == Err::<
                (i64, i64, i64),
                WithdrawalError,
            >(WithdrawalError::NegativeAmount(target_cash_alloc)) && *final(self) == *old(self),
            valid_target(target_cash_alloc as int) && !valid_target(target_equity_alloc as int)
                ==> r == Err::<(i64, i64, i64), WithdrawalError>(
                WithdrawalError::NegativeAmount(target_equity_alloc),
            ) && *final(self) == *old(self),
            valid_target(target_cash_alloc as int) && valid_target(target_equity_alloc as int)
                ==> final(self).follows(
                old(self),
                hard_outcome(
                    old(self).holdings(),
                    target_equity_alloc as int,
                    target_cash_alloc as int,
                ),
            ) && r == rebalance_result(
                hard_outcome(
                    old(self).holdings(),
                    target_equity_alloc as int,
                    target_cash_alloc as int,
                ),
            ),
    {
        let ghost ledger = self.transactions@;
        let ghost soft = soft_outcome(
            self.holdings(),
            target_equity_alloc as int,
            target_cash_alloc as int,
        );
        match self.soft_rebalance(target_equity_alloc, target_cash_alloc) {
            Ok(_) => {},
            Err(e) => {
                return Err(e);
            },
        }
        let ghost middle = self.transactions@;
        let ghost correction = correction_outcome(
            self.holdings(),
            target_equity_alloc as int,
            target_cash_alloc as int,
        );
        let needs = self.rebalance_needs(target_equity_alloc, target_cash_alloc);
        proof {
            assert(entries(ledger) + (soft.added + correction.added) =~= entries(middle)
                + correction.added);
            assert(entries(middle) + Seq::<Entry>::empty() =~= entries(middle));
        }
        if needs.0 < 0 {
            match self.swap(-needs.0, AssetClass::Equity, AssetClass::Bond) {
                Ok(_) => {},
                Err(e) => {
                    return Err(e);
                },
            }
        } else if needs.1 < 0 {
            match self.swap(-needs.1, AssetClass::Bond, AssetClass::Equity) {
                Ok(_) => {},
                Err(e) => {
                    return Err(e);
                },
            }
        }
        Ok(self.get_asset_alloc())
    }
}

impl BrokerageAccount {
    /// The note under which a transfer to an account of the given name is
    /// recorded on the paying side.
    pub open spec fn transfer_note(note: Option<&str>, to: Seq<char>) -> Option<Seq<char>> {
        Some(withdrawal_text(transfer_out_text(note, to)))
    }

    /// Moves `amount` cents to another account: a withdrawal here, as
    /// `withdraw` makes it, and a deposit there. A negative amount is refused
    /// and changes nothing. A withdrawal that fails ends the transfer with
    /// its failure, this account being as the withdrawal left it and the
    /// other untouched. A deposit that failed would have the money put back
    /// here and the transfer end with `DepositFailed`; no deposit of an
    /// amount that was withdrawn fails.
    pub fn transfer<A: Account>(&mut self, other: &mut A, amount: i64, note: Option<&str>) -> (r:
        Result<i64, TransferError>)
        requires
            old(self).inv(),
            old(other).wf(),
            amount <= MAX_MONEY,
            old(other).spec_balance() + amount <= MAX_MONEY,
        ensures
            final(self).inv(),
            final(other).wf(),
            final(self).same_terms(old(self)),
            final(other).spec_name() == old(other).spec_name(),
            final(other).spec_starting_balance() == old(other).spec_starting_balance(),
            extends(final(other).spec_ledger(), old(other).spec_ledger()),
            amount < 0 ==> r == Err::<i64, TransferError>(TransferError::NegativeAmount(amount))
                && *final(self) == *old(self) && *final(other) == *old(other),
            0 <= amount ==> {
                let paying = withdraw_outcome(
                    old(self).holdings(),
                    amount as int,
                    Self::transfer_note(note, old(other).spec_name()),
                );
                &&& final(self).follows(old(self), paying)
                &&& paying.error matches Some(e) ==> r == Err::<i64, TransferError>(
                    TransferError::spec_from_withdrawal(e),
                ) && *final(other) == *old(other)
                &&& paying.error is None ==> {
                    &&& r == Ok::<i64, TransferError>(amount)
                    &&& final(other).spec_balance() == old(other).spec_balance() + amount
                    &&& final(other).spec_cash_balance() == old(other).spec_cash_balance()
                        + amount
                    &&& entries(final(other).spec_ledger()) == entries(
                        old(other).spec_ledger(),
                    ).push(
                        Entry {
                            kind: TransactionType::Deposit,
                            amount: amount as int,
                            note: Some(transfer_in_text(note, old(self).name())),
                        },
                    )
                }
            },
    {
        if amount < 0 {
            return Err(TransferError::NegativeAmount(amount));
        }
        let withdraw_note: String = transfer_out_note(note, other.get_name());
        let withdrawn_amount: i64 = match self.withdraw(amount, Some(withdraw_note.as_str())) {
            Ok(paid) => paid,
            Err(e) => {
                return Err(TransferError::from_withdrawal(e));
            },
        };
        let deposit_note: String = transfer_in_note(note, self.get_name());
        match other.deposit(withdrawn_amount, Some(deposit_note.as_str())) {
            Ok(deposited_amount) => Ok(deposited_amount),
            Err(_) => {
                proof {
                    lemma_total_value_bounds(self.assets@);
                }
                let _ = self.deposit(withdrawn_amount, None);
                Err(TransferError::DepositFailed)
            },
        }
    }
}

/// The ledger of a well-formed account accounts for its balance to the cent:
/// the balance is the starting balance with deposits, interest and gains
/// added and withdrawals, taxes and fees taken away. Every operation keeps
/// the account well formed, so `validate_balance` succeeds after any
/// sequence of them.
pub proof fn law_ledger_accounts_for_balance(account: &BrokerageAccount)
    requires
        account.wf(),
    ensures
        account.spec_balance() == expected_balance(
            account.spec_starting_balance(),
            account.spec_ledger(),
        ),
{
}

impl Account for BrokerageAccount {
    open spec fn wf(&self) -> bool {
        self.inv()
    }

    open spec fn spec_name(&self) -> Seq<char> {
        self.name()
    }

    open spec fn spec_balance(&self) -> int {
        self.balance()
    }

    open spec fn spec_cash_balance(&self) -> int {
        self.cash()
    }

    open spec fn spec_starting_balance(&self) -> int {
        self.starting()
    }

    open spec fn spec_ledger(&self) -> Seq<Transaction> {
        self.ledger()
    }

    open spec fn spec_accrual(&self) -> int {
        self.spec_interest() + self.spec_gains()
    }

    open spec fn spec_can_accrue(&self) -> bool {
        &&& all_wf(accrued_lots(self.lots()))
        &&& self.cash() + self.spec_interest() + total_value(accrued_lots(self.lots()))
            <= MAX_MONEY
    }

    proof fn lemma_bounds(&self) {
        assert(self.inv());
        lemma_total_value_bounds(self.lots());
        assert(0 <= total_value(self.lots()));
        assert(self.spec_balance() == self.cash() + total_value(self.lots()));
        assert(self.spec_cash_balance() == self.cash());
        assert(self.spec_starting_balance() == self.starting());
        assert(self.spec_ledger() == self.ledger());
    }

    /// Credits `amount` cents to the cash on hand.
    fn deposit(&mut self, amount: i64, note: Option<&str>) -> (r: Result<i64, DepositError>)
        ensures
            amount >= 0 ==> final(self).lots() == old(self).lots() && final(self).interest_rate()
                == old(self).interest_rate(),
    {
        if amount < 0 {
            return Err(DepositError::NegativeAmount(amount));
        }
        proof {
            lemma_total_value_bounds(self.assets@);
        }
        let entry = Transaction::record(TransactionType::Deposit, amount, plain_note(note));
        proof {
            lemma_push_entry(self.transactions@, entry);
        }
        self.cash_balance = self.cash_balance + amount;
        self.transactions.push(entry);
        Ok(amount)
    }

    /// Pays out `amount` cents of cash. Where the cash on hand falls short,
    /// equity is sold first for the shortfall and a margin, as `sell` does it;
    /// a sale that is refused ends the withdrawal with the sale's failure.
    /// Where the cash still falls short after the sale, the withdrawal is
    /// refused and the account stays as the sale left it.
    fn withdraw(&mut self, amount: i64, note: Option<&str>) -> (r: Result<i64, WithdrawalError>)
        ensures
            final(self).interest_rate() == old(self).interest_rate(),
            0 <= amount ==> final(self).follows(
                old(self),
                withdraw_outcome(old(self).holdings(), amount as int, spec_withdrawal_note(note)),
            ) && r == payment_result(
                withdraw_outcome(old(self).holdings(), amount as int, spec_withdrawal_note(note)),
                amount,
            ),
    {
        proof {
            lemma_total_value_bounds(self.assets@);
        }
        if amount < 0 {
            return Err(WithdrawalError::NegativeAmount(amount));
        }
        if !self.has_enough_cash(amount) {
            let shortfall: i64 = amount - self.cash_balance;
            proof {
                lemma_mul_bounds(shortfall as int, 115, MAX_MONEY as int, 115);
                lemma_div_bounds(shortfall * 115, MAX_MONEY * 115, 100);
            }
            let raise: i64 = mul_div(shortfall, SALE_MARGIN_PERCENT, 100);
            match self.sell(raise, AssetClass::Equity) {
                Ok(_) => {},
                Err(e) => {
                    return Err(e);
                },
            }
            proof {
                lemma_total_value_bounds(self.assets@);
            }
            if !self.has_enough_cash(amount) {
                return Err(
                    WithdrawalError::InsufficientFunds {
                        requested: amount,
                        available: self.cash_balance,
                    },
                );
            }
        }
        let entry = Transaction::record(TransactionType::Withdrawal, amount, withdrawal_note(note));
        proof {
            lemma_push_entry(self.transactions@, entry);
            let ledger = old(self).transactions@;
            let recorded = spec_withdrawal_note(note);
            if amount <= old(self).cash() {
                assert(entries(ledger).push(entry@) =~= entries(ledger) + paid_outcome(
                    old(self).holdings(),
                    amount as int,
                    recorded,
                ).added);
            } else {
                let sale = sell_outcome(
                    old(self).holdings(),
                    spec_buffered(amount - old(self).cash()),
                    AssetClass::Equity,
                );
                assert((entries(ledger) + sale.added).push(entry@) =~= entries(ledger) + (
                sale.added + paid_outcome(sale.holdings, amount as int, recorded).added));
            }
        }
        self.cash_balance = self.cash_balance - amount;
        self.transactions.push(entry);
        Ok(amount)
    }

    fn can_accrue(&self) -> (r: bool) {
        let ghost lots = self.assets@;
        let ghost grown = accrued_lots(lots);
        proof {
            lemma_total_value_bounds(lots);
            lemma_mul_bounds(
                self.cash_balance as int,
                self.cash_interest as int,
                MAX_MONEY as int,
                u32::MAX as int,
            );
            lemma_div_bounds(
                self.cash_balance * self.cash_interest,
                MAX_MONEY * u32::MAX,
                RATE_SCALE as int,
            );
            assert(grown.take(0) =~= Seq::<Asset>::empty());
        }
        let interest: i64 = mul_div(self.cash_balance, self.cash_interest as i64, RATE_SCALE);
        if interest > MAX_MONEY - self.cash_balance {
            proof {
                if all_wf(grown) {
                    lemma_total_value_bounds(grown);
                }
            }
            return false;
        }
        let mut total: i64 = self.cash_balance + interest;
        let mut i: usize = 0;
        while i < self.assets.len()
            invariant
                0 <= i <= self.assets.len(),
                self.assets@ == lots,
                grown == accrued_lots(lots),
                all_wf(lots),
                all_wf(grown.take(i as int)),
                interest == self.spec_interest(),
                total == self.cash_balance + interest + total_value(grown.take(i as int)),
                0 <= total <= MAX_MONEY,
            decreases self.assets.len() - i,
        {
            let lot: Asset = self.assets[i];
            proof {
                assert(lot == lots[i as int]);
                assert(lot.wf());
                lemma_accrued_lot(lot);
                lemma_total_value_step(grown, i as int);
                lemma_total_value_bounds(grown.take(i as int));
                if all_wf(grown) {
                    lemma_total_value_bounds(grown);
                    assert(grown[i as int].wf());
                }
            }
            let rise: i64 = mul_div(lot.current_price, lot.get_rate_of_return(), RATE_SCALE);
            let price: i64 = lot.current_price + rise;
            if price > MAX_PRICE {
                return false;
            }
            proof {
                lemma_proportion_bounds(lot.shares as int, price as int, SHARE_SCALE as int);
            }
            let value: i64 = mul_div(lot.shares, price, SHARE_SCALE);
            if value > MAX_MONEY - total {
                proof {
                    if all_wf(grown) {
                        assert(grown[i as int].spec_value() == value);
                        assert(total_value(grown.take(i + 1)) <= total_value(grown));
                    }
                }
                return false;
            }
            total = total + value;
            proof {
                assert(grown[i as int].wf());
                assert forall|j: int| 0 <= j < grown.take(i + 1).len() implies (
                #[trigger] grown.take(i + 1)[j]).wf() by {
                    if j < i {
                        assert(grown.take(i + 1)[j] == grown.take(i as int)[j]);
                    }
                }
            }
            i = i + 1;
        }
        proof {
            assert(grown.take(lots.len() as int) =~= grown);
        }
        true
    }

    /// Credits one period's interest on the cash on hand, raises the price
    /// of every lot by its class's return, and records the interest and the
    /// summed gain in value where they are above zero.
    fn accrue(&mut self) -> (credited: i64)
        ensures
            final(self).interest_rate() == old(self).interest_rate(),
            final(self).cash() == old(self).cash() + old(self).spec_interest(),
            final(self).lots() == accrued_lots(old(self).lots()),
            0 <= old(self).spec_interest(),
            0 <= old(self).spec_gains(),
            entries(final(self).ledger()) == entries(old(self).ledger()) + (if old(
                self,
            ).spec_interest() > 0 {
                seq![
                    Entry {
                        kind: TransactionType::Interest,
                        amount: old(self).spec_interest(),
                        note: Some(interest_text(interest_opening(), old(self).interest_rate())),
                    },
                ]
            } else {
                Seq::<Entry>::empty()
            }) + (if old(self).spec_gains() > 0 {
                seq![
                    Entry {
                        kind: TransactionType::UnrealizedGain,
                        amount: old(self).spec_gains(),
                        note: Some(
                            gains_text(
                                fraction_of(
                                    old(self).spec_gains(),
                                    total_value(accrued_lots(old(self).lots())),
                                ),
                            ),
                        ),
                    },
                ]
            } else {
                Seq::<Entry>::empty()
            }),
    {
        let ghost lots = self.assets@;
        let ghost ledger = self.transactions@;
        let ghost grown = accrued_lots(lots);
        proof {
            lemma_total_value_bounds(lots);
            lemma_total_value_bounds(grown);
            lemma_mul_bounds(
                self.cash_balance as int,
                self.cash_interest as int,
                MAX_MONEY as int,
                u32::MAX as int,
            );
            lemma_div_bounds(
                self.cash_balance * self.cash_interest,
                MAX_MONEY * u32::MAX,
                RATE_SCALE as int,
            );
            lemma_accrued_lots(lots, lots.len() as int);
            assert(lots.take(lots.len() as int) =~= lots);
            assert(grown.take(lots.len() as int) =~= grown);
        }
        let interest: i64 = mul_div(self.cash_balance, self.cash_interest as i64, RATE_SCALE);
        let old_value: i64 = self.value_of_lots();
        let mut i: usize = 0;
        while i < self.assets.len()
            invariant
                0 <= i <= self.assets.len(),
                self.assets@.len() == lots.len(),
                all_wf(lots),
                all_wf(grown),
                grown == accrued_lots(lots),
                forall|j: int| 0 <= j < i ==> self.assets@[j] == grown[j],
                forall|j: int| i <= j < lots.len() ==> self.assets@[j] == lots[j],
                self.cash_balance == old(self).cash_balance,
                self.starting_balance == old(self).starting_balance,
                self.cash_interest == old(self).cash_interest,
                self.name == old(self).name,
                self.transactions@ == ledger,
            decreases self.assets.len() - i,
        {
            let lot: Asset = self.assets[i];
            proof {
                assert(lot == lots[i as int]);
                assert(lot.wf());
                assert(grown[i as int].wf());
                lemma_accrued_lot(lot);
            }
            let rise: i64 = mul_div(lot.current_price, lot.get_rate_of_return(), RATE_SCALE);
            let raised = Asset {
                asset_class: lot.asset_class,
                shares: lot.shares,
                cost_basis: lot.cost_basis,
                current_price: lot.current_price + rise,
            };
            self.assets.set(i, raised);
            i = i + 1;
        }
        proof {
            assert(self.assets@ =~= grown);
        }
        let new_value: i64 = self.value_of_lots();
        let gains: i64 = new_value - old_value;
        if interest > 0 {
            let entry = Transaction::record(
                TransactionType::Interest,
                interest,
                Some(interest_note("Brokerage interest at ", self.cash_interest)),
            );
            proof {
                lemma_push_entry(self.transactions@, entry);
            }
            self.cash_balance = self.cash_balance + interest;
            self.transactions.push(entry);
        }
        if gains > 0 {
            proof {
                lemma_proportion_bounds(FRACTION_SCALE as int, gains as int, new_value as int);
            }
            let rate: i64 = mul_div(FRACTION_SCALE, gains, new_value);
            let entry = Transaction::record(
                TransactionType::UnrealizedGain,
                gains,
                Some(gains_note(rate)),
            );
            proof {
                lemma_push_entry(self.transactions@, entry);
            }
            self.transactions.push(entry);
        }
        proof {
            assert(entries(self.transactions@) =~= entries(ledger) + (if interest > 0 {
                seq![
                    Entry {
                        kind: TransactionType::Interest,
                        amount: interest as int,
                        note: Some(interest_text(interest_opening(), old(self).interest_rate())),
                    },
                ]
            } else {
                Seq::<Entry>::empty()
            }) + (if gains > 0 {
                seq![
                    Entry {
                        kind: TransactionType::UnrealizedGain,
                        amount: gains as int,
                        note: Some(gains_text(fraction_of(gains as int, new_value as int))),
                    },
                ]
            } else {
                Seq::<Entry>::empty()
            }));
        }
        interest + gains
    }

    fn get_balance(&self) -> (b: i64)
        ensures
            0 <= b,
    {
        let lots_value: i64 = self.value_of_lots();
        self.cash_balance + lots_value
    }

    fn get_cash_balance(&self) -> (b: i64)
        ensures
            0 <= b,
    {
        proof {
            lemma_total_value_bounds(self.assets@);
        }
        self.cash_balance
    }

    fn get_name(&self) -> (n: &str) {
        self.name.as_str()
    }

    fn get_starting_balance(&self) -> (b: i64) {
        self.starting_balance
    }

    fn generate_transactions(&self) -> (ledger: &Vec<Transaction>) {
        &self.transactions
    }
}

} // verus!
