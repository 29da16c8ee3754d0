//! What the operations of a brokerage account come to, stated over what the
//! account holds: its cash and its lots.

use vstd::prelude::*;
use crate::asset::{
    all_wf, lemma_class_partition, lemma_total_value_bounds, lemma_total_value_concat,
    lemma_total_value_step, lemma_value_nonnegative, lots_of_class, lots_outside_class,
    spec_lot_value, spec_rate_of_return, total_value, Asset, AssetClass,
};
use crate::errors::WithdrawalError;
use crate::fixed::{
    lemma_div_bounds, lemma_mul_bounds, lemma_proportion_bounds, spec_mul_div, FRACTION_SCALE,
    MAX_MONEY, RATE_SCALE, SHARE_SCALE,
};
use crate::notes::{purchase_text, sale_text};
use crate::sale::{
    lemma_sale_plan, lemma_sorted_by_gain, lemma_split, sale_plan, sold_bounded, sorted_by_gain,
    spec_sold_whole, spec_tax, total_gain, total_proceeds, SoldLot,
};
use crate::transaction::{Entry, TransactionType};

verus! {

/// The share that `part` has in `whole`, in parts per million and rounded
/// down; zero where the whole is zero.
pub open spec fn fraction_of(part: int, whole: int) -> int {
    if whole == 0 {
        0
    } else {
        spec_mul_div(FRACTION_SCALE as int, part, whole)
    }
}

/// The summed value of the lots of one class.
pub open spec fn class_value(lots: Seq<Asset>, class: AssetClass) -> int {
    total_value(lots_of_class(lots, class))
}

/// The pieces given up when every lot is sold whole.
pub open spec fn whole_lots(lots: Seq<Asset>) -> Seq<SoldLot> {
    Seq::new(lots.len(), |i: int| spec_sold_whole(lots[i]))
}

/// The note of a sale made in a liquidation.
pub open spec fn liquidation_text() -> Seq<char> {
    "Selling shares as part of liquidation"@
}

/// The note of the tax paid in a liquidation.
pub open spec fn liquidation_tax_text() -> Seq<char> {
    "Tax paid on capital gains during liquidation"@
}

/// The ledger entries of a liquidation's sales: one for each lot, in order.
pub open spec fn liquidation_entries(lots: Seq<Asset>) -> Seq<Entry> {
    Seq::new(
        lots.len(),
        |i: int|
            Entry {
                kind: TransactionType::Sale,
                amount: lots[i].spec_value(),
                note: Some(liquidation_text()),
            },
    )
}

/// The ledger entry of a tax payment: none where no tax is due.
pub open spec fn tax_entries(tax: int, note: Seq<char>) -> Seq<Entry> {
    if tax > 0 {
        seq![Entry { kind: TransactionType::Tax, amount: tax, note: Some(note) }]
    } else {
        Seq::empty()
    }
}

/// The note of the tax paid on a sale.
pub open spec fn sale_tax_text() -> Seq<char> {
    "Capital gains tax paid on asset sale"@
}

/// The ledger entries of a sale: one for each piece given up, in order.
pub open spec fn sale_entries(sold: Seq<SoldLot>) -> Seq<Entry> {
    Seq::new(
        sold.len(),
        |i: int|
            Entry {
                kind: TransactionType::Sale,
                amount: sold[i].proceeds as int,
                note: Some(
                    sale_text(
                        sold[i].asset.shares as int,
                        sold[i].asset.asset_class,
                        sold[i].asset.current_price as int,
                    ),
                ),
            },
    )
}

/// The lots from which a sale of one class is served, in the order in which
/// they are given up: least gain first.
pub open spec fn sale_candidates(lots: Seq<Asset>, class: AssetClass) -> Seq<Asset> {
    sorted_by_gain(lots_of_class(lots, class))
}

/// The margin by which a withdrawal that must sell raises more than the
/// shortfall, to have the tax on the sale covered: the shortfall is raised
/// at this many percent.
pub const SALE_MARGIN_PERCENT: i64 = 115;

/// What is sold to cover a shortfall of cash.
pub open spec fn spec_buffered(shortfall: int) -> int {
    spec_mul_div(shortfall, SALE_MARGIN_PERCENT as int, 100)
}

/// The opening words of the note of an interest credit.
pub open spec fn interest_opening() -> Seq<char> {
    "Brokerage interest at "@
}

/// A lot after one period: its price has grown by its class's return.
pub open spec fn accrued_lot(lot: Asset) -> Asset {
    Asset {
        asset_class: lot.asset_class,
        shares: lot.shares,
        cost_basis: lot.cost_basis,
        current_price: (lot.current_price + spec_mul_div(
            lot.current_price as int,
            spec_rate_of_return(lot.asset_class),
            RATE_SCALE as int,
        )) as i64,
    }
}

/// The lots after one period.
pub open spec fn accrued_lots(lots: Seq<Asset>) -> Seq<Asset> {
    Seq::new(lots.len(), |i: int| accrued_lot(lots[i]))
}

/// A lot whose price has grown within range is worth no less than before.
pub proof fn lemma_accrued_lot(lot: Asset)
    requires
        lot.wf(),
    ensures
        lot.current_price <= lot.current_price + spec_mul_div(
            lot.current_price as int,
            spec_rate_of_return(lot.asset_class),
            RATE_SCALE as int,
        ) <= 2 * lot.current_price,
        accrued_lot(lot).wf() ==> lot.spec_value() <= accrued_lot(lot).spec_value(),
{
    let p = lot.current_price as int;
    let r = spec_rate_of_return(lot.asset_class);
    lemma_proportion_bounds(p, r, RATE_SCALE as int);
    if accrued_lot(lot).wf() {
        let q = accrued_lot(lot).current_price as int;
        lemma_mul_bounds(lot.shares as int, p, lot.shares as int, q);
        lemma_div_bounds(lot.shares * p, lot.shares * q, SHARE_SCALE as int);
    }
}

/// The lots after one period are worth no less than before, lot by lot.
pub proof fn lemma_accrued_lots(lots: Seq<Asset>, i: int)
    requires
        all_wf(lots),
        all_wf(accrued_lots(lots)),
        0 <= i <= lots.len(),
    ensures
        total_value(lots.take(i)) <= total_value(accrued_lots(lots).take(i)),
    decreases i,
{
    if i == 0 {
        assert(lots.take(0) =~= Seq::<Asset>::empty());
        assert(accrued_lots(lots).take(0) =~= Seq::<Asset>::empty());
    } else {
        lemma_accrued_lots(lots, i - 1);
        lemma_total_value_step(lots, i - 1);
        lemma_total_value_step(accrued_lots(lots), i - 1);
        assert(lots[i - 1].wf());
        assert(accrued_lots(lots)[i - 1].wf());
        lemma_accrued_lot(lots[i - 1]);
    }
}

/// What an account holds: its cash and its lots.
#[verifier::ext_equal]
pub struct Holdings {
    pub cash: int,
    pub lots: Seq<Asset>,
}

/// How an operation ends: with a failure or without, with what the account
/// holds afterwards, and with what it added to the ledger.
#[verifier::ext_equal]
pub struct Outcome {
    pub error: Option<WithdrawalError>,
    pub holdings: Holdings,
    pub added: Seq<Entry>,
}

/// The total balance of what is held.
pub open spec fn holdings_balance(h: Holdings) -> int {
    h.cash + total_value(h.lots)
}

/// The shares of cash, equity and bonds in the total balance of what is
/// held, in parts per million; all zero where nothing is held.
pub open spec fn alloc_of(h: Holdings) -> (int, int, int) {
    (
        fraction_of(h.cash, holdings_balance(h)),
        fraction_of(class_value(h.lots, AssetClass::Equity), holdings_balance(h)),
        fraction_of(class_value(h.lots, AssetClass::Bond), holdings_balance(h)),
    )
}

/// The outcome of an operation that does nothing.
pub open spec fn unchanged(h: Holdings) -> Outcome {
    Outcome { error: None, holdings: h, added: Seq::empty() }
}

/// The outcome of two operations in a row, the second of which started from
/// what the first left.
pub open spec fn chain(first: Outcome, second: Outcome) -> Outcome {
    Outcome {
        error: second.error,
        holdings: second.holdings,
        added: first.added + second.added,
    }
}

/// The outcome of a purchase of `shares` share units at `price`.
pub open spec fn buy_outcome(h: Holdings, shares: int, price: int, class: AssetClass) -> Outcome {
    let amount = spec_lot_value(shares, price);
    if h.cash < amount {
        Outcome {
            error: Some(
                WithdrawalError::InsufficientFunds {
                    requested: amount as i64,
                    available: h.cash as i64,
                },
            ),
            holdings: h,
            added: Seq::empty(),
        }
    } else {
        let after = Holdings {
            cash: h.cash - amount,
            lots: h.lots.push(
                Asset {
                    asset_class: class,
                    shares: shares as i64,
                    cost_basis: amount as i64,
                    current_price: price as i64,
                },
            ),
        };
        Outcome {
            error: None,
            holdings: after,
            added: seq![
                Entry {
                    kind: TransactionType::Purchase,
                    amount,
                    note: Some(purchase_text(shares, class, price, alloc_of(after))),
                },
            ],
        }
    }
}

/// The outcome of a liquidation.
pub open spec fn liquidate_outcome(h: Holdings) -> Outcome {
    let tax = spec_tax(whole_lots(h.lots));
    Outcome {
        error: None,
        holdings: Holdings { cash: h.cash + total_value(h.lots) - tax, lots: Seq::empty() },
        added: liquidation_entries(h.lots) + tax_entries(tax, liquidation_tax_text()),
    }
}

/// The outcome of a sale of `amount` cents of one class, for an amount that
/// is not negative. An amount above the total balance liquidates and fails.
pub open spec fn sell_outcome(h: Holdings, amount: int, class: AssetClass) -> Outcome {
    let plan = sale_plan(sale_candidates(h.lots, class), amount);
    let tax = spec_tax(plan.sold);
    if amount > holdings_balance(h) {
        Outcome {
            error: Some(
                WithdrawalError::InsufficientFunds { requested: amount as i64, available: 0 },
            ),
            holdings: liquidate_outcome(h).holdings,
            added: liquidate_outcome(h).added,
        }
    } else if plan.raised < amount {
        Outcome {
            error: Some(
                WithdrawalError::InsufficientFunds {
                    requested: amount as i64,
                    available: plan.raised as i64,
                },
            ),
            holdings: h,
            added: Seq::empty(),
        }
    } else if h.cash < tax {
        Outcome {
            error: Some(
                WithdrawalError::InsufficientFunds {
                    requested: tax as i64,
                    available: h.cash as i64,
                },
            ),
            holdings: h,
            added: Seq::empty(),
        }
    } else {
        Outcome {
            error: None,
            holdings: Holdings {
                cash: h.cash + amount - tax,
                lots: lots_outside_class(h.lots, class) + plan.kept,
            },
            added: tax_entries(tax, sale_tax_text()) + sale_entries(plan.sold),
        }
    }
}

/// The outcome of paying `amount` cents out of the cash on hand.
pub open spec fn paid_outcome(h: Holdings, amount: int, note: Option<Seq<char>>) -> Outcome {
    Outcome {
        error: None,
        holdings: Holdings { cash: h.cash - amount, lots: h.lots },
        added: seq![Entry { kind: TransactionType::Withdrawal, amount, note }],
    }
}

/// The outcome of a withdrawal of `amount` cents, for an amount that is not
/// negative, recorded under `note`. Where the cash on hand falls short,
/// equity is sold for the shortfall and a margin; a sale that fails ends the
/// withdrawal, and so does a sale that leaves the cash short, with the
/// account as the sale left it.
pub open spec fn withdraw_outcome(h: Holdings, amount: int, note: Option<Seq<char>>) -> Outcome {
    if amount <= h.cash {
        paid_outcome(h, amount, note)
    } else {
        let sale = sell_outcome(h, spec_buffered(amount - h.cash), AssetClass::Equity);
        if sale.error is Some {
            sale
        } else if sale.holdings.cash < amount {
            Outcome {
                error: Some(
                    WithdrawalError::InsufficientFunds {
                        requested: amount as i64,
                        available: sale.holdings.cash as i64,
                    },
                ),
                holdings: sale.holdings,
                added: sale.added,
            }
        } else {
            chain(sale, paid_outcome(sale.holdings, amount, note))
        }
    }
}

/// What an operation that pays `amount` returns: the failure of its outcome,
/// or the amount.
pub open spec fn payment_result(o: Outcome, amount: i64) -> Result<i64, WithdrawalError> {
    match o.error {
        Some(e) => Err(e),
        None => Ok(amount),
    }
}

/// The share units that a rebalancing purchase buys: ten whole shares.
pub const REBALANCE_SHARES: i64 = 10_000_000_000_000;

/// The safety margin by which scaled-down purchases stay below the cash on
/// hand, in parts per million of what is needed.
pub const REBALANCE_MARGIN: i64 = 1_000;

/// The cents by which equity and bonds fall short of their targets; below
/// zero for a class that exceeds its target. The targets are the given
/// fractions of the total balance, the bonds' being what cash and equity
/// leave.
pub open spec fn raw_needs(h: Holdings, target_equity: int, target_cash: int) -> (int, int) {
    let total = holdings_balance(h);
    let equity_target = spec_mul_div(total, target_equity, FRACTION_SCALE as int);
    let cash_target = spec_mul_div(total, target_cash, FRACTION_SCALE as int);
    let bond_target = total - cash_target - equity_target;
    (
        equity_target - class_value(h.lots, AssetClass::Equity),
        bond_target - class_value(h.lots, AssetClass::Bond),
    )
}

/// A need scaled to `ratio` parts per million; what is not needed is left
/// as it is.
pub open spec fn scaled_need(need: int, ratio: int) -> int {
    if need > 0 {
        spec_mul_div(need, ratio, FRACTION_SCALE as int)
    } else {
        need
    }
}

/// The ratio to which needs are scaled where they exceed the cash: the part
/// of their sum that the cash covers, less the margin, and not below zero.
pub open spec fn cash_ratio(cash: int, needed: int) -> int {
    let covered = spec_mul_div(FRACTION_SCALE as int, cash, needed);
    if covered > REBALANCE_MARGIN {
        covered - REBALANCE_MARGIN
    } else {
        0
    }
}

/// What a buy-only rebalancing sets out to buy of equity and bonds: the raw
/// needs, scaled down together where their sum exceeds the cash on hand.
pub open spec fn soft_needs(h: Holdings, target_equity: int, target_cash: int) -> (int, int) {
    let raw = raw_needs(h, target_equity, target_cash);
    if h.cash < raw.0 + raw.1 {
        let ratio = cash_ratio(h.cash, raw.0 + raw.1);
        (scaled_need(raw.0, ratio), scaled_need(raw.1, ratio))
    } else {
        raw
    }
}

/// The price at which a rebalancing purchase of ten shares spends `need`
/// cents, rounded down; zero where nothing is needed.
pub open spec fn rebalance_price(need: int) -> int {
    if need > 0 {
        need / 10
    } else {
        0
    }
}

/// The outcome of a rebalancing purchase for `need` cents: ten shares at a
/// tenth of the need, and nothing where that price is zero.
pub open spec fn rebalance_buy_outcome(h: Holdings, need: int, class: AssetClass) -> Outcome {
    if rebalance_price(need) > 0 {
        buy_outcome(h, REBALANCE_SHARES as int, rebalance_price(need), class)
    } else {
        unchanged(h)
    }
}

/// The outcome of a buy-only rebalancing: equity is bought first, bonds
/// second, and a purchase that fails ends it.
pub open spec fn soft_outcome(h: Holdings, target_equity: int, target_cash: int) -> Outcome {
    let needs = soft_needs(h, target_equity, target_cash);
    let first = rebalance_buy_outcome(h, needs.0, AssetClass::Equity);
    if first.error is Some {
        first
    } else {
        chain(first, rebalance_buy_outcome(first.holdings, needs.1, AssetClass::Bond))
    }
}

/// The outcome of selling `amount` cents of one class and buying another
/// with what the sale brought in.
pub open spec fn swap_outcome(h: Holdings, amount: int, from: AssetClass, to: AssetClass) -> Outcome {
    let sale = sell_outcome(h, amount, from);
    if sale.error is Some {
        sale
    } else {
        chain(sale, rebalance_buy_outcome(sale.holdings, amount, to))
    }
}

/// The outcome of the corrective pass of a full rebalancing: equity above
/// its target is swapped for bonds; failing that, bonds above their target
/// are swapped for equity.
pub open spec fn correction_outcome(h: Holdings, target_equity: int, target_cash: int) -> Outcome {
    let needs = raw_needs(h, target_equity, target_cash);
    if needs.0 < 0 {
        swap_outcome(h, -needs.0, AssetClass::Equity, AssetClass::Bond)
    } else if needs.1 < 0 {
        swap_outcome(h, -needs.1, AssetClass::Bond, AssetClass::Equity)
    } else {
        unchanged(h)
    }
}

/// The outcome of a full rebalancing: a buy-only rebalancing and, where that
/// went through, one corrective pass.
pub open spec fn hard_outcome(h: Holdings, target_equity: int, target_cash: int) -> Outcome {
    let soft = soft_outcome(h, target_equity, target_cash);
    if soft.error is Some {
        soft
    } else {
        chain(soft, correction_outcome(soft.holdings, target_equity, target_cash))
    }
}

/// A fraction is valid as a target if it is at least zero and less than one.
pub open spec fn valid_target(fraction: int) -> bool {
    0 <= fraction < FRACTION_SCALE
}

/// What a rebalancing returns: the failure of its outcome, or the allocation
/// of what the account holds afterwards.
pub open spec fn rebalance_result(o: Outcome) -> Result<(i64, i64, i64), WithdrawalError> {
    match o.error {
        Some(e) => Err(e),
        None => Ok(
            (
                alloc_of(o.holdings).0 as i64,
                alloc_of(o.holdings).1 as i64,
                alloc_of(o.holdings).2 as i64,
            ),
        ),
    }
}

/// Selling every lot whole brings in the total value, within bounds.
pub proof fn lemma_whole_lots(lots: Seq<Asset>)
    requires
        all_wf(lots),
    ensures
        total_proceeds(whole_lots(lots)) == total_value(lots),
        sold_bounded(whole_lots(lots)),
    decreases lots.len(),
{
    if lots.len() > 0 {
        let front = lots.drop_last();
        assert forall|i: int| 0 <= i < front.len() implies (#[trigger] front[i]).wf() by {
            assert(front[i] == lots[i]);
        }
        lemma_whole_lots(front);
        assert(whole_lots(lots).drop_last() =~= whole_lots(front));
        assert(lots.last().wf());
        lemma_value_nonnegative(lots.last());
    }
    assert forall|i: int| 0 <= i < whole_lots(lots).len() implies 0 <= (#[trigger] whole_lots(
        lots,
    )[i]).proceeds <= MAX_MONEY && 0 <= whole_lots(lots)[i].asset.cost_basis <= MAX_MONEY by {
        assert(lots[i].wf());
        lemma_value_nonnegative(lots[i]);
    }
}

/// A sale that goes through is neutral but for the tax: the cash grows by
/// the amount less the tax, and the total balance falls by the tax alone.
/// A sale of no more than the total balance that fails changes nothing.
pub proof fn law_sale_is_balance_neutral(h: Holdings, amount: int, class: AssetClass)
    requires
        h.cash >= 0,
        all_wf(h.lots),
        0 <= amount <= holdings_balance(h),
    ensures
        ({
            let plan = sale_plan(sale_candidates(h.lots, class), amount);
            let outcome = sell_outcome(h, amount, class);
            &&& outcome.error is None ==> outcome.holdings.cash == h.cash + amount - spec_tax(
                plan.sold,
            ) && holdings_balance(outcome.holdings) == holdings_balance(h) - spec_tax(plan.sold)
                && 0 <= spec_tax(plan.sold) <= amount
            &&& outcome.error is Some ==> outcome.holdings == h && outcome.added
                == Seq::<Entry>::empty()
        }),
{
    let class_lots = lots_of_class(h.lots, class);
    let others = lots_outside_class(h.lots, class);
    let plan = sale_plan(sale_candidates(h.lots, class), amount);
    lemma_class_partition(h.lots, class);
    lemma_sorted_by_gain(class_lots);
    lemma_total_value_bounds(others);
    lemma_total_value_bounds(class_lots);
    lemma_sale_plan(sorted_by_gain(class_lots), amount);
    lemma_total_value_concat(others, plan.kept);
    lemma_total_value_bounds(h.lots);
    lemma_plan_tax(sorted_by_gain(class_lots), amount);
}

/// The tax on a plan lies between zero and what the plan raises, whatever
/// the lots are worth together.
pub proof fn lemma_plan_tax(lots: Seq<Asset>, amount: int)
    requires
        all_wf(lots),
        0 <= amount,
    ensures
        0 <= spec_tax(sale_plan(lots, amount).sold) <= sale_plan(lots, amount).raised,
{
    lemma_plan_gain(lots, amount);
    let plan = sale_plan(lots, amount);
    lemma_sale_plan(lots, amount);
    let g = total_gain(plan.sold);
    if g > 0 {
        assert(0 <= g * 15 / 100 <= g) by (nonlinear_arith)
            requires
                g > 0,
        ;
    }
}

/// The gain of a plan is no more than what it raises, and what it raises is
/// not negative.
pub proof fn lemma_plan_gain(lots: Seq<Asset>, amount: int)
    requires
        all_wf(lots),
        0 <= amount,
    ensures
        total_gain(sale_plan(lots, amount).sold) <= sale_plan(lots, amount).raised,
        0 <= sale_plan(lots, amount).raised,
    decreases lots.len(),
{
    if lots.len() > 0 {
        let front = lots.drop_last();
        let lot = lots.last();
        let before = sale_plan(front, amount);
        let after = sale_plan(lots, amount);
        assert forall|i: int| 0 <= i < front.len() implies (#[trigger] front[i]).wf() by {
            assert(front[i] == lots[i]);
        }
        assert(lot.wf());
        lemma_plan_gain(front, amount);
        lemma_value_nonnegative(lot);
        if before.raised >= amount {
        } else if lot.spec_value() <= amount - before.raised {
            assert(after.sold.drop_last() =~= before.sold);
        } else {
            lemma_split(lot, amount - before.raised);
            assert(after.sold.drop_last() =~= before.sold);
        }
    }
}

} // verus!
