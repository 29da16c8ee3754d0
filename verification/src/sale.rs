//! Choosing what to sell: the order in which lots are given up, the split of a
//! lot that is worth more than is still needed, and the tax on what was sold.

use vstd::prelude::*;
use crate::asset::{
    all_wf, lemma_total_value_bounds, lemma_value_nonnegative, total_value, Asset,
};
use crate::fixed::{
    lemma_ceil_split, lemma_mul_bounds, lemma_proportion_bounds, mul_div, mul_div_ceil,
    spec_mul_div, spec_mul_div_ceil, MAX_MONEY, SHARE_SCALE,
};

verus! {

/// The share of a net gain that is paid as tax, in percent.
pub const TAX_RATE_PERCENT: i64 = 15;

/// A sold piece of a lot: the shares given up with their part of the cost
/// basis, and the cents they brought in.
#[derive(Debug, Clone, Copy, PartialEq, Eq, Structural)]
pub struct SoldLot {
    pub asset: Asset,
    pub proceeds: i64,
}

/// Lot `a` has gained no more on each cent paid than lot `b`. The gain on a
/// cent paid is the value over the cost basis; a lot that cost nothing has
/// gained without bound.
pub open spec fn spec_gain_le(a: Asset, b: Asset) -> bool {
    if a.cost_basis == 0 {
        b.cost_basis == 0
    } else if b.cost_basis == 0 {
        true
    } else {
        a.spec_value() * b.cost_basis <= b.spec_value() * a.cost_basis
    }
}

/// Decides whether `a` has gained no more on each cent paid than `b`.
pub fn gain_le(a: &Asset, b: &Asset) -> (r: bool)
    requires
        a.wf(),
        b.wf(),
    ensures
        r == spec_gain_le(*a, *b),
{
    if a.cost_basis == 0 {
        b.cost_basis == 0
    } else if b.cost_basis == 0 {
        true
    } else {
        let va: i128 = a.get_value() as i128;
        let vb: i128 = b.get_value() as i128;
        let ca: i128 = a.cost_basis as i128;
        let cb: i128 = b.cost_basis as i128;
        proof {
            lemma_mul_bounds(va as int, cb as int, MAX_MONEY as int, MAX_MONEY as int);
            lemma_mul_bounds(vb as int, ca as int, MAX_MONEY as int, MAX_MONEY as int);
        }
        va * cb <= vb * ca
    }
}

/// Where `x` goes in lots that stand in ascending order of gain: behind every
/// lot that has gained no more than `x`.
pub open spec fn insert_index(sorted: Seq<Asset>, x: Asset) -> int
    decreases sorted.len(),
{
    if sorted.len() == 0 {
        0
    } else if spec_gain_le(sorted.last(), x) {
        sorted.len() as int
    } else {
        insert_index(sorted.drop_last(), x)
    }
}

/// The lots in ascending order of gain; lots of equal gain keep their order.
pub open spec fn sorted_by_gain(lots: Seq<Asset>) -> Seq<Asset>
    decreases lots.len(),
{
    if lots.len() == 0 {
        lots
    } else {
        let front = sorted_by_gain(lots.drop_last());
        front.insert(insert_index(front, lots.last()), lots.last())
    }
}

/// Neighbours stand in ascending order of gain.
pub open spec fn ascending_by_gain(lots: Seq<Asset>) -> bool {
    forall|i: int| 0 <= i < lots.len() - 1 ==> spec_gain_le(#[trigger] lots[i], lots[i + 1])
}

/// Of two lots one has gained no more than the other.
pub proof fn lemma_gain_le_total(a: Asset, b: Asset)
    ensures
        spec_gain_le(a, b) || spec_gain_le(b, a),
{
}

/// The place chosen for `x` lies within the lots, behind a lot that has gained
/// no more and before a lot that has gained more.
pub proof fn lemma_insert_index(sorted: Seq<Asset>, x: Asset)
    ensures
        0 <= insert_index(sorted, x) <= sorted.len(),
        insert_index(sorted, x) > 0 ==> spec_gain_le(sorted[insert_index(sorted, x) - 1], x),
        forall|j: int| insert_index(sorted, x) <= j < sorted.len() ==> !spec_gain_le(#[trigger] sorted[j], x),
    decreases sorted.len(),
{
    if sorted.len() > 0 && !spec_gain_le(sorted.last(), x) {
        let front = sorted.drop_last();
        lemma_insert_index(front, x);
        assert forall|j: int| insert_index(sorted, x) <= j < sorted.len() implies !spec_gain_le(
            #[trigger] sorted[j],
            x,
        ) by {
            if j < front.len() {
                assert(front[j] == sorted[j]);
            }
        }
        if insert_index(sorted, x) > 0 {
            assert(front[insert_index(sorted, x) - 1] == sorted[insert_index(sorted, x) - 1]);
        }
    }
}

/// Sorting keeps the lots, their total and their number, and puts neighbours
/// in ascending order of gain.
pub proof fn lemma_sorted_by_gain(lots: Seq<Asset>)
    ensures
        sorted_by_gain(lots).len() == lots.len(),
        sorted_by_gain(lots).to_multiset() == lots.to_multiset(),
        total_value(sorted_by_gain(lots)) == total_value(lots),
        ascending_by_gain(sorted_by_gain(lots)),
        all_wf(lots) ==> all_wf(sorted_by_gain(lots)),
    decreases lots.len(),
{
    broadcast use vstd::seq_lib::group_to_multiset_ensures;

    if lots.len() > 0 {
        let rest = lots.drop_last();
        let x = lots.last();
        let front = sorted_by_gain(rest);
        let k = insert_index(front, x);
        let out = sorted_by_gain(lots);
        lemma_sorted_by_gain(rest);
        lemma_insert_index(front, x);
        assert(out == front.insert(k, x));
        assert(lots =~= rest.push(x));
        // the total
        lemma_total_value_insert(front, k, x);
        // neighbours
        assert forall|i: int| 0 <= i < out.len() - 1 implies spec_gain_le(
            #[trigger] out[i],
            out[i + 1],
        ) by {
            if i + 1 < k {
                assert(out[i] == front[i] && out[i + 1] == front[i + 1]);
            } else if i + 1 == k {
                assert(out[i] == front[k - 1] && out[i + 1] == x);
            } else if i == k {
                assert(out[i] == x && out[i + 1] == front[k]);
                assert(!spec_gain_le(front[k], x));
                lemma_gain_le_total(x, front[k]);
            } else {
                assert(out[i] == front[i - 1] && out[i + 1] == front[i]);
            }
        }
        if all_wf(lots) {
            assert forall|i: int| 0 <= i < rest.len() implies (#[trigger] rest[i]).wf() by {
                assert(rest[i] == lots[i]);
            }
            assert(x.wf());
            assert forall|i: int| 0 <= i < out.len() implies (#[trigger] out[i]).wf() by {
                if i < k {
                    assert(out[i] == front[i]);
                } else if i > k {
                    assert(out[i] == front[i - 1]);
                }
            }
        }
    }
}

/// Putting a lot in anywhere adds its value to the total.
pub proof fn lemma_total_value_insert(lots: Seq<Asset>, k: int, x: Asset)
    requires
        0 <= k <= lots.len(),
    ensures
        total_value(lots.insert(k, x)) == total_value(lots) + x.spec_value(),
    decreases lots.len(),
{
    let out = lots.insert(k, x);
    if k == lots.len() {
        assert(out =~= lots.push(x));
        assert(out.drop_last() =~= lots);
    } else {
        lemma_total_value_insert(lots.drop_last(), k, x);
        assert(out.drop_last() =~= lots.drop_last().insert(k, x));
        assert(out.last() == lots.last());
    }
}

/// Puts lots in ascending order of gain; lots of equal gain keep their order.
pub fn sort_by_gain(lots: Vec<Asset>) -> (sorted: Vec<Asset>)
    requires
        all_wf(lots@),
    ensures
        sorted@ == sorted_by_gain(lots@),
{
    let mut sorted: Vec<Asset> = Vec::new();
    let mut i: usize = 0;
    proof {
        assert(lots@.take(0) =~= Seq::<Asset>::empty());
    }
    while i < lots.len()
        invariant
            0 <= i <= lots.len(),
            all_wf(lots@),
            sorted@ == sorted_by_gain(lots@.take(i as int)),
        decreases lots.len() - i,
    {
        let x: Asset = lots[i];
        let ghost prefix = lots@.take(i as int);
        proof {
            assert(lots@.take(i + 1).drop_last() =~= prefix);
            assert(lots@.take(i + 1).last() == x);
            assert forall|j: int| 0 <= j < prefix.len() implies (#[trigger] prefix[j]).wf() by {
                assert(prefix[j] == lots@[j]);
            }
            lemma_sorted_by_gain(prefix);
        }
        let mut j: usize = sorted.len();
        proof {
            assert(sorted@.take(j as int) =~= sorted@);
        }
        while j > 0 && !gain_le(&sorted[j - 1], &x)
            invariant
                0 <= j <= sorted.len(),
                all_wf(sorted@),
                x.wf(),
                insert_index(sorted@, x) == insert_index(sorted@.take(j as int), x),
            decreases j,
        {
            proof {
                assert(sorted@.take(j as int).drop_last() =~= sorted@.take(j - 1));
                assert(sorted@.take(j as int).last() == sorted@[j - 1]);
            }
            j = j - 1;
        }
        proof {
            if j > 0 {
                assert(sorted@.take(j as int).last() == sorted@[j - 1]);
            }
            assert(sorted@.take(j as int).len() == j);
            assert(insert_index(sorted@, x) == j);
        }
        sorted.insert(j, x);
        i = i + 1;
    }
    proof {
        assert(lots@.take(lots.len() as int) =~= lots@);
    }
    sorted
}

/// The shares that stay when a lot gives up `need` cents of its value.
pub open spec fn spec_kept_shares(lot: Asset, need: int) -> int {
    spec_mul_div_ceil(lot.spec_value() - need, SHARE_SCALE as int, lot.current_price as int)
}

/// The cost basis that stays with the kept shares: the lot's cost basis in
/// proportion to the shares kept, rounded down.
pub open spec fn spec_kept_cost(lot: Asset, need: int) -> int {
    spec_mul_div(lot.cost_basis as int, spec_kept_shares(lot, need), lot.shares as int)
}

/// What is left of a lot that gives up `need` cents of its value.
pub open spec fn spec_kept_part(lot: Asset, need: int) -> Asset {
    Asset {
        asset_class: lot.asset_class,
        shares: spec_kept_shares(lot, need) as i64,
        cost_basis: spec_kept_cost(lot, need) as i64,
        current_price: lot.current_price,
    }
}

/// The piece of a lot that is given up for `need` cents: the shares that do
/// not stay, with the rest of the cost basis.
pub open spec fn spec_sold_part(lot: Asset, need: int) -> SoldLot {
    SoldLot {
        asset: Asset {
            asset_class: lot.asset_class,
            shares: (lot.shares - spec_kept_shares(lot, need)) as i64,
            cost_basis: (lot.cost_basis - spec_kept_cost(lot, need)) as i64,
            current_price: lot.current_price,
        },
        proceeds: need as i64,
    }
}

/// A whole lot given up at its value.
pub open spec fn spec_sold_whole(lot: Asset) -> SoldLot {
    SoldLot { asset: lot, proceeds: lot.spec_value() as i64 }
}

/// A split gives up exactly what is needed: the kept part is a well-formed
/// lot worth the rest, and shares and cost basis are shared out without loss.
pub proof fn lemma_split(lot: Asset, need: int)
    requires
        lot.wf(),
        0 < need < lot.spec_value(),
    ensures
        spec_kept_part(lot, need).wf(),
        spec_kept_part(lot, need).spec_value() == lot.spec_value() - need,
        0 < spec_kept_shares(lot, need) < lot.shares,
        0 <= spec_kept_cost(lot, need) <= lot.cost_basis,
        spec_sold_part(lot, need).asset.shares == lot.shares - spec_kept_shares(lot, need),
        spec_sold_part(lot, need).asset.cost_basis == lot.cost_basis - spec_kept_cost(lot, need),
        spec_sold_part(lot, need).proceeds == need,
{
    let k = spec_kept_shares(lot, need);
    lemma_ceil_split(
        lot.shares as int,
        lot.current_price as int,
        lot.spec_value() - need,
        SHARE_SCALE as int,
    );
    lemma_proportion_bounds(lot.cost_basis as int, k, lot.shares as int);
}

/// Splits a lot that is worth more than is needed.
pub fn split_lot(lot: &Asset, need: i64) -> (parts: (SoldLot, Asset))
    requires
        lot.wf(),
        0 < need < lot.spec_value(),
    ensures
        parts.0 == spec_sold_part(*lot, need as int),
        parts.1 == spec_kept_part(*lot, need as int),
{
    proof {
        lemma_split(*lot, need as int);
    }
    let value: i64 = lot.get_value();
    let kept_shares: i64 = mul_div_ceil(value - need, SHARE_SCALE, lot.current_price);
    let kept_cost: i64 = mul_div(lot.cost_basis, kept_shares, lot.shares);
    let sold = SoldLot {
        asset: Asset {
            asset_class: lot.asset_class,
            shares: lot.shares - kept_shares,
            cost_basis: lot.cost_basis - kept_cost,
            current_price: lot.current_price,
        },
        proceeds: need,
    };
    let kept = Asset {
        asset_class: lot.asset_class,
        shares: kept_shares,
        cost_basis: kept_cost,
        current_price: lot.current_price,
    };
    (sold, kept)
}

/// What a sale gives up and what it leaves.
pub struct SalePlan {
    /// The pieces given up, in the order in which they were taken.
    pub sold: Seq<SoldLot>,
    /// The lots that stay, a split lot by its kept part.
    pub kept: Seq<Asset>,
    /// The cents that the pieces bring in.
    pub raised: int,
}

/// Extends a plan by the next lot: it stays if enough is raised already, it
/// goes whole if it is worth no more than is still needed, and it is split
/// otherwise.
pub open spec fn sale_step(plan: SalePlan, lot: Asset, amount: int) -> SalePlan {
    if plan.raised >= amount {
        SalePlan { sold: plan.sold, kept: plan.kept.push(lot), raised: plan.raised }
    } else if lot.spec_value() <= amount - plan.raised {
        SalePlan {
            sold: plan.sold.push(spec_sold_whole(lot)),
            kept: plan.kept,
            raised: plan.raised + lot.spec_value(),
        }
    } else {
        SalePlan {
            sold: plan.sold.push(spec_sold_part(lot, amount - plan.raised)),
            kept: plan.kept.push(spec_kept_part(lot, amount - plan.raised)),
            raised: amount,
        }
    }
}

/// The plan for raising `amount` cents from `lots`, taken in their order.
pub open spec fn sale_plan(lots: Seq<Asset>, amount: int) -> SalePlan
    decreases lots.len(),
{
    if lots.len() == 0 {
        SalePlan { sold: Seq::empty(), kept: Seq::empty(), raised: 0 }
    } else {
        sale_step(sale_plan(lots.drop_last(), amount), lots.last(), amount)
    }
}

/// The summed proceeds of the pieces.
pub open spec fn total_proceeds(sold: Seq<SoldLot>) -> int
    decreases sold.len(),
{
    if sold.len() == 0 {
        0
    } else {
        total_proceeds(sold.drop_last()) + sold.last().proceeds
    }
}

/// The summed gain of the pieces: what each brought in less what it cost.
pub open spec fn total_gain(sold: Seq<SoldLot>) -> int
    decreases sold.len(),
{
    if sold.len() == 0 {
        0
    } else {
        total_gain(sold.drop_last()) + (sold.last().proceeds - sold.last().asset.cost_basis)
    }
}

/// The tax on a sale: the set share of the net gain, rounded down, and
/// nothing on a net loss.
pub open spec fn spec_tax(sold: Seq<SoldLot>) -> int {
    if total_gain(sold) > 0 {
        total_gain(sold) * TAX_RATE_PERCENT / 100
    } else {
        0
    }
}

/// Proceeds and cost basis of every piece lie between zero and `MAX_MONEY`.
pub open spec fn sold_bounded(sold: Seq<SoldLot>) -> bool {
    forall|i: int|
        0 <= i < sold.len() ==> 0 <= (#[trigger] sold[i]).proceeds <= MAX_MONEY && 0
            <= sold[i].asset.cost_basis <= MAX_MONEY
}

/// Every piece holds at least one share unit at a positive price.
pub open spec fn sold_positive(sold: Seq<SoldLot>) -> bool {
    forall|i: int|
        0 <= i < sold.len() ==> 0 < (#[trigger] sold[i]).asset.shares && 0
            < sold[i].asset.current_price
}

/// The gain of bounded pieces stays within their number times `MAX_MONEY` and
/// below their proceeds, and the tax lies between zero and the proceeds.
pub proof fn lemma_gain_bounds(sold: Seq<SoldLot>)
    requires
        sold_bounded(sold),
    ensures
        -(sold.len() * MAX_MONEY) <= total_gain(sold) <= total_proceeds(sold) <= sold.len()
            * MAX_MONEY,
        0 <= total_proceeds(sold),
        0 <= spec_tax(sold) <= total_proceeds(sold),
        spec_tax(sold) <= total_gain(sold) || spec_tax(sold) == 0,
        total_proceeds(sold) > 0 ==> spec_tax(sold) < total_proceeds(sold),
    decreases sold.len(),
{
    if sold.len() > 0 {
        let front = sold.drop_last();
        assert forall|i: int| 0 <= i < front.len() implies 0 <= (#[trigger] front[i]).proceeds
            <= MAX_MONEY && 0 <= front[i].asset.cost_basis <= MAX_MONEY by {
            assert(front[i] == sold[i]);
        }
        lemma_gain_bounds(front);
        assert(0 <= sold.last().proceeds <= MAX_MONEY);
        assert(sold.len() * MAX_MONEY == front.len() * MAX_MONEY + MAX_MONEY) by (nonlinear_arith)
            requires
                sold.len() == front.len() + 1,
        ;
    }
}

/// What a plan promises: it raises the amount or all there is, what is kept
/// and what is raised make up the total, and the kept lots are well formed.
pub proof fn lemma_sale_plan(lots: Seq<Asset>, amount: int)
    requires
        all_wf(lots),
        0 <= amount,
    ensures
        sale_plan(lots, amount).raised == if total_value(lots) < amount {
            total_value(lots)
        } else {
            amount
        },
        total_value(sale_plan(lots, amount).kept) + sale_plan(lots, amount).raised == total_value(
            lots,
        ),
        total_proceeds(sale_plan(lots, amount).sold) == sale_plan(lots, amount).raised,
        all_wf(sale_plan(lots, amount).kept),
        total_value(lots) <= MAX_MONEY ==> sold_bounded(sale_plan(lots, amount).sold),
        sold_positive(sale_plan(lots, amount).sold),
        sale_plan(lots, amount).sold.len() <= lots.len(),
        sale_plan(lots, amount).kept.len() <= lots.len(),
    decreases lots.len(),
{
    if lots.len() > 0 {
        let front = lots.drop_last();
        let lot = lots.last();
        let before = sale_plan(front, amount);
        let after = sale_plan(lots, amount);
        assert forall|i: int| 0 <= i < front.len() implies (#[trigger] front[i]).wf() by {
            assert(front[i] == lots[i]);
        }
        assert(lot.wf());
        lemma_sale_plan(front, amount);
        lemma_total_value_bounds(front);
        lemma_value_nonnegative(lot);
        if before.raised >= amount {
            assert(after.kept.drop_last() =~= before.kept);
        } else if lot.spec_value() <= amount - before.raised {
            assert(after.sold.drop_last() =~= before.sold);
            assert(after.kept =~= before.kept);
        } else {
            lemma_split(lot, amount - before.raised);
            assert(after.sold.drop_last() =~= before.sold);
            assert(after.kept.drop_last() =~= before.kept);
        }
        assert forall|i: int| 0 <= i < after.kept.len() implies (#[trigger] after.kept[i]).wf() by {
            if i < before.kept.len() {
                assert(after.kept[i] == before.kept[i]);
            }
        }
        assert forall|i: int| 0 <= i < after.sold.len() implies 0 < (
        #[trigger] after.sold[i]).asset.shares && 0 < after.sold[i].asset.current_price by {
            if i < before.sold.len() {
                assert(after.sold[i] == before.sold[i]);
            }
        }
        if total_value(lots) <= MAX_MONEY {
            assert forall|i: int| 0 <= i < after.sold.len() implies 0 <= (
            #[trigger] after.sold[i]).proceeds <= MAX_MONEY && 0 <= after.sold[i].asset.cost_basis
                <= MAX_MONEY by {
                if i < before.sold.len() {
                    assert(after.sold[i] == before.sold[i]);
                }
            }
        }
    }
}

/// Walks lots in their order and plans the sale of `amount` cents.
pub fn plan_sale(lots: &Vec<Asset>, amount: i64) -> (plan: (Vec<SoldLot>, Vec<Asset>, i64))
    requires
        all_wf(lots@),
        0 <= amount,
        total_value(lots@) <= MAX_MONEY,
    ensures
        plan.0@ == sale_plan(lots@, amount as int).sold,
        plan.1@ == sale_plan(lots@, amount as int).kept,
        plan.2 == sale_plan(lots@, amount as int).raised,
{
    let mut sold: Vec<SoldLot> = Vec::new();
    let mut kept: Vec<Asset> = Vec::new();
    let mut raised: i64 = 0;
    let mut i: usize = 0;
    proof {
        assert(lots@.take(0) =~= Seq::<Asset>::empty());
    }
    while i < lots.len()
        invariant
            0 <= i <= lots.len(),
            all_wf(lots@),
            0 <= amount,
            total_value(lots@) <= MAX_MONEY,
            sold@ == sale_plan(lots@.take(i as int), amount as int).sold,
            kept@ == sale_plan(lots@.take(i as int), amount as int).kept,
            raised == sale_plan(lots@.take(i as int), amount as int).raised,
        decreases lots.len() - i,
    {
        let lot: Asset = lots[i];
        proof {
            let prefix = lots@.take(i as int);
            assert(lots@.take(i + 1).drop_last() =~= prefix);
            assert(lots@.take(i + 1).last() == lot);
            assert forall|j: int| 0 <= j < prefix.len() implies (#[trigger] prefix[j]).wf() by {
                assert(prefix[j] == lots@[j]);
            }
            lemma_sale_plan(prefix, amount as int);
            lemma_total_value_bounds(lots@);
        }
        if raised >= amount {
            kept.push(lot);
        } else {
            let value: i64 = lot.get_value();
            let need: i64 = amount - raised;
            if value <= need {
                raised = raised + value;
                sold.push(SoldLot { asset: lot, proceeds: value });
            } else {
                let parts = split_lot(&lot, need);
                raised = amount;
                sold.push(parts.0);
                kept.push(parts.1);
            }
        }
        i = i + 1;
    }
    proof {
        assert(lots@.take(lots.len() as int) =~= lots@);
    }
    (sold, kept, raised)
}

/// The tax on the pieces sold.
pub fn calc_cap_gains_tax(sold: &Vec<SoldLot>) -> (tax: i64)
    requires
        sold_bounded(sold@),
        total_proceeds(sold@) <= MAX_MONEY,
    ensures
        tax == spec_tax(sold@),
        0 <= tax <= total_proceeds(sold@),
{
    let mut gain: i128 = 0;
    let mut i: usize = 0;
    proof {
        assert(sold@.take(0) =~= Seq::<SoldLot>::empty());
    }
    while i < sold.len()
        invariant
            0 <= i <= sold.len(),
            sold_bounded(sold@),
            gain == total_gain(sold@.take(i as int)),
        decreases sold.len() - i,
    {
        let proceeds: i128 = sold[i].proceeds as i128;
        let cost: i128 = sold[i].asset.cost_basis as i128;
        proof {
            let prefix = sold@.take(i as int);
            assert(sold@.take(i + 1).drop_last() =~= prefix);
            assert(sold@.take(i + 1).last() == sold@[i as int]);
            assert(sold_bounded(prefix)) by {
                assert forall|j: int| 0 <= j < prefix.len() implies 0 <= (
                #[trigger] prefix[j]).proceeds <= MAX_MONEY && 0 <= prefix[j].asset.cost_basis
                    <= MAX_MONEY by {
                    assert(prefix[j] == sold@[j]);
                }
            }
            lemma_gain_bounds(prefix);
            assert(prefix.len() * MAX_MONEY <= 0xffff_ffff_ffff_ffff * 10_000_000_000_000)
                by (nonlinear_arith)
                requires
                    prefix.len() <= 0xffff_ffff_ffff_ffff,
            ;
            assert(0 <= proceeds <= MAX_MONEY && 0 <= cost <= MAX_MONEY);
        }
        gain = gain + (proceeds - cost);
        i = i + 1;
    }
    proof {
        assert(sold@.take(sold.len() as int) =~= sold@);
        lemma_gain_bounds(sold@);
    }
    if gain > 0 {
        let wide: u128 = (gain as u128) * (TAX_RATE_PERCENT as u128);
        let tax: u128 = wide / 100;
        tax as i64
    } else {
        0
    }
}

} // verus!
