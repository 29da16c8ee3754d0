//! Purchase lots and the sums taken over a collection of them.

use vstd::prelude::*;
use crate::fixed::{lemma_div_bounds, lemma_mul_bounds, mul_div, spec_mul_div, MAX_MONEY, MAX_PRICE, SHARE_SCALE};

verus! {

/// The class of security that a lot holds.
#[derive(Debug, Clone, Copy, PartialEq, Eq, Hash, Structural)]
pub enum AssetClass {
    Equity,
    Bond,
    Other,
}

/// One purchase lot: shares of one class bought together.
///
/// `shares` counts share units, `cost_basis` is the whole amount paid for the
/// lot in cents, and `current_price` is the price of one whole share in cents.
#[derive(Debug, Clone, Copy, PartialEq, Eq, Structural)]
pub struct Asset {
    pub asset_class: AssetClass,
    pub shares: i64,
    pub cost_basis: i64,
    pub current_price: i64,
}

/// The yearly return of a class in basis points.
pub open spec fn spec_rate_of_return(class: AssetClass) -> int {
    match class {
        AssetClass::Equity => 1000,
        AssetClass::Bond => 350,
        AssetClass::Other => 0,
    }
}

/// The market value in cents of `shares` share units at `price`.
pub open spec fn spec_lot_value(shares: int, price: int) -> int {
    spec_mul_div(shares, price, SHARE_SCALE as int)
}

impl Asset {
    /// The market value of the lot in cents.
    pub open spec fn spec_value(&self) -> int {
        spec_lot_value(self.shares as int, self.current_price as int)
    }

    /// A lot holds at least one share unit at a positive price within range.
    pub open spec fn wf(&self) -> bool {
        &&& 0 < self.shares
        &&& 0 < self.current_price <= MAX_PRICE
        &&& 0 <= self.cost_basis <= MAX_MONEY
        &&& self.spec_value() <= MAX_MONEY
    }

    /// The market value of the lot in cents.
    pub fn get_value(&self) -> (v: i64)
        requires
            self.wf(),
        ensures
            v == self.spec_value(),
            0 <= v <= MAX_MONEY,
    {
        mul_div(self.shares, self.current_price, SHARE_SCALE)
    }

    /// The amount paid for the lot in cents.
    pub fn get_cost_basis(&self) -> (c: i64)
        ensures
            c == self.cost_basis,
    {
        self.cost_basis
    }

    /// The yearly return of the lot's class in basis points.
    pub fn get_rate_of_return(&self) -> (r: i64)
        ensures
            r == spec_rate_of_return(self.asset_class),
    {
        match self.asset_class {
            AssetClass::Equity => 1000,
            AssetClass::Bond => 350,
            AssetClass::Other => 0,
        }
    }

    /// The ticker under which lots of this class are reported.
    pub fn symbol(&self) -> (s: &'static str)
        ensures
            s@ == spec_symbol(self.asset_class),
    {
        match self.asset_class {
            AssetClass::Equity => "STK",
            AssetClass::Bond => "BND",
            AssetClass::Other => "OTH",
        }
    }
}

/// The ticker of a class.
pub open spec fn spec_symbol(class: AssetClass) -> Seq<char> {
    match class {
        AssetClass::Equity => "STK"@,
        AssetClass::Bond => "BND"@,
        AssetClass::Other => "OTH"@,
    }
}

/// Every lot of the collection is well formed.
pub open spec fn all_wf(lots: Seq<Asset>) -> bool {
    forall|i: int| 0 <= i < lots.len() ==> (#[trigger] lots[i]).wf()
}

/// The summed market value of the lots.
pub open spec fn total_value(lots: Seq<Asset>) -> int
    decreases lots.len(),
{
    if lots.len() == 0 {
        0
    } else {
        total_value(lots.drop_last()) + lots.last().spec_value()
    }
}

/// The lots of one class, in their order.
pub open spec fn lots_of_class(lots: Seq<Asset>, class: AssetClass) -> Seq<Asset>
    decreases lots.len(),
{
    if lots.len() == 0 {
        lots
    } else if lots.last().asset_class == class {
        lots_of_class(lots.drop_last(), class).push(lots.last())
    } else {
        lots_of_class(lots.drop_last(), class)
    }
}

/// The lots of every other class, in their order.
pub open spec fn lots_outside_class(lots: Seq<Asset>, class: AssetClass) -> Seq<Asset>
    decreases lots.len(),
{
    if lots.len() == 0 {
        lots
    } else if lots.last().asset_class != class {
        lots_outside_class(lots.drop_last(), class).push(lots.last())
    } else {
        lots_outside_class(lots.drop_last(), class)
    }
}

/// The value of a well-formed lot is not negative.
pub proof fn lemma_value_nonnegative(lot: Asset)
    requires
        0 <= lot.shares,
        0 <= lot.current_price,
    ensures
        0 <= lot.spec_value(),
{
    lemma_mul_bounds(0, 0, lot.shares as int, lot.current_price as int);
    lemma_div_bounds(0, lot.shares * lot.current_price, SHARE_SCALE as int);
}

/// The total of well-formed lots is not negative and bounds each part.
pub proof fn lemma_total_value_bounds(lots: Seq<Asset>)
    requires
        all_wf(lots),
    ensures
        0 <= total_value(lots),
        forall|i: int| 0 <= i < lots.len() ==> (#[trigger] lots[i]).spec_value() <= total_value(lots),
        forall|i: int| 0 <= i <= lots.len() ==> 0 <= #[trigger] total_value(lots.take(i)) <= total_value(lots),
    decreases lots.len(),
{
    if lots.len() == 0 {
        assert forall|i: int| 0 <= i <= lots.len() implies 0 <= #[trigger] total_value(lots.take(i))
            <= total_value(lots) by {
            assert(lots.take(i) =~= lots);
        }
    } else {
        let front = lots.drop_last();
        lemma_total_value_bounds(front);
        lemma_value_nonnegative(lots.last());
        assert forall|i: int| 0 <= i < lots.len() implies (#[trigger] lots[i]).spec_value()
            <= total_value(lots) by {
            if i < front.len() {
                assert(front[i] == lots[i]);
            }
        }
        assert forall|i: int| 0 <= i <= lots.len() implies 0 <= #[trigger] total_value(lots.take(i))
            <= total_value(lots) by {
            if i < lots.len() {
                assert(lots.take(i) =~= front.take(i));
            } else {
                assert(lots.take(i) =~= lots);
            }
        }
    }
}

/// The total of a concatenation is the sum of the totals.
pub proof fn lemma_total_value_concat(a: Seq<Asset>, b: Seq<Asset>)
    ensures
        total_value(a + b) == total_value(a) + total_value(b),
    decreases b.len(),
{
    if b.len() == 0 {
        assert(a + b =~= a);
    } else {
        lemma_total_value_concat(a, b.drop_last());
        assert((a + b).drop_last() =~= a + b.drop_last());
    }
}

/// Taking one more lot adds its value to the running total.
pub proof fn lemma_total_value_step(lots: Seq<Asset>, i: int)
    requires
        0 <= i < lots.len(),
    ensures
        total_value(lots.take(i + 1)) == total_value(lots.take(i)) + lots[i].spec_value(),
{
    assert(lots.take(i + 1).drop_last() =~= lots.take(i));
}

/// Splitting the lots by class splits their total.
pub proof fn lemma_class_partition(lots: Seq<Asset>, class: AssetClass)
    ensures
        total_value(lots) == total_value(lots_of_class(lots, class)) + total_value(
            lots_outside_class(lots, class),
        ),
        lots_of_class(lots, class).len() + lots_outside_class(lots, class).len() == lots.len(),
        all_wf(lots) ==> all_wf(lots_of_class(lots, class)) && all_wf(lots_outside_class(lots, class)),
        forall|i: int| 0 <= i < lots_of_class(lots, class).len() ==> (#[trigger] lots_of_class(lots, class)[i]).asset_class == class,
        forall|i: int| 0 <= i < lots_outside_class(lots, class).len() ==> (#[trigger] lots_outside_class(lots, class)[i]).asset_class != class,
    decreases lots.len(),
{
    if lots.len() > 0 {
        let front = lots.drop_last();
        lemma_class_partition(front, class);
        if all_wf(lots) {
            assert forall|i: int| 0 <= i < front.len() implies (#[trigger] front[i]).wf() by {
                assert(front[i] == lots[i]);
            }
            assert(lots.last().wf());
        }
        if lots.last().asset_class == class {
            assert(lots_of_class(lots, class).drop_last() =~= lots_of_class(front, class));
        } else {
            assert(lots_outside_class(lots, class).drop_last() =~= lots_outside_class(front, class));
        }
    }
}

} // verus!
