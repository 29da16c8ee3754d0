//! The notes that the brokerage writes into its ledger.

use vstd::prelude::*;
use vstd::string::StringExecFns;
use crate::asset::{spec_symbol, Asset, AssetClass};
use crate::text::{decimal_string, decimal_text};

verus! {

/// The note of a purchase: what was bought, at what price, and how the
/// account was allocated after the trade.
pub open spec fn purchase_text(shares: int, class: AssetClass, price: int, alloc: (int, int, int)) -> Seq<
    char,
> {
    "Purchased "@ + decimal_text(shares as nat) + " share units of "@ + spec_symbol(class)
        + " at "@ + decimal_text(price as nat) + " cents. Allocation in parts per million: cash "@
        + decimal_text(alloc.0 as nat) + ", equity "@ + decimal_text(alloc.1 as nat) + ", bond "@
        + decimal_text(alloc.2 as nat)
}

/// Writes the note of a purchase.
pub fn purchase_note(lot: &Asset, alloc: (i64, i64, i64)) -> (s: String)
    requires
        0 <= lot.shares,
        0 <= lot.current_price,
        0 <= alloc.0,
        0 <= alloc.1,
        0 <= alloc.2,
    ensures
        s@ == purchase_text(
            lot.shares as int,
            lot.asset_class,
            lot.current_price as int,
            (alloc.0 as int, alloc.1 as int, alloc.2 as int),
        ),
{
    let mut s: String = String::from_str("Purchased ");
    s.append(decimal_string(lot.shares as u128).as_str());
    s.append(" share units of ");
    s.append(lot.symbol());
    s.append(" at ");
    s.append(decimal_string(lot.current_price as u128).as_str());
    s.append(" cents. Allocation in parts per million: cash ");
    s.append(decimal_string(alloc.0 as u128).as_str());
    s.append(", equity ");
    s.append(decimal_string(alloc.1 as u128).as_str());
    s.append(", bond ");
    s.append(decimal_string(alloc.2 as u128).as_str());
    s
}

/// The note of a sale: the shares given up and their price.
pub open spec fn sale_text(shares: int, class: AssetClass, price: int) -> Seq<char> {
    "Sold "@ + decimal_text(shares as nat) + " share units of "@ + spec_symbol(class) + " at "@
        + decimal_text(price as nat) + " cents"@
}

/// Writes the note of a sale.
pub fn sale_note(lot: &Asset) -> (s: String)
    requires
        0 <= lot.shares,
        0 <= lot.current_price,
    ensures
        s@ == sale_text(lot.shares as int, lot.asset_class, lot.current_price as int),
{
    let mut s: String = String::from_str("Sold ");
    s.append(decimal_string(lot.shares as u128).as_str());
    s.append(" share units of ");
    s.append(lot.symbol());
    s.append(" at ");
    s.append(decimal_string(lot.current_price as u128).as_str());
    s.append(" cents");
    s
}

/// The note of a withdrawal that the caller annotated.
pub open spec fn withdrawal_text(note: Seq<char>) -> Seq<char> {
    "Cash withdrawal. "@ + note
}

/// The note of a withdrawal: the caller's note behind fixed opening words,
/// and none where the caller gave none.
pub open spec fn spec_withdrawal_note(note: Option<&str>) -> Option<Seq<char>> {
    match note {
        Some(n) => Some(withdrawal_text(n@)),
        None => None,
    }
}

/// Writes the note of a withdrawal.
pub fn withdrawal_note(note: Option<&str>) -> (r: Option<String>)
    ensures
        crate::transaction::note_view(r) == spec_withdrawal_note(note),
{
    match note {
        Some(n) => {
            let mut s: String = String::from_str("Cash withdrawal. ");
            s.append(n);
            Some(s)
        },
        None => None,
    }
}

/// The text of a caller's note, if there is one.
pub open spec fn spec_plain_note(note: Option<&str>) -> Option<Seq<char>> {
    match note {
        Some(n) => Some(n@),
        None => None,
    }
}

/// Copies a caller's note.
pub fn plain_note(note: Option<&str>) -> (r: Option<String>)
    ensures
        crate::transaction::note_view(r) == spec_plain_note(note),
{
    match note {
        Some(n) => Some(String::from_str(n)),
        None => None,
    }
}

/// The note of an interest credit.
pub open spec fn interest_text(opening: Seq<char>, rate: int) -> Seq<char> {
    opening + decimal_text(rate as nat) + " basis points"@
}

/// Writes the note of an interest credit behind the given opening words.
pub fn interest_note(opening: &str, rate: u32) -> (s: String)
    ensures
        s@ == interest_text(opening@, rate as int),
{
    let mut s: String = String::from_str(opening);
    s.append(decimal_string(rate as u128).as_str());
    s.append(" basis points");
    s
}

/// The note of a period's unrealized gains.
pub open spec fn gains_text(rate: int) -> Seq<char> {
    "Brokerage gains of "@ + decimal_text(rate as nat) + " parts per million"@
}

/// Writes the note of a period's unrealized gains.
pub fn gains_note(rate: i64) -> (s: String)
    requires
        0 <= rate,
    ensures
        s@ == gains_text(rate as int),
{
    let mut s: String = String::from_str("Brokerage gains of ");
    s.append(decimal_string(rate as u128).as_str());
    s.append(" parts per million");
    s
}

/// The note on the paying side of a transfer.
pub open spec fn transfer_out_text(note: Option<&str>, to: Seq<char>) -> Seq<char> {
    match note {
        Some(n) => n@ + ". transfer to "@ + to,
        None => "transfer to "@ + to,
    }
}

/// Writes the note on the paying side of a transfer.
pub fn transfer_out_note(note: Option<&str>, to: &str) -> (s: String)
    ensures
        s@ == transfer_out_text(note, to@),
{
    match note {
        Some(n) => {
            let mut s: String = String::from_str(n);
            s.append(". transfer to ");
            s.append(to);
            s
        },
        None => {
            let mut s: String = String::from_str("transfer to ");
            s.append(to);
            s
        },
    }
}

/// The note on the receiving side of a transfer.
pub open spec fn transfer_in_text(note: Option<&str>, from: Seq<char>) -> Seq<char> {
    match note {
        Some(n) => n@ + ". transfer from "@ + from,
        None => "transfer from "@ + from,
    }
}

/// Writes the note on the receiving side of a transfer.
pub fn transfer_in_note(note: Option<&str>, from: &str) -> (s: String)
    ensures
        s@ == transfer_in_text(note, from@),
{
    match note {
        Some(n) => {
            let mut s: String = String::from_str(n);
            s.append(". transfer from ");
            s.append(from);
            s
        },
        None => {
            let mut s: String = String::from_str("transfer from ");
            s.append(from);
            s
        },
    }
}

} // verus!
