use bankaccounts::account::Account;
use bankaccounts::asset::{Asset, AssetClass};
use bankaccounts::brokerage::BrokerageAccount;
use bankaccounts::errors::WithdrawalError;
use bankaccounts::fixed::SHARE_SCALE;
use bankaccounts::sale::{calc_cap_gains_tax, gain_le, plan_sale, sort_by_gain, split_lot, SoldLot};
use bankaccounts::transaction::TransactionType;

fn kinds(acct: &BrokerageAccount) -> Vec<TransactionType> {
    acct.generate_transactions().iter().map(|t| t.transaction_type).collect()
}

#[test]
fn new_account_is_all_cash() {
    let acct = BrokerageAccount::new("Fresh", 1000_00, 110);
    assert_eq!(acct.get_asset_alloc(), (1_000_000, 0, 0));
    assert_eq!(acct.get_balance(), 1000_00);
    assert_eq!(acct.get_cash_balance(), 1000_00);
    assert_eq!(acct.get_starting_balance(), 1000_00);
    assert_eq!(acct.get_name(), "Fresh");
    assert!(acct.generate_transactions().is_empty());
}

#[test]
fn empty_account_has_no_allocation() {
    let acct = BrokerageAccount::new("Empty", 0, 110);
    assert_eq!(acct.get_asset_alloc(), (0, 0, 0));
}

#[test]
fn buy_keeps_total_balance() {
    let mut acct = BrokerageAccount::new("Buyer", 1000_00, 0);
    let before = acct.get_balance();
    assert_eq!(acct.buy(20 * SHARE_SCALE, 25_00, AssetClass::Equity), Ok(500_00));
    assert_eq!(acct.get_balance(), before);
    assert_eq!(acct.get_cash_balance(), 500_00);
    let lots = acct.get_assets_of_type(AssetClass::Equity);
    assert_eq!(
        lots,
        vec![Asset {
            asset_class: AssetClass::Equity,
            shares: 20 * SHARE_SCALE,
            cost_basis: 500_00,
            current_price: 25_00
        }]
    );
    assert_eq!(kinds(&acct), vec![TransactionType::Purchase]);
    assert_eq!(acct.generate_transactions()[0].amount, 500_00);
    assert_eq!(
        acct.generate_transactions()[0].description.as_deref(),
        Some("Purchased 20000000000000 share units of STK at 2500 cents. Allocation in parts per million: cash 500000, equity 500000, bond 0")
    );
    assert_eq!(acct.get_asset_alloc(), (500_000, 500_000, 0));
}

#[test]
fn buy_rounds_the_price_of_a_part_share_down() {
    let mut acct = BrokerageAccount::new("Buyer", 1000_00, 0);
    // a third of a share at $10.00 costs 333 cents
    assert_eq!(acct.buy(SHARE_SCALE / 3, 10_00, AssetClass::Other), Ok(333));
    assert_eq!(acct.get_balance(), 1000_00);
}

#[test]
fn buy_spends_all_cash_but_no_more() {
    let mut acct = BrokerageAccount::new("Buyer", 100_00, 0);
    assert_eq!(
        acct.buy(10 * SHARE_SCALE, 10_01, AssetClass::Bond),
        Err(WithdrawalError::InsufficientFunds { requested: 100_10, available: 100_00 })
    );
    assert_eq!(acct.get_cash_balance(), 100_00);
    assert!(acct.get_assets_of_type(AssetClass::Bond).is_empty());
    assert!(acct.generate_transactions().is_empty());
    assert_eq!(acct.buy(10 * SHARE_SCALE, 10_00, AssetClass::Bond), Ok(100_00));
    assert_eq!(acct.get_cash_balance(), 0);
}

#[test]
fn buys_of_one_class_stay_separate_lots() {
    let mut acct = BrokerageAccount::new("Buyer", 1000_00, 0);
    acct.buy(SHARE_SCALE, 10_00, AssetClass::Equity).unwrap();
    acct.buy(SHARE_SCALE, 10_00, AssetClass::Equity).unwrap();
    acct.buy(SHARE_SCALE, 10_00, AssetClass::Bond).unwrap();
    assert_eq!(acct.get_assets_of_type(AssetClass::Equity).len(), 2);
    assert_eq!(acct.get_assets_of_type(AssetClass::Bond).len(), 1);
    assert_eq!(acct.get_assets_of_type(AssetClass::Other).len(), 0);
    assert_eq!(acct.value_of_class(AssetClass::Equity), 20_00);
}

#[test]
fn sell_raises_cash_by_amount_less_tax() {
    let mut acct = BrokerageAccount::new("Seller", 1000_00, 0);
    acct.buy(10 * SHARE_SCALE, 10_00, AssetClass::Equity).unwrap();
    assert_eq!(acct.accrue(), 10_00);
    let cash_before = acct.get_cash_balance();
    let balance_before = acct.get_balance();
    assert_eq!(balance_before, 1010_00);

    assert_eq!(acct.sell(55_00, AssetClass::Equity), Ok(55_00));

    // half the lot went: it cost 5000 and brought 5500, and 15% of 500 is 75
    assert_eq!(acct.get_cash_balance(), cash_before + 55_00 - 75);
    assert_eq!(acct.get_balance(), balance_before - 75);
    assert_eq!(
        acct.get_assets_of_type(AssetClass::Equity),
        vec![Asset {
            asset_class: AssetClass::Equity,
            shares: 5 * SHARE_SCALE,
            cost_basis: 50_00,
            current_price: 11_00
        }]
    );
    assert_eq!(
        kinds(&acct),
        vec![
            TransactionType::Purchase,
            TransactionType::UnrealizedGain,
            TransactionType::Tax,
            TransactionType::Sale
        ]
    );
    let ledger = acct.generate_transactions();
    assert_eq!(ledger[2].amount, 75);
    assert_eq!(ledger[2].description.as_deref(), Some("Capital gains tax paid on asset sale"));
    assert_eq!(ledger[3].amount, 55_00);
    assert_eq!(
        ledger[3].description.as_deref(),
        Some("Sold 5000000000000 share units of STK at 1100 cents")
    );
    acct.validate_balance().unwrap();
}

#[test]
fn sell_without_gain_pays_no_tax() {
    let mut acct = BrokerageAccount::new("Seller", 1000_00, 0);
    acct.buy(20 * SHARE_SCALE, 25_00, AssetClass::Equity).unwrap();
    assert_eq!(acct.sell(57_50, AssetClass::Equity), Ok(57_50));
    assert_eq!(acct.get_cash_balance(), 557_50);
    assert_eq!(acct.get_balance(), 1000_00);
    assert_eq!(kinds(&acct), vec![TransactionType::Purchase, TransactionType::Sale]);
}

#[test]
fn sell_takes_the_lot_of_least_gain_first() {
    let mut acct = BrokerageAccount::new("Seller", 1000_00, 0);
    acct.buy(10 * SHARE_SCALE, 10_00, AssetClass::Equity).unwrap();
    acct.accrue();
    acct.buy(10 * SHARE_SCALE, 11_00, AssetClass::Equity).unwrap();
    // both lots are worth 11000; the first cost 10000, the second 11000
    assert_eq!(acct.sell(110_00, AssetClass::Equity), Ok(110_00));
    assert_eq!(
        acct.get_assets_of_type(AssetClass::Equity),
        vec![Asset {
            asset_class: AssetClass::Equity,
            shares: 10 * SHARE_SCALE,
            cost_basis: 100_00,
            current_price: 11_00
        }]
    );
    let tax_entries =
        kinds(&acct).iter().filter(|k| **k == TransactionType::Tax).count();
    assert_eq!(tax_entries, 0);
}

#[test]
fn sell_puts_other_classes_first_and_kept_lots_behind() {
    let mut acct = BrokerageAccount::new("Seller", 1000_00, 0);
    acct.buy(SHARE_SCALE, 10_00, AssetClass::Equity).unwrap();
    acct.buy(SHARE_SCALE, 20_00, AssetClass::Bond).unwrap();
    acct.buy(SHARE_SCALE, 30_00, AssetClass::Equity).unwrap();
    assert_eq!(acct.sell(10_00, AssetClass::Equity), Ok(10_00));
    // the bond lot was not a candidate and one equity lot was kept whole
    assert_eq!(acct.get_assets_of_type(AssetClass::Bond).len(), 1);
    assert_eq!(
        acct.get_assets_of_type(AssetClass::Equity),
        vec![Asset {
            asset_class: AssetClass::Equity,
            shares: SHARE_SCALE,
            cost_basis: 30_00,
            current_price: 30_00
        }]
    );
    assert_eq!(acct.get_balance(), 1000_00);
}

#[test]
fn sell_of_nothing_succeeds() {
    let mut acct = BrokerageAccount::new("Seller", 1000_00, 0);
    acct.buy(SHARE_SCALE, 10_00, AssetClass::Equity).unwrap();
    assert_eq!(acct.sell(0, AssetClass::Equity), Ok(0));
    assert_eq!(acct.get_cash_balance(), 990_00);
    assert_eq!(acct.get_assets_of_type(AssetClass::Equity).len(), 1);
    assert_eq!(kinds(&acct), vec![TransactionType::Purchase]);
}

#[test]
fn sell_refused_for_want_of_lots_changes_nothing() {
    let mut acct = BrokerageAccount::new("Seller", 1000_00, 0);
    acct.buy(10 * SHARE_SCALE, 10_00, AssetClass::Equity).unwrap();
    acct.buy(10 * SHARE_SCALE, 5_00, AssetClass::Bond).unwrap();
    let cash = acct.get_cash_balance();
    let equity = acct.get_assets_of_type(AssetClass::Equity);
    let bonds = acct.get_assets_of_type(AssetClass::Bond);
    let entries = acct.generate_transactions().len();

    assert_eq!(
        acct.sell(200_00, AssetClass::Bond),
        Err(WithdrawalError::InsufficientFunds { requested: 200_00, available: 50_00 })
    );

    assert_eq!(acct.get_cash_balance(), cash);
    assert_eq!(acct.get_assets_of_type(AssetClass::Equity), equity);
    assert_eq!(acct.get_assets_of_type(AssetClass::Bond), bonds);
    assert_eq!(acct.generate_transactions().len(), entries);
}

#[test]
fn sell_refused_for_want_of_tax_changes_nothing() {
    let mut acct = BrokerageAccount::new("Seller", 100_00, 0);
    acct.buy(10 * SHARE_SCALE, 10_00, AssetClass::Equity).unwrap();
    acct.accrue();
    let lots = acct.get_assets_of_type(AssetClass::Equity);
    let entries = acct.generate_transactions().len();
    // the gain of 1000 is taxed with 150, and there is no cash
    assert_eq!(
        acct.sell(110_00, AssetClass::Equity),
        Err(WithdrawalError::InsufficientFunds { requested: 150, available: 0 })
    );
    assert_eq!(acct.get_cash_balance(), 0);
    assert_eq!(acct.get_assets_of_type(AssetClass::Equity), lots);
    assert_eq!(acct.generate_transactions().len(), entries);
}

#[test]
fn sell_of_a_negative_amount_is_refused() {
    let mut acct = BrokerageAccount::new("Seller", 100_00, 0);
    assert_eq!(acct.sell(-1, AssetClass::Equity), Err(WithdrawalError::NegativeAmount(-1)));
    assert_eq!(acct.get_cash_balance(), 100_00);
}

#[test]
fn sell_of_more_than_everything_liquidates() {
    let mut acct = BrokerageAccount::new("Seller", 100_00, 0);
    acct.buy(5 * SHARE_SCALE, 10_00, AssetClass::Equity).unwrap();
    acct.buy(2 * SHARE_SCALE, 10_00, AssetClass::Bond).unwrap();
    assert_eq!(
        acct.sell(100_01, AssetClass::Equity),
        Err(WithdrawalError::InsufficientFunds { requested: 100_01, available: 0 })
    );
    assert_eq!(acct.get_cash_balance(), 100_00);
    assert!(acct.get_assets_of_type(AssetClass::Equity).is_empty());
    assert!(acct.get_assets_of_type(AssetClass::Bond).is_empty());
    assert_eq!(
        kinds(&acct),
        vec![
            TransactionType::Purchase,
            TransactionType::Purchase,
            TransactionType::Sale,
            TransactionType::Sale
        ]
    );
}

#[test]
fn liquidate_turns_everything_into_cash() {
    let mut acct = BrokerageAccount::new("Seller", 1000_00, 0);
    acct.buy(10 * SHARE_SCALE, 10_00, AssetClass::Equity).unwrap();
    acct.buy(10 * SHARE_SCALE, 10_00, AssetClass::Bond).unwrap();
    acct.accrue();
    // equity is worth 11000 and bonds 10350: a gain of 1350, taxed with 202
    let balance = acct.get_balance();
    assert_eq!(balance, 1013_50);
    assert_eq!(acct.liquidate(), Ok(110_00 + 103_50 - 202));
    assert_eq!(acct.get_balance(), balance - 202);
    assert_eq!(acct.get_cash_balance(), acct.get_balance());
    assert_eq!(acct.get_asset_alloc(), (1_000_000, 0, 0));
    let ledger = acct.generate_transactions();
    let n = ledger.len();
    assert_eq!(ledger[n - 3].transaction_type, TransactionType::Sale);
    assert_eq!(ledger[n - 3].amount, 110_00);
    assert_eq!(
        ledger[n - 3].description.as_deref(),
        Some("Selling shares as part of liquidation")
    );
    assert_eq!(ledger[n - 2].amount, 103_50);
    assert_eq!(ledger[n - 1].transaction_type, TransactionType::Tax);
    assert_eq!(ledger[n - 1].amount, 202);
    assert_eq!(
        ledger[n - 1].description.as_deref(),
        Some("Tax paid on capital gains during liquidation")
    );
    acct.validate_balance().unwrap();
}

#[test]
fn liquidate_of_nothing_pays_nothing() {
    let mut acct = BrokerageAccount::new("Seller", 1000_00, 0);
    assert_eq!(acct.liquidate(), Ok(0));
    assert_eq!(acct.get_cash_balance(), 1000_00);
    assert!(acct.generate_transactions().is_empty());
}

#[test]
fn tax_is_fifteen_percent_of_the_net_gain() {
    let lot = |cost: i64, price: i64| Asset {
        asset_class: AssetClass::Equity,
        shares: SHARE_SCALE,
        cost_basis: cost,
        current_price: price,
    };
    let gain = SoldLot { asset: lot(100_00, 200_00), proceeds: 200_00 };
    let loss = SoldLot { asset: lot(100_00, 40_00), proceeds: 40_00 };
    assert_eq!(calc_cap_gains_tax(&vec![gain]), 15_00);
    assert_eq!(calc_cap_gains_tax(&vec![gain, loss]), 6_00);
    assert_eq!(calc_cap_gains_tax(&vec![loss]), 0);
    assert_eq!(calc_cap_gains_tax(&vec![loss, loss, gain]), 0);
    assert_eq!(calc_cap_gains_tax(&vec![]), 0);
    // 15% of 7 cents is rounded down to a cent
    assert_eq!(calc_cap_gains_tax(&vec![SoldLot { asset: lot(93, 100), proceeds: 100 }]), 1);
}

#[test]
fn split_shares_out_cost_basis_in_proportion() {
    let lot = Asset {
        asset_class: AssetClass::Bond,
        shares: 3 * SHARE_SCALE,
        cost_basis: 100,
        current_price: 1_00,
    };
    // the lot is worth 300 cents; 100 of them are given up
    let (sold, kept) = split_lot(&lot, 100);
    assert_eq!(kept.shares, 2 * SHARE_SCALE);
    assert_eq!(kept.cost_basis, 66);
    assert_eq!(kept.get_value(), 200);
    assert_eq!(sold.asset.shares, SHARE_SCALE);
    assert_eq!(sold.asset.cost_basis, 34);
    assert_eq!(sold.proceeds, 100);
    assert_eq!(kept.current_price, 1_00);
    assert_eq!(kept.asset_class, AssetClass::Bond);
}

#[test]
fn split_at_an_awkward_price_is_exact() {
    let lot = Asset {
        asset_class: AssetClass::Equity,
        shares: 7 * SHARE_SCALE,
        cost_basis: 20_00,
        current_price: 3_33,
    };
    assert_eq!(lot.get_value(), 23_31);
    let (sold, kept) = split_lot(&lot, 10_00);
    assert_eq!(kept.get_value(), 13_31);
    assert_eq!(sold.proceeds, 10_00);
    assert_eq!(sold.asset.shares + kept.shares, lot.shares);
    assert_eq!(sold.asset.cost_basis + kept.cost_basis, lot.cost_basis);
}

#[test]
fn lots_are_ordered_by_gain_and_ties_keep_their_order() {
    let lot = |shares: i64, cost: i64, price: i64| Asset {
        asset_class: AssetClass::Equity,
        shares: shares * SHARE_SCALE,
        cost_basis: cost,
        current_price: price,
    };
    let doubled = lot(1, 100, 200);
    let flat = lot(1, 100, 100);
    let also_flat = lot(2, 400, 200);
    let free = lot(1, 0, 100);
    assert!(gain_le(&flat, &doubled));
    assert!(!gain_le(&doubled, &flat));
    assert!(gain_le(&flat, &also_flat) && gain_le(&also_flat, &flat));
    assert!(gain_le(&doubled, &free));
    assert!(!gain_le(&free, &doubled));
    assert_eq!(
        sort_by_gain(vec![free, doubled, also_flat, flat]),
        vec![also_flat, flat, doubled, free]
    );
    assert_eq!(sort_by_gain(vec![]), vec![]);
}

#[test]
fn plan_takes_whole_lots_and_splits_the_next() {
    let lot = |value: i64| Asset {
        asset_class: AssetClass::Equity,
        shares: SHARE_SCALE,
        cost_basis: value,
        current_price: value,
    };
    let (sold, kept, raised) = plan_sale(&vec![lot(100), lot(200), lot(300)], 250);
    assert_eq!(raised, 250);
    assert_eq!(sold.len(), 2);
    assert_eq!(sold[0], SoldLot { asset: lot(100), proceeds: 100 });
    assert_eq!(sold[1].proceeds, 150);
    assert_eq!(kept.len(), 2);
    assert_eq!(kept[0].get_value(), 50);
    assert_eq!(kept[1], lot(300));

    let (sold, kept, raised) = plan_sale(&vec![lot(100), lot(200)], 301);
    assert_eq!(raised, 300);
    assert_eq!(sold.len(), 2);
    assert!(kept.is_empty());

    let (sold, kept, raised) = plan_sale(&vec![lot(100), lot(200)], 300);
    assert_eq!((sold.len(), kept.len(), raised), (2, 0, 300));
}

#[test]
fn rate_of_return_and_symbol_follow_the_class() {
    let lot = |class: AssetClass| Asset {
        asset_class: class,
        shares: SHARE_SCALE,
        cost_basis: 0,
        current_price: 1,
    };
    assert_eq!(lot(AssetClass::Equity).get_rate_of_return(), 1000);
    assert_eq!(lot(AssetClass::Bond).get_rate_of_return(), 350);
    assert_eq!(lot(AssetClass::Other).get_rate_of_return(), 0);
    assert_eq!(lot(AssetClass::Equity).symbol(), "STK");
    assert_eq!(lot(AssetClass::Bond).symbol(), "BND");
    assert_eq!(lot(AssetClass::Other).symbol(), "OTH");
}
