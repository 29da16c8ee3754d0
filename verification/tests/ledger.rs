use bankaccounts::account::Account;
use bankaccounts::asset::AssetClass;
use bankaccounts::brokerage::BrokerageAccount;
use bankaccounts::checking::CheckingSavingsAccount;
use bankaccounts::errors::{DepositError, TransferError, WithdrawalError};
use bankaccounts::fixed::{MAX_MONEY, MAX_PRICE, SHARE_SCALE};
use bankaccounts::person::{AnyAccount, Person};
use bankaccounts::text::{decimal_string, signed_string};
use bankaccounts::transaction::{summarize, Transaction, TransactionType};

#[test]
fn deposit_credits_cash_and_is_recorded() {
    let mut acct = BrokerageAccount::new("Depositor", 100_00, 0);
    assert_eq!(acct.deposit(5_00, Some("pocket money")), Ok(5_00));
    assert_eq!(acct.get_cash_balance(), 105_00);
    let ledger = acct.generate_transactions();
    assert_eq!(ledger.len(), 1);
    assert_eq!(ledger[0].transaction_type, TransactionType::Deposit);
    assert_eq!(ledger[0].amount, 5_00);
    assert_eq!(ledger[0].description.as_deref(), Some("pocket money"));
    assert_eq!(acct.deposit(0, None), Ok(0));
    assert_eq!(acct.generate_transactions()[1].description, None);
    acct.validate_balance().unwrap();
}

#[test]
fn deposit_of_a_negative_amount_is_refused() {
    let mut acct = BrokerageAccount::new("Depositor", 100_00, 0);
    assert_eq!(acct.deposit(-1, None), Err(DepositError::NegativeAmount(-1)));
    assert_eq!(acct.get_cash_balance(), 100_00);
    assert!(acct.generate_transactions().is_empty());
    let mut checking = CheckingSavingsAccount::new("c", 100_00, 0, 0, 0);
    assert_eq!(checking.deposit(-7, None), Err(DepositError::NegativeAmount(-7)));
    assert_eq!(checking.get_balance(), 100_00);
}

#[test]
fn withdraw_from_cash_annotates_the_note() {
    let mut acct = BrokerageAccount::new("Spender", 100_00, 0);
    assert_eq!(acct.withdraw(100_00, Some("rent")), Ok(100_00));
    assert_eq!(acct.get_cash_balance(), 0);
    let ledger = acct.generate_transactions();
    assert_eq!(ledger[0].transaction_type, TransactionType::Withdrawal);
    assert_eq!(ledger[0].description.as_deref(), Some("Cash withdrawal. rent"));
    assert_eq!(acct.withdraw(0, None), Ok(0));
    assert_eq!(acct.generate_transactions()[1].description, None);
}

#[test]
fn withdraw_of_a_negative_amount_is_refused() {
    let mut acct = BrokerageAccount::new("Spender", 100_00, 0);
    assert_eq!(acct.withdraw(-3, None), Err(WithdrawalError::NegativeAmount(-3)));
    assert_eq!(acct.get_cash_balance(), 100_00);
}

#[test]
fn withdraw_sells_equity_for_the_shortfall_and_a_margin() {
    let mut acct = BrokerageAccount::new("Spender", 1000_00, 0);
    acct.buy(20 * SHARE_SCALE, 25_00, AssetClass::Equity).unwrap();
    assert_eq!(acct.withdraw(550_00, None), Ok(550_00));
    // 50_00 were missing, 57_50 were raised
    assert_eq!(acct.get_cash_balance(), 7_50);
    assert_eq!(acct.value_of_class(AssetClass::Equity), 442_50);
    assert_eq!(acct.get_balance(), 450_00);
}

#[test]
fn withdrawal_after_gains_pays_tax_once() {
    let mut acct = BrokerageAccount::new("Spender", 1000_00, 100);
    acct.buy(20 * SHARE_SCALE, 25_00, AssetClass::Equity).unwrap();
    acct.withdraw(550_00, None).unwrap();
    assert_eq!(acct.accrue(), 7 + 4425);
    assert_eq!(acct.accrue(), 7 + 4867);
    assert_eq!(acct.get_cash_balance(), 7_64);
    assert_eq!(acct.value_of_class(AssetClass::Equity), 535_42);
    // 92_36 are missing and 106_21 are raised; they cost 87_79, and 15% of
    // the gain of 18_42 is 2_76
    assert_eq!(acct.withdraw(100_00, None), Ok(100_00));
    let taxes: Vec<i64> = acct
        .generate_transactions()
        .iter()
        .filter(|t| t.transaction_type == TransactionType::Tax)
        .map(|t| t.amount)
        .collect();
    assert_eq!(taxes, vec![2_76]);
    assert_eq!(acct.get_cash_balance(), 11_09);
    assert_eq!(acct.value_of_class(AssetClass::Equity), 429_21);
    let lot = acct.get_assets_of_type(AssetClass::Equity)[0];
    assert_eq!(lot.cost_basis, 354_71);
    assert_eq!(lot.shares, 14_188_760_330_579);
    acct.validate_balance().unwrap();
}

#[test]
fn withdraw_that_stays_short_leaves_the_sale_done() {
    let mut acct = BrokerageAccount::new("Spender", 100_00, 0);
    acct.buy(10 * SHARE_SCALE, 10_00, AssetClass::Equity).unwrap();
    acct.deposit(20, None).unwrap();
    acct.accrue();
    // equity is worth 11000 on a cost of 10000; 10000 are wanted, 20 are at hand
    // 9980 are missing, 11477 would be raised: more than the lot is worth
    assert_eq!(
        acct.withdraw(100_00, None),
        Err(WithdrawalError::InsufficientFunds { requested: 114_77, available: 0 })
    );
    // that exceeded the whole balance, so everything was sold: tax 150
    assert_eq!(acct.get_cash_balance(), 20 + 110_00 - 150);
    assert!(acct.get_assets_of_type(AssetClass::Equity).is_empty());
}

#[test]
fn withdraw_fails_after_a_sale_that_tax_left_short() {
    let mut acct = BrokerageAccount::new("Spender", 1000_00, 0);
    acct.buy(100 * SHARE_SCALE, 10_00, AssetClass::Equity).unwrap();
    let mut cycles = 0;
    while cycles < 30 {
        acct.accrue();
        cycles += 1;
    }
    acct.deposit(2000_00, None).unwrap();
    // nearly all of every cent sold is gain, and 15% tax outweighs the margin
    let lots_before = acct.get_assets_of_type(AssetClass::Equity);
    let result = acct.withdraw(12_000_00, None);
    match result {
        Err(WithdrawalError::InsufficientFunds { requested, available }) => {
            assert_eq!(requested, 12_000_00);
            assert_eq!(available, acct.get_cash_balance());
            assert!(available < 12_000_00);
            assert!(available > 2000_00);
        }
        other => panic!("unexpected {:?}", other),
    }
    assert_ne!(acct.get_assets_of_type(AssetClass::Equity), lots_before);
    acct.validate_balance().unwrap();
}

#[test]
fn accrue_credits_interest_and_gains() {
    let mut acct = BrokerageAccount::new("Saver", 1000_00, 110);
    assert_eq!(acct.accrue(), 11_00);
    assert_eq!(acct.get_cash_balance(), 1011_00);
    let ledger = acct.generate_transactions();
    assert_eq!(ledger.len(), 1);
    assert_eq!(ledger[0].transaction_type, TransactionType::Interest);
    assert_eq!(ledger[0].amount, 11_00);
    assert_eq!(ledger[0].description.as_deref(), Some("Brokerage interest at 110 basis points"));

    let mut acct = BrokerageAccount::new("Holder", 1000_00, 0);
    acct.buy(10 * SHARE_SCALE, 5_00, AssetClass::Equity).unwrap();
    acct.buy(10 * SHARE_SCALE, 5_00, AssetClass::Bond).unwrap();
    acct.buy(10 * SHARE_SCALE, 5_00, AssetClass::Other).unwrap();
    // equity rises to 550 a share; bonds rise by 17.5, rounded down, to 517
    assert_eq!(acct.accrue(), 5_00 + 1_70);
    assert_eq!(acct.get_assets_of_type(AssetClass::Equity)[0].current_price, 5_50);
    assert_eq!(acct.get_assets_of_type(AssetClass::Bond)[0].current_price, 5_17);
    assert_eq!(acct.get_assets_of_type(AssetClass::Other)[0].current_price, 5_00);
    assert_eq!(acct.get_assets_of_type(AssetClass::Equity)[0].cost_basis, 50_00);
    assert_eq!(acct.get_balance(), 1006_70);
    let ledger = acct.generate_transactions();
    let last = &ledger[ledger.len() - 1];
    assert_eq!(last.transaction_type, TransactionType::UnrealizedGain);
    assert_eq!(last.amount, 6_70);
    // 670 of 15670 held
    assert_eq!(
        last.description.as_deref(),
        Some("Brokerage gains of 42756 parts per million")
    );
    acct.validate_balance().unwrap();
}

#[test]
fn accrual_is_refused_where_it_would_leave_the_range() {
    let mut acct = BrokerageAccount::new("Holder", 1000_00, 0);
    assert!(acct.can_accrue());
    acct.buy(1, MAX_PRICE, AssetClass::Other).unwrap();
    // a class without return keeps its price
    assert!(acct.can_accrue());
    let mut acct = BrokerageAccount::new("Holder", 1000_00, 0);
    acct.buy(1, MAX_PRICE, AssetClass::Equity).unwrap();
    // the price cannot rise by a tenth
    assert!(!acct.can_accrue());
    let full = BrokerageAccount::new("Full", MAX_MONEY, 1);
    assert!(!full.can_accrue());
    let full = BrokerageAccount::new("Full", MAX_MONEY, 0);
    assert!(full.can_accrue());
    let checking = CheckingSavingsAccount::new("Full", MAX_MONEY, 1, 0, 0);
    assert!(!checking.can_accrue());
    let checking = CheckingSavingsAccount::new("Low", -MAX_MONEY, 4_000_000_000, 0, 0);
    assert!(checking.can_accrue());
}

#[test]
fn accrue_of_nothing_records_nothing() {
    let mut acct = BrokerageAccount::new("Idle", 0, 110);
    assert_eq!(acct.accrue(), 0);
    assert!(acct.generate_transactions().is_empty());
    let mut checking = CheckingSavingsAccount::new("Idle", -5_00, 110, 10_00, 0);
    assert_eq!(checking.accrue(), 0);
    assert_eq!(checking.get_balance(), -5_00);
    assert!(checking.generate_transactions().is_empty());
}

#[test]
fn soft_rebalance_refuses_fractions_out_of_range() {
    let mut acct = BrokerageAccount::new("Balancer", 1000_00, 0);
    assert_eq!(
        acct.soft_rebalance(500_000, 1_000_000),
        Err(WithdrawalError::NegativeAmount(1_000_000))
    );
    assert_eq!(acct.soft_rebalance(500_000, -1), Err(WithdrawalError::NegativeAmount(-1)));
    assert_eq!(
        acct.soft_rebalance(1_000_000, 0),
        Err(WithdrawalError::NegativeAmount(1_000_000))
    );
    assert_eq!(acct.soft_rebalance(-5, 0), Err(WithdrawalError::NegativeAmount(-5)));
    assert_eq!(acct.hard_rebalance(-5, 0), Err(WithdrawalError::NegativeAmount(-5)));
    assert_eq!(acct.hard_rebalance(0, 2_000_000), Err(WithdrawalError::NegativeAmount(2_000_000)));
    assert_eq!(acct.get_cash_balance(), 1000_00);
    assert!(acct.generate_transactions().is_empty());
}

#[test]
fn soft_rebalance_buys_one_lot_of_ten_shares_for_each_class() {
    let mut acct = BrokerageAccount::new("Balancer", 1000_00, 0);
    assert_eq!(acct.soft_rebalance(700_000, 100_000), Ok((100_000, 700_000, 200_000)));
    let equity = acct.get_assets_of_type(AssetClass::Equity);
    let bonds = acct.get_assets_of_type(AssetClass::Bond);
    assert_eq!(equity.len(), 1);
    assert_eq!(equity[0].shares, 10 * SHARE_SCALE);
    assert_eq!(equity[0].current_price, 70_00);
    assert_eq!(bonds.len(), 1);
    assert_eq!(bonds[0].current_price, 20_00);
    assert_eq!(acct.get_cash_balance(), 100_00);
    assert_eq!(acct.get_balance(), 1000_00);
}

#[test]
fn soft_rebalance_scales_needs_to_the_cash_on_hand() {
    let mut acct = BrokerageAccount::new("Balancer", 1000_00, 0);
    acct.buy(50 * SHARE_SCALE, 10_00, AssetClass::Other).unwrap();
    // equity needs 500_00 and bonds 400_00, and 500_00 are at hand:
    // 555555 parts per million are covered, less a margin of 1000
    assert_eq!(acct.soft_rebalance(500_000, 100_000), Ok((1_000, 277_200, 221_800)));
    assert_eq!(acct.value_of_class(AssetClass::Equity), 277_20);
    assert_eq!(acct.value_of_class(AssetClass::Bond), 221_80);
    assert_eq!(acct.get_cash_balance(), 1_00);
    assert_eq!(acct.get_balance(), 1000_00);
}

#[test]
fn soft_rebalance_buys_nothing_where_the_margin_eats_the_cash() {
    let mut acct = BrokerageAccount::new("Balancer", 1000_00, 0);
    acct.buy(99_950 * SHARE_SCALE, 1, AssetClass::Other).unwrap();
    assert_eq!(acct.get_cash_balance(), 50);
    assert_eq!(acct.soft_rebalance(500_000, 100_000), Ok((500, 0, 0)));
    assert_eq!(acct.get_cash_balance(), 50);
    assert_eq!(acct.generate_transactions().len(), 1);
}

#[test]
fn soft_rebalance_never_sells() {
    let mut acct = BrokerageAccount::new("Balancer", 1000_00, 0);
    acct.buy(90 * SHARE_SCALE, 10_00, AssetClass::Equity).unwrap();
    // equity stands at 90% and is to stand at 50%; bonds need 400_00 of 100_00 cash
    assert_eq!(
        acct.soft_rebalance(500_000, 100_000),
        Err(WithdrawalError::InsufficientFunds { requested: 400_00, available: 100_00 })
    );
    assert_eq!(acct.value_of_class(AssetClass::Equity), 900_00);
    assert_eq!(acct.get_cash_balance(), 100_00);
}

#[test]
fn soft_rebalance_skips_a_need_of_less_than_ten_cents() {
    let mut acct = BrokerageAccount::new("Balancer", 100, 0);
    // equity needs 9 cents, bonds need 91
    assert_eq!(acct.soft_rebalance(90_000, 0), Ok((100_000, 0, 900_000)));
    assert!(acct.get_assets_of_type(AssetClass::Equity).is_empty());
    assert_eq!(acct.value_of_class(AssetClass::Bond), 90);
}

#[test]
fn hard_rebalance_swaps_what_exceeds_its_target() {
    let mut acct = BrokerageAccount::new("Balancer", 1000_00, 0);
    acct.buy(50 * SHARE_SCALE, 10_00, AssetClass::Equity).unwrap();
    // equity stands at 50% and is to stand at 30%, cash at 20%, bonds at 50%
    assert_eq!(acct.hard_rebalance(300_000, 200_000), Ok((0, 300_000, 700_000)));
    assert_eq!(acct.value_of_class(AssetClass::Equity), 300_00);
    assert_eq!(acct.value_of_class(AssetClass::Bond), 700_00);
    assert_eq!(acct.get_cash_balance(), 0);
    assert_eq!(acct.get_balance(), 1000_00);
    acct.validate_balance().unwrap();
}

#[test]
fn hard_rebalance_swaps_bonds_for_equity() {
    let mut acct = BrokerageAccount::new("Balancer", 1000_00, 0);
    acct.buy(60 * SHARE_SCALE, 10_00, AssetClass::Bond).unwrap();
    // bonds stand at 60% and are to stand at 20%, equity at 40%, cash at 40%
    assert_eq!(acct.hard_rebalance(400_000, 400_000), Ok((0, 800_000, 200_000)));
    acct.validate_balance().unwrap();
}

#[test]
fn validate_balance_holds_after_a_mixed_sequence() {
    let mut acct = BrokerageAccount::new("Busy", 5000_00, 125);
    acct.deposit(123_45, None).unwrap();
    acct.validate_balance().unwrap();
    acct.buy(7 * SHARE_SCALE + 1, 33_33, AssetClass::Equity).unwrap();
    acct.validate_balance().unwrap();
    acct.buy(3 * SHARE_SCALE, 101_01, AssetClass::Bond).unwrap();
    acct.accrue();
    acct.validate_balance().unwrap();
    acct.sell(77_77, AssetClass::Equity).unwrap();
    acct.validate_balance().unwrap();
    acct.withdraw(4900_00, Some("big one")).unwrap_or(0);
    acct.validate_balance().unwrap();
    acct.accrue();
    acct.soft_rebalance(333_333, 111_111).unwrap_or((0, 0, 0));
    acct.validate_balance().unwrap();
    acct.hard_rebalance(123_456, 654_321).unwrap_or((0, 0, 0));
    acct.validate_balance().unwrap();
    acct.liquidate().unwrap();
    acct.validate_balance().unwrap();
    let summary = acct.summarize_transactions();
    let expected = 5000_00 + summary.deposits + summary.interest + summary.unrealized_gains
        - summary.withdrawals
        - summary.taxes
        - summary.fees;
    assert_eq!(acct.get_balance() as i128, expected);
}

#[test]
fn summary_adds_up_each_kind() {
    let entry = |kind: TransactionType, amount: i64| Transaction {
        transaction_type: kind,
        amount,
        timestamp: 0,
        description: None,
    };
    let ledger = vec![
        entry(TransactionType::Deposit, 1),
        entry(TransactionType::Withdrawal, 2),
        entry(TransactionType::Interest, 3),
        entry(TransactionType::UnrealizedGain, 4),
        entry(TransactionType::Fee, 5),
        entry(TransactionType::Tax, 6),
        entry(TransactionType::Sale, 7),
        entry(TransactionType::Purchase, 8),
        entry(TransactionType::Deposit, 10),
        entry(TransactionType::Sale, 70),
    ];
    let summary = summarize(&ledger);
    assert_eq!(summary.get(TransactionType::Deposit), 11);
    assert_eq!(summary.get(TransactionType::Withdrawal), 2);
    assert_eq!(summary.get(TransactionType::Interest), 3);
    assert_eq!(summary.get(TransactionType::UnrealizedGain), 4);
    assert_eq!(summary.get(TransactionType::Fee), 5);
    assert_eq!(summary.get(TransactionType::Tax), 6);
    assert_eq!(summary.get(TransactionType::Sale), 77);
    assert_eq!(summary.get(TransactionType::Purchase), 8);
    assert_eq!(summarize(&vec![]).get(TransactionType::Deposit), 0);
}

#[test]
fn entries_are_stamped_with_the_time() {
    let first = Transaction::record(TransactionType::Deposit, 1, None);
    // some moment after the year 2020 and a non-decreasing clock
    assert!(first.timestamp > 1_577_836_800_000);
    let second = Transaction::record(TransactionType::Deposit, 1, None);
    assert!(second.timestamp >= first.timestamp);
}

#[test]
fn checking_overdraft_costs_a_fee() {
    let mut acct = CheckingSavingsAccount::new("checking", 100_00, 50, 500_00, 25_00);
    assert_eq!(acct.withdraw(150_00, Some("over")), Ok(150_00));
    assert_eq!(acct.get_balance(), 100_00 - 25_00 - 150_00);
    let ledger = acct.generate_transactions();
    assert_eq!(ledger.len(), 2);
    assert_eq!(ledger[0].transaction_type, TransactionType::Fee);
    assert_eq!(ledger[0].amount, 25_00);
    assert_eq!(ledger[0].description.as_deref(), Some("Overdraft fee"));
    assert_eq!(ledger[1].transaction_type, TransactionType::Withdrawal);
    assert_eq!(ledger[1].description.as_deref(), Some("over"));
    assert_eq!(
        acct.withdraw(1000_00, None),
        Err(WithdrawalError::InsufficientFunds { requested: 1000_00, available: -75_00 })
    );
    assert_eq!(acct.get_balance(), -75_00);
    assert_eq!(acct.withdraw(-1, None), Err(WithdrawalError::NegativeAmount(-1)));
    // up to the limit, and not a cent more
    assert_eq!(
        acct.withdraw(425_01, None),
        Err(WithdrawalError::InsufficientFunds { requested: 425_01, available: -75_00 })
    );
    assert_eq!(acct.withdraw(425_00, None), Ok(425_00));
    acct.validate_balance().unwrap();
    assert_eq!(acct.get_cash_balance(), acct.get_balance());
    assert_eq!(acct.get_starting_balance(), 100_00);
}

#[test]
fn checking_withdrawal_within_the_balance_costs_nothing() {
    let mut acct = CheckingSavingsAccount::new("checking", 100_00, 50, 500_00, 25_00);
    assert_eq!(acct.withdraw(100_00, None), Ok(100_00));
    assert_eq!(acct.get_balance(), 0);
    assert_eq!(acct.generate_transactions().len(), 1);
    assert_eq!(acct.accrue(), 0);
}

#[test]
fn checking_interest_is_recorded() {
    let mut acct = CheckingSavingsAccount::new("checking", 100_00, 50, 0, 10_00);
    assert_eq!(acct.accrue(), 50);
    let ledger = acct.generate_transactions();
    assert_eq!(ledger[0].transaction_type, TransactionType::Interest);
    assert_eq!(ledger[0].description.as_deref(), Some("Interest at 50 basis points"));
}

#[test]
fn transfer_moves_money_between_accounts() {
    let mut checking = CheckingSavingsAccount::new("Mine", 1000_00, 0, 0, 0);
    let mut brokerage = BrokerageAccount::new("Yours", 1000_00, 0);
    assert_eq!(brokerage.transfer(&mut checking, 500_00, Some("moving money!")), Ok(500_00));
    assert_eq!(brokerage.get_balance(), 500_00);
    assert_eq!(checking.get_balance(), 1500_00);
    assert_eq!(
        brokerage.generate_transactions()[0].description.as_deref(),
        Some("Cash withdrawal. moving money!. transfer to Mine")
    );
    assert_eq!(
        checking.generate_transactions()[0].description.as_deref(),
        Some("moving money!. transfer from Yours")
    );
    assert_eq!(checking.transfer(&mut brokerage, 750_00, None), Ok(750_00));
    assert_eq!(checking.get_balance(), 750_00);
    assert_eq!(brokerage.get_balance(), 1250_00);
    assert_eq!(
        checking.generate_transactions()[1].description.as_deref(),
        Some("transfer to Yours")
    );
    assert_eq!(
        brokerage.generate_transactions()[1].description.as_deref(),
        Some("transfer from Mine")
    );
    let mut other = BrokerageAccount::new("Theirs", 0, 0);
    assert_eq!(brokerage.transfer(&mut other, 1_00, None), Ok(1_00));
    assert_eq!(other.get_balance(), 1_00);
}

#[test]
fn transfer_that_cannot_be_paid_moves_nothing() {
    let mut checking = CheckingSavingsAccount::new("Mine", 100_00, 0, 0, 0);
    let mut brokerage = BrokerageAccount::new("Yours", 100_00, 0);
    assert_eq!(
        checking.transfer(&mut brokerage, 100_01, None),
        Err(TransferError::InsufficientFunds { requested: 100_01, available: 100_00 })
    );
    assert_eq!(
        brokerage.transfer(&mut checking, 100_01, None),
        Err(TransferError::InsufficientFunds { requested: 1, available: 0 })
    );
    assert_eq!(checking.transfer(&mut brokerage, -1, None), Err(TransferError::NegativeAmount(-1)));
    assert_eq!(brokerage.transfer(&mut checking, -2, None), Err(TransferError::NegativeAmount(-2)));
    assert_eq!(checking.get_balance(), 100_00);
    assert_eq!(brokerage.get_balance(), 100_00);
    assert!(checking.generate_transactions().is_empty());
    assert!(brokerage.generate_transactions().is_empty());
}

#[test]
fn failures_describe_themselves() {
    assert_eq!(
        WithdrawalError::InsufficientFunds { requested: 550_00, available: 500_00 }.message(),
        "insufficient funds: requested 55000 cents, available 50000 cents"
    );
    assert_eq!(
        WithdrawalError::NegativeAmount(-5).message(),
        "cannot withdraw negative amount: -5 cents"
    );
    assert_eq!(
        DepositError::NegativeAmount(-12).message(),
        "cannot deposit a negative amount: -12 cents"
    );
    assert_eq!(
        TransferError::InsufficientFunds { requested: 1, available: -2 }.message(),
        "transfer failed - insufficient funds: requested 1 cents, available -2 cents"
    );
    assert_eq!(
        TransferError::NegativeAmount(-1).message(),
        "cannot transfer negative amount: -1 cents"
    );
    assert_eq!(TransferError::DepositFailed.message(), "transfer failed during deposit phase");
    assert_eq!(
        TransferError::from_withdrawal(WithdrawalError::NegativeAmount(-9)),
        TransferError::NegativeAmount(-9)
    );
    assert_eq!(
        TransferError::from_withdrawal(WithdrawalError::InsufficientFunds {
            requested: 3,
            available: 2
        }),
        TransferError::InsufficientFunds { requested: 3, available: 2 }
    );
}

#[test]
fn numbers_are_written_in_decimal() {
    assert_eq!(decimal_string(0), "0");
    assert_eq!(decimal_string(7), "7");
    assert_eq!(decimal_string(10), "10");
    assert_eq!(decimal_string(1234567890), "1234567890");
    assert_eq!(decimal_string(u128::MAX), u128::MAX.to_string());
    assert_eq!(signed_string(0), "0");
    assert_eq!(signed_string(-1), "-1");
    assert_eq!(signed_string(-1050), "-1050");
    assert_eq!(signed_string(i128::MIN), i128::MIN.to_string());
    assert_eq!(signed_string(i128::MAX), i128::MAX.to_string());
}

#[test]
fn statement_replays_the_ledger() {
    let mut acct = BrokerageAccount::new("Stated", 100_00, 0);
    acct.deposit(5_00, Some("hello")).unwrap();
    acct.buy(SHARE_SCALE, 20_00, AssetClass::Equity).unwrap();
    acct.accrue();
    acct.withdraw(1_00, None).unwrap();
    let ledger = acct.generate_transactions();
    let stamps: Vec<i64> = ledger.iter().map(|t| t.timestamp).collect();
    let purchase_note = ledger[1].description.clone().unwrap();
    let gains_note = ledger[2].description.clone().unwrap();
    let expected = format!(
        "Statement for: Stated\n\
         Time (ms) | Type | Amount | Cash Balance | Total Balance | Description\n\
         {} | Deposit | 500 | 10500 | 10500 | hello\n\
         {} | Purchase | 2000 | 8500 | 10500 | {}\n\
         {} | UnrealizedGain | 200 | 8500 | 10700 | {}\n\
         {} | Withdrawal | 100 | 8400 | 10600 | \n\
         \nCurrent Balance: 10600 cents",
        stamps[0], stamps[1], purchase_note, stamps[2], gains_note, stamps[3]
    );
    assert_eq!(acct.generate_statement(None, None), expected);

    let nothing = "Statement for: Stated\n\
         Time (ms) | Type | Amount | Cash Balance | Total Balance | Description\n\
         \nCurrent Balance: 10600 cents";
    assert_eq!(acct.generate_statement(Some(stamps[3] + 1), None), nothing);
    assert_eq!(acct.generate_statement(None, Some(stamps[0] - 1)), nothing);
    assert_eq!(acct.generate_statement(Some(stamps[0]), Some(stamps[3])), expected);
}

#[test]
fn person_lists_accounts_in_order() {
    let mut person = Person::new("Jimmy");
    assert_eq!(person.list_accounts(), "Accounts owned by: Jimmy\n");
    person.add_account(AnyAccount::Checking(CheckingSavingsAccount::new(
        "Test Checking",
        1000_00,
        50,
        0,
        0,
    )));
    person.add_account(AnyAccount::Brokerage(BrokerageAccount::new("Test Brokerage", 10_000_00, 110)));
    assert_eq!(
        person.list_accounts(),
        "Accounts owned by: Jimmy\nAccount - Test Checking\nAccount - Test Brokerage\n"
    );
}
