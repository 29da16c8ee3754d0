use bankaccounts::account::Account;
use bankaccounts::asset::AssetClass;
use bankaccounts::brokerage::BrokerageAccount;
use bankaccounts::checking::CheckingSavingsAccount;
use bankaccounts::fixed::SHARE_SCALE;
use bankaccounts::transaction::TransactionType;

// Amounts are cents, written as dollars and cents: 10_000_00 is $10,000.00.
// Shares are share units, rates basis points, fractions parts per million.

#[test]
fn test_liquidate() {
    let mut acct = BrokerageAccount::new("Gonna Sell it all!", 10_000_00, 150);
    acct.buy(100 * SHARE_SCALE, 50_00, AssetClass::Equity).unwrap();
    let cash_left = acct.get_cash_balance() * 999 / 1000;
    acct.buy(10 * SHARE_SCALE, cash_left / 10, AssetClass::Bond).unwrap();
    acct.validate_balance().unwrap();

    let (c, e, b) = acct.get_asset_alloc();
    assert!(c > 0 && e > 0 && b > 0);

    // make sure you got some cash from the sale
    let proceeds = acct.liquidate().unwrap_or(0);
    assert!(proceeds > 0);

    // make sure it's effectively all cash now
    let (c, e, b) = acct.get_asset_alloc();
    assert!(c > 950_000);
    assert!(e < 10_000 && b < 10_000);

    println!(
        "New Balances - Cash: {} cents, Total {} cents",
        acct.get_cash_balance(),
        acct.get_balance()
    );
    acct.validate_balance().unwrap();
}

#[test]
fn test_hard_rebalance() {
    let mut acct = BrokerageAccount::new("Rebalancing Act", 1000_00, 110);

    //initially should be all cash
    assert_eq!((1_000_000, 0, 0), acct.get_asset_alloc());

    // accrue interest, should have no impact on asset allocation.
    acct.accrue();
    assert_eq!((1_000_000, 0, 0), acct.get_asset_alloc());

    // buy some stocks to affect allocation
    acct.buy(10 * SHARE_SCALE, 5_00, AssetClass::Equity).unwrap();
    let (_, e, b) = acct.get_asset_alloc();
    assert!(e > 0);
    assert_eq!(b, 0);

    // buy some bonds to affect allocation
    acct.buy(10 * SHARE_SCALE, 5_00, AssetClass::Bond).unwrap();
    let (_, _, b) = acct.get_asset_alloc();
    assert!(b > 0);

    // trigger rebalance and check allocations
    let (c, e, b) = acct.hard_rebalance(700_000, 100_000).unwrap();
    println!("Cash: {} ppm, Equities: {} ppm, Bonds: {} ppm", c, e, b);

    assert!((c - 100_000).abs() < 10_000);
    assert!((e - 700_000).abs() < 50_000);
    assert!((b - 200_000).abs() < 50_000);
}

#[test]
fn test_soft_rebalance() {
    let mut acct = BrokerageAccount::new("Rebalancing Act", 1000_00, 110);

    //initially should be all cash
    assert_eq!((1_000_000, 0, 0), acct.get_asset_alloc());

    // accrue interest, should have no impact on asset allocation.
    acct.accrue();
    assert_eq!((1_000_000, 0, 0), acct.get_asset_alloc());

    // buy some stocks to affect allocation
    acct.buy(10 * SHARE_SCALE, 5_00, AssetClass::Equity).unwrap();
    let (_, e, b) = acct.get_asset_alloc();
    assert!(e > 0);
    assert_eq!(b, 0);

    // buy some bonds to affect allocation
    acct.buy(10 * SHARE_SCALE, 5_00, AssetClass::Bond).unwrap();
    let (_, _, b) = acct.get_asset_alloc();
    assert!(b > 0);

    // trigger rebalance and check allocations
    let (c, e, b) = acct.soft_rebalance(500_000, 100_000).unwrap();
    println!("Cash: {} ppm, Equities: {} ppm, Bonds: {} ppm", c, e, b);

    assert!((c - 100_000).abs() < 10_000);
    assert!((e - 500_000).abs() < 50_000);
    assert!((b - 400_000).abs() < 50_000);
}

#[test]
fn test_sell_from_brokerage_without_enough_cash() {
    let starting_bal = 1000_00;
    let mut acct = BrokerageAccount::new("Brokerage Test", starting_bal, 100);
    let shares = 20;
    let price = 25_00;
    println!("Cash Bal: {}. Total Bal: {}", acct.get_cash_balance(), acct.get_balance());

    // buy some stocks. total balance shouldn't change. equity value should increase. cash value should decrease.
    match acct.buy(shares * SHARE_SCALE, price, AssetClass::Equity) {
        Ok(amount) => println!("Success buying {} shares at {}. Amount: {}", shares, price, amount),
        Err(e) => println!("{}", e.message()),
    }
    println!("Cash Bal: {}. Total Bal: {}", acct.get_cash_balance(), acct.get_balance());
    //cash value decreases?
    assert_eq!(acct.get_cash_balance(), 1000_00 - shares * price);
    //equity value equals purchase price?
    let equity_val: i64 =
        acct.get_assets_of_type(AssetClass::Equity).iter().map(|a| a.get_value()).sum();
    assert_eq!(equity_val, shares * price);
    //cost basis should equal value
    let equity_cb: i64 =
        acct.get_assets_of_type(AssetClass::Equity).iter().map(|a| a.get_cost_basis()).sum();
    assert_eq!(equity_cb, equity_val);
    //validate balance
    acct.validate_balance().unwrap();

    //withdraw an amount greater than known cash balance. should trigger sale of stocks, but no taxable event
    match acct.withdraw(550_00, Some("should trigger sale of stocks")) {
        Ok(amount) => println!("Success withdrawing {}", amount),
        Err(e) => println!("{}", e.message()),
    }

    println!("Cash Bal: {}. Total Bal: {}", acct.get_cash_balance(), acct.get_balance());
    // equity value should go down (converted equity to cash)
    let equity_val_af: i64 =
        acct.get_assets_of_type(AssetClass::Equity).iter().map(|a| a.get_value()).sum();
    assert!(equity_val_af < equity_val);
    //total balance should go down by precisely amount withdrawn
    assert_eq!(acct.get_balance(), starting_bal - 550_00);
    // should have 0 tax transactions
    let num_tax_transactions = acct
        .generate_transactions()
        .iter()
        .filter(|t| t.transaction_type == TransactionType::Tax)
        .count();
    assert_eq!(0, num_tax_transactions);
    //validate balances and don't panic!
    acct.validate_balance().unwrap();

    // accrue some interest and gains. now balance should exceed cost basis
    acct.accrue();
    acct.accrue();
    // ensure value exceeds cost basis
    let equity_val: i64 =
        acct.get_assets_of_type(AssetClass::Equity).iter().map(|a| a.get_value()).sum();
    let equity_cb: i64 =
        acct.get_assets_of_type(AssetClass::Equity).iter().map(|a| a.get_cost_basis()).sum();
    assert!(equity_val > equity_cb);
    // validate balances and don't panic!
    acct.validate_balance().unwrap();

    // sell more stocks. this time it should trigger a taxable event (since we have unrealized gains)
    match acct.withdraw(100_00, Some("should trigger sale of stocks")) {
        Ok(amount) => println!("Success withdrawing {}", amount),
        Err(e) => println!("Failed to withdraw {} - {}", 100_00, e.message()),
    }
    println!("Cash Bal: {}. Total Bal: {}", acct.get_cash_balance(), acct.get_balance());

    //check that it actually created a tax transaction
    let num_tax_transactions = acct
        .generate_transactions()
        .iter()
        .filter(|t| t.transaction_type == TransactionType::Tax)
        .count();
    assert_eq!(num_tax_transactions, 1);
    // validate balances and don't panic!
    acct.validate_balance().unwrap();

    // try to withdraw more than we have. transaction should fail, but assets should be liquidated
    let bal_bf = acct.get_balance();
    let cash_bf = acct.get_cash_balance();
    let tax_bf: i64 = acct
        .generate_transactions()
        .iter()
        .filter(|t| t.transaction_type == TransactionType::Tax)
        .map(|t| t.amount)
        .sum();

    let result = match acct.withdraw(1000_00, Some("should trigger sale of stocks")) {
        Ok(amount) => {
            println!("Success withdrawing {}", amount);
            Ok(())
        }
        Err(e) => {
            println!("Failed to withdraw {} - {}", 1000_00, e.message());
            Err("FAIL".to_string())
        }
    };
    println!("Cash Bal: {}. Total Bal: {}", acct.get_cash_balance(), acct.get_balance());

    // make sure it's all cash now
    assert_eq!(acct.get_balance(), acct.get_cash_balance());

    let tax_af: i64 = acct
        .generate_transactions()
        .iter()
        .filter(|t| t.transaction_type == TransactionType::Tax)
        .map(|t| t.amount)
        .sum();
    // make sure the total balance only changed by the amount of taxes paid
    assert_eq!(bal_bf, acct.get_balance() + (tax_af - tax_bf));
    // make sure the cash balance changed
    assert_ne!(cash_bf, acct.get_cash_balance());

    // make sure the withdrawal return an error
    assert_eq!(Err("FAIL".to_string()), result);
}

#[test]
fn test_validate_balances() {
    for j in 0..20 {
        let eq_ratio: i64 = j * 1_000_000 / 20;

        println!("TESTING with {} ppm equity.", eq_ratio);

        let mut my_acct =
            CheckingSavingsAccount::new("Stephen's Account", 12_000_05, 50, 500_00, 25_00);
        let mut your_acct = BrokerageAccount::new("Ashley's Account", 15_000_00, 110);

        for i in 1..=50 {
            your_acct.validate_balance().expect("validation failed");

            println!("{} - {}: {}", i, my_acct.get_name(), my_acct.get_balance());
            println!("{} - {}: {}", i, your_acct.get_name(), your_acct.get_balance());

            match my_acct.deposit(10_00, None) {
                Ok(amount) => println!("      Deposit successful for {}", amount),
                Err(e) => println!("      Error: {}", e.message()),
            }

            match my_acct.withdraw(150_00, None) {
                Ok(amount) => println!("      Withdrawal successful for {}", amount),
                Err(e) => println!("      Error: {}", e.message()),
            }

            match your_acct.transfer(&mut my_acct, 500_00, Some("moving money!")) {
                Ok(amount) => println!("      Transfer successful for {}", amount),
                Err(e) => println!("   {}", e.message()),
            }

            match my_acct.transfer(&mut your_acct, 750_00, Some("still moving money!")) {
                Ok(amount) => println!("      Transfer successful for {}", amount),
                Err(e) => println!("   {}", e.message()),
            }

            your_acct.validate_balance().expect("validation failed");
            my_acct.validate_balance().expect("validation failed");

            match your_acct.sell(1000_00, AssetClass::Bond) {
                Ok(amount) => println!("     Stock sale successful for {}", amount),
                Err(e) => println!("--    {}", e.message()),
            }

            your_acct.validate_balance().expect("validation failed");

            let (cash, equity, bond) = your_acct.get_asset_alloc();
            println!("Asset allocation - before (Cash, Equity, Bond) = {}, {}, {}", cash, equity, bond);

            let (cash, equity, bond) = match your_acct.soft_rebalance(eq_ratio, 150_000) {
                Ok((c, e, b)) => (c, e, b),
                Err(e) => {
                    println!(" Issue with reblance   {}", e.message());
                    (0, 0, 0)
                }
            };
            println!("Asset allocation - after (Cash, Equity, Bond) = {}, {}, {}", cash, equity, bond);

            your_acct.validate_balance().expect("validation failed");

            match your_acct.buy(5 * SHARE_SCALE, 100_00, AssetClass::Equity) {
                Ok(amount) => println!("     Stock purchase successful for {}", amount),
                Err(e) => println!("    {}", e.message()),
            };
            match your_acct.buy(5 * SHARE_SCALE, 100_00, AssetClass::Bond) {
                Ok(amount) => println!("     Bond purchase successful for {}", amount),
                Err(e) => println!("    {}", e.message()),
            };

            your_acct.validate_balance().expect("validation failed");

            my_acct.accrue();
            your_acct.accrue();

            let (cash, equity, bond) = your_acct.get_asset_alloc();
            println!("Asset allocation - before (Cash, Equity, Bond) = {}, {}, {}", cash, equity, bond);

            let (cash, equity, bond) = match your_acct.hard_rebalance(eq_ratio, 150_000) {
                Ok((c, e, b)) => (c, e, b),
                Err(e) => {
                    println!(" Issue with reblance   {}", e.message());
                    (0, 0, 0)
                }
            };
            println!("Asset allocation - after (Cash, Equity, Bond) = {}, {}, {}", cash, equity, bond);

            your_acct.validate_balance().expect("validation failed");
        }

        let my_statement = your_acct.generate_statement(None, None);
        println!("{}", my_statement);
    }
}

#[test]
#[should_panic]
fn test_checking_overdraft() {
    let mut acct = CheckingSavingsAccount::new("checking", 100_00, 50, 0, 10_00);

    acct.withdraw(1500_00, Some("This should panic!")).unwrap();
}

#[test]
fn test_checking_interest() {
    let mut acct = CheckingSavingsAccount::new("checking", 100_00, 50, 0, 10_00);

    acct.accrue();

    assert_eq!(acct.get_balance(), 100_50);
}
