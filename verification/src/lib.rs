//! Bank accounts with exact books, and a few small algorithms and containers.
//!
//! The heart of the crate is the brokerage account of [`brokerage`]: cash,
//! purchase lots of securities and a ledger, with buying, tax-aware selling,
//! liquidation, accrual and rebalancing. Every operation is proved to keep
//! the account's balance equal, to the cent, to what its ledger accounts for.
//!
//! All amounts are integers. Money is counted in cents, shares in share
//! units of which [`fixed::SHARE_SCALE`] make one share, rates in basis
//! points and fractions in parts per million; quotients are rounded down.
//! One share unit is never worth more than a cent, so a lot can be split at
//! any whole-cent value and a sale raises exactly what was asked for.
//!
//! - [`fixed`]: the scales and the arithmetic on them.
//! - [`asset`], [`transaction`], [`errors`]: lots, ledger entries, failures.
//! - [`sale`]: the order in which lots are sold, the split of a lot, the tax.
//! - [`outcome`]: what each operation of the brokerage comes to, as functions
//!   of what the account holds.
//! - [`account`], [`brokerage`], [`checking`], [`person`]: the accounts.
//! - [`statement`], [`notes`], [`text`]: the texts that the accounts write.
//! - [`clock`]: the one reading of the system clock.
//! - [`search`], [`sorting`], [`linked_list`], [`numbers`], [`optional`],
//!   [`shoes`]: the small algorithms and containers.

pub mod account;
pub mod asset;
pub mod brokerage;
pub mod checking;
pub mod clock;
pub mod errors;
pub mod fixed;
pub mod linked_list;
pub mod notes;
pub mod numbers;
pub mod optional;
pub mod outcome;
pub mod person;
pub mod sale;
pub mod search;
pub mod shoes;
pub mod sorting;
pub mod statement;
pub mod text;
pub mod transaction;
