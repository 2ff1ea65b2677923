//! A time-weighted staking ledger.
//!
//! Account holders deposit a fungible balance and accrue interest in
//! proportion to elapsed time; they may later withdraw principal plus
//! accrued interest. The ledger itself never moves tokens: each
//! operation validates and updates the stake records, then reports the
//! asset-ledger action (a pull, a payout, a mint of any shortfall) that
//! the caller's environment must perform to settle it.

pub mod ledger;
pub mod rewards;
pub mod stake_map;
