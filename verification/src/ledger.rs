//! The staking ledger: stake records per account, the configured asset,
//! and the clock, with `stake` and `unstake` as the two operations.
//!
//! The ledger never moves tokens itself. Each successful operation
//! updates the records and returns the asset-ledger action that settles
//! it: a pull of the deposit for `stake`, a payout (and a mint of any
//! shortfall) for `unstake`. The environment that owns the asset ledger
//! performs the action; if the asset ledger refuses it, the environment
//! must discard the updated ledger and keep the one from before the
//! call, so that the record change and the settlement stay one atomic
//! unit.

use crate::rewards::reward_fits;
use crate::rewards::reward_for;
use crate::rewards::reward_of;
use crate::rewards::AccountId;
use crate::rewards::Balance;
use crate::rewards::Timestamp;
use crate::stake_map::StakeInfo;
use crate::stake_map::StakeMap;
use vstd::prelude::*;

verus! {

/// Why a staking operation was refused.
#[derive(Clone, Copy, Debug, PartialEq, Eq, Structural)]
pub enum StakingError {
    /// An operation was attempted before the asset was configured.
    AssetNotConfigured,
    /// A withdrawal was attempted by an account with no position.
    NoStakeFound,
    /// A withdrawal asked for more than the account's available balance.
    InsufficientStake,
    /// The asset ledger refused the transfer that settles an operation.
    AssetTransferFailed,
    /// The asset ledger refused to mint a withdrawal shortfall.
    AssetMintFailed,
}

/// The pull that settles a deposit: the asset ledger is to move
/// `amount` of `token` from `from` into the staking ledger's own
/// account.
#[derive(Clone, Copy, Debug, PartialEq, Eq, Structural)]
pub struct TransferFromAction {
    pub token: AccountId,
    pub from: AccountId,
    pub amount: Balance,
}

/// How a granted withdrawal is settled: the asset ledger is to pay
/// `transferred` of `token` to `to` out of the staking ledger's own
/// holdings, and to mint `minted` of `token` to `to` anew.
#[derive(Clone, Copy, Debug, PartialEq, Eq, Structural)]
pub struct Settlement {
    pub token: AccountId,
    pub to: AccountId,
    pub transferred: Balance,
    pub minted: Balance,
}

/// The stake records and the configured asset.
#[derive(Clone, Debug)]
pub struct StakingData {
    pub stakes: StakeMap,
    pub token: Option<AccountId>,
}

/// The staking ledger, together with the clock its accrual reads.
#[derive(Clone, Debug)]
pub struct StakingContract {
    pub staking: StakingData,
    pub timestamp: Timestamp,
}

/// The balance `info`'s account may withdraw at time `now`: the
/// principal plus the interest accrued since `info.timestamp`.
pub open spec fn available_of(info: StakeInfo, now: Timestamp) -> int {
    info.amount + reward_of(info.amount as int, now - info.timestamp)
}

/// The accrual computation on `info` at time `now` stays within `u128`.
pub open spec fn accrual_fits(info: StakeInfo, now: Timestamp) -> bool {
    &&& reward_fits(info.amount as int, now - info.timestamp)
    &&& available_of(info, now) <= u128::MAX
}

/// The merged principal after a further deposit of `amount` on top of
/// `info` stays within `u128`.
pub open spec fn stake_fits(info: StakeInfo, now: Timestamp, amount: Balance) -> bool {
    &&& accrual_fits(info, now)
    &&& available_of(info, now) + amount <= u128::MAX
}

/// What `stake` returns: the pull that settles the deposit, or the
/// configuration error.
pub open spec fn stake_result(token: Option<AccountId>, caller: AccountId, amount: Balance) -> Result<
    TransferFromAction,
    StakingError,
> {
    if token is Some {
        Ok(TransferFromAction { token: token->0, from: caller, amount })
    } else {
        Err(StakingError::AssetNotConfigured)
    }
}

/// The stake records after `stake`: on success, the caller's record
/// holds the deposit — merged, for an existing position, with the old
/// principal and the interest accrued on it — and its accrual clock is
/// reset to `now`; on failure the records are unchanged.
pub open spec fn stake_stakes(
    stakes: Map<AccountId, StakeInfo>,
    token: Option<AccountId>,
    now: Timestamp,
    caller: AccountId,
    amount: Balance,
) -> Map<AccountId, StakeInfo> {
    if token is None {
        stakes
    } else if stakes.contains_key(caller) {
        stakes.insert(
            caller,
            StakeInfo {
                amount: (available_of(stakes[caller], now) + amount) as Balance,
                timestamp: now,
            },
        )
    } else {
        stakes.insert(caller, StakeInfo { amount, timestamp: now })
    }
}

/// A withdrawal of `amount` by `caller` at time `now` is granted: the
/// caller has a position, the asset is configured, and the amount does
/// not exceed the available balance.
pub open spec fn unstake_allowed(
    stakes: Map<AccountId, StakeInfo>,
    token: Option<AccountId>,
    now: Timestamp,
    caller: AccountId,
    amount: Balance,
) -> bool {
    &&& stakes.contains_key(caller)
    &&& token is Some
    &&& amount <= available_of(stakes[caller], now)
}

/// What `unstake` returns: on a granted withdrawal, the settlement that
/// pays `amount` out of the pool's holdings as far as they reach
/// (`pool_balance`) and mints the shortfall; otherwise the error that
/// names the first failing condition.
pub open spec fn unstake_result(
    stakes: Map<AccountId, StakeInfo>,
    token: Option<AccountId>,
    now: Timestamp,
    caller: AccountId,
    amount: Balance,
    pool_balance: Balance,
) -> Result<Settlement, StakingError> {
    if !stakes.contains_key(caller) {
        Err(StakingError::NoStakeFound)
    } else if token is None {
        Err(StakingError::AssetNotConfigured)
    } else if amount > available_of(stakes[caller], now) {
        Err(StakingError::InsufficientStake)
    } else {
        Ok(
            Settlement {
                token: token->0,
                to: caller,
                transferred: if pool_balance >= amount {
                    amount
                } else {
                    pool_balance
                },
                minted: if pool_balance >= amount {
                    0
                } else {
                    (amount - pool_balance) as Balance
                },
            },
        )
    }
}

/// The stake records after `unstake`: a withdrawal of the full
/// available balance removes the record; a partial one leaves the
/// remainder as the new principal with the accrual clock reset to
/// `now`; a refused withdrawal changes nothing.
pub open spec fn unstake_stakes(
    stakes: Map<AccountId, StakeInfo>,
    token: Option<AccountId>,
    now: Timestamp,
    caller: AccountId,
    amount: Balance,
) -> Map<AccountId, StakeInfo> {
    if !unstake_allowed(stakes, token, now, caller, amount) {
        stakes
    } else if amount == available_of(stakes[caller], now) {
        stakes.remove(caller)
    } else {
        stakes.insert(
            caller,
            StakeInfo { amount: (available_of(stakes[caller], now) - amount) as Balance, timestamp: now },
        )
    }
}

impl StakingContract {
    /// The records as a map from account to position.
    pub open spec fn stakes_map(self) -> Map<AccountId, StakeInfo> {
        self.staking.stakes@
    }

    /// The ledger's invariant: one record per account; a record exists
    /// only for a nonzero position; no record's accrual clock is ahead
    /// of the ledger's own.
    pub open spec fn wf(self) -> bool {
        &&& self.staking.stakes.wf()
        &&& forall|a: AccountId|
            #[trigger] self.stakes_map().contains_key(a) ==> self.stakes_map()[a].amount > 0
                && self.stakes_map()[a].timestamp <= self.timestamp
    }

    /// A ledger with no records, no configured asset, and the clock at
    /// zero.
    pub fn new(token: AccountId) -> (r: Self)
        ensures
            r.wf(),
            r.stakes_map() == Map::<AccountId, StakeInfo>::empty(),
            r.staking.token == Some(token),
            r.timestamp == 0,
    {
        let mut contract = StakingContract::default();
        contract.configure(token);
        contract
    }

    /// Set the asset used both as collateral and as the reward token.
    /// The configuration is one-time: it must not have been set before,
    /// and it is read-only afterwards.
    pub fn configure(&mut self, token: AccountId)
        requires
            old(self).staking.token is None,
        ensures
            final(self).staking.token == Some(token),
            final(self).staking.stakes == old(self).staking.stakes,
            final(self).timestamp == old(self).timestamp,
    {
        self.staking.token = Some(token);
    }

    /// The asset the ledger was configured with, if any.
    pub fn token(&self) -> (r: Option<AccountId>)
        ensures
            r == self.staking.token,
    {
        self.staking.token
    }

    /// Advance the ledger's clock. The environment's clock never moves
    /// backward, so the new time is no earlier than the current one.
    pub fn set_timestamp(&mut self, timestamp: Timestamp)
        requires
            old(self).wf(),
            old(self).timestamp <= timestamp,
        ensures
            final(self).wf(),
            final(self).timestamp == timestamp,
            final(self).staking == old(self).staking,
    {
        self.timestamp = timestamp;
        proof {
            assert forall|a: AccountId| #[trigger]
            self.stakes_map().contains_key(a) implies self.stakes_map()[a].amount > 0
                && self.stakes_map()[a].timestamp <= self.timestamp by {
                assert(old(self).stakes_map().contains_key(a));
            }
        }
    }

    /// The ledger's current time.
    pub fn block_timestamp(&self) -> (r: Timestamp)
        ensures
            r == self.timestamp,
    {
        self.timestamp
    }

    /// The interest accrued on `stake_info` from its last reset up to
    /// the ledger's current time.
    pub fn accumulated_rewards(&self, stake_info: &StakeInfo) -> (r: Balance)
        requires
            stake_info.timestamp <= self.timestamp,
            reward_fits(stake_info.amount as int, self.timestamp - stake_info.timestamp),
        ensures
            r as int == reward_of(stake_info.amount as int, self.timestamp - stake_info.timestamp),
    {
        reward_for(stake_info.amount, self.timestamp - stake_info.timestamp)
    }

    /// The record of `account`'s position, if it has one.
    pub fn stake_of(&self, account: AccountId) -> (r: Option<StakeInfo>)
        requires
            self.wf(),
        ensures
            r == if self.stakes_map().contains_key(account) {
                Some(self.stakes_map()[account])
            } else {
                None::<StakeInfo>
            },
    {
        self.staking.stakes.get(account)
    }

    /// The balance `account` may withdraw now: principal plus accrued
    /// interest, or nothing for an account with no position.
    pub fn available(&self, account: AccountId) -> (r: Option<Balance>)
        requires
            self.wf(),
            self.stakes_map().contains_key(account) ==> accrual_fits(
                self.stakes_map()[account],
                self.timestamp,
            ),
        ensures
            r == if self.stakes_map().contains_key(account) {
                Some(available_of(self.stakes_map()[account], self.timestamp) as Balance)
            } else {
                None::<Balance>
            },
    {
        match self.staking.stakes.get(account) {
            Some(staker) => {
                let accumulated = self.accumulated_rewards(&staker);
                Some(staker.amount + accumulated)
            },
            None => None,
        }
    }

    /// Deposit `amount` for `caller`. A first deposit opens the
    /// position; a further one folds the interest accrued so far into
    /// the principal, adds the deposit, and resets the accrual clock.
    /// On success the returned action is the pull the asset ledger must
    /// perform to collect the deposit; if the asset ledger refuses it,
    /// the environment must discard the updated ledger.
    pub fn stake(&mut self, caller: AccountId, amount: Balance) -> (r: Result<
        TransferFromAction,
        StakingError,
    >)
        requires
            old(self).wf(),
            amount > 0,
            old(self).stakes_map().contains_key(caller) ==> stake_fits(
                old(self).stakes_map()[caller],
                old(self).timestamp,
                amount,
            ),
        ensures
            final(self).wf(),
            r == stake_result(old(self).staking.token, caller, amount),
            final(self).stakes_map() == stake_stakes(
                old(self).stakes_map(),
                old(self).staking.token,
                old(self).timestamp,
                caller,
                amount,
            ),
            final(self).staking.token == old(self).staking.token,
            final(self).timestamp == old(self).timestamp,
    {
        let token = match self.staking.token {
            Some(t) => t,
            None => {
                return Err(StakingError::AssetNotConfigured);
            },
        };
        let now = self.timestamp;
        match self.staking.stakes.get(caller) {
            Some(staker) => {
                let accumulated = self.accumulated_rewards(&staker);
                let new_info = StakeInfo {
                    amount: staker.amount + accumulated + amount,
                    timestamp: now,
                };
                self.staking.stakes.insert(caller, new_info);
            },
            None => {
                self.staking.stakes.insert(caller, StakeInfo { amount, timestamp: now });
            },
        }
        Ok(TransferFromAction { token, from: caller, amount })
    }

    /// Withdraw `amount` for `caller` out of its available balance. A
    /// withdrawal of the whole balance closes the position; a partial
    /// one leaves the remainder as the new principal with the accrual
    /// clock reset. On success the returned settlement pays the amount
    /// out of the pool's holdings (`pool_balance`, read from the asset
    /// ledger by the environment just before the call) as far as they
    /// reach, and mints the shortfall to the caller; if the asset
    /// ledger refuses the settlement, the environment must discard the
    /// updated ledger.
    pub fn unstake(&mut self, caller: AccountId, amount: Balance, pool_balance: Balance) -> (r:
        Result<Settlement, StakingError>)
        requires
            old(self).wf(),
            amount > 0,
            old(self).stakes_map().contains_key(caller) ==> accrual_fits(
                old(self).stakes_map()[caller],
                old(self).timestamp,
            ),
        ensures
            final(self).wf(),
            r == unstake_result(
                old(self).stakes_map(),
                old(self).staking.token,
                old(self).timestamp,
                caller,
                amount,
                pool_balance,
            ),
            final(self).stakes_map() == unstake_stakes(
                old(self).stakes_map(),
                old(self).staking.token,
                old(self).timestamp,
                caller,
                amount,
            ),
            final(self).staking.token == old(self).staking.token,
            final(self).timestamp == old(self).timestamp,
    {
        let staker = match self.staking.stakes.get(caller) {
            Some(s) => s,
            None => {
                return Err(StakingError::NoStakeFound);
            },
        };
        let token = match self.staking.token {
            Some(t) => t,
            None => {
                return Err(StakingError::AssetNotConfigured);
            },
        };
        let now = self.timestamp;
        let accumulated = self.accumulated_rewards(&staker);
        let available = staker.amount + accumulated;
        if amount > available {
            return Err(StakingError::InsufficientStake);
        }
        if amount == available {
            self.staking.stakes.remove(caller);
        } else {
            self.staking.stakes.insert(
                caller,
                StakeInfo { amount: available - amount, timestamp: now },
            );
        }
        let transferred = if pool_balance >= amount {
            amount
        } else {
            pool_balance
        };
        let minted = amount - transferred;
        Ok(Settlement { token, to: caller, transferred, minted })
    }
}

impl Default for StakingContract {
    /// A ledger with no records, no configured asset, and the clock at
    /// zero.
    fn default() -> (r: Self)
        ensures
            r.wf(),
            r.stakes_map() == Map::<AccountId, StakeInfo>::empty(),
            r.staking.token is None,
            r.timestamp == 0,
    {
        StakingContract { staking: StakingData { stakes: StakeMap::new(), token: None }, timestamp: 0 }
    }
}

/// Law: a first deposit by an account with no position opens a record
/// with the full deposit as principal and the accrual clock at `now`,
/// and asks the asset ledger to pull exactly the deposit.
pub proof fn lemma_first_stake_creates_record(
    stakes: Map<AccountId, StakeInfo>,
    token: Option<AccountId>,
    now: Timestamp,
    caller: AccountId,
    amount: Balance,
)
    requires
        token is Some,
        amount > 0,
        !stakes.contains_key(caller),
    ensures
        stake_result(token, caller, amount) == Ok::<TransferFromAction, StakingError>(
            (TransferFromAction { token: token->0, from: caller, amount }),
        ),
        stake_stakes(stakes, token, now, caller, amount) == stakes.insert(
            caller,
            (StakeInfo { amount, timestamp: now }),
        ),
{
}

/// Law: a withdrawal of the whole available balance closes the
/// position — the account keeps no record — and every later withdrawal
/// by that account, of any positive amount and at any time, fails with
/// `NoStakeFound` and changes nothing.
pub proof fn lemma_full_unstake_closes_position(
    stakes: Map<AccountId, StakeInfo>,
    token: Option<AccountId>,
    now: Timestamp,
    caller: AccountId,
    pool_balance: Balance,
    amount2: Balance,
    now2: Timestamp,
    pool2: Balance,
)
    requires
        token is Some,
        stakes.contains_key(caller),
        stakes[caller].timestamp <= now,
        0 <= available_of(stakes[caller], now) <= u128::MAX,
        amount2 > 0,
    ensures
        unstake_result(
            stakes,
            token,
            now,
            caller,
            available_of(stakes[caller], now) as Balance,
            pool_balance,
        ) is Ok,
        !unstake_stakes(
            stakes,
            token,
            now,
            caller,
            available_of(stakes[caller], now) as Balance,
        ).contains_key(caller),
        unstake_result(
            unstake_stakes(stakes, token, now, caller, available_of(stakes[caller], now) as Balance),
            token,
            now2,
            caller,
            amount2,
            pool2,
        ) == Err::<Settlement, StakingError>(StakingError::NoStakeFound),
        unstake_stakes(
            unstake_stakes(stakes, token, now, caller, available_of(stakes[caller], now) as Balance),
            token,
            now2,
            caller,
            amount2,
        ) == unstake_stakes(stakes, token, now, caller, available_of(stakes[caller], now) as Balance),
{
    let avail = available_of(stakes[caller], now);
    let amount = avail as Balance;
    assert(amount == avail);
    assert(unstake_allowed(stakes, token, now, caller, amount));
    let removed = unstake_stakes(stakes, token, now, caller, amount);
    assert(removed == stakes.remove(caller));
    assert(!removed.contains_key(caller));
}

} // verus!
