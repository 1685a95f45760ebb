//! The plain values that the game's calls take and give back.

use vstd::prelude::*;

verus! {

/// Accounts are named by integers.
pub type AccountId = u64;

/// Amounts of the game's currency.
pub type Balance = u128;

/// The number of a block.
pub type BlockNumber = u64;

/// The outcome of a call: nothing on success, the reason on failure.
pub type DispatchResult = Result<(), DispatchError>;

/// Who sends a call.
#[derive(Clone, Copy, Debug, PartialEq, Eq, Structural)]
pub enum Origin {
    /// The privileged origin.
    Root,
    /// A call signed by an account.
    Signed(AccountId),
    /// A call that nobody signed.
    Unsigned,
}

/// The game's own reasons to refuse a call.
#[derive(Clone, Copy, Debug, PartialEq, Eq, Structural)]
pub enum Error {
    NoEntryForSender,
    ValueAlreadySet,
    InsufficientBalance,
    ExceedsWithdrawalLimit,
    NoHoldFound,
    InsufficientAmount,
    TempoaryBalanceNotFound,
    OperationLimitExceeded,
}

/// Why a call failed: a wrong origin, or one of the game's errors.
#[derive(Clone, Copy, Debug, PartialEq, Eq, Structural)]
pub enum DispatchError {
    BadOrigin,
    Module(Error),
}

/// What the game reports as it runs.
#[derive(Clone, Copy, Debug, PartialEq, Eq, Structural)]
pub enum Event {
    AccumulateTemporaryBalance { balance: Balance },
    SetTemporaryBalance { balance: Balance },
    TempoaryBalanceCleared(AccountId),
    BalanceUpdated(AccountId, Balance),
    GameWon(AccountId, Balance),
    OperationCountUpdated(u32, u16),
}

/// The constants the game is configured with.
#[derive(Clone, Copy, Debug, PartialEq, Eq, Structural)]
pub struct Config {
    /// The balance that wins the game.
    pub magic_number: Balance,
    /// An operation kind may still run while it has run at most this many times.
    pub operation_max: u16,
}

/// The cost that a hook reports.
#[derive(Clone, Copy, Debug, PartialEq, Eq, Structural)]
pub struct Weight {
    pub ref_time: u64,
    pub proof_size: u64,
}

impl Weight {
    /// The weight of no work.
    pub open spec fn zero_spec() -> Weight {
        Weight { ref_time: 0, proof_size: 0 }
    }

    pub fn zero() -> (r: Weight)
        ensures
            r == Weight::zero_spec(),
    {
        Weight { ref_time: 0, proof_size: 0 }
    }
}

/// The operation kind that `accumulate_temporary_balance` counts under.
pub const ACCUMULATE_KEY: u32 = 0;

/// The operation kind that `set_temporary_balance` counts under.
pub const SET_KEY: u32 = 1;

/// The operation kind that `clear_temporary_balance` counts under.
pub const CLEAR_KEY: u32 = 2;

/// The operation kind that `update_balance` counts under.
pub const UPDATE_KEY: u32 = 3;

/// Addition that stops at the largest balance.
pub open spec fn sat_add(a: Balance, b: Balance) -> Balance {
    if a + b > u128::MAX {
        u128::MAX
    } else {
        (a + b) as u128
    }
}

/// The account that signed `origin`, if any.
pub open spec fn signer(origin: Origin) -> Option<AccountId> {
    match origin {
        Origin::Signed(who) => Some(who),
        _ => None,
    }
}

} // verus!
