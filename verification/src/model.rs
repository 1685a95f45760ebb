//! The game's state as mathematical values, and what each call does to it.

use vstd::prelude::*;
use crate::types::{
    AccountId, Balance, Config, DispatchError, DispatchResult, Error, Event, Origin, sat_add,
    signer, ACCUMULATE_KEY, CLEAR_KEY, SET_KEY, UPDATE_KEY,
};

verus! {

/// The whole state of the game.
pub struct PalletState {
    pub config: Config,
    /// Settled balances.
    pub users: Map<AccountId, Balance>,
    /// The accounts that hold a settled balance, in the order in which they are walked.
    pub user_order: Seq<AccountId>,
    /// Temporary balances, not yet settled.
    pub temps: Map<AccountId, Balance>,
    /// How often each kind of operation has run.
    pub op_counts: Map<u32, u16>,
    /// The running total of settled amounts.
    pub total: Balance,
    /// How often each account has won.
    pub board: Map<AccountId, u32>,
    /// Every event reported so far, oldest first.
    pub events: Seq<Event>,
}

/// The state that a new game starts from.
pub open spec fn initial_state(config: Config) -> PalletState {
    PalletState {
        config,
        users: Map::empty(),
        user_order: Seq::empty(),
        temps: Map::empty(),
        op_counts: Map::empty(),
        total: 0,
        board: Map::empty(),
        events: Seq::empty(),
    }
}

/// `min(a, u32::MAX)`, as a `u32`.
pub open spec fn cap_u32(a: int) -> u32 {
    if a > u32::MAX {
        u32::MAX
    } else {
        a as u32
    }
}

/// The wins recorded for `who` in `board`, zero where there are none.
pub open spec fn points_in(board: Map<AccountId, u32>, who: AccountId) -> u32 {
    if board.contains_key(who) {
        board[who]
    } else {
        0
    }
}

/// `board` after one more win for each account of `keys` that satisfies `p`, stopping at
/// `u32::MAX` (each such account occurring once in `keys`).
pub open spec fn add_wins(board: Map<AccountId, u32>, keys: Seq<AccountId>, p: spec_fn(AccountId) -> bool) -> Map<AccountId, u32> {
    Map::new(
        |a: AccountId| board.contains_key(a) || (keys.contains(a) && p(a)),
        |a: AccountId| if keys.contains(a) && p(a) {
            cap_u32(points_in(board, a) + 1)
        } else {
            board[a]
        },
    )
}

/// Holds of every account.
pub open spec fn every_account() -> spec_fn(AccountId) -> bool {
    |a: AccountId| true
}

/// The failure that an exhausted operation kind gives.
pub open spec fn limit_error() -> DispatchResult {
    Err(DispatchError::Module(Error::OperationLimitExceeded))
}

impl PalletState {
    /// The walking order of the settled balances lists each of their accounts once.
    pub open spec fn well_formed(self) -> bool {
        &&& self.user_order.no_duplicates()
        &&& self.user_order.to_set() == self.users.dom()
    }

    /// What holds of every state that the calls reach from a new game: it is well formed,
    /// and no operation kind has run more than one time past its limit.
    pub open spec fn inv(self) -> bool {
        &&& self.well_formed()
        &&& forall|k: u32|
            #[trigger] self.op_counts.contains_key(k) ==> self.op_counts[k]
                <= self.config.operation_max + 1
    }

    /// How often the operation kind `key` has run.
    pub open spec fn op_count(self, key: u32) -> u16 {
        if self.op_counts.contains_key(key) {
            self.op_counts[key]
        } else {
            0
        }
    }

    /// Counting one more operation of kind `key` stays within `u16`.
    pub open spec fn op_count_fits(self, key: u32) -> bool {
        self.op_count(key) < u16::MAX || self.op_count(key) > self.config.operation_max
    }

    /// `set_temporary_balance` gets as far as counting its operation.
    pub open spec fn set_would_count(self, origin: Origin, who: AccountId) -> bool {
        origin == Origin::Root && !self.temps.contains_key(who)
    }

    /// `accumulate_temporary_balance` gets as far as counting its operation.
    pub open spec fn accumulate_would_count(self, origin: Origin) -> bool {
        match signer(origin) {
            Some(who) => self.temps.contains_key(who),
            None => false,
        }
    }

    /// `clear_temporary_balance` gets as far as counting its operation.
    pub open spec fn clear_would_count(self, origin: Origin) -> bool {
        signer(origin) is Some
    }

    /// `update_balance` gets as far as counting its operation.
    pub open spec fn update_would_count(self, origin: Origin) -> bool {
        match signer(origin) {
            Some(who) => self.temps.contains_key(who),
            None => false,
        }
    }

    /// The settled balance of `who`, zero where there is none.
    pub open spec fn user_or_zero(self, who: AccountId) -> Balance {
        if self.users.contains_key(who) {
            self.users[who]
        } else {
            0
        }
    }

    /// The wins of `who`, zero where there are none.
    pub open spec fn points(self, who: AccountId) -> u32 {
        points_in(self.board, who)
    }

    /// Counts one operation of kind `key`, or refuses when the kind has run more than
    /// `operation_max` times.
    pub open spec fn record_operation(self, key: u32) -> (PalletState, DispatchResult) {
        let c = self.op_count(key);
        if c > self.config.operation_max {
            (self, limit_error())
        } else {
            (
                PalletState {
                    op_counts: self.op_counts.insert(key, (c + 1) as u16),
                    events: self.events.push(Event::OperationCountUpdated(key, (c + 1) as u16)),
                    ..self
                },
                Ok(()),
            )
        }
    }

    /// The root origin gives `who` a first temporary balance.
    pub open spec fn set_temporary_balance(self, origin: Origin, who: AccountId, balance: Balance) -> (
        PalletState,
        DispatchResult,
    ) {
        if origin != Origin::Root {
            (self, Err(DispatchError::BadOrigin))
        } else if self.temps.contains_key(who) {
            (self, Err(DispatchError::Module(Error::ValueAlreadySet)))
        } else if self.op_count(SET_KEY) > self.config.operation_max {
            (self, limit_error())
        } else {
            let s = self.record_operation(SET_KEY).0;
            (
                PalletState {
                    temps: s.temps.insert(who, balance),
                    events: s.events.push(Event::SetTemporaryBalance { balance }),
                    ..s
                },
                Ok(()),
            )
        }
    }

    /// The signer adds `increase_by` to the temporary balance it already holds.
    pub open spec fn accumulate_temporary_balance(self, origin: Origin, increase_by: Balance) -> (
        PalletState,
        DispatchResult,
    ) {
        match signer(origin) {
            None => (self, Err(DispatchError::BadOrigin)),
            Some(who) => if self.op_count(ACCUMULATE_KEY) > self.config.operation_max {
                (self, limit_error())
            } else if !self.temps.contains_key(who) {
                (self, Err(DispatchError::Module(Error::NoEntryForSender)))
            } else {
                let s = self.record_operation(ACCUMULATE_KEY).0;
                (
                    PalletState {
                        temps: s.temps.insert(who, sat_add(self.temps[who], increase_by)),
                        events: s.events.push(
                            Event::AccumulateTemporaryBalance { balance: increase_by },
                        ),
                        ..s
                    },
                    Ok(()),
                )
            },
        }
    }

    /// A signed call removes the temporary balance of `who`.
    pub open spec fn clear_temporary_balance(self, origin: Origin, who: AccountId) -> (
        PalletState,
        DispatchResult,
    ) {
        match signer(origin) {
            None => (self, Err(DispatchError::BadOrigin)),
            Some(_) => if self.op_count(CLEAR_KEY) > self.config.operation_max {
                (self, limit_error())
            } else {
                let s = self.record_operation(CLEAR_KEY).0;
                (
                    PalletState {
                        temps: s.temps.remove(who),
                        events: s.events.push(Event::TempoaryBalanceCleared(who)),
                        ..s
                    },
                    Ok(()),
                )
            },
        }
    }

    /// The signer adds its temporary balance to its settled balance and to the total.
    pub open spec fn update_balance(self, origin: Origin) -> (PalletState, DispatchResult) {
        match signer(origin) {
            None => (self, Err(DispatchError::BadOrigin)),
            Some(who) => if !self.temps.contains_key(who) {
                (self, Err(DispatchError::Module(Error::TempoaryBalanceNotFound)))
            } else if self.op_count(UPDATE_KEY) > self.config.operation_max {
                (self, limit_error())
            } else {
                let amount = self.temps[who];
                let s = self.record_operation(UPDATE_KEY).0;
                (
                    PalletState {
                        users: s.users.insert(who, sat_add(self.user_or_zero(who), amount)),
                        user_order: if self.users.contains_key(who) {
                            s.user_order
                        } else {
                            s.user_order.push(who)
                        },
                        total: sat_add(self.total, amount),
                        events: s.events.push(Event::BalanceUpdated(who, amount)),
                        ..s
                    },
                    Ok(()),
                )
            },
        }
    }

    /// `who` holds a settled balance equal to the magic number.
    pub open spec fn wins_alone(self, who: AccountId) -> bool {
        self.users.contains_key(who) && self.users[who] == self.config.magic_number
    }

    /// The total equals the magic number and `who` holds a settled balance.
    pub open spec fn wins_with_all(self, who: AccountId) -> bool {
        self.users.contains_key(who) && self.total == self.config.magic_number
    }

    /// The wins that `who` gains when the win condition is checked.
    pub open spec fn wins_gained(self, who: AccountId) -> int {
        (if self.wins_alone(who) {
            1int
        } else {
            0int
        }) + (if self.wins_with_all(who) {
            1int
        } else {
            0int
        })
    }

    /// Whether the settled balance of an account is the magic number.
    pub open spec fn has_magic_balance(self) -> spec_fn(AccountId) -> bool {
        |a: AccountId| self.users[a] == self.config.magic_number
    }

    /// The event that reports a win of `who` with its settled balance.
    pub open spec fn won_event(self, who: AccountId) -> Event {
        Event::GameWon(who, self.users[who])
    }

    /// The events that checking the win condition reports: one for each account whose own
    /// balance is the magic number, then, where the total is the magic number, one for every
    /// account; each in walking order.
    pub open spec fn win_events(self) -> Seq<Event> {
        self.user_order.filter(self.has_magic_balance()).map_values(
            |a: AccountId| self.won_event(a),
        ) + if self.total == self.config.magic_number {
            self.user_order.map_values(|a: AccountId| self.won_event(a))
        } else {
            Seq::empty()
        }
    }

    /// Checks the win condition: every winner's count grows by the wins it gained,
    /// stopping at `u32::MAX`, and the wins are reported.
    pub open spec fn check_win_condition(self) -> PalletState {
        PalletState {
            board: Map::new(
                |a: AccountId| self.board.contains_key(a) || self.wins_gained(a) > 0,
                |a: AccountId| cap_u32(self.points(a) + self.wins_gained(a)),
            ),
            events: self.events + self.win_events(),
            ..self
        }
    }

    /// The start of a block clears the block's storage: the temporary and settled balances,
    /// the total and the operation counts start again from nothing. Wins and events stay.
    pub open spec fn on_initialize(self) -> PalletState {
        PalletState {
            users: Map::empty(),
            user_order: Seq::empty(),
            temps: Map::empty(),
            op_counts: Map::empty(),
            total: 0,
            ..self
        }
    }

    /// The end of a block checks the win condition.
    pub open spec fn on_finalize(self) -> PalletState {
        self.check_win_condition()
    }

    /// The genesis pairs, written one after the other as temporary balances.
    pub open spec fn genesis_temps(temps: Map<AccountId, Balance>, pairs: Seq<(AccountId, Balance)>) -> Map<AccountId, Balance>
        decreases pairs.len(),
    {
        if pairs.len() == 0 {
            temps
        } else {
            Self::genesis_temps(temps, pairs.drop_last()).insert(pairs.last().0, pairs.last().1)
        }
    }

    /// Writes the genesis pairs as temporary balances.
    pub open spec fn build_genesis(self, pairs: Seq<(AccountId, Balance)>) -> PalletState {
        PalletState { temps: Self::genesis_temps(self.temps, pairs), ..self }
    }
}

} // verus!
