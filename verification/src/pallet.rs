//! The game itself: its storage, the calls that users make, and the block hooks.

use vstd::prelude::*;
use crate::keyed_map::{KeyedMap, keys_of, lists_exactly, map_of};
use crate::model::{PalletState, add_wins, every_account, cap_u32, initial_state, points_in};
use crate::types::{
    AccountId, Balance, BlockNumber, Config, DispatchError, DispatchResult, Error, Event, Origin,
    Weight, signer, ACCUMULATE_KEY, CLEAR_KEY, SET_KEY, UPDATE_KEY,
};

verus! {

/// The account that signed `origin`, or `BadOrigin`.
pub fn ensure_signed(origin: Origin) -> (r: Result<AccountId, DispatchError>)
    ensures
        r == (match signer(origin) {
            Some(who) => Ok(who),
            None => Err(DispatchError::BadOrigin),
        }),
{
    match origin {
        Origin::Signed(who) => Ok(who),
        _ => Err(DispatchError::BadOrigin),
    }
}

/// Nothing, where `origin` is the root origin; else `BadOrigin`.
pub fn ensure_root(origin: Origin) -> (r: DispatchResult)
    ensures
        r == (if origin == Origin::Root {
            Ok::<(), DispatchError>(())
        } else {
            Err(DispatchError::BadOrigin)
        }),
{
    match origin {
        Origin::Root => Ok(()),
        _ => Err(DispatchError::BadOrigin),
    }
}

/// The storage of the game.
pub struct Pallet {
    config: Config,
    user_balances: KeyedMap<AccountId, Balance>,
    temporary_balance: KeyedMap<AccountId, Balance>,
    operation_counts: KeyedMap<u32, u16>,
    total_balance: Balance,
    leaderboard: KeyedMap<AccountId, u32>,
    events: Vec<Event>,
}

/// One more win for `who`, stopping at `u32::MAX`.
fn add_win(board: &mut KeyedMap<AccountId, u32>, who: AccountId)
    requires
        old(board).wf(),
    ensures
        final(board).wf(),
        final(board)@ == old(board)@.insert(who, cap_u32(points_in(old(board)@, who) + 1)),
        final(board).keys() == (if old(board)@.contains_key(who) {
            old(board).keys()
        } else {
            old(board).keys().push(who)
        }),
{
    match board.get(&who) {
        Some(points) => board.insert(who, points.saturating_add(1)),
        None => board.insert(who, 1),
    }
}

impl Pallet {
    /// The state of the game.
    pub closed spec fn view(&self) -> PalletState {
        PalletState {
            config: self.config,
            users: self.user_balances@,
            user_order: self.user_balances.keys(),
            temps: self.temporary_balance@,
            op_counts: self.operation_counts@,
            total: self.total_balance,
            board: self.leaderboard@,
            events: self.events@,
        }
    }

    /// The storage is consistent.
    pub closed spec fn wf(&self) -> bool {
        &&& self.user_balances.wf()
        &&& self.temporary_balance.wf()
        &&& self.operation_counts.wf()
        &&& self.leaderboard.wf()
        &&& self@.well_formed()
    }

    /// Where the maps are consistent, the storage is consistent.
    proof fn lemma_wf(&self)
        requires
            self.user_balances.wf(),
            self.temporary_balance.wf(),
            self.operation_counts.wf(),
            self.leaderboard.wf(),
        ensures
            self.wf(),
    {
        self.user_balances.lemma_wf();
    }

    /// A game with the given constants and empty storage.
    pub fn new(config: Config) -> (r: Pallet)
        ensures
            r.wf(),
            r@ == initial_state(config),
    {
        let r = Pallet {
            config,
            user_balances: KeyedMap::new(),
            temporary_balance: KeyedMap::new(),
            operation_counts: KeyedMap::new(),
            total_balance: 0,
            leaderboard: KeyedMap::new(),
            events: Vec::new(),
        };
        proof { r.lemma_wf(); }
        r
    }

    /// A game with the given constants whose storage holds the given entries (a later entry
    /// for a key replaces an earlier one; settled balances are walked in the order of their
    /// accounts' first entries) and no events yet.
    pub fn from_storage(
        config: Config,
        user_balances: &Vec<(AccountId, Balance)>,
        temporary_balance: &Vec<(AccountId, Balance)>,
        operation_counts: &Vec<(u32, u16)>,
        total_balance: Balance,
        leaderboard: &Vec<(AccountId, u32)>,
    ) -> (r: Pallet)
        ensures
            r.wf(),
            r@ == (PalletState {
                config,
                users: map_of(user_balances@),
                user_order: keys_of(user_balances@),
                temps: map_of(temporary_balance@),
                op_counts: map_of(operation_counts@),
                total: total_balance,
                board: map_of(leaderboard@),
                events: Seq::empty(),
            }),
    {
        let r = Pallet {
            config,
            user_balances: KeyedMap::from_pairs(user_balances),
            temporary_balance: KeyedMap::from_pairs(temporary_balance),
            operation_counts: KeyedMap::from_pairs(operation_counts),
            total_balance,
            leaderboard: KeyedMap::from_pairs(leaderboard),
            events: Vec::new(),
        };
        proof { r.lemma_wf(); }
        r
    }

    fn deposit_event(&mut self, event: Event)
        ensures
            final(self)@ == (PalletState { events: old(self)@.events.push(event), ..old(self)@ }),
            final(self).user_balances == old(self).user_balances,
            final(self).temporary_balance == old(self).temporary_balance,
            final(self).operation_counts == old(self).operation_counts,
            final(self).leaderboard == old(self).leaderboard,
    {
        self.events.push(event);
    }

    /// Counts one operation of kind `key`; refuses once the kind has run more than
    /// `operation_max` times.
    fn record_operation(&mut self, key: u32) -> (r: DispatchResult)
        requires
            old(self).wf(),
            old(self)@.op_count_fits(key),
        ensures
            final(self).wf(),
            (final(self)@, r) == old(self)@.record_operation(key),
    {
        let current_count: u16 = match self.operation_counts.get(&key) {
            Some(c) => c,
            None => 0,
        };
        if current_count > self.config.operation_max {
            return Err(DispatchError::Module(Error::OperationLimitExceeded));
        }
        let new_count: u16 = current_count + 1;
        self.operation_counts.insert(key, new_count);
        self.deposit_event(Event::OperationCountUpdated(key, new_count));
        proof { self.lemma_wf(); }
        Ok(())
    }

    /// The root origin gives `who` its first temporary balance.
    pub fn set_temporary_balance(&mut self, origin: Origin, who: AccountId, balance: Balance) -> (r:
        DispatchResult)
        requires
            old(self).wf(),
            old(self)@.set_would_count(origin, who) ==> old(self)@.op_count_fits(SET_KEY),
        ensures
            final(self).wf(),
            (final(self)@, r) == old(self)@.set_temporary_balance(origin, who, balance),
    {
        ensure_root(origin)?;
        if self.temporary_balance.contains_key(&who) {
            return Err(DispatchError::Module(Error::ValueAlreadySet));
        }
        self.record_operation(SET_KEY)?;
        self.temporary_balance.insert(who, balance);
        self.deposit_event(Event::SetTemporaryBalance { balance });
        proof { self.lemma_wf(); }
        Ok(())
    }

    /// The signer adds `increase_by` to the temporary balance it holds.
    pub fn accumulate_temporary_balance(&mut self, who: Origin, increase_by: Balance) -> (r:
        DispatchResult)
        requires
            old(self).wf(),
            old(self)@.accumulate_would_count(who) ==> old(self)@.op_count_fits(ACCUMULATE_KEY),
        ensures
            final(self).wf(),
            (final(self)@, r) == old(self)@.accumulate_temporary_balance(who, increase_by),
    {
        self.do_accumulate_temporary_balance(who, increase_by)
    }

    fn do_accumulate_temporary_balance(&mut self, origin: Origin, increase_by: Balance) -> (r:
        DispatchResult)
        requires
            old(self).wf(),
            old(self)@.accumulate_would_count(origin) ==> old(self)@.op_count_fits(ACCUMULATE_KEY),
        ensures
            final(self).wf(),
            (final(self)@, r) == old(self)@.accumulate_temporary_balance(origin, increase_by),
    {
        let who = ensure_signed(origin)?;
        let current = self.temporary_balance.get(&who);
        if current.is_none() && !self.operation_limit_reached(ACCUMULATE_KEY) {
            return Err(DispatchError::Module(Error::NoEntryForSender));
        }
        self.record_operation(ACCUMULATE_KEY)?;
        match current {
            Some(temporary_balance) => {
                self.temporary_balance.insert(who, temporary_balance.saturating_add(increase_by));
                self.deposit_event(Event::AccumulateTemporaryBalance { balance: increase_by });
            },
            None => {},
        }
        proof { self.lemma_wf(); }
        Ok(())
    }

    fn operation_limit_reached(&self, key: u32) -> (r: bool)
        requires
            self.wf(),
        ensures
            r == (self@.op_count(key) > self@.config.operation_max),
    {
        match self.operation_counts.get(&key) {
            Some(c) => c > self.config.operation_max,
            None => false,
        }
    }

    /// A signed call removes the temporary balance of `who`.
    pub fn clear_temporary_balance(&mut self, origin: Origin, who: AccountId) -> (r: DispatchResult)
        requires
            old(self).wf(),
            old(self)@.clear_would_count(origin) ==> old(self)@.op_count_fits(CLEAR_KEY),
        ensures
            final(self).wf(),
            (final(self)@, r) == old(self)@.clear_temporary_balance(origin, who),
    {
        let _ = ensure_signed(origin)?;
        self.record_operation(CLEAR_KEY)?;
        self.temporary_balance.remove(who);
        self.deposit_event(Event::TempoaryBalanceCleared(who));
        proof { self.lemma_wf(); }
        Ok(())
    }

    /// The signer adds its temporary balance to its settled balance and to the total.
    pub fn update_balance(&mut self, origin: Origin) -> (r: DispatchResult)
        requires
            old(self).wf(),
            old(self)@.update_would_count(origin) ==> old(self)@.op_count_fits(UPDATE_KEY),
        ensures
            final(self).wf(),
            (final(self)@, r) == old(self)@.update_balance(origin),
    {
        let who = ensure_signed(origin)?;
        let new_balance = match self.temporary_balance.get(&who) {
            Some(b) => b,
            None => {
                return Err(DispatchError::Module(Error::TempoaryBalanceNotFound));
            },
        };
        self.record_operation(UPDATE_KEY)?;
        let current_balance = match self.user_balances.get(&who) {
            Some(b) => b,
            None => 0,
        };
        self.user_balances.insert(who, current_balance.saturating_add(new_balance));
        self.total_balance = self.total_balance.saturating_add(new_balance);
        self.deposit_event(Event::BalanceUpdated(who, new_balance));
        proof { self.lemma_wf(); }
        Ok(())
    }

    /// Gives a win to every account whose settled balance is the magic number and, where the
    /// total is the magic number, one more to every account with a settled balance; each win
    /// is reported, in walking order.
    pub fn check_win_condition(&mut self)
        requires
            old(self).wf(),
        ensures
            final(self).wf(),
            final(self)@ == old(self)@.check_win_condition(),
    {
        let ghost s0 = self@;
        let ghost order = s0.user_order;
        proof { self.user_balances.lemma_wf(); }
        let total_balance = self.total_balance;
        let magic_number = self.config.magic_number;
        let n = self.user_balances.len();
        let mut i: usize = 0;
        while i < n
            invariant
                0 <= i <= n,
                n == order.len(),
                self.user_balances == old(self).user_balances,
                self.temporary_balance == old(self).temporary_balance,
                self.operation_counts == old(self).operation_counts,
                self.config == old(self).config,
                self.total_balance == old(self).total_balance,
                s0 == old(self)@,
                order == self.user_balances.keys(),
                order.no_duplicates(),
                self.user_balances.wf(),
                self.leaderboard.wf(),
                magic_number == s0.config.magic_number,
                self.leaderboard@ == add_wins(s0.board, order.take(i as int), s0.has_magic_balance()),
                self.events@ == s0.events + order.take(i as int).filter(s0.has_magic_balance()).map_values(
                    |a: AccountId| s0.won_event(a),
                ),
            decreases n - i,
        {
            let (account, balance) = self.user_balances.entry_at(i);
            proof {
                lemma_not_in_prefix(order, i as int);
                assert(s0.has_magic_balance()(account) == (balance == magic_number));
                lemma_take_push(order, i as int);
                lemma_add_wins_step(s0.board, order.take(i as int), account, s0.has_magic_balance());
                order.take(i as int).lemma_filter_push(account, s0.has_magic_balance());
                lemma_map_values_push(order.take(i as int).filter(s0.has_magic_balance()), account, |a: AccountId| s0.won_event(a));
            }
            if balance == magic_number {
                add_win(&mut self.leaderboard, account);
                self.events.push(Event::GameWon(account, balance));
                assert(self.events@ =~= s0.events + order.take(i + 1).filter(s0.has_magic_balance()).map_values(
                    |a: AccountId| s0.won_event(a),
                ));
            }
            assert(self.leaderboard@ =~= add_wins(s0.board, order.take(i + 1), s0.has_magic_balance()));
            i = i + 1;
        }
        assert(order.take(n as int) =~= order);
        let ghost board1 = self.leaderboard@;
        let ghost events1 = self.events@;
        if total_balance == magic_number {
            let mut j: usize = 0;
            while j < n
                invariant
                    0 <= j <= n,
                    n == order.len(),
                    self.user_balances == old(self).user_balances,
                    self.temporary_balance == old(self).temporary_balance,
                    self.operation_counts == old(self).operation_counts,
                    self.config == old(self).config,
                    self.total_balance == old(self).total_balance,
                    s0 == old(self)@,
                    order == self.user_balances.keys(),
                    order.no_duplicates(),
                    self.user_balances.wf(),
                    self.leaderboard.wf(),
                    self.leaderboard@ == add_wins(board1, order.take(j as int), every_account()),
                    self.events@ == events1 + order.take(j as int).map_values(
                        |a: AccountId| s0.won_event(a),
                    ),
                decreases n - j,
            {
                let (account, balance) = self.user_balances.entry_at(j);
                proof {
                    lemma_not_in_prefix(order, j as int);
                    lemma_take_push(order, j as int);
                    lemma_add_wins_step(board1, order.take(j as int), account, every_account());
                    lemma_map_values_push(order.take(j as int), account, |a: AccountId| s0.won_event(a));
                }
                add_win(&mut self.leaderboard, account);
                self.events.push(Event::GameWon(account, balance));
                assert(self.events@ =~= events1 + order.take(j + 1).map_values(
                    |a: AccountId| s0.won_event(a),
                ));
                assert(self.leaderboard@ =~= add_wins(board1, order.take(j + 1), every_account()));
                j = j + 1;
            }
        }
        proof {
            let s1 = s0.check_win_condition();
            assert(self.events@ =~= s1.events);
            assert forall|a: AccountId| order.contains(a) <==> s0.users.contains_key(a) by {
                assert(order.to_set().contains(a) == order.contains(a));
            }
            assert(self.leaderboard@ =~= s1.board);
            self.lemma_wf();
        }
    }

    /// The end of a block: checks the win condition.
    pub fn on_finalize(&mut self, _n: BlockNumber)
        requires
            old(self).wf(),
        ensures
            final(self).wf(),
            final(self)@ == old(self)@.on_finalize(),
            final(self)@ == old(self)@.check_win_condition(),
    {
        self.check_win_condition();
    }

    /// The start of a block: clears the temporary and settled balances, the total and the
    /// operation counts.
    pub fn on_initialize(&mut self, _n: BlockNumber) -> (r: Weight)
        requires
            old(self).wf(),
        ensures
            final(self).wf(),
            final(self)@ == old(self)@.on_initialize(),
            r == Weight::zero_spec(),
    {
        self.temporary_balance.clear();
        self.user_balances.clear();
        self.operation_counts.clear();
        self.total_balance = 0;
        proof {
            assert(self@ =~= old(self)@.on_initialize());
            self.lemma_wf();
        }
        Weight::zero()
    }

    /// The constants of the game.
    pub fn config(&self) -> (r: Config)
        ensures
            r == self@.config,
    {
        self.config
    }

    /// The temporary balance of `who`.
    pub fn temporary_balance(&self, who: AccountId) -> (r: Option<Balance>)
        requires
            self.wf(),
        ensures
            r == self@.temps.get(who),
    {
        self.temporary_balance.get(&who)
    }

    /// The settled balance of `who`.
    pub fn user_balance(&self, who: AccountId) -> (r: Option<Balance>)
        requires
            self.wf(),
        ensures
            r == self@.users.get(who),
    {
        self.user_balances.get(&who)
    }

    /// The running total of settled amounts.
    pub fn total_balance(&self) -> (r: Balance)
        ensures
            r == self@.total,
    {
        self.total_balance
    }

    /// How often the operation kind `key` has run, where it has.
    pub fn operation_count(&self, key: u32) -> (r: Option<u16>)
        requires
            self.wf(),
        ensures
            r == self@.op_counts.get(key),
    {
        self.operation_counts.get(&key)
    }

    /// How often `who` has won, where it has.
    pub fn leaderboard(&self, who: AccountId) -> (r: Option<u32>)
        requires
            self.wf(),
        ensures
            r == self@.board.get(who),
    {
        self.leaderboard.get(&who)
    }

    /// Whether one more operation of kind `key` can be counted in a `u16`; every call that
    /// counts under `key` needs it.
    pub fn operation_count_fits(&self, key: u32) -> (r: bool)
        requires
            self.wf(),
        ensures
            r == self@.op_count_fits(key),
    {
        match self.operation_counts.get(&key) {
            Some(c) => c < u16::MAX || c > self.config.operation_max,
            None => true,
        }
    }

    /// The settled balances, in walking order.
    pub fn user_balance_entries(&self) -> (r: Vec<(AccountId, Balance)>)
        requires
            self.wf(),
        ensures
            lists_exactly(r@, self@.users),
            r@.map_values(|e: (AccountId, Balance)| e.0) == self@.user_order,
    {
        self.user_balances.to_vec()
    }

    /// The temporary balances.
    pub fn temporary_balance_entries(&self) -> (r: Vec<(AccountId, Balance)>)
        requires
            self.wf(),
        ensures
            lists_exactly(r@, self@.temps),
    {
        self.temporary_balance.to_vec()
    }

    /// The operation counts.
    pub fn operation_count_entries(&self) -> (r: Vec<(u32, u16)>)
        requires
            self.wf(),
        ensures
            lists_exactly(r@, self@.op_counts),
    {
        self.operation_counts.to_vec()
    }

    /// The win counts.
    pub fn leaderboard_entries(&self) -> (r: Vec<(AccountId, u32)>)
        requires
            self.wf(),
        ensures
            lists_exactly(r@, self@.board),
    {
        self.leaderboard.to_vec()
    }

    /// Every event reported so far, oldest first.
    pub fn events(&self) -> (r: &Vec<Event>)
        ensures
            r@ == self@.events,
    {
        &self.events
    }

    /// The latest event, if any.
    pub fn last_event(&self) -> (r: Option<Event>)
        ensures
            r == (if self@.events.len() == 0 {
                None::<Event>
            } else {
                Some(self@.events.last())
            }),
    {
        if self.events.len() == 0 {
            None
        } else {
            Some(self.events[self.events.len() - 1])
        }
    }
}

/// The temporary balances that a new game starts with.
pub struct GenesisConfig {
    pub temporary_balance: Vec<(AccountId, Balance)>,
}

impl GenesisConfig {
    /// Writes each pair as a temporary balance, in order; a later pair for the same account
    /// replaces an earlier one.
    pub fn build(&self, pallet: &mut Pallet)
        requires
            old(pallet).wf(),
        ensures
            final(pallet).wf(),
            final(pallet)@ == old(pallet)@.build_genesis(self.temporary_balance@),
    {
        let ghost pairs = self.temporary_balance@;
        let n = self.temporary_balance.len();
        let mut i: usize = 0;
        assert(pairs.take(0) =~= Seq::<(AccountId, Balance)>::empty());
        while i < n
            invariant
                0 <= i <= n,
                n == pairs.len(),
                pairs == self.temporary_balance@,
                pallet.temporary_balance.wf(),
                pallet.temporary_balance@ == PalletState::genesis_temps(
                    old(pallet)@.temps,
                    pairs.take(i as int),
                ),
                pallet.user_balances == old(pallet).user_balances,
                pallet.operation_counts == old(pallet).operation_counts,
                pallet.leaderboard == old(pallet).leaderboard,
                pallet.events == old(pallet).events,
                pallet.config == old(pallet).config,
                pallet.total_balance == old(pallet).total_balance,
            decreases n - i,
        {
            let (account, balance) = self.temporary_balance[i];
            pallet.temporary_balance.insert(account, balance);
            assert(pairs.take(i + 1).drop_last() =~= pairs.take(i as int));
            i = i + 1;
        }
        assert(pairs.take(n as int) =~= pairs);
        proof {
            assert(pallet@ =~= old(pallet)@.build_genesis(pairs));
            pallet.lemma_wf();
        }
    }
}

/// The first `i + 1` elements are the first `i` and then element `i`.
proof fn lemma_take_push<A>(s: Seq<A>, i: int)
    requires
        0 <= i < s.len(),
    ensures
        s.take(i + 1) == s.take(i).push(s[i]),
{
    assert(s.take(i + 1) =~= s.take(i).push(s[i]));
}

/// In a sequence without duplicates, element `i` is not among the first `i`.
proof fn lemma_not_in_prefix<A>(s: Seq<A>, i: int)
    requires
        0 <= i < s.len(),
        s.no_duplicates(),
    ensures
        !s.take(i).contains(s[i]),
{
    if s.take(i).contains(s[i]) {
        let j = choose|j: int| 0 <= j < s.take(i).len() && s.take(i)[j] == s[i];
        assert(s[j] == s[i]);
    }
}

proof fn lemma_map_values_push<A, B>(s: Seq<A>, a: A, f: spec_fn(A) -> B)
    ensures
        s.push(a).map_values(f) == s.map_values(f).push(f(a)),
{
    assert(s.push(a).map_values(f) =~= s.map_values(f).push(f(a)));
}

/// Taking one more account into `add_wins` adds its win, if it satisfies `p`.
proof fn lemma_add_wins_step(board: Map<AccountId, u32>, keys: Seq<AccountId>, k: AccountId, p: spec_fn(AccountId) -> bool)
    requires
        !keys.contains(k),
    ensures
        add_wins(board, keys.push(k), p) == (if p(k) {
            add_wins(board, keys, p).insert(k, cap_u32(points_in(add_wins(board, keys, p), k) + 1))
        } else {
            add_wins(board, keys, p)
        }),
{
    assert forall|a: AccountId| keys.push(k).contains(a) <==> (keys.contains(a) || a == k) by {
        if keys.push(k).contains(a) {
            let j = choose|j: int| 0 <= j < keys.push(k).len() && keys.push(k)[j] == a;
            if j < keys.len() {
                assert(keys[j] == a);
            }
        }
        if keys.contains(a) {
            let j = choose|j: int| 0 <= j < keys.len() && keys[j] == a;
            assert(keys.push(k)[j] == a);
        }
        if a == k {
            assert(keys.push(k)[keys.len() as int] == a);
        }
    }
    if p(k) {
        assert(add_wins(board, keys.push(k), p) =~= add_wins(board, keys, p).insert(
            k,
            cap_u32(points_in(add_wins(board, keys, p), k) + 1),
        ));
    } else {
        assert(add_wins(board, keys.push(k), p) =~= add_wins(board, keys, p));
    }
}

} // verus!
