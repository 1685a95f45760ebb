//! What holds of the game across calls, proved over the model of its state.

use vstd::prelude::*;
use crate::keyed_map::{keys_of, law_pairs_round_trip, lists_exactly, map_of};
use crate::model::{PalletState, cap_u32, initial_state, limit_error, points_in};
use crate::types::{
    AccountId, Balance, Config, DispatchError, Error, Event, Origin, sat_add, signer, ACCUMULATE_KEY,
    CLEAR_KEY, SET_KEY, UPDATE_KEY,
};

verus! {

/// A call that fails leaves the whole state, events included, as it was.
pub proof fn law_failed_call_changes_nothing(
    s: PalletState,
    origin: Origin,
    who: AccountId,
    amount: Balance,
)
    ensures
        s.set_temporary_balance(origin, who, amount).1 is Err ==> s.set_temporary_balance(
            origin,
            who,
            amount,
        ).0 == s,
        s.accumulate_temporary_balance(origin, amount).1 is Err
            ==> s.accumulate_temporary_balance(origin, amount).0 == s,
        s.clear_temporary_balance(origin, who).1 is Err ==> s.clear_temporary_balance(
            origin,
            who,
        ).0 == s,
        s.update_balance(origin).1 is Err ==> s.update_balance(origin).0 == s,
{
}

/// Pushing a new value keeps a sequence free of duplicates and adds the value to its set.
proof fn lemma_push_new<A>(s: Seq<A>, x: A)
    requires
        s.no_duplicates(),
        !s.contains(x),
    ensures
        s.push(x).no_duplicates(),
        s.push(x).to_set() == s.to_set().insert(x),
{
    let f = s.push(x);
    assert forall|i: int, j: int| 0 <= i < f.len() && 0 <= j < f.len() && i != j implies f[i] != f[j] by {
        if i < s.len() && j < s.len() {
            assert(f[i] == s[i] && f[j] == s[j]);
        } else if i < s.len() {
            assert(s[i] == f[i]);
        } else if j < s.len() {
            assert(s[j] == f[j]);
        }
    }
    assert forall|a: A| f.to_set().contains(a) <==> s.to_set().insert(x).contains(a) by {
        if f.contains(a) {
            let j = choose|j: int| 0 <= j < f.len() && f[j] == a;
            if j < s.len() {
                assert(s[j] == a);
            }
        }
        if s.contains(a) {
            let j = choose|j: int| 0 <= j < s.len() && s[j] == a;
            assert(f[j] == a);
        }
        if a == x {
            assert(f[s.len() as int] == a);
        }
    }
    assert(f.to_set() =~= s.to_set().insert(x));
}

/// Every call keeps the invariant: the walking order lists each account with a settled
/// balance once, and no operation kind has run more than one time past its limit.
pub proof fn law_calls_keep_invariant(
    s: PalletState,
    origin: Origin,
    who: AccountId,
    amount: Balance,
    key: u32,
    pairs: Seq<(AccountId, Balance)>,
)
    requires
        s.inv(),
    ensures
        s.record_operation(key).0.inv(),
        s.set_temporary_balance(origin, who, amount).0.inv(),
        s.accumulate_temporary_balance(origin, amount).0.inv(),
        s.clear_temporary_balance(origin, who).0.inv(),
        s.update_balance(origin).0.inv(),
        s.check_win_condition().inv(),
        s.on_initialize().inv(),
        s.on_finalize().inv(),
        s.build_genesis(pairs).inv(),
{
    assert forall|k: u32| #[trigger] s.record_operation(key).0.op_counts.contains_key(k) implies s.record_operation(key).0.op_counts[k]
        <= s.config.operation_max + 1 by {
        if k != key {
            assert(s.op_counts.contains_key(k));
        }
    }
    if let Some(w) = signer(origin) {
        let u = s.update_balance(origin).0;
        if s.update_balance(origin).1 is Ok && !s.users.contains_key(w) {
            assert(!s.user_order.contains(w)) by {
                assert(s.user_order.to_set().contains(w) == s.user_order.contains(w));
            }
            lemma_push_new(s.user_order, w);
            assert(u.users.dom() =~= s.users.dom().insert(w));
        }
        if s.update_balance(origin).1 is Ok && s.users.contains_key(w) {
            assert(u.users.dom() =~= s.users.dom());
        }
    }
    let t = s.on_initialize();
    assert(t.user_order.to_set() =~= t.users.dom());
}

/// Each operation kind runs at most `operation_max + 1` times between two block starts:
/// a kind that has run more often than `operation_max` refuses every further call, and each
/// call that succeeds counts exactly one more operation of its own kind.
pub proof fn law_operation_limit(s: PalletState, origin: Origin, who: AccountId, amount: Balance)
    requires
        s.set_would_count(origin, who) ==> s.op_count_fits(SET_KEY),
        s.accumulate_would_count(origin) ==> s.op_count_fits(ACCUMULATE_KEY),
        s.clear_would_count(origin) ==> s.op_count_fits(CLEAR_KEY),
        s.update_would_count(origin) ==> s.op_count_fits(UPDATE_KEY),
    ensures
        s.op_count(SET_KEY) > s.config.operation_max && origin == Origin::Root
            && !s.temps.contains_key(who) ==> s.set_temporary_balance(origin, who, amount)
            == (s, limit_error()),
        s.op_count(ACCUMULATE_KEY) > s.config.operation_max && signer(origin) is Some
            ==> s.accumulate_temporary_balance(origin, amount) == (s, limit_error()),
        s.op_count(CLEAR_KEY) > s.config.operation_max && signer(origin) is Some
            ==> s.clear_temporary_balance(origin, who) == (s, limit_error()),
        s.op_count(UPDATE_KEY) > s.config.operation_max && signer(origin) is Some
            && s.temps.contains_key(signer(origin).unwrap()) ==> s.update_balance(origin) == (
            s,
            limit_error(),
        ),
        s.set_temporary_balance(origin, who, amount).1 is Ok ==> counted_once(
            s,
            s.set_temporary_balance(origin, who, amount).0,
            SET_KEY,
        ),
        s.accumulate_temporary_balance(origin, amount).1 is Ok ==> counted_once(
            s,
            s.accumulate_temporary_balance(origin, amount).0,
            ACCUMULATE_KEY,
        ),
        s.clear_temporary_balance(origin, who).1 is Ok ==> counted_once(
            s,
            s.clear_temporary_balance(origin, who).0,
            CLEAR_KEY,
        ),
        s.update_balance(origin).1 is Ok ==> counted_once(s, s.update_balance(origin).0, UPDATE_KEY),
{
    if s.set_would_count(origin, who) && s.op_count(SET_KEY) <= s.config.operation_max {
        lemma_record_counts(s, SET_KEY);
    }
    if s.accumulate_would_count(origin) && s.op_count(ACCUMULATE_KEY) <= s.config.operation_max {
        lemma_record_counts(s, ACCUMULATE_KEY);
    }
    if s.clear_would_count(origin) && s.op_count(CLEAR_KEY) <= s.config.operation_max {
        lemma_record_counts(s, CLEAR_KEY);
    }
    if s.update_would_count(origin) && s.op_count(UPDATE_KEY) <= s.config.operation_max {
        lemma_record_counts(s, UPDATE_KEY);
    }
}

proof fn lemma_record_counts(s: PalletState, key: u32)
    requires
        s.op_count_fits(key),
        s.op_count(key) <= s.config.operation_max,
    ensures
        counted_once(s, s.record_operation(key).0, key),
{
    let t = s.record_operation(key).0;
    assert forall|k: u32| k != key implies #[trigger] t.op_count(k) == s.op_count(k) by {
        assert(t.op_counts.contains_key(k) == s.op_counts.contains_key(k));
    }
}

/// `t` counts one more operation of kind `key` than `s`, and as many of every other kind.
pub open spec fn counted_once(s: PalletState, t: PalletState, key: u32) -> bool {
    &&& t.op_count(key) == s.op_count(key) + 1
    &&& t.op_count(key) <= s.config.operation_max + 1
    &&& forall|k: u32| k != key ==> #[trigger] t.op_count(k) == s.op_count(k)
}

/// A temporary balance can be given only once: setting it again fails.
pub proof fn law_set_twice_fails(s: PalletState, who: AccountId, first: Balance, second: Balance)
    requires
        s.set_temporary_balance(Origin::Root, who, first).1 is Ok,
    ensures
        ({
            let t = s.set_temporary_balance(Origin::Root, who, first).0;
            &&& t.temps.get(who) == Some(first)
            &&& t.events.last() == (Event::SetTemporaryBalance { balance: first })
            &&& t.set_temporary_balance(Origin::Root, who, second) == (
                t,
                Err::<(), DispatchError>(DispatchError::Module(Error::ValueAlreadySet)),
            )
        }),
{
}

/// Accumulating onto a temporary balance adds to it, stopping at the largest balance.
/// Only the signer's temporary balance and the count of its kind change.
pub proof fn law_accumulate_adds(s: PalletState, who: AccountId, increase_by: Balance)
    requires
        s.temps.contains_key(who),
        s.op_count(ACCUMULATE_KEY) <= s.config.operation_max,
        s.op_count_fits(ACCUMULATE_KEY),
    ensures
        ({
            let (t, r) = s.accumulate_temporary_balance(Origin::Signed(who), increase_by);
            &&& r is Ok
            &&& t.temps == s.temps.insert(who, sat_add(s.temps[who], increase_by))
            &&& t.temps.contains_key(who)
            &&& t.temps[who] == (if s.temps[who] + increase_by > u128::MAX {
                u128::MAX as int
            } else {
                s.temps[who] + increase_by
            })
            &&& forall|a: AccountId| a != who ==> #[trigger] t.temps.get(a) == s.temps.get(a)
            &&& t.events.last() == (Event::AccumulateTemporaryBalance { balance: increase_by })
            &&& t.users == s.users
            &&& t.user_order == s.user_order
            &&& t.total == s.total
            &&& t.board == s.board
            &&& counted_once(s, t, ACCUMULATE_KEY)
        }),
{
    lemma_record_counts(s, ACCUMULATE_KEY);
}

/// Two accumulations add what one accumulation of the (saturating) sum of both amounts
/// adds.
pub proof fn law_accumulate_twice(s: PalletState, who: AccountId, x: Balance, y: Balance)
    requires
        s.accumulate_temporary_balance(Origin::Signed(who), x).1 is Ok,
        s.accumulate_temporary_balance(Origin::Signed(who), x).0.accumulate_temporary_balance(
            Origin::Signed(who),
            y,
        ).1 is Ok,
    ensures
        s.accumulate_temporary_balance(Origin::Signed(who), x).0.accumulate_temporary_balance(
            Origin::Signed(who),
            y,
        ).0.temps[who] == sat_add(sat_add(s.temps[who], x), y),
        sat_add(sat_add(s.temps[who], x), y) == sat_add(s.temps[who], sat_add(x, y)),
{
}

/// Without a temporary balance there is nothing to accumulate onto.
pub proof fn law_accumulate_needs_entry(s: PalletState, who: AccountId, increase_by: Balance)
    requires
        !s.temps.contains_key(who),
        s.op_count(ACCUMULATE_KEY) <= s.config.operation_max,
    ensures
        s.accumulate_temporary_balance(Origin::Signed(who), increase_by) == (
            s,
            Err::<(), DispatchError>(DispatchError::Module(Error::NoEntryForSender)),
        ),
{
}

/// Settling moves the temporary balance; besides the signer's settled balance, the total and
/// the count of its kind, nothing changes.
/// into the settled balance and the total (both stop at
/// the largest balance), and keeps the temporary balance.
pub proof fn law_update_settles(s: PalletState, who: AccountId)
    requires
        s.temps.contains_key(who),
        s.op_count(UPDATE_KEY) <= s.config.operation_max,
        s.op_count_fits(UPDATE_KEY),
    ensures
        ({
            let (t, r) = s.update_balance(Origin::Signed(who));
            &&& r is Ok
            &&& t.users == s.users.insert(who, sat_add(s.user_or_zero(who), s.temps[who]))
            &&& t.total == sat_add(s.total, s.temps[who])
            &&& t.users.contains_key(who)
            &&& t.users[who] == (if s.users.contains_key(who) {
                if s.users[who] + s.temps[who] > u128::MAX {
                    u128::MAX as int
                } else {
                    s.users[who] + s.temps[who]
                }
            } else {
                s.temps[who] as int
            })
            &&& t.total == (if s.total + s.temps[who] > u128::MAX {
                u128::MAX as int
            } else {
                s.total + s.temps[who]
            })
            &&& forall|a: AccountId| a != who ==> #[trigger] t.users.get(a) == s.users.get(a)
            &&& t.temps == s.temps
            &&& t.board == s.board
            &&& t.events.last() == Event::BalanceUpdated(who, s.temps[who])
            &&& counted_once(s, t, UPDATE_KEY)
        }),
{
    lemma_record_counts(s, UPDATE_KEY);
}

/// After a temporary balance is cleared, its account has nothing to settle.
pub proof fn law_clear_then_update_fails(s: PalletState, origin: Origin, who: AccountId)
    requires
        s.clear_temporary_balance(origin, who).1 is Ok,
    ensures
        ({
            let t = s.clear_temporary_balance(origin, who).0;
            &&& !t.temps.contains_key(who)
            &&& t.update_balance(Origin::Signed(who)) == (
                t,
                Err::<(), DispatchError>(DispatchError::Module(Error::TempoaryBalanceNotFound)),
            )
        }),
{
}

/// Only signed calls reach the temporary and settled balances, and only the root origin sets
/// a temporary balance.
pub proof fn law_origins(s: PalletState, who: AccountId, amount: Balance)
    ensures
        s.accumulate_temporary_balance(Origin::Root, amount) == (
            s,
            Err::<(), DispatchError>(DispatchError::BadOrigin),
        ),
        s.accumulate_temporary_balance(Origin::Unsigned, amount) == (
            s,
            Err::<(), DispatchError>(DispatchError::BadOrigin),
        ),
        s.clear_temporary_balance(Origin::Root, who) == (
            s,
            Err::<(), DispatchError>(DispatchError::BadOrigin),
        ),
        s.clear_temporary_balance(Origin::Unsigned, who) == (
            s,
            Err::<(), DispatchError>(DispatchError::BadOrigin),
        ),
        s.update_balance(Origin::Root) == (s, Err::<(), DispatchError>(DispatchError::BadOrigin)),
        s.update_balance(Origin::Unsigned) == (
            s,
            Err::<(), DispatchError>(DispatchError::BadOrigin),
        ),
        s.set_temporary_balance(Origin::Signed(who), who, amount) == (
            s,
            Err::<(), DispatchError>(DispatchError::BadOrigin),
        ),
        s.set_temporary_balance(Origin::Unsigned, who, amount) == (
            s,
            Err::<(), DispatchError>(DispatchError::BadOrigin),
        ),
{
}

/// At the start of a block the temporary and settled balances, the total and the operation
/// counts are gone, so nobody can settle or accumulate until a temporary balance is set
/// again; wins and events stay.
pub proof fn law_block_start_resets(s: PalletState, who: AccountId, amount: Balance)
    ensures
        ({
            let t = s.on_initialize();
            &&& t.temps == Map::<AccountId, Balance>::empty()
            &&& t.total == 0
            &&& forall|k: u32| t.op_count(k) == 0
            &&& t.board == s.board
            &&& t.events == s.events
            &&& t.users == Map::<AccountId, Balance>::empty()
            &&& t.user_order == Seq::<AccountId>::empty()
            &&& t.update_balance(Origin::Signed(who)) == (
                t,
                Err::<(), DispatchError>(DispatchError::Module(Error::TempoaryBalanceNotFound)),
            )
            &&& t.accumulate_temporary_balance(Origin::Signed(who), amount) == (
                t,
                Err::<(), DispatchError>(DispatchError::Module(Error::NoEntryForSender)),
            )
        }),
{
}

/// Checking the win condition rewards every account whose settled balance is the magic
/// number, and, where the total is the magic number, every account with a settled balance:
/// its wins grow (up to `u32::MAX`) and a `GameWon` event reports it.
pub proof fn law_winners_are_rewarded(s: PalletState, who: AccountId)
    requires
        s.well_formed(),
    ensures
        ({
            let t = s.check_win_condition();
            &&& s.wins_alone(who) || s.wins_with_all(who) ==> {
                &&& t.board.contains_key(who)
                &&& t.board[who] == cap_u32(points_in(s.board, who) + s.wins_gained(who))
                &&& t.board[who] >= cap_u32(points_in(s.board, who) + 1)
                &&& t.events.contains(Event::GameWon(who, s.users[who]))
            }
            &&& !(s.wins_alone(who) || s.wins_with_all(who)) ==> t.board.get(who) == s.board.get(who)
        }),
{
    broadcast use vstd::seq_lib::group_filter_ensures;

    let t = s.check_win_condition();
    let f = |a: AccountId| s.won_event(a);
    if s.wins_alone(who) || s.wins_with_all(who) {
        let e = Event::GameWon(who, s.users[who]);
        assert(s.user_order.to_set().contains(who) == s.user_order.contains(who));
        let i = choose|i: int| 0 <= i < s.user_order.len() && s.user_order[i] == who;
        let w = s.win_events();
        let alone = s.user_order.filter(s.has_magic_balance()).map_values(f);
        if s.wins_alone(who) {
            s.user_order.lemma_filter_contains(s.has_magic_balance(), i);
            let fl = s.user_order.filter(s.has_magic_balance());
            let j = choose|j: int| 0 <= j < fl.len() && fl[j] == who;
            assert(alone[j] == e);
            assert(w[j] == e);
        } else {
            let all = s.user_order.map_values(f);
            assert(all[i] == e);
            assert(w[alone.len() + i] == e);
        }
        let k = choose|k: int| 0 <= k < w.len() && w[k] == e;
        assert(t.events[s.events.len() + k] == e);
    }
}

/// History only grows: no call takes back a win or an event.
pub proof fn law_history_only_grows(
    s: PalletState,
    origin: Origin,
    who: AccountId,
    amount: Balance,
    pairs: Seq<(AccountId, Balance)>,
)
    ensures
        kept_history(s, s.set_temporary_balance(origin, who, amount).0),
        kept_history(s, s.accumulate_temporary_balance(origin, amount).0),
        kept_history(s, s.clear_temporary_balance(origin, who).0),
        kept_history(s, s.update_balance(origin).0),
        kept_history(s, s.check_win_condition()),
        kept_history(s, s.on_initialize()),
        kept_history(s, s.on_finalize()),
        kept_history(s, s.build_genesis(pairs)),
{
    let t = s.check_win_condition();
    assert(t.events.subrange(0, s.events.len() as int) =~= s.events);
    let u = s.set_temporary_balance(origin, who, amount).0;
    assert(u.events.subrange(0, s.events.len() as int) =~= s.events);
    let u = s.accumulate_temporary_balance(origin, amount).0;
    assert(u.events.subrange(0, s.events.len() as int) =~= s.events);
    let u = s.clear_temporary_balance(origin, who).0;
    assert(u.events.subrange(0, s.events.len() as int) =~= s.events);
    let u = s.update_balance(origin).0;
    assert(u.events.subrange(0, s.events.len() as int) =~= s.events);
    assert(s.events.subrange(0, s.events.len() as int) =~= s.events);
}

/// `t` keeps every event of `s` as a prefix, and every win count of `s`, or a larger one.
pub open spec fn kept_history(s: PalletState, t: PalletState) -> bool {
    &&& s.events.len() <= t.events.len()
    &&& t.events.subrange(0, s.events.len() as int) == s.events
    &&& forall|a: AccountId| #[trigger] s.board.contains_key(a) ==> t.board.contains_key(a)
        && t.board[a] >= s.board[a]
}

/// The sum of the settled balances of the accounts in `order`.
pub open spec fn settled_sum(users: Map<AccountId, Balance>, order: Seq<AccountId>) -> int
    decreases order.len(),
{
    if order.len() == 0 {
        0
    } else {
        settled_sum(users, order.drop_last()) + users[order.last()]
    }
}

proof fn lemma_sum_at_least(users: Map<AccountId, Balance>, order: Seq<AccountId>, who: AccountId)
    ensures
        settled_sum(users, order) >= 0,
        order.contains(who) ==> settled_sum(users, order) >= users[who],
    decreases order.len(),
{
    if order.len() > 0 {
        let t = order.drop_last();
        lemma_sum_at_least(users, t, who);
        if order.contains(who) && order.last() != who {
            let j = choose|j: int| 0 <= j < order.len() && order[j] == who;
            assert(t[j] == who);
        }
    }
}

proof fn lemma_sum_elsewhere(users: Map<AccountId, Balance>, order: Seq<AccountId>, who: AccountId, v: Balance)
    requires
        !order.contains(who),
    ensures
        settled_sum(users.insert(who, v), order) == settled_sum(users, order),
    decreases order.len(),
{
    if order.len() > 0 {
        let t = order.drop_last();
        assert(!t.contains(who)) by {
            if t.contains(who) {
                let j = choose|j: int| 0 <= j < t.len() && t[j] == who;
                assert(order[j] == who);
            }
        }
        assert(order[order.len() - 1] != who);
        lemma_sum_elsewhere(users, t, who, v);
    }
}

proof fn lemma_sum_replace(users: Map<AccountId, Balance>, order: Seq<AccountId>, who: AccountId, v: Balance)
    requires
        order.contains(who),
        order.no_duplicates(),
    ensures
        settled_sum(users.insert(who, v), order) == settled_sum(users, order) - users[who] + v,
    decreases order.len(),
{
    let t = order.drop_last();
    assert(t.no_duplicates());
    if order.last() == who {
        assert(!t.contains(who)) by {
            if t.contains(who) {
                let j = choose|j: int| 0 <= j < t.len() && t[j] == who;
                assert(order[j] == order[order.len() - 1]);
            }
        }
        lemma_sum_elsewhere(users, t, who, v);
    } else {
        let j = choose|j: int| 0 <= j < order.len() && order[j] == who;
        assert(t[j] == who);
        lemma_sum_replace(users, t, who, v);
    }
}

/// The total never exceeds the sum of the settled balances: settling adds the same amount to
/// both (each stopping at the largest balance), and the start of a block clears both; the total
/// zero.
pub proof fn law_total_within_settled_sum(
    s: PalletState,
    origin: Origin,
    who: AccountId,
    amount: Balance,
    pairs: Seq<(AccountId, Balance)>,
)
    requires
        s.well_formed(),
        s.total <= settled_sum(s.users, s.user_order),
    ensures
        total_within_sum(s.set_temporary_balance(origin, who, amount).0),
        total_within_sum(s.accumulate_temporary_balance(origin, amount).0),
        total_within_sum(s.clear_temporary_balance(origin, who).0),
        total_within_sum(s.update_balance(origin).0),
        total_within_sum(s.check_win_condition()),
        total_within_sum(s.on_initialize()),
        total_within_sum(s.on_finalize()),
        total_within_sum(s.build_genesis(pairs)),
{
    let t = s.on_initialize();
    lemma_sum_at_least(t.users, t.user_order, who);
    if let Some(w) = signer(origin) {
        if s.update_balance(origin).1 is Ok {
            let u = s.update_balance(origin).0;
            let a = s.temps[w];
            let v = sat_add(s.user_or_zero(w), a);
            lemma_sum_at_least(s.users, s.user_order, w);
            assert(s.user_order.to_set().contains(w) == s.user_order.contains(w));
            if s.users.contains_key(w) {
                lemma_sum_replace(s.users, s.user_order, w, v);
            } else {
                lemma_sum_elsewhere(s.users, s.user_order, w, v);
                assert(u.user_order.drop_last() =~= s.user_order);
            }
        }
    }
}

/// The total is at most the sum of the settled balances.
pub open spec fn total_within_sum(s: PalletState) -> bool {
    s.total <= settled_sum(s.users, s.user_order)
}

/// A new game satisfies the invariant, and its total is the sum of its settled balances.
pub proof fn law_new_game(config: Config)
    ensures
        initial_state(config).inv(),
        total_within_sum(initial_state(config)),
        total_is_sum(initial_state(config)),
{
    assert(initial_state(config).user_order.to_set() =~= initial_state(config).users.dom());
}

/// Reading back what was written out: a game built from the entries of a well-formed state
/// (settled balances written out in walking order) is that state, without its events.
pub proof fn law_storage_round_trip(
    s: PalletState,
    users: Seq<(AccountId, Balance)>,
    temps: Seq<(AccountId, Balance)>,
    counts: Seq<(u32, u16)>,
    board: Seq<(AccountId, u32)>,
)
    requires
        lists_exactly(users, s.users),
        users.map_values(|e: (AccountId, Balance)| e.0) == s.user_order,
        lists_exactly(temps, s.temps),
        lists_exactly(counts, s.op_counts),
        lists_exactly(board, s.board),
    ensures
        (PalletState {
            config: s.config,
            users: map_of(users),
            user_order: keys_of(users),
            temps: map_of(temps),
            op_counts: map_of(counts),
            total: s.total,
            board: map_of(board),
            events: Seq::empty(),
        }) == (PalletState { events: Seq::empty(), ..s }),
{
    law_pairs_round_trip(users, s.users);
    law_pairs_round_trip(temps, s.temps);
    law_pairs_round_trip(counts, s.op_counts);
    law_pairs_round_trip(board, s.board);
}

/// Clearing the same temporary balance twice leaves the temporary balances as the first
/// clearing left them.
pub proof fn law_clear_twice(s: PalletState, origin: Origin, who: AccountId)
    requires
        s.clear_temporary_balance(origin, who).1 is Ok,
    ensures
        s.clear_temporary_balance(origin, who).0.clear_temporary_balance(origin, who).0.temps
            == s.clear_temporary_balance(origin, who).0.temps,
{
    let t = s.clear_temporary_balance(origin, who).0;
    assert(t.temps.remove(who) =~= t.temps);
}

/// Between block starts no operation count goes down.
pub proof fn law_counts_never_decrease(
    s: PalletState,
    origin: Origin,
    who: AccountId,
    amount: Balance,
    key: u32,
    pairs: Seq<(AccountId, Balance)>,
)
    requires
        s.set_would_count(origin, who) ==> s.op_count_fits(SET_KEY),
        s.accumulate_would_count(origin) ==> s.op_count_fits(ACCUMULATE_KEY),
        s.clear_would_count(origin) ==> s.op_count_fits(CLEAR_KEY),
        s.update_would_count(origin) ==> s.op_count_fits(UPDATE_KEY),
    ensures
        s.set_temporary_balance(origin, who, amount).0.op_count(key) >= s.op_count(key),
        s.accumulate_temporary_balance(origin, amount).0.op_count(key) >= s.op_count(key),
        s.clear_temporary_balance(origin, who).0.op_count(key) >= s.op_count(key),
        s.update_balance(origin).0.op_count(key) >= s.op_count(key),
        s.check_win_condition().op_count(key) == s.op_count(key),
        s.build_genesis(pairs).op_count(key) == s.op_count(key),
{
    law_operation_limit(s, origin, who, amount);
}

/// The total is the sum of the settled balances, and every call keeps it so, as long as
/// settling does not reach the largest balance.
pub proof fn law_total_is_settled_sum(
    s: PalletState,
    origin: Origin,
    who: AccountId,
    amount: Balance,
    pairs: Seq<(AccountId, Balance)>,
)
    requires
        s.well_formed(),
        total_is_sum(s),
    ensures
        total_is_sum(s.set_temporary_balance(origin, who, amount).0),
        total_is_sum(s.accumulate_temporary_balance(origin, amount).0),
        total_is_sum(s.clear_temporary_balance(origin, who).0),
        settle_fits(s, origin) ==> total_is_sum(s.update_balance(origin).0),
        total_is_sum(s.check_win_condition()),
        total_is_sum(s.on_initialize()),
        total_is_sum(s.on_finalize()),
        total_is_sum(s.build_genesis(pairs)),
{
    if let Some(w) = signer(origin) {
        if s.update_balance(origin).1 is Ok && settle_fits(s, origin) {
            let u = s.update_balance(origin).0;
            let a = s.temps[w];
            let v = sat_add(s.user_or_zero(w), a);
            lemma_sum_at_least(s.users, s.user_order, w);
            assert(s.user_order.to_set().contains(w) == s.user_order.contains(w));
            if s.users.contains_key(w) {
                lemma_sum_replace(s.users, s.user_order, w, v);
            } else {
                lemma_sum_elsewhere(s.users, s.user_order, w, v);
                assert(u.user_order.drop_last() =~= s.user_order);
            }
        }
    }
}

/// The total is the sum of the settled balances.
pub open spec fn total_is_sum(s: PalletState) -> bool {
    s.total == settled_sum(s.users, s.user_order)
}

/// Settling the signer's temporary balance does not take the total past the largest balance.
pub open spec fn settle_fits(s: PalletState, origin: Origin) -> bool {
    match signer(origin) {
        Some(w) => s.temps.contains_key(w) ==> s.total + s.temps[w] <= u128::MAX,
        None => true,
    }
}

/// The end of a block runs the whole win check: it is `check_win_condition`, whatever the
/// total. In particular an account whose settled balance is the magic number gains a win
/// (unless its count is already `u32::MAX`) and is reported, even where the total is not the
/// magic number.
pub proof fn law_block_end_checks_wins(s: PalletState, who: AccountId)
    requires
        s.well_formed(),
    ensures
        s.on_finalize() == s.check_win_condition(),
        s.users.contains_key(who) && s.users[who] == s.config.magic_number ==> {
            let t = s.on_finalize();
            &&& t.board.contains_key(who)
            &&& t.board[who] >= (if s.board.contains_key(who) {
                if s.board[who] == u32::MAX {
                    u32::MAX as int
                } else {
                    s.board[who] + 1
                }
            } else {
                1
            })
            &&& t.events.contains(Event::GameWon(who, s.config.magic_number))
        },
{
    law_winners_are_rewarded(s, who);
}

/// Clearing removes the temporary balance of the named account and of no other; settled
/// balances, the total and the wins stay.
pub proof fn law_clear_removes_only_named(s: PalletState, origin: Origin, who: AccountId)
    requires
        s.clear_temporary_balance(origin, who).1 is Ok,
    ensures
        ({
            let t = s.clear_temporary_balance(origin, who).0;
            &&& !t.temps.contains_key(who)
            &&& forall|a: AccountId| a != who ==> #[trigger] t.temps.get(a) == s.temps.get(a)
            &&& t.users == s.users
            &&& t.total == s.total
            &&& t.board == s.board
        }),
{
}

/// A successful clear succeeds for every signed origin, whichever account it names, while the
/// clear kind has runs left.
pub proof fn law_clear_succeeds(s: PalletState, caller: AccountId, who: AccountId)
    requires
        !s.op_counts.contains_key(CLEAR_KEY) || s.op_counts[CLEAR_KEY] <= s.config.operation_max,
    ensures
        s.clear_temporary_balance(Origin::Signed(caller), who).1 is Ok,
{
}

/// The genesis build gives every account that occurs in the pairs the balance of its last
/// pair, leaves every other account's temporary balance as it was, and touches nothing else.
pub proof fn law_genesis_writes_every_pair(
    s: PalletState,
    pairs: Seq<(AccountId, Balance)>,
    who: AccountId,
)
    ensures
        ({
            let t = s.build_genesis(pairs);
            &&& forall|i: int|
                0 <= i < pairs.len() && pairs[i].0 == who && (forall|j: int|
                    i < j < pairs.len() ==> pairs[j].0 != who) ==> t.temps.get(who) == Some(
                    #[trigger] pairs[i].1,
                )
            &&& (forall|i: int| 0 <= i < pairs.len() ==> #[trigger] pairs[i].0 != who)
                ==> t.temps.get(who) == s.temps.get(who)
            &&& t.users == s.users
            &&& t.user_order == s.user_order
            &&& t.total == s.total
            &&& t.op_counts == s.op_counts
            &&& t.board == s.board
            &&& t.events == s.events
        }),
{
    lemma_genesis_temps(s.temps, pairs, who);
}

proof fn lemma_genesis_temps(temps: Map<AccountId, Balance>, pairs: Seq<(AccountId, Balance)>, who: AccountId)
    ensures
        forall|i: int|
            0 <= i < pairs.len() && pairs[i].0 == who && (forall|j: int|
                i < j < pairs.len() ==> pairs[j].0 != who) ==> PalletState::genesis_temps(
                temps,
                pairs,
            ).get(who) == Some(#[trigger] pairs[i].1),
        (forall|i: int| 0 <= i < pairs.len() ==> #[trigger] pairs[i].0 != who)
            ==> PalletState::genesis_temps(temps, pairs).get(who) == temps.get(who),
    decreases pairs.len(),
{
    if pairs.len() > 0 {
        let rest = pairs.drop_last();
        lemma_genesis_temps(temps, rest, who);
        assert forall|i: int|
            0 <= i < pairs.len() && pairs[i].0 == who && (forall|j: int|
                i < j < pairs.len() ==> pairs[j].0 != who) implies PalletState::genesis_temps(
                temps,
                pairs,
            ).get(who) == Some(#[trigger] pairs[i].1) by {
            if i < pairs.len() - 1 {
                assert(pairs[pairs.len() - 1].0 != who);
                assert(rest[i] == pairs[i]);
                assert forall|j: int| i < j < rest.len() implies rest[j].0 != who by {
                    assert(rest[j] == pairs[j]);
                }
            }
        }
        if forall|i: int| 0 <= i < pairs.len() ==> #[trigger] pairs[i].0 != who {
            assert(pairs[pairs.len() - 1].0 != who);
            assert forall|i: int| 0 <= i < rest.len() implies #[trigger] rest[i].0 != who by {
                assert(rest[i] == pairs[i]);
            }
        }
    }
}

/// Setting is refused for the limit only when the set kind itself has run more than
/// `operation_max` times: the root origin gives an account without a temporary balance the
/// given one, whatever the counts of the other kinds.
pub proof fn law_set_succeeds(s: PalletState, who: AccountId, balance: Balance)
    requires
        !s.temps.contains_key(who),
        !s.op_counts.contains_key(SET_KEY) || s.op_counts[SET_KEY] <= s.config.operation_max,
    ensures
        ({
            let (t, r) = s.set_temporary_balance(Origin::Root, who, balance);
            &&& r == Ok::<(), DispatchError>(())
            &&& t.temps == s.temps.insert(who, balance)
            &&& t.users == s.users
            &&& t.total == s.total
            &&& t.board == s.board
            &&& t.events.last() == (Event::SetTemporaryBalance { balance })
        }),
{
}

/// Checking the win condition only reports winners: it keeps the earlier events, and each
/// event it adds is `GameWon(a, balance of a)` for an account `a` with a settled balance that
/// is the magic number, or with any settled balance where the total is the magic number.
/// Where nobody wins, neither the events nor the wins change.
pub proof fn law_win_events_only_for_winners(s: PalletState)
    requires
        s.well_formed(),
    ensures
        ({
            let t = s.check_win_condition();
            &&& s.events.len() <= t.events.len()
            &&& t.events.subrange(0, s.events.len() as int) == s.events
            &&& forall|k: int|
                #![trigger t.events[k]]
                s.events.len() <= k < t.events.len() ==> exists|a: AccountId|
                    #![trigger s.users[a]]
                    s.users.contains_key(a) && (s.users[a] == s.config.magic_number || s.total
                        == s.config.magic_number) && t.events[k] == Event::GameWon(a, s.users[a])
            &&& (forall|a: AccountId|
                #[trigger] s.users.contains_key(a) ==> s.users[a] != s.config.magic_number
                    && s.total != s.config.magic_number) ==> t.events == s.events && t.board
                == s.board
        }),
{
    broadcast use vstd::seq_lib::group_filter_ensures;

    let t = s.check_win_condition();
    let f = |a: AccountId| s.won_event(a);
    let fl = s.user_order.filter(s.has_magic_balance());
    let alone = fl.map_values(f);
    let w = s.win_events();
    assert(t.events.subrange(0, s.events.len() as int) =~= s.events);
    assert forall|k: int| #![trigger t.events[k]] s.events.len() <= k < t.events.len() implies exists|a: AccountId|
        #![trigger s.users[a]]
        s.users.contains_key(a) && (s.users[a] == s.config.magic_number || s.total
            == s.config.magic_number) && t.events[k] == Event::GameWon(a, s.users[a]) by {
        let m = k - s.events.len();
        assert(t.events[k] == w[m]);
        if m < alone.len() {
            let a = fl[m];
            s.user_order.lemma_filter_pred(s.has_magic_balance(), m);
            s.user_order.lemma_filter_contains_rev(s.has_magic_balance(), a);
            assert(s.user_order.to_set().contains(a));
            assert(alone[m] == f(a));
            assert(s.users.contains_key(a) && s.users[a] == s.config.magic_number);
        } else {
            let i = m - alone.len();
            let a = s.user_order[i];
            assert(s.user_order.contains(a));
            assert(s.user_order.to_set().contains(a));
            assert(w[m] == f(a));
        }
    }
    if forall|a: AccountId| #[trigger] s.users.contains_key(a) ==> s.users[a] != s.config.magic_number
        && s.total != s.config.magic_number {
        lemma_nobody_wins(s);
    }
}

/// Where no account wins, checking the win condition changes neither events nor wins.
proof fn lemma_nobody_wins(s: PalletState)
    requires
        s.well_formed(),
        forall|a: AccountId| #[trigger] s.users.contains_key(a) ==> s.users[a] != s.config.magic_number
            && s.total != s.config.magic_number,
    ensures
        s.check_win_condition().events == s.events,
        s.check_win_condition().board == s.board,
{
    broadcast use vstd::seq_lib::group_filter_ensures;

    let t = s.check_win_condition();
    let fl = s.user_order.filter(s.has_magic_balance());
    assert(fl.len() == 0) by {
        if fl.len() > 0 {
            let a = fl[0];
            s.user_order.lemma_filter_pred(s.has_magic_balance(), 0);
            s.user_order.lemma_filter_contains_rev(s.has_magic_balance(), a);
            assert(s.user_order.to_set().contains(a));
        }
    }
    if s.total == s.config.magic_number {
        assert(s.user_order.len() == 0) by {
            if s.user_order.len() > 0 {
                assert(s.user_order.to_set().contains(s.user_order[0]));
            }
        }
    }
    assert(s.win_events() =~= Seq::<Event>::empty());
    assert(t.events =~= s.events);
    assert forall|a: AccountId| s.wins_gained(a) == 0 by {}
    assert(t.board =~= s.board);
}

/// Where the total is the magic number, checking the win condition rewards every account
/// with a settled balance and reports it with that balance; where also its own balance is
/// the magic number it gains two wins (each stopping at `u32::MAX`).
pub proof fn law_total_win_rewards_everyone(s: PalletState, who: AccountId)
    requires
        s.well_formed(),
        s.total == s.config.magic_number,
        s.users.contains_key(who),
    ensures
        ({
            let t = s.check_win_condition();
            let p: int = if s.board.contains_key(who) {
                s.board[who] as int
            } else {
                0
            };
            let gained: int = if s.users[who] == s.config.magic_number {
                2
            } else {
                1
            };
            &&& t.board.contains_key(who)
            &&& t.board[who] == (if p + gained > u32::MAX {
                u32::MAX as int
            } else {
                p + gained
            })
            &&& t.events.contains(Event::GameWon(who, s.users[who]))
        }),
{
    law_winners_are_rewarded(s, who);
}

/// An account that wins neither by its own balance nor by the total keeps its wins when the
/// win condition is checked.
pub proof fn law_non_winners_keep_wins(s: PalletState, who: AccountId)
    requires
        s.well_formed(),
        !(s.users.contains_key(who) && s.users[who] == s.config.magic_number),
        !(s.users.contains_key(who) && s.total == s.config.magic_number),
    ensures
        s.check_win_condition().board.get(who) == s.board.get(who),
        s.on_finalize().board.get(who) == s.board.get(who),
{
    law_winners_are_rewarded(s, who);
}

} // verus!
