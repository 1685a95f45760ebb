use pallet_balance_game::keyed_map::KeyedMap;
use pallet_balance_game::pallet::{GenesisConfig, Pallet};
use pallet_balance_game::types::{
    Config, DispatchError, Error, Event, Origin, Weight, ACCUMULATE_KEY, CLEAR_KEY, SET_KEY,
    UPDATE_KEY,
};

const MAGIC: u128 = 1_000_000_000;
const OPERATION_MAX: u16 = 30;

fn new_game() -> Pallet {
    Pallet::new(Config { magic_number: MAGIC, operation_max: OPERATION_MAX })
}

fn game_with(magic_number: u128, operation_max: u16) -> Pallet {
    Pallet::new(Config { magic_number, operation_max })
}

/// Everything a test can observe of the game.
fn snapshot(p: &Pallet, accounts: &[u64]) -> (Vec<Event>, u128, Vec<(Option<u128>, Option<u128>, Option<u32>)>, Vec<Option<u16>>) {
    let per_account = accounts
        .iter()
        .map(|a| (p.temporary_balance(*a), p.user_balance(*a), p.leaderboard(*a)))
        .collect();
    let counts = [ACCUMULATE_KEY, SET_KEY, CLEAR_KEY, UPDATE_KEY]
        .iter()
        .map(|k| p.operation_count(*k))
        .collect();
    (p.events().clone(), p.total_balance(), per_account, counts)
}

fn module(e: Error) -> Result<(), DispatchError> {
    Err(DispatchError::Module(e))
}

#[test]
fn set_temporary_balance_works() {
    let mut p = new_game();
    assert_eq!(p.set_temporary_balance(Origin::Root, 1, 100), Ok(()));
    assert_eq!(p.temporary_balance(1), Some(100));
    assert_eq!(p.last_event(), Some(Event::SetTemporaryBalance { balance: 100 }));
}

#[test]
fn set_dummy_fails_if_value_already_set() {
    let mut p = new_game();
    assert_eq!(p.set_temporary_balance(Origin::Root, 1, 100), Ok(()));
    let before = snapshot(&p, &[1]);
    assert_eq!(
        p.set_temporary_balance(Origin::Root, 1, 200),
        module(Error::ValueAlreadySet)
    );
    assert_eq!(snapshot(&p, &[1]), before);
}

#[test]
fn accumulate_dummy_works() {
    let mut p = new_game();
    assert_eq!(p.set_temporary_balance(Origin::Root, 1, 100), Ok(()));
    assert_eq!(p.accumulate_temporary_balance(Origin::Signed(1), 50), Ok(()));
    assert_eq!(p.temporary_balance(1), Some(150));
    assert_eq!(p.last_event(), Some(Event::AccumulateTemporaryBalance { balance: 50 }));
}

#[test]
fn accumulate_temporary_balance_fails_if_no_entry_for_sender() {
    let mut p = new_game();
    let before = snapshot(&p, &[1]);
    assert_eq!(
        p.accumulate_temporary_balance(Origin::Signed(1), 50),
        module(Error::NoEntryForSender)
    );
    assert_eq!(snapshot(&p, &[1]), before);
}

#[test]
fn update_balance_works() {
    let mut p = new_game();
    assert_eq!(p.set_temporary_balance(Origin::Root, 1, 100), Ok(()));
    assert_eq!(p.update_balance(Origin::Signed(1)), Ok(()));
    assert_eq!(p.user_balance(1), Some(100));
    assert_eq!(p.total_balance(), 100);
    assert_eq!(p.last_event(), Some(Event::BalanceUpdated(1, 100)));
}

#[test]
fn update_balance_fails_if_temporary_balance_not_found() {
    let mut p = new_game();
    let before = snapshot(&p, &[1]);
    assert_eq!(
        p.update_balance(Origin::Signed(1)),
        module(Error::TempoaryBalanceNotFound)
    );
    assert_eq!(snapshot(&p, &[1]), before);
}

#[test]
fn clear_temporary_balance_works() {
    let mut p = new_game();
    assert_eq!(p.clear_temporary_balance(Origin::Signed(1), 1), Ok(()));
    assert_eq!(p.temporary_balance(1), None);
}

#[test]
fn check_win_condition_in_on_finalize_works() {
    let mut p = new_game();
    assert_eq!(p.set_temporary_balance(Origin::Root, 1, 1_000_000_000), Ok(()));
    assert_eq!(p.update_balance(Origin::Signed(1)), Ok(()));
    p.on_finalize(1);
    assert_eq!(p.last_event(), Some(Event::GameWon(1, 1_000_000_000)));
}

#[test]
fn operation_limit_exceeded() {
    let mut p = new_game();
    assert_eq!(p.set_temporary_balance(Origin::Root, 1, 100), Ok(()));
    for _ in 0..31 {
        assert_eq!(p.accumulate_temporary_balance(Origin::Signed(1), 10), Ok(()));
    }
    let before = snapshot(&p, &[1]);
    assert_eq!(
        p.accumulate_temporary_balance(Origin::Signed(1), 10),
        module(Error::OperationLimitExceeded)
    );
    assert_eq!(snapshot(&p, &[1]), before);
}

// ---- further cases ----

#[test]
fn set_needs_root_origin() {
    let mut p = new_game();
    assert_eq!(p.set_temporary_balance(Origin::Signed(1), 1, 5), Err(DispatchError::BadOrigin));
    assert_eq!(p.set_temporary_balance(Origin::Unsigned, 1, 5), Err(DispatchError::BadOrigin));
    assert_eq!(p.temporary_balance(1), None);
    assert!(p.events().is_empty());
}

#[test]
fn signed_calls_refuse_other_origins() {
    let mut p = new_game();
    assert_eq!(p.set_temporary_balance(Origin::Root, 1, 5), Ok(()));
    let before = snapshot(&p, &[1]);
    assert_eq!(p.accumulate_temporary_balance(Origin::Root, 1), Err(DispatchError::BadOrigin));
    assert_eq!(p.clear_temporary_balance(Origin::Unsigned, 1), Err(DispatchError::BadOrigin));
    assert_eq!(p.update_balance(Origin::Root), Err(DispatchError::BadOrigin));
    assert_eq!(snapshot(&p, &[1]), before);
}

#[test]
fn calls_report_their_operation_counts() {
    let mut p = new_game();
    assert_eq!(p.set_temporary_balance(Origin::Root, 7, 40), Ok(()));
    assert_eq!(p.accumulate_temporary_balance(Origin::Signed(7), 2), Ok(()));
    assert_eq!(p.update_balance(Origin::Signed(7)), Ok(()));
    assert_eq!(p.clear_temporary_balance(Origin::Signed(3), 7), Ok(()));
    assert_eq!(
        p.events().clone(),
        vec![
            Event::OperationCountUpdated(SET_KEY, 1),
            Event::SetTemporaryBalance { balance: 40 },
            Event::OperationCountUpdated(ACCUMULATE_KEY, 1),
            Event::AccumulateTemporaryBalance { balance: 2 },
            Event::OperationCountUpdated(UPDATE_KEY, 1),
            Event::BalanceUpdated(7, 42),
            Event::OperationCountUpdated(CLEAR_KEY, 1),
            Event::TempoaryBalanceCleared(7),
        ]
    );
    assert_eq!(p.operation_count(SET_KEY), Some(1));
    assert_eq!(p.operation_count(UPDATE_KEY), Some(1));
}

#[test]
fn accumulate_saturates() {
    let mut p = new_game();
    assert_eq!(p.set_temporary_balance(Origin::Root, 1, u128::MAX - 3), Ok(()));
    assert_eq!(p.accumulate_temporary_balance(Origin::Signed(1), 10), Ok(()));
    assert_eq!(p.temporary_balance(1), Some(u128::MAX));
}

#[test]
fn update_keeps_temporary_balance_and_adds_again() {
    let mut p = new_game();
    assert_eq!(p.set_temporary_balance(Origin::Root, 2, 30), Ok(()));
    assert_eq!(p.update_balance(Origin::Signed(2)), Ok(()));
    assert_eq!(p.update_balance(Origin::Signed(2)), Ok(()));
    assert_eq!(p.temporary_balance(2), Some(30));
    assert_eq!(p.user_balance(2), Some(60));
    assert_eq!(p.total_balance(), 60);
}

#[test]
fn update_saturates_balance_and_total() {
    let mut p = new_game();
    assert_eq!(p.set_temporary_balance(Origin::Root, 1, u128::MAX), Ok(()));
    assert_eq!(p.set_temporary_balance(Origin::Root, 2, 5), Ok(()));
    assert_eq!(p.update_balance(Origin::Signed(1)), Ok(()));
    assert_eq!(p.update_balance(Origin::Signed(2)), Ok(()));
    assert_eq!(p.update_balance(Origin::Signed(1)), Ok(()));
    assert_eq!(p.user_balance(1), Some(u128::MAX));
    assert_eq!(p.user_balance(2), Some(5));
    assert_eq!(p.total_balance(), u128::MAX);
}

#[test]
fn clear_then_update_fails() {
    let mut p = new_game();
    assert_eq!(p.set_temporary_balance(Origin::Root, 4, 9), Ok(()));
    assert_eq!(p.clear_temporary_balance(Origin::Signed(1), 4), Ok(()));
    assert_eq!(p.temporary_balance(4), None);
    assert_eq!(p.last_event(), Some(Event::TempoaryBalanceCleared(4)));
    assert_eq!(p.update_balance(Origin::Signed(4)), module(Error::TempoaryBalanceNotFound));
}

#[test]
fn operation_limit_is_per_kind() {
    let mut p = game_with(MAGIC, 1);
    assert_eq!(p.set_temporary_balance(Origin::Root, 1, 1), Ok(()));
    assert_eq!(p.set_temporary_balance(Origin::Root, 2, 1), Ok(()));
    assert_eq!(p.set_temporary_balance(Origin::Root, 3, 1), module(Error::OperationLimitExceeded));
    assert_eq!(p.operation_count(SET_KEY), Some(2));
    assert_eq!(p.temporary_balance(3), None);
    assert_eq!(p.update_balance(Origin::Signed(1)), Ok(()));
    assert_eq!(p.update_balance(Origin::Signed(2)), Ok(()));
    assert_eq!(p.update_balance(Origin::Signed(1)), module(Error::OperationLimitExceeded));
    assert_eq!(p.clear_temporary_balance(Origin::Signed(1), 1), Ok(()));
}

#[test]
fn limit_error_comes_before_missing_entry() {
    let mut p = game_with(MAGIC, 0);
    assert_eq!(p.set_temporary_balance(Origin::Root, 1, 1), Ok(()));
    assert_eq!(p.accumulate_temporary_balance(Origin::Signed(1), 1), Ok(()));
    assert_eq!(
        p.accumulate_temporary_balance(Origin::Signed(2), 1),
        module(Error::OperationLimitExceeded)
    );
}

#[test]
fn zero_operation_max_allows_one_operation() {
    let mut p = game_with(MAGIC, 0);
    assert_eq!(p.clear_temporary_balance(Origin::Signed(1), 1), Ok(()));
    assert_eq!(
        p.clear_temporary_balance(Origin::Signed(1), 1),
        module(Error::OperationLimitExceeded)
    );
}

#[test]
fn win_by_own_balance_and_by_total() {
    let mut p = new_game();
    assert_eq!(p.set_temporary_balance(Origin::Root, 1, MAGIC), Ok(()));
    assert_eq!(p.update_balance(Origin::Signed(1)), Ok(()));
    let n = p.events().len();
    p.check_win_condition();
    assert_eq!(p.leaderboard(1), Some(2));
    assert_eq!(
        p.events()[n..].to_vec(),
        vec![Event::GameWon(1, MAGIC), Event::GameWon(1, MAGIC)]
    );
}

#[test]
fn total_reaching_magic_rewards_everyone() {
    let mut p = game_with(300, 30);
    assert_eq!(p.set_temporary_balance(Origin::Root, 1, 100), Ok(()));
    assert_eq!(p.set_temporary_balance(Origin::Root, 2, 200), Ok(()));
    assert_eq!(p.update_balance(Origin::Signed(2)), Ok(()));
    assert_eq!(p.update_balance(Origin::Signed(1)), Ok(()));
    assert_eq!(p.total_balance(), 300);
    let n = p.events().len();
    p.on_finalize(1);
    assert_eq!(p.leaderboard(1), Some(1));
    assert_eq!(p.leaderboard(2), Some(1));
    assert_eq!(
        p.events()[n..].to_vec(),
        vec![Event::GameWon(2, 200), Event::GameWon(1, 100)]
    );
    p.on_finalize(2);
    assert_eq!(p.leaderboard(1), Some(2));
    assert_eq!(p.leaderboard(2), Some(2));
}

#[test]
fn no_win_no_change() {
    let mut p = new_game();
    assert_eq!(p.set_temporary_balance(Origin::Root, 1, 5), Ok(()));
    assert_eq!(p.update_balance(Origin::Signed(1)), Ok(()));
    let before = snapshot(&p, &[1]);
    p.check_win_condition();
    assert_eq!(snapshot(&p, &[1]), before);
    assert_eq!(p.leaderboard(1), None);
}

#[test]
fn on_initialize_resets_block_state() {
    let mut p = new_game();
    assert_eq!(p.set_temporary_balance(Origin::Root, 1, 10), Ok(()));
    assert_eq!(p.set_temporary_balance(Origin::Root, 2, 20), Ok(()));
    assert_eq!(p.update_balance(Origin::Signed(1)), Ok(()));
    assert_eq!(p.update_balance(Origin::Signed(2)), Ok(()));
    assert_eq!(p.clear_temporary_balance(Origin::Signed(2), 2), Ok(()));
    let events = p.events().clone();
    assert_eq!(p.on_initialize(1), Weight::zero());
    assert_eq!(p.temporary_balance(1), None);
    assert_eq!(p.user_balance(1), None);
    assert_eq!(p.user_balance(2), None);
    assert!(p.user_balance_entries().is_empty());
    assert_eq!(p.total_balance(), 0);
    assert_eq!(p.operation_count(SET_KEY), None);
    assert_eq!(p.operation_count(UPDATE_KEY), None);
    assert_eq!(p.events().clone(), events);
    assert_eq!(p.update_balance(Origin::Signed(1)), module(Error::TempoaryBalanceNotFound));
    assert_eq!(p.accumulate_temporary_balance(Origin::Signed(1), 3), module(Error::NoEntryForSender));
}

#[test]
fn genesis_build_writes_temporary_balances() {
    let mut p = new_game();
    let genesis = GenesisConfig { temporary_balance: vec![(1, 10), (2, 20), (1, 30)] };
    genesis.build(&mut p);
    assert_eq!(p.temporary_balance(1), Some(30));
    assert_eq!(p.temporary_balance(2), Some(20));
    assert_eq!(p.temporary_balance(3), None);
    assert!(p.events().is_empty());
    assert_eq!(p.accumulate_temporary_balance(Origin::Signed(2), 1), Ok(()));
    assert_eq!(p.temporary_balance(2), Some(21));
}

#[test]
fn config_is_kept() {
    let p = game_with(77, 3);
    assert_eq!(p.config(), Config { magic_number: 77, operation_max: 3 });
    assert_eq!(p.last_event(), None);
}

#[test]
fn keyed_map_keeps_order_and_values() {
    let mut m: KeyedMap<u64, u32> = KeyedMap::new();
    m.insert(5, 50);
    m.insert(3, 30);
    m.insert(9, 90);
    m.insert(3, 31);
    assert_eq!(m.len(), 3);
    assert_eq!(m.get(&3), Some(31));
    assert_eq!(m.entry_at(0), (5, 50));
    assert_eq!(m.entry_at(1), (3, 31));
    m.remove(5);
    assert_eq!(m.entry_at(0), (3, 31));
    assert_eq!(m.entry_at(1), (9, 90));
    assert!(!m.contains_key(&5));
    m.remove(42);
    assert_eq!(m.len(), 2);
    m.clear();
    assert_eq!(m.len(), 0);
    assert_eq!(m.get(&9), None);
}

#[test]
fn storage_round_trip_gives_back_the_state() {
    let mut p = game_with(50, 5);
    assert_eq!(p.set_temporary_balance(Origin::Root, 9, 50), Ok(()));
    assert_eq!(p.set_temporary_balance(Origin::Root, 4, 7), Ok(()));
    assert_eq!(p.update_balance(Origin::Signed(4)), Ok(()));
    assert_eq!(p.update_balance(Origin::Signed(9)), Ok(()));
    p.check_win_condition();
    let users = p.user_balance_entries();
    assert_eq!(users, vec![(4, 7), (9, 50)]);
    let q = Pallet::from_storage(
        p.config(),
        &users,
        &p.temporary_balance_entries(),
        &p.operation_count_entries(),
        p.total_balance(),
        &p.leaderboard_entries(),
    );
    assert_eq!(q.user_balance_entries(), users);
    assert_eq!(q.temporary_balance(9), Some(50));
    assert_eq!(q.temporary_balance(4), Some(7));
    assert_eq!(q.operation_count(SET_KEY), Some(2));
    assert_eq!(q.operation_count(UPDATE_KEY), Some(2));
    assert_eq!(q.total_balance(), 57);
    assert_eq!(q.leaderboard(9), Some(1));
    assert_eq!(q.leaderboard(4), None);
    assert!(q.events().is_empty());
}

#[test]
fn from_storage_later_entry_wins() {
    let q = Pallet::from_storage(
        Config { magic_number: 1, operation_max: 1 },
        &vec![(3, 1), (2, 2), (3, 5)],
        &vec![],
        &vec![(0, 1)],
        6,
        &vec![],
    );
    assert_eq!(q.user_balance_entries(), vec![(3, 5), (2, 2)]);
    assert_eq!(q.operation_count(ACCUMULATE_KEY), Some(1));
}

#[test]
fn operation_count_fits_detects_overflow() {
    let q = Pallet::from_storage(
        Config { magic_number: 1, operation_max: u16::MAX },
        &vec![],
        &vec![],
        &vec![(UPDATE_KEY, u16::MAX)],
        0,
        &vec![],
    );
    assert!(!q.operation_count_fits(UPDATE_KEY));
    assert!(q.operation_count_fits(CLEAR_KEY));
    let r = Pallet::from_storage(
        Config { magic_number: 1, operation_max: 3 },
        &vec![],
        &vec![],
        &vec![(UPDATE_KEY, u16::MAX)],
        0,
        &vec![],
    );
    assert!(r.operation_count_fits(UPDATE_KEY));
}

#[test]
fn failed_call_keeps_earlier_history() {
    let mut p = new_game();
    assert_eq!(p.set_temporary_balance(Origin::Root, 1, MAGIC), Ok(()));
    assert_eq!(p.update_balance(Origin::Signed(1)), Ok(()));
    p.check_win_condition();
    let events = p.events().clone();
    assert_eq!(p.update_balance(Origin::Unsigned), Err(DispatchError::BadOrigin));
    p.on_initialize(2);
    assert_eq!(p.leaderboard(1), Some(2));
    assert_eq!(p.events().clone(), events);
}

#[test]
fn total_stays_the_sum_of_settled_balances() {
    let mut p = new_game();
    assert_eq!(p.set_temporary_balance(Origin::Root, 1, 10), Ok(()));
    assert_eq!(p.set_temporary_balance(Origin::Root, 2, 20), Ok(()));
    assert_eq!(p.update_balance(Origin::Signed(1)), Ok(()));
    assert_eq!(p.update_balance(Origin::Signed(2)), Ok(()));
    assert_eq!(p.clear_temporary_balance(Origin::Signed(2), 2), Ok(()));
    assert_eq!(p.update_balance(Origin::Signed(1)), Ok(()));
    let sum: u128 = p.user_balance_entries().iter().map(|e| e.1).sum();
    assert_eq!(p.total_balance(), 40);
    assert_eq!(sum, 40);
    p.on_initialize(1);
    let sum: u128 = p.user_balance_entries().iter().map(|e| e.1).sum();
    assert_eq!(p.total_balance(), 0);
    assert_eq!(sum, 0);
}

#[test]
fn clearing_twice_is_clearing_once() {
    let mut p = new_game();
    assert_eq!(p.set_temporary_balance(Origin::Root, 5, 3), Ok(()));
    assert_eq!(p.set_temporary_balance(Origin::Root, 6, 4), Ok(()));
    assert_eq!(p.clear_temporary_balance(Origin::Signed(1), 5), Ok(()));
    let once = p.temporary_balance_entries();
    assert_eq!(p.clear_temporary_balance(Origin::Signed(1), 5), Ok(()));
    assert_eq!(p.temporary_balance_entries(), once);
    assert_eq!(p.temporary_balance(6), Some(4));
}

#[test]
fn accumulating_twice_adds_both() {
    let mut p = new_game();
    assert_eq!(p.set_temporary_balance(Origin::Root, 1, 100), Ok(()));
    assert_eq!(p.accumulate_temporary_balance(Origin::Signed(1), 5), Ok(()));
    assert_eq!(p.accumulate_temporary_balance(Origin::Signed(1), 7), Ok(()));
    assert_eq!(p.temporary_balance(1), Some(112));
    assert_eq!(p.operation_count(ACCUMULATE_KEY), Some(2));
}

#[test]
fn full_counter_still_answers_refusals() {
    let mut q = Pallet::from_storage(
        Config { magic_number: 1, operation_max: u16::MAX },
        &vec![],
        &vec![],
        &vec![(UPDATE_KEY, u16::MAX), (ACCUMULATE_KEY, u16::MAX), (SET_KEY, u16::MAX)],
        0,
        &vec![],
    );
    assert_eq!(q.update_balance(Origin::Unsigned), Err(DispatchError::BadOrigin));
    assert_eq!(q.update_balance(Origin::Signed(1)), module(Error::TempoaryBalanceNotFound));
    assert_eq!(q.accumulate_temporary_balance(Origin::Signed(1), 1), module(Error::NoEntryForSender));
    assert_eq!(q.set_temporary_balance(Origin::Signed(1), 1, 1), Err(DispatchError::BadOrigin));
    assert!(q.events().is_empty());
}
