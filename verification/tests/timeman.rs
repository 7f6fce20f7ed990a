use snowhead::timeman::{deeper_allowed, TimeManager, MAX_MOVES_TO_GO};
use snowhead::types::piece::Color;
use snowhead::uci::command::GoOptions;
use snowhead::uci::option::UciOptions;

#[test]
fn fixed_move_time_less_overhead() {
    let mut go = GoOptions::new();
    go.movetime = 1000;
    let opts = UciOptions::new();
    let tm = TimeManager::new(TimeManager::current(), &go, &opts, Color(0));
    assert_eq!(tm.maximum(), 990 * 1_000_000);
    assert_eq!(tm.optimum(), 891 * 1_000_000);
}

#[test]
fn clock_shared_among_moves_to_go() {
    let mut go = GoOptions::new();
    go.time = [60_000, 30_000];
    go.inc = [1_000, 500];
    let opts = UciOptions::new();
    let tm = TimeManager::new(TimeManager::current(), &go, &opts, Color(1));
    // (30000 + 500 * 20 - 10) / 20 = 1999
    assert_eq!(MAX_MOVES_TO_GO, 20);
    assert_eq!(tm.maximum(), 1999 * 1_000_000);
    assert_eq!(tm.optimum(), 9 * 1999 * 1_000_000 / 10);
}

#[test]
fn overhead_larger_than_move_time_gives_zero() {
    let mut go = GoOptions::new();
    go.movetime = 5;
    let tm = TimeManager::new(TimeManager::current(), &go, &UciOptions::new(), Color(0));
    assert_eq!(tm.maximum(), 0);
}

#[test]
fn no_time_management_with_fixed_depth() {
    let mut go = GoOptions::new();
    go.depth = 5;
    go.movetime = 1000;
    assert!(!go.use_time_management());
    let tm = TimeManager::new(TimeManager::current(), &go, &UciOptions::new(), Color(0));
    assert_eq!(tm.maximum(), 0);
    assert_eq!(tm.optimum(), 0);
    assert!(GoOptions::new().use_time_management());
}

#[test]
fn deeper_allowed_decisions() {
    assert!(deeper_allowed(10, 100, 1000, 5));
    assert!(!deeper_allowed(50, 100, 1000, 5));
    assert!(!deeper_allowed(40, 100, 100, 5));
}
