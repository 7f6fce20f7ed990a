use snowhead::movepick::{partial_insertion_sort, pick_best, ExtMove, Stage};
use snowhead::types::moves::Move;

fn ext(m: u32, value: i32) -> ExtMove {
    ExtMove { m: Move(m), value }
}

#[test]
fn pick_best_moves_the_first_best_to_the_front() {
    let mut list = vec![ext(1, 5), ext(2, 9), ext(3, 9), ext(4, 1)];
    let best = pick_best(&mut list);
    assert_eq!(best, ext(2, 9));
    assert_eq!(list, vec![ext(2, 9), ext(1, 5), ext(3, 9), ext(4, 1)]);
}

#[test]
fn partial_insertion_sort_orders_the_moves_up_to_the_limit() {
    let mut list = vec![ext(1, 3), ext(2, 50), ext(3, -7), ext(4, 20), ext(5, 40), ext(6, 0)];
    partial_insertion_sort(&mut list, 10);
    // The first move and those reaching 10, sorted; the others after.
    assert_eq!(&list[..4], &[ext(2, 50), ext(5, 40), ext(4, 20), ext(1, 3)]);
    let mut rest: Vec<i32> = list[4..].iter().map(|e| e.value).collect();
    rest.sort();
    assert_eq!(rest, vec![-7, 0]);
}

#[test]
fn partial_insertion_sort_with_low_limit_sorts_everything() {
    let mut list = vec![ext(1, 3), ext(2, 50), ext(3, -7), ext(4, 20)];
    partial_insertion_sort(&mut list, i32::MIN);
    let values: Vec<i32> = list.iter().map(|e| e.value).collect();
    assert_eq!(values, vec![50, 20, 3, -7]);
    let mut empty: Vec<ExtMove> = vec![];
    partial_insertion_sort(&mut empty, 0);
    assert!(empty.is_empty());
}

#[test]
fn stages_follow_each_other() {
    assert_eq!(Stage(Stage::MAIN_TT).next(), Stage(Stage::CAPTURES_INIT));
    assert_eq!(Stage(Stage::QCHECKS_INIT).next(), Stage(Stage::QCHECKS));
}
