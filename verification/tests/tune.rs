use snowhead::tune::eval;
use snowhead::types::score::Score;

#[test]
fn tune_eval_needs_a_position_and_parameters() {
    assert!(eval("startpos").is_none());
    assert!(eval("startpos moves e2e4").is_none());
    assert!(eval("position params 1 2 3").is_none());
}

#[test]
fn tune_eval_builds_the_table_from_material_values() {
    let t = eval("startpos params 100 320 330 500 900 0 110 300 320 520 950 0").unwrap();
    // White pawn: endgame 110, middlegame 100, no bonus.
    assert_eq!(t[1][0], Score(110 * 65536 + 100));
    // White queen on e4, black queen on the mirrored square.
    assert_eq!(t[5][28], Score(950 * 65536 + 900));
    assert_eq!(t[13][36], Score(-(950 * 65536 + 900)));
    // No piece, no value.
    assert_eq!(t[0][10], Score(0));
    assert_eq!(t[7][10], Score(0));
}

#[test]
fn tune_eval_reads_bonus_pairs() {
    let t = eval("fen 8/8/8/8/8/8/8/8 w - - 0 1 params 1 2 3 4 5 6 7 8 9 10 11 12 5 -3").unwrap();
    // Pawn on a1 and on h1 (file from the nearer edge: 0): 7 * 65536 + 1 plus the bonus
    // packed from middlegame 5 and endgame -3.
    assert_eq!(t[1][0], Score(7 * 65536 + 1 + (-3 * 65536 + 5)));
    assert_eq!(t[1][7], t[1][0]);
    assert_eq!(t[9][56], Score(-(7 * 65536 + 1 + (-3 * 65536 + 5))));
    // The bonus of b1 was not given.
    assert_eq!(t[1][1], Score(7 * 65536 + 1));
}
