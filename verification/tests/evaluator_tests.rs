use othello::alphabeta::{VERY_HIGH, VERY_LOW};
use othello::board::OthelloPosition;
use othello::evaluator::Evaluator;

#[test]
fn empty_board_evaluates_to_zero() {
    // Every feature has both counts zero, and each normalization is defined
    // as 0 in that case, so the weighted sum is exactly 0.
    let board = OthelloPosition::empty();
    assert_eq!(Evaluator::default().evaluate(&board), 0);
}

#[test]
fn two_white_corners_evaluate_exactly() {
    // White holds the two top corners and nothing else.
    //   piece count: norm(2, 0) = 100, weighted by -100   -> -10000
    //   corners:     norm(2, 0) = 100, weighted by 4000   -> 400000
    //   immediate mobility: no move for either side       -> 0
    //   potential mobility: norm(0, 6) = -100, by 600     -> -60000
    //   corner-adjacent: all such cells empty             -> 0
    let board = OthelloPosition::new(
        "WOeeeeeeOeeeeeeeeeeeeeeeeeeeeeeeeeeeeeeeeeeeeeeeeeeeeeeeeeeeeeeee",
    );
    assert_eq!(board.board[0], 'O');
    assert_eq!(board.board[7], 'O');
    assert_eq!(Evaluator::default().evaluate(&board), 330000);
}

#[test]
fn full_board_with_white_ahead_is_the_max_sentinel() {
    // 33 white pieces against 31 black ones on a full board: the evaluator
    // short-circuits to the maximum sentinel, whatever the features say.
    let mut cells = String::from("B");
    for i in 0..64 {
        cells.push(if i < 33 { 'o' } else { 'x' });
    }
    let board = OthelloPosition::new(&cells);
    assert!(board.is_game_over());
    assert_eq!(Evaluator::default().evaluate(&board), VERY_HIGH);
}

#[test]
fn full_board_with_black_ahead_is_the_min_sentinel() {
    let mut cells = String::from("W");
    for i in 0..64 {
        cells.push(if i < 31 { 'o' } else { 'x' });
    }
    let board = OthelloPosition::new(&cells);
    assert!(board.is_game_over());
    assert_eq!(Evaluator::default().evaluate(&board), VERY_LOW);
}

#[test]
fn full_tied_board_falls_through_to_the_weighted_sum() {
    // 32 pieces each: no side is strictly ahead, so the weighted sum
    // applies. Piece count and immediate mobility are balanced (0), and a
    // full board has no empty neighbours, so potential mobility is 0 too;
    // only the corner features can speak. Top half white, bottom half black:
    //   corners: norm(2, 2) = 0                      -> 0
    //   corner-adjacent: norm(6, 6) = 0, negated     -> 0
    let mut cells = String::from("W");
    for i in 0..64 {
        cells.push(if i < 32 { 'o' } else { 'x' });
    }
    let board = OthelloPosition::new(&cells);
    assert!(board.is_game_over());
    assert_eq!(Evaluator::default().evaluate(&board), 0);
}

#[test]
fn evaluation_respects_custom_weights() {
    // With every weight zeroed but the corner weight, only corners count.
    let eval = Evaluator {
        count_weight: 0,
        corners_weight: 1,
        imm_mobility_weight: 0,
        pot_mobility_weight: 0,
        corner_adjacent_weight: 0,
    };
    let board = OthelloPosition::new(
        "WOeeeeeeOeeeeeeeeeeeeeeeeeeeeeeeeeeeeeeeeeeeeeeeeeeeeeeeeeeeeeeee",
    );
    assert_eq!(eval.evaluate(&board), 100);
}
