use othello::board::OthelloPosition;
use othello::move_generator::{get_move_from_board_diff, get_moves, Move};

const OPENING: &str = "Weeeeeeeeeeeeeeeeeeeeeeeeeeeoxeeeeeexoeeeeeeeeeeeeeeeeeeeeeeeeeee";

#[test]
fn opening_has_exactly_four_moves() {
    let board = OthelloPosition::new(OPENING);
    let moves = get_moves(&board);
    let mut pairs: Vec<(usize, usize)> = moves.iter().map(|m| (m.row, m.col)).collect();
    pairs.sort();
    assert_eq!(pairs, vec![(2, 4), (3, 5), (4, 2), (5, 3)]);
}

#[test]
fn moves_are_distinct_and_target_empty_cells() {
    let board = OthelloPosition::new(OPENING);
    let moves = get_moves(&board);
    for (i, m) in moves.iter().enumerate() {
        assert_eq!(board.board[m.row * 8 + m.col], 'E');
        assert_eq!(m.player, 'O');
        for later in &moves[i + 1..] {
            assert!((m.row, m.col) != (later.row, later.col));
        }
    }
}

#[test]
fn black_to_move_has_its_own_four_moves() {
    let flipped = OPENING.replacen('W', "B", 1);
    let board = OthelloPosition::new(&flipped);
    let moves = get_moves(&board);
    let mut pairs: Vec<(usize, usize)> = moves.iter().map(|m| (m.row, m.col)).collect();
    pairs.sort();
    assert_eq!(pairs, vec![(2, 3), (3, 2), (4, 5), (5, 4)]);
    assert!(moves.iter().all(|m| m.player == 'X'));
}

#[test]
fn lone_colour_has_no_moves() {
    // White to move with no black pieces on the board: nothing to bracket.
    let board = OthelloPosition::new("WOeeeeeeeeeeeeeeeeeeeeeeeeeeeeeeeeeeeeeeeeeeeeeeeeeeeeeeeeeeeeeee");
    assert!(get_moves(&board).is_empty());
}

#[test]
fn generate_children_matches_moves() {
    let board = OthelloPosition::new(OPENING);
    let moves = get_moves(&board);
    let children = board.generate_children();
    assert_eq!(children.len(), moves.len());
    for (m, child) in moves.iter().zip(children.iter()) {
        assert!(!child.max_player);
        assert_eq!(child.board[m.row * 8 + m.col], 'O');
    }
}

#[test]
fn board_diff_recovers_the_move() {
    let board = OthelloPosition::new(OPENING);
    let mv = Move::new('O', 2, 4);
    let child = Move::make_move(&board, &mv);
    let recovered = get_move_from_board_diff(&board, &child).unwrap();
    assert_eq!(recovered.row, 2);
    assert_eq!(recovered.col, 4);
    assert_eq!(recovered.player, 'O');
}

#[test]
fn board_diff_of_equal_boards_is_none() {
    let board = OthelloPosition::new(OPENING);
    let same = OthelloPosition::new(OPENING);
    assert!(get_move_from_board_diff(&board, &same).is_none());
}

#[test]
fn a_placement_adds_exactly_one_piece() {
    let board = OthelloPosition::new(OPENING);
    let child = Move::make_move(&board, &Move::new('O', 2, 4));
    let count = |b: &OthelloPosition| b.board.iter().filter(|c| **c != 'E').count();
    assert_eq!(count(&board), 4);
    assert_eq!(count(&child), 5);
    for i in 0..64 {
        if board.board[i] != 'E' {
            assert!(child.board[i] != 'E');
        }
    }
}
