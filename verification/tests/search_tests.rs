use std::time::Instant;

use othello::alphabeta::{
    alphabeta, alphabeta_at_root, alphabeta_move_gen, TranspositionTable, VERY_HIGH, VERY_LOW,
};
use othello::board::OthelloPosition;
use othello::evaluator::Evaluator;

const OPENING: &str = "Weeeeeeeeeeeeeeeeeeeeeeeeeeeoxeeeeeexoeeeeeeeeeeeeeeeeeeeeeeeeeee";

/// Plain full-width minimax, the oracle that pruning must agree with.
fn ref_minimax(board: &OthelloPosition, depth: u32) -> i64 {
    let children = board.generate_children();
    if depth == 0 || children.is_empty() {
        return Evaluator::default().evaluate(board);
    }
    let mut best = if board.max_player { VERY_LOW } else { VERY_HIGH };
    for child in &children {
        let value = ref_minimax(child, depth - 1);
        if board.max_player {
            if value > best {
                best = value;
            }
        } else if value < best {
            best = value;
        }
    }
    best
}

#[test]
fn alphabeta_equals_full_width_minimax() {
    let start = Instant::now();
    let board = OthelloPosition::new(OPENING);
    for depth in 0..4 {
        let got = alphabeta(&board, depth, VERY_LOW, VERY_HIGH, &start, 1000);
        assert!(got.completed);
        assert_eq!(got.value, ref_minimax(&board, depth));
    }
}

#[test]
fn alphabeta_equals_minimax_on_reachable_positions() {
    let start = Instant::now();
    let root = OthelloPosition::new(OPENING);
    // Walk a few plies down, checking every position on the way.
    let mut frontier = vec![root];
    for _ply in 0..3 {
        let mut next = Vec::new();
        for position in &frontier {
            for depth in 0..3 {
                let got = alphabeta(position, depth, VERY_LOW, VERY_HIGH, &start, 1000);
                assert!(got.completed);
                assert_eq!(got.value, ref_minimax(position, depth));
            }
            next.extend(position.generate_children());
        }
        // Keep the walk narrow: the first two children of each position.
        next.truncate(2);
        frontier = next;
    }
}

#[test]
fn reordering_children_does_not_change_the_chosen_value() {
    let start = Instant::now();
    let board = OthelloPosition::new(OPENING);
    let depth = 2;

    let mut forward = board.generate_children();
    let mut table_f = TranspositionTable::new();
    let chosen_f =
        alphabeta_at_root(&board, &mut forward, depth, &start, 1000, &mut table_f)
            .best_move
            .unwrap();

    let mut reversed = board.generate_children();
    reversed.reverse();
    let mut table_r = TranspositionTable::new();
    let chosen_r =
        alphabeta_at_root(&board, &mut reversed, depth, &start, 1000, &mut table_r)
            .best_move
            .unwrap();

    let value_f = ref_minimax(&board.add_piece(chosen_f.row, chosen_f.col, 'O'), depth);
    let value_r = ref_minimax(&board.add_piece(chosen_r.row, chosen_r.col, 'O'), depth);
    assert_eq!(value_f, value_r);
}

#[test]
fn root_search_picks_the_first_best_child() {
    let start = Instant::now();
    let board = OthelloPosition::new(OPENING);
    let mut children = board.generate_children();
    let mut table = TranspositionTable::new();
    let outcome = alphabeta_at_root(&board, &mut children, 2, &start, 1000, &mut table);
    assert!(outcome.completed);
    let chosen = outcome.best_move.unwrap();
    let chosen_value = ref_minimax(&board.add_piece(chosen.row, chosen.col, 'O'), 2);
    let mut first_best: Option<(usize, usize)> = None;
    let mut best = VERY_LOW;
    for child in &children {
        let value = ref_minimax(child, 2);
        if value > best {
            best = value;
            let m = othello::move_generator::get_move_from_board_diff(&board, child).unwrap();
            first_best = Some((m.row, m.col));
        }
    }
    assert_eq!(best, chosen_value);
    assert_eq!(first_best.unwrap(), (chosen.row, chosen.col));
}

#[test]
fn opening_search_returns_a_canonical_opening_move() {
    let start = Instant::now();
    let board = OthelloPosition::new(OPENING);
    let m = alphabeta_move_gen(&board, &start, 1).expect("the opening has moves");
    let canonical = [(2usize, 4usize), (3, 5), (4, 2), (5, 3)];
    assert!(canonical.contains(&(m.row, m.col)));
    assert_eq!(m.player, 'O');
}

#[test]
fn search_without_moves_returns_pass() {
    let start = Instant::now();
    // White to move with only white pieces on the board: no legal move.
    let board = OthelloPosition::new(
        "WOeeeeeeeeeeeeeeeeeeeeeeeeeeeeeeeeeeeeeeeeeeeeeeeeeeeeeeeeeeeeeee",
    );
    assert!(alphabeta_move_gen(&board, &start, 1).is_none());
}

#[test]
fn search_answers_even_with_an_exhausted_budget() {
    // A time limit of zero seconds still yields a legal move: the first
    // depth is searched unconditionally so that pass means "no move exists".
    let start = Instant::now();
    let board = OthelloPosition::new(OPENING);
    let m = alphabeta_move_gen(&board, &start, 0).expect("a move exists");
    let canonical = [(2usize, 4usize), (3, 5), (4, 2), (5, 3)];
    assert!(canonical.contains(&(m.row, m.col)));
}

#[test]
fn empty_table_has_no_entries() {
    let table = TranspositionTable::new();
    let board = OthelloPosition::new(OPENING);
    assert!(table.lookup(&board.string_rep(), 3).is_none());
}

#[test]
fn truncated_search_is_flagged_incomplete() {
    // With the deadline already passed, the very first poll fires: the
    // result is the static evaluation and is marked incomplete.
    let start = Instant::now();
    let board = OthelloPosition::new(OPENING);
    let got = alphabeta(&board, 5, VERY_LOW, VERY_HIGH, &start, 0);
    assert!(!got.completed);
    assert_eq!(got.value, Evaluator::default().evaluate(&board));
}

/// The size of the full-width tree explored to the given depth.
fn ref_explored_nodes(board: &OthelloPosition, depth: u32) -> u64 {
    let children = board.generate_children();
    if depth == 0 || children.is_empty() {
        return 1;
    }
    let mut total: u64 = 1;
    for child in &children {
        total += ref_explored_nodes(child, depth - 1);
    }
    total
}

#[test]
fn deeper_searches_explore_larger_trees() {
    let board = OthelloPosition::new(OPENING);
    for depth in 0..3 {
        assert!(ref_explored_nodes(&board, depth) <= ref_explored_nodes(&board, depth + 1));
    }
}
