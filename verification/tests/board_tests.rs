use othello::board::OthelloPosition;

const OPENING: &str = "Weeeeeeeeeeeeeeeeeeeeeeeeeeeoxeeeeeexoeeeeeeeeeeeeeeeeeeeeeeeeeee";

#[test]
fn parse_canonicalizes_cells_and_side() {
    let board = OthelloPosition::new(OPENING);
    assert!(board.max_player);
    let rep = board.string_rep();
    assert_eq!(rep.len(), 65);
    assert_eq!(
        rep,
        "WEEEEEEEEEEEEEEEEEEEEEEEEEEEOXEEEEEEXOEEEEEEEEEEEEEEEEEEEEEEEEEEE"
    );
}

#[test]
fn parse_accepts_upper_case_pieces() {
    let board = OthelloPosition::new("BEEEEEEEEEEEEEEEEEEEEEEEEEEEOXEEEEEEXOEEEEEEEEEEEEEEEEEEEEEEEEEEE");
    assert!(!board.max_player);
    assert_eq!(board.board[27], 'O');
    assert_eq!(board.board[28], 'X');
    assert_eq!(board.board[0], 'E');
}

#[test]
fn string_rep_round_trips() {
    let board = OthelloPosition::new(OPENING);
    let rep = board.string_rep();
    let again = OthelloPosition::new(&rep);
    assert_eq!(again.board, board.board);
    assert_eq!(again.max_player, board.max_player);
    assert_eq!(again.string_rep(), rep);
}

#[test]
fn wrong_length_string_gives_empty_board() {
    let board = OthelloPosition::new("Wshort");
    assert!(board.max_player);
    assert!(board.board.iter().all(|c| *c == 'E'));
    let empty = OthelloPosition::empty();
    assert_eq!(board.board, empty.board);
}

#[test]
fn empty_board_is_not_game_over() {
    let board = OthelloPosition::empty();
    assert!(!board.is_game_over());
}

#[test]
fn full_board_is_game_over() {
    let all_white = OthelloPosition::worst_for_min();
    assert!(all_white.is_game_over());
    assert!(!all_white.max_player);
    let all_black = OthelloPosition::worst_for_max();
    assert!(all_black.is_game_over());
    assert!(all_black.max_player);
}

#[test]
fn worst_boards_hold_one_colour() {
    assert!(OthelloPosition::worst_for_max()
        .board
        .iter()
        .all(|c| *c == 'X'));
    assert!(OthelloPosition::worst_for_min()
        .board
        .iter()
        .all(|c| *c == 'O'));
}

#[test]
fn add_piece_writes_one_cell_and_flips_side() {
    let board = OthelloPosition::new(OPENING);
    let next = board.add_piece(2, 4, 'O');
    assert!(!next.max_player);
    assert_eq!(next.board[2 * 8 + 4], 'O');
    for i in 0..64 {
        if i != 2 * 8 + 4 {
            assert_eq!(next.board[i], board.board[i]);
        }
    }
}

#[test]
fn pass_flips_only_the_side_to_move() {
    let board = OthelloPosition::new(OPENING);
    let passed = board.pass();
    assert_eq!(passed.board, board.board);
    assert_eq!(passed.max_player, !board.max_player);
    let rep = passed.string_rep();
    assert!(rep.starts_with('B'));
    assert_eq!(&rep[1..], &board.string_rep()[1..]);
}
