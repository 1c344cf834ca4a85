//! The representation of a board position used in Othello/Reversi.

use vstd::prelude::*;

verus! {

/// The character that marks a piece of the maximizing player (white).
pub const PLAYER_WHITE: char = 'O';

/// The character that marks a piece of the minimizing player (black).
pub const PLAYER_BLACK: char = 'X';

/// The character that marks an empty cell.
pub const EMPTY_CELL: char = 'E';

/// The leading character of a position string when white is to move.
pub const WHITE_STRING_REP: char = 'W';

/// The leading character of a position string when black is to move.
pub const BLACK_STRING_REP: char = 'B';

/// The playable board is BOARD_SIZE x BOARD_SIZE.
pub const BOARD_SIZE: usize = 8;

/// The number of playable cells.
pub const BOARD_CELLS: usize = 64;

/// The mathematical view of a position: the 64 playable cells in row-major
/// order, and which side is to move. The cached score of a position is
/// scratch data for move ordering and is deliberately not part of the view.
pub struct BoardView {
    pub cells: Seq<char>,
    pub max_player: bool,
}

/// A cell holds a white piece, a black piece, or nothing.
pub open spec fn is_cell_char(c: char) -> bool {
    c == PLAYER_WHITE || c == PLAYER_BLACK || c == EMPTY_CELL
}

/// A well-formed view has exactly 64 cells, each in the cell alphabet.
pub open spec fn wf_view(v: BoardView) -> bool {
    &&& v.cells.len() == 64
    &&& forall|i: int| 0 <= i < 64 ==> is_cell_char(#[trigger] v.cells[i])
}

/// Row and column of a playable cell.
pub open spec fn in_bounds(row: int, col: int) -> bool {
    0 <= row < 8 && 0 <= col < 8
}

/// The cell of `v` at a (row, column) pair of the playable area.
pub open spec fn at(v: BoardView, row: int, col: int) -> char {
    v.cells[row * 8 + col]
}

/// Whether every playable cell holds a piece.
pub open spec fn full(v: BoardView) -> bool {
    forall|i: int| 0 <= i < 64 ==> #[trigger] v.cells[i] != EMPTY_CELL
}

/// The view of the empty starting board, white to move.
pub open spec fn empty_view() -> BoardView {
    BoardView { cells: Seq::new(64, |i: int| EMPTY_CELL), max_player: true }
}

/// The cell that an input character stands for: white and black pieces may be
/// written in either case; every other character stands for an empty cell.
pub open spec fn normalize_cell(c: char) -> char {
    if c == 'O' || c == 'o' {
        PLAYER_WHITE
    } else if c == 'X' || c == 'x' {
        PLAYER_BLACK
    } else {
        EMPTY_CELL
    }
}

/// The position that a 65-character string encodes: the first character gives
/// the side to move, the remaining 64 the cells in row-major order. A string
/// of any other length encodes the empty starting board.
pub open spec fn parse_view(s: Seq<char>) -> BoardView {
    if s.len() != 65 {
        empty_view()
    } else {
        BoardView {
            cells: Seq::new(64, |i: int| normalize_cell(s[i + 1])),
            max_player: s[0] == WHITE_STRING_REP,
        }
    }
}

/// The canonical 65-character string of a position: the side to move, then
/// the 64 cells in row-major order.
pub open spec fn rep_view(v: BoardView) -> Seq<char> {
    seq![if v.max_player { WHITE_STRING_REP } else { BLACK_STRING_REP }] + v.cells
}

/// The canonical string of a well-formed position parses back to the same
/// position: the string key is a lossless encoding.
pub proof fn lemma_round_trip(v: BoardView)
    requires
        wf_view(v),
    ensures
        parse_view(rep_view(v)) == v,
{
    let s = rep_view(v);
    assert(s.len() == 65);
    let p = parse_view(s);
    assert forall|i: int| 0 <= i < 64 implies p.cells[i] == v.cells[i] by {
        assert(s[i + 1] == v.cells[i]);
        assert(is_cell_char(v.cells[i]));
    }
    assert(p.cells =~= v.cells);
    assert(p.max_player == v.max_player);
}

/// Two well-formed positions with the same canonical string are the same
/// position: the canonical key is injective.
pub proof fn lemma_rep_injective(v1: BoardView, v2: BoardView)
    requires
        wf_view(v1),
        wf_view(v2),
        rep_view(v1) == rep_view(v2),
    ensures
        v1 == v2,
{
    lemma_round_trip(v1);
    lemma_round_trip(v2);
}

/// The representation of a given Othello position: the pieces on the playable
/// 8x8 board in row-major order, the player who is to play next, and the
/// evaluated score of the board (a scratch field used for move ordering,
/// not part of the position's identity).
pub struct OthelloPosition {
    /// The 64 playable cells, row-major.
    pub board: Vec<char>,
    /// Whether the maximizing player is to move next.
    pub max_player: bool,
    /// The evaluated score of this board, filled in lazily by the search.
    pub score: i64,
}

impl View for OthelloPosition {
    type V = BoardView;

    open spec fn view(&self) -> BoardView {
        BoardView { cells: self.board@, max_player: self.max_player }
    }
}

/// Returns a fresh vector of 64 copies of the given cell character.
fn filled_board(c: char) -> (r: Vec<char>)
    ensures
        r@.len() == 64,
        forall|i: int| 0 <= i < 64 ==> r@[i] == c,
{
    let mut board: Vec<char> = Vec::new();
    let mut i: usize = 0;
    while i < 64
        invariant
            i <= 64,
            board@.len() == i,
            forall|j: int| 0 <= j < i ==> board@[j] == c,
        decreases 64 - i,
    {
        board.push(c);
        i = i + 1;
    }
    board
}

/// Returns a copy of a board's cells, equal to it cell for cell.
pub(crate) fn copy_cells(cells: &Vec<char>) -> (r: Vec<char>)
    ensures
        r@ == cells@,
{
    let mut board: Vec<char> = Vec::new();
    let mut i: usize = 0;
    while i < cells.len()
        invariant
            i <= cells@.len(),
            board@.len() == i,
            forall|j: int| 0 <= j < i ==> board@[j] == cells@[j],
        decreases cells@.len() - i,
    {
        board.push(cells[i]);
        i = i + 1;
    }
    assert(board@ =~= cells@);
    board
}

/// Relies on String::push: appends the given character to the end of the
/// string.
#[verifier::external_body]
fn push_char(s: &mut String, c: char)
    ensures
        final(s)@ == old(s)@.push(c),
{
    s.push(c)
}

impl OthelloPosition {
    /// A position's board is well formed: 64 cells over the cell alphabet.
    pub open spec fn wf(&self) -> bool {
        wf_view(self@)
    }

    /// Returns a new, empty board. Assumes the max player plays first.
    pub fn empty() -> (r: OthelloPosition)
        ensures
            r@ == empty_view(),
            r.wf(),
            r.score == 0,
    {
        let board = filled_board(EMPTY_CELL);
        let r = OthelloPosition { board, max_player: true, score: 0 };
        assert(r@.cells =~= empty_view().cells);
        r
    }

    /// Returns a board representing the worst possible case for the max
    /// player: every cell holds a black piece.
    pub fn worst_for_max() -> (r: OthelloPosition)
        ensures
            r@.cells.len() == 64,
            forall|i: int| 0 <= i < 64 ==> r@.cells[i] == PLAYER_BLACK,
            r@.max_player == true,
            r.wf(),
    {
        let board = filled_board(PLAYER_BLACK);
        OthelloPosition { board, max_player: true, score: 0 }
    }

    /// Returns a board representing the worst possible case for the min
    /// player: every cell holds a white piece.
    pub fn worst_for_min() -> (r: OthelloPosition)
        ensures
            r@.cells.len() == 64,
            forall|i: int| 0 <= i < 64 ==> r@.cells[i] == PLAYER_WHITE,
            r@.max_player == false,
            r.wf(),
    {
        let board = filled_board(PLAYER_WHITE);
        OthelloPosition { board, max_player: false, score: 0 }
    }

    /// Returns whether the board is completely filled, so that no further
    /// move is possible for either player.
    pub fn is_game_over(&self) -> (r: bool)
        requires
            self.wf(),
        ensures
            r == full(self@),
    {
        let mut i: usize = 0;
        while i < 64
            invariant
                self.wf(),
                i <= 64,
                forall|j: int| 0 <= j < i ==> self@.cells[j] != EMPTY_CELL,
            decreases 64 - i,
        {
            if self.board[i] == EMPTY_CELL {
                return false;
            }
            i = i + 1;
        }
        true
    }

    /// Returns the position that the given string encodes: the first
    /// character gives the side to move (`W` for white, anything else for
    /// black) and the remaining 64 give the cells row-major, white and black
    /// pieces in either letter case. A string of any other length yields the
    /// empty starting board.
    pub fn new(string_rep: &str) -> (r: OthelloPosition)
        ensures
            r@ == parse_view(string_rep@),
            r.wf(),
            r.score == 0,
    {
        if string_rep.unicode_len() != 65 {
            OthelloPosition::empty()
        } else {
            let mut board: Vec<char> = Vec::new();
            let max_player = string_rep.get_char(0) == WHITE_STRING_REP;
            let mut i: usize = 0;
            while i < 64
                invariant
                    i <= 64,
                    string_rep@.len() == 65,
                    board@.len() == i,
                    forall|j: int| 0 <= j < i ==> board@[j] == normalize_cell(
                        #[trigger] string_rep@[j + 1],
                    ),
                decreases 64 - i,
            {
                let c = string_rep.get_char(i + 1);
                if c == 'O' || c == 'o' {
                    board.push(PLAYER_WHITE);
                } else if c == 'X' || c == 'x' {
                    board.push(PLAYER_BLACK);
                } else {
                    board.push(EMPTY_CELL);
                }
                i = i + 1;
            }
            let r = OthelloPosition { board, max_player, score: 0 };
            assert(r@.cells =~= parse_view(string_rep@).cells);
            r
        }
    }

    /// Adds a piece of the given colour in the given row and column and
    /// flips the side to move. Does not check that the placement is a legal
    /// move, and deliberately writes only the target cell: bracketed opponent
    /// pieces are not converted. Does not mutate in place; returns a brand
    /// new position.
    pub fn add_piece(&self, row: usize, col: usize, player: char) -> (r: OthelloPosition)
        requires
            self.wf(),
            row < 8,
            col < 8,
            player == PLAYER_WHITE || player == PLAYER_BLACK,
        ensures
            r@.cells == self@.cells.update(row * 8 + col, player),
            r@.max_player == !self@.max_player,
            r.wf(),
            r.score == 0,
    {
        let mut board = copy_cells(&self.board);
        board[row * 8 + col] = player;
        let r = OthelloPosition { board, max_player: !self.max_player, score: 0 };
        assert(r@.cells =~= self@.cells.update(row * 8 + col, player));
        r
    }

    /// Returns the position after the side to move passes: the pieces are
    /// unchanged and only the side to move flips. The search itself never
    /// applies a pass (a position without moves is terminal for it); this is
    /// for callers that advance a game past a pass.
    pub fn pass(&self) -> (r: OthelloPosition)
        requires
            self.wf(),
        ensures
            r@.cells == self@.cells,
            r@.max_player == !self@.max_player,
            r.wf(),
            r.score == 0,
    {
        let board = copy_cells(&self.board);
        OthelloPosition { board, max_player: !self.max_player, score: 0 }
    }

    /// Generates the boards reachable in one move from this board: one child
    /// for each legal move, in the order of the canonical move list.
    pub fn generate_children(&self) -> (r: Vec<OthelloPosition>)
        requires
            self.wf(),
        ensures
            r@.len() == crate::move_generator::moves_seq(self@).len(),
            forall|i: int|
                0 <= i < r@.len() ==> (#[trigger] r@[i])@ == crate::move_generator::children_views(
                    self@,
                )[i] && r@[i].wf(),
    {
        let ghost v = self@;
        let possible_moves = crate::move_generator::get_moves(&self);
        let mut child_boards: Vec<OthelloPosition> = Vec::new();
        proof {
            crate::move_generator::lemma_moves_seq_sorted(v);
            crate::move_generator::lemma_children_wf(v);
        }
        let mut i: usize = 0;
        while i < possible_moves.len()
            invariant
                self.wf(),
                v == self@,
                i <= possible_moves@.len(),
                possible_moves@.len() == crate::move_generator::moves_seq(v).len(),
                forall|j: int|
                    0 <= j < possible_moves@.len() ==> (#[trigger] possible_moves@[j]).row < 8
                        && possible_moves@[j].col < 8 && possible_moves@[j].player
                        == crate::move_generator::own_char(v.max_player) && (
                    possible_moves@[j].row as int,
                    possible_moves@[j].col as int,
                    ) == crate::move_generator::moves_seq(v)[j],
                child_boards@.len() == i,
                forall|j: int|
                    0 <= j < i ==> (#[trigger] child_boards@[j])@
                        == crate::move_generator::children_views(v)[j] && child_boards@[j].wf(),
            decreases possible_moves@.len() - i,
        {
            let p_move = &possible_moves[i];
            let child = crate::move_generator::Move::make_move(&self, p_move);
            proof {
                let m = crate::move_generator::moves_seq(v)[i as int];
                assert(crate::move_generator::children_views(v)[i as int]
                    == crate::move_generator::apply_view(v, m.0, m.1));
            }
            child_boards.push(child);
            i = i + 1;
        }
        child_boards
    }

    /// Returns the canonical string representation of the position; it
    /// matches the format accepted by `new` and round-trips losslessly
    /// (see `lemma_round_trip`).
    pub fn string_rep(&self) -> (r: String)
        requires
            self.wf(),
        ensures
            r@ == rep_view(self@),
    {
        let mut to_return = String::new();
        if self.max_player {
            push_char(&mut to_return, WHITE_STRING_REP);
        } else {
            push_char(&mut to_return, BLACK_STRING_REP);
        }
        let mut i: usize = 0;
        while i < 64
            invariant
                self.wf(),
                i <= 64,
                to_return@.len() == i + 1,
                to_return@[0] == (if self.max_player {
                    WHITE_STRING_REP
                } else {
                    BLACK_STRING_REP
                }),
                forall|j: int| 0 <= j < i ==> to_return@[j + 1] == #[trigger] self@.cells[j],
            decreases 64 - i,
        {
            push_char(&mut to_return, self.board[i]);
            i = i + 1;
        }
        assert(to_return@ =~= rep_view(self@));
        to_return
    }
}

} // verus!
