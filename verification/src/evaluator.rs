//! The static position evaluator: a linear combination of independently
//! computed features, each normalized to [-100, 100] before weighting.
//! Negative values favour the min player, positive values the max player,
//! and zero means the players are in balance. A completely filled board
//! short-circuits to an extreme sentinel value in the direction of whichever
//! side has strictly more pieces; a tied full board falls through to the
//! weighted sum.

use vstd::prelude::*;

use crate::alphabeta::{VERY_HIGH, VERY_LOW};
use crate::board::{
    at, copy_cells, full, in_bounds, wf_view, BoardView, OthelloPosition, EMPTY_CELL, PLAYER_BLACK,
    PLAYER_WHITE,
};
use crate::move_generator::{apply_view, is_legal, moves_seq, own_char};

verus! {

/// The largest weight magnitude the evaluator accepts; it keeps every
/// weighted sum far inside the machine integer range and inside the search
/// sentinels.
pub const MAX_WEIGHT: i64 = 1000000;

/// The normalized differential of two non-negative counts: the difference as
/// a share of the total, scaled to [-100, 100], and 0 when both counts are
/// zero.
pub open spec fn norm_diff(a: int, b: int) -> int {
    if a + b == 0 {
        0
    } else if a >= b {
        100 * (a - b) / (a + b)
    } else {
        -(100 * (b - a) / (a + b))
    }
}

/// The normalized differential of two non-negative counts lies in
/// [-100, 100], and is exactly 0 when both counts are zero.
pub proof fn lemma_norm_diff_bounds(a: int, b: int)
    requires
        0 <= a,
        0 <= b,
    ensures
        -100 <= norm_diff(a, b) <= 100,
        a + b == 0 ==> norm_diff(a, b) == 0,
{
    if a + b != 0 {
        if a >= b {
            assert(0 <= 100 * (a - b) / (a + b) <= 100) by (nonlinear_arith)
                requires
                    0 <= b <= a,
                    a + b > 0,
            ;
        } else {
            assert(0 <= 100 * (b - a) / (a + b) <= 100) by (nonlinear_arith)
                requires
                    0 <= a < b,
                    a + b > 0,
            ;
        }
    }
}

/// The number of cells among the first n that hold the given piece.
pub open spec fn count_pieces(cells: Seq<char>, piece: char, n: int) -> int
    decreases n,
{
    if n <= 0 {
        0
    } else {
        count_pieces(cells, piece, n - 1) + if cells[n - 1] == piece {
            1int
        } else {
            0int
        }
    }
}

proof fn lemma_count_pieces_range(cells: Seq<char>, piece: char, n: int)
    ensures
        0 <= count_pieces(cells, piece, n) <= if n <= 0 {
            0int
        } else {
            n
        },
    decreases n,
{
    if n > 0 {
        lemma_count_pieces_range(cells, piece, n - 1);
    }
}

/// The number of the four corner cells that hold the given piece.
pub open spec fn corner_count(v: BoardView, piece: char) -> int {
    (if at(v, 0, 0) == piece {
        1int
    } else {
        0int
    }) + (if at(v, 0, 7) == piece {
        1int
    } else {
        0int
    }) + (if at(v, 7, 0) == piece {
        1int
    } else {
        0int
    }) + (if at(v, 7, 7) == piece {
        1int
    } else {
        0int
    })
}

/// The number of the twelve corner-adjacent cells that hold the given piece.
pub open spec fn corner_adjacent_count(v: BoardView, piece: char) -> int {
    (if at(v, 1, 1) == piece {
        1int
    } else {
        0int
    }) + (if at(v, 1, 6) == piece {
        1int
    } else {
        0int
    }) + (if at(v, 6, 1) == piece {
        1int
    } else {
        0int
    }) + (if at(v, 6, 6) == piece {
        1int
    } else {
        0int
    }) + (if at(v, 1, 0) == piece {
        1int
    } else {
        0int
    }) + (if at(v, 0, 1) == piece {
        1int
    } else {
        0int
    }) + (if at(v, 0, 6) == piece {
        1int
    } else {
        0int
    }) + (if at(v, 1, 7) == piece {
        1int
    } else {
        0int
    }) + (if at(v, 6, 0) == piece {
        1int
    } else {
        0int
    }) + (if at(v, 6, 7) == piece {
        1int
    } else {
        0int
    }) + (if at(v, 7, 1) == piece {
        1int
    } else {
        0int
    }) + (if at(v, 7, 6) == piece {
        1int
    } else {
        0int
    })
}

/// The number of empty cells among the up-to-eight neighbours of (row, col).
pub open spec fn empty_neighbor_count(v: BoardView, row: int, col: int) -> int {
    (if in_bounds(row - 1, col) && at(v, row - 1, col) == EMPTY_CELL {
        1int
    } else {
        0int
    }) + (if in_bounds(row - 1, col + 1) && at(v, row - 1, col + 1) == EMPTY_CELL {
        1int
    } else {
        0int
    }) + (if in_bounds(row, col + 1) && at(v, row, col + 1) == EMPTY_CELL {
        1int
    } else {
        0int
    }) + (if in_bounds(row + 1, col + 1) && at(v, row + 1, col + 1) == EMPTY_CELL {
        1int
    } else {
        0int
    }) + (if in_bounds(row + 1, col) && at(v, row + 1, col) == EMPTY_CELL {
        1int
    } else {
        0int
    }) + (if in_bounds(row + 1, col - 1) && at(v, row + 1, col - 1) == EMPTY_CELL {
        1int
    } else {
        0int
    }) + (if in_bounds(row, col - 1) && at(v, row, col - 1) == EMPTY_CELL {
        1int
    } else {
        0int
    }) + (if in_bounds(row - 1, col - 1) && at(v, row - 1, col - 1) == EMPTY_CELL {
        1int
    } else {
        0int
    })
}

/// The total number of (piece cell, empty neighbour) pairs in row `row`
/// among columns 0..ncols, for pieces of the given colour.
pub open spec fn frontier_row(v: BoardView, piece: char, row: int, ncols: int) -> int
    decreases ncols,
{
    if ncols <= 0 {
        0
    } else {
        frontier_row(v, piece, row, ncols - 1) + if at(v, row, ncols - 1) == piece {
            empty_neighbor_count(v, row, ncols - 1)
        } else {
            0int
        }
    }
}

/// The total number of (piece cell, empty neighbour) pairs in rows 0..nrows.
pub open spec fn frontier_below(v: BoardView, piece: char, nrows: int) -> int
    decreases nrows,
{
    if nrows <= 0 {
        0
    } else {
        frontier_below(v, piece, nrows - 1) + frontier_row(v, piece, nrows - 1, 8)
    }
}

/// The frontier exposure of the given colour: over all its pieces, the
/// number of adjacent empty cells, counted once per (piece, neighbour) pair.
pub open spec fn frontier(v: BoardView, piece: char) -> int {
    frontier_below(v, piece, 8)
}

proof fn lemma_empty_neighbor_count_range(v: BoardView, row: int, col: int)
    ensures
        0 <= empty_neighbor_count(v, row, col) <= 8,
{
}

proof fn lemma_frontier_row_range(v: BoardView, piece: char, row: int, ncols: int)
    ensures
        0 <= frontier_row(v, piece, row, ncols) <= if ncols <= 0 {
            0int
        } else {
            8 * ncols
        },
    decreases ncols,
{
    if ncols > 0 {
        lemma_frontier_row_range(v, piece, row, ncols - 1);
        lemma_empty_neighbor_count_range(v, row, ncols - 1);
    }
}

proof fn lemma_frontier_below_range(v: BoardView, piece: char, nrows: int)
    ensures
        0 <= frontier_below(v, piece, nrows) <= if nrows <= 0 {
            0int
        } else {
            64 * nrows
        },
    decreases nrows,
{
    if nrows > 0 {
        lemma_frontier_below_range(v, piece, nrows - 1);
        lemma_frontier_row_range(v, piece, nrows - 1, 8);
    }
}

proof fn lemma_count_pieces_update(cells: Seq<char>, piece: char, idx: int, val: char, n: int)
    requires
        0 <= idx < cells.len(),
        n <= cells.len(),
    ensures
        count_pieces(cells.update(idx, val), piece, n) == count_pieces(cells, piece, n) + if idx
            < n {
            (if val == piece {
                1int
            } else {
                0int
            }) - (if cells[idx] == piece {
                1int
            } else {
                0int
            })
        } else {
            0int
        },
    decreases n,
{
    if n > 0 {
        lemma_count_pieces_update(cells, piece, idx, val, n - 1);
    }
}

/// A placement never removes a piece: applying a legal move to a position
/// raises the total piece count by exactly one (the placed piece), and each
/// cell that held a piece before still holds one.
pub proof fn lemma_placement_grows_piece_count(v: BoardView, row: int, col: int)
    requires
        wf_view(v),
        is_legal(v, row, col),
    ensures
        count_pieces(apply_view(v, row, col).cells, PLAYER_WHITE, 64) + count_pieces(
            apply_view(v, row, col).cells,
            PLAYER_BLACK,
            64,
        ) == count_pieces(v.cells, PLAYER_WHITE, 64) + count_pieces(v.cells, PLAYER_BLACK, 64) + 1,
        forall|i: int|
            0 <= i < 64 && v.cells[i] != EMPTY_CELL ==> #[trigger] apply_view(
                v,
                row,
                col,
            ).cells[i] != EMPTY_CELL,
{
    let idx = row * 8 + col;
    let own = own_char(v.max_player);
    assert(v.cells[idx] == EMPTY_CELL);
    lemma_count_pieces_update(v.cells, PLAYER_WHITE, idx, own, 64);
    lemma_count_pieces_update(v.cells, PLAYER_BLACK, idx, own, 64);
    assert forall|i: int|
        0 <= i < 64 && v.cells[i] != EMPTY_CELL implies #[trigger] apply_view(
        v,
        row,
        col,
    ).cells[i] != EMPTY_CELL by {
        if i != idx {
            assert(apply_view(v, row, col).cells[i] == v.cells[i]);
        }
    }
}

/// The view with the same pieces and the given side to move.
pub open spec fn with_side(v: BoardView, max_player: bool) -> BoardView {
    BoardView { cells: v.cells, max_player }
}

/// The piece-count feature: the normalized differential of the two sides'
/// piece counts.
pub open spec fn piece_val(v: BoardView) -> int {
    norm_diff(count_pieces(v.cells, PLAYER_WHITE, 64), count_pieces(v.cells, PLAYER_BLACK, 64))
}

/// The corner feature: the normalized differential of held corners.
pub open spec fn corners_val(v: BoardView) -> int {
    norm_diff(corner_count(v, PLAYER_WHITE), corner_count(v, PLAYER_BLACK))
}

/// The corner-adjacency feature: the normalized differential of held
/// corner-adjacent cells, negated, so that holding cells next to a corner
/// counts against the holder.
pub open spec fn corner_adjacent_val(v: BoardView) -> int {
    -norm_diff(corner_adjacent_count(v, PLAYER_WHITE), corner_adjacent_count(v, PLAYER_BLACK))
}

/// The immediate-mobility feature: the normalized differential of the two
/// sides' legal-move counts from this board.
pub open spec fn mobility_val(v: BoardView) -> int {
    norm_diff(moves_seq(with_side(v, true)).len() as int, moves_seq(with_side(v, false)).len() as int)
}

/// The potential-mobility feature: the normalized differential of the two
/// sides' frontier exposure; empty cells next to a side's pieces are
/// potential moves for the other side, so black's frontier counts for white.
pub open spec fn potential_val(v: BoardView) -> int {
    norm_diff(frontier(v, PLAYER_BLACK), frontier(v, PLAYER_WHITE))
}

/// Represents an evaluator with its associated weights. Each weight
/// determines how much the corresponding feature affects the evaluated value
/// of a board.
pub struct Evaluator {
    pub count_weight: i64,
    pub corners_weight: i64,
    pub imm_mobility_weight: i64,
    pub pot_mobility_weight: i64,
    pub corner_adjacent_weight: i64,
}

/// An evaluator's weights lie within the accepted magnitude.
pub open spec fn wf_weights(e: Evaluator) -> bool {
    &&& -MAX_WEIGHT <= e.count_weight <= MAX_WEIGHT
    &&& -MAX_WEIGHT <= e.corners_weight <= MAX_WEIGHT
    &&& -MAX_WEIGHT <= e.imm_mobility_weight <= MAX_WEIGHT
    &&& -MAX_WEIGHT <= e.pot_mobility_weight <= MAX_WEIGHT
    &&& -MAX_WEIGHT <= e.corner_adjacent_weight <= MAX_WEIGHT
}

/// The default evaluator's weights.
pub open spec fn spec_default_evaluator() -> Evaluator {
    Evaluator {
        count_weight: -100i64,
        corners_weight: 4000i64,
        imm_mobility_weight: 400i64,
        pot_mobility_weight: 600i64,
        corner_adjacent_weight: 400i64,
    }
}

/// The value an evaluator assigns to a board: the extreme sentinel when the
/// board is full and one side is strictly ahead, and the weighted feature
/// sum otherwise.
pub open spec fn eval_with(e: Evaluator, v: BoardView) -> int {
    let white = count_pieces(v.cells, PLAYER_WHITE, 64);
    let black = count_pieces(v.cells, PLAYER_BLACK, 64);
    if full(v) && white > black {
        VERY_HIGH as int
    } else if full(v) && black > white {
        VERY_LOW as int
    } else {
        e.count_weight * piece_val(v) + e.corners_weight * corners_val(v)
            + e.imm_mobility_weight * mobility_val(v) + e.pot_mobility_weight * potential_val(v)
            + e.corner_adjacent_weight * corner_adjacent_val(v)
    }
}

/// The value the default evaluator assigns to a board; the search's leaves
/// are scored with this.
pub open spec fn eval_view(v: BoardView) -> int {
    eval_with(spec_default_evaluator(), v)
}

/// Every feature of a board, before weighting, lies in [-100, 100], and a
/// feature whose two counts are both zero is exactly 0.
pub proof fn lemma_feature_bounds(v: BoardView)
    ensures
        -100 <= piece_val(v) <= 100,
        -100 <= corners_val(v) <= 100,
        -100 <= corner_adjacent_val(v) <= 100,
        -100 <= mobility_val(v) <= 100,
        -100 <= potential_val(v) <= 100,
{
    lemma_count_pieces_range(v.cells, PLAYER_WHITE, 64);
    lemma_count_pieces_range(v.cells, PLAYER_BLACK, 64);
    lemma_norm_diff_bounds(
        count_pieces(v.cells, PLAYER_WHITE, 64),
        count_pieces(v.cells, PLAYER_BLACK, 64),
    );
    lemma_norm_diff_bounds(corner_count(v, PLAYER_WHITE), corner_count(v, PLAYER_BLACK));
    lemma_norm_diff_bounds(
        corner_adjacent_count(v, PLAYER_WHITE),
        corner_adjacent_count(v, PLAYER_BLACK),
    );
    lemma_norm_diff_bounds(
        moves_seq(with_side(v, true)).len() as int,
        moves_seq(with_side(v, false)).len() as int,
    );
    lemma_frontier_below_range(v, PLAYER_BLACK, 8);
    lemma_frontier_below_range(v, PLAYER_WHITE, 8);
    lemma_norm_diff_bounds(frontier(v, PLAYER_BLACK), frontier(v, PLAYER_WHITE));
}

/// A product of a bounded weight and a bounded feature is bounded.
proof fn lemma_mul_bound(w: int, f: int)
    requires
        -1000000 <= w <= 1000000,
        -100 <= f <= 100,
    ensures
        -100000000 <= w * f <= 100000000,
{
    assert(-100000000 <= w * f <= 100000000) by (nonlinear_arith)
        requires
            -1000000 <= w <= 1000000,
            -100 <= f <= 100,
    ;
}

/// An evaluation with bounded weights lies between the search sentinels.
pub proof fn lemma_eval_bounds(e: Evaluator, v: BoardView)
    requires
        wf_weights(e),
    ensures
        VERY_LOW <= eval_with(e, v) <= VERY_HIGH,
{
    lemma_feature_bounds(v);
    lemma_mul_bound(e.count_weight as int, piece_val(v));
    lemma_mul_bound(e.corners_weight as int, corners_val(v));
    lemma_mul_bound(e.imm_mobility_weight as int, mobility_val(v));
    lemma_mul_bound(e.pot_mobility_weight as int, potential_val(v));
    lemma_mul_bound(e.corner_adjacent_weight as int, corner_adjacent_val(v));
}

/// Returns the number of cells of the board that hold the given piece.
fn count_board(board: &OthelloPosition, piece: char) -> (r: u64)
    requires
        board.wf(),
    ensures
        r == count_pieces(board@.cells, piece, 64),
        r <= 64,
{
    let ghost v = board@;
    let mut count: u64 = 0;
    let mut i: usize = 0;
    while i < 64
        invariant
            board.wf(),
            v == board@,
            i <= 64,
            count == count_pieces(v.cells, piece, i as int),
            count <= i,
        decreases 64 - i,
    {
        if board.board[i] == piece {
            count = count + 1;
        }
        i = i + 1;
    }
    count
}

/// Returns the normalized differential of two small non-negative counts.
fn normalized(a: u64, b: u64) -> (r: i64)
    requires
        a <= 100000,
        b <= 100000,
    ensures
        r == norm_diff(a as int, b as int),
        -100 <= r <= 100,
{
    proof {
        lemma_norm_diff_bounds(a as int, b as int);
    }
    if a + b == 0 {
        0
    } else if a >= b {
        ((100 * (a - b)) / (a + b)) as i64
    } else {
        -(((100 * (b - a)) / (a + b)) as i64)
    }
}

impl Evaluator {
    /// Returns a new evaluator with the default weights, chosen by
    /// experimentation for good play.
    pub fn default() -> (r: Evaluator)
        ensures
            r == spec_default_evaluator(),
            wf_weights(r),
    {
        Evaluator {
            count_weight: -100,
            corners_weight: 4000,
            imm_mobility_weight: 400,
            pot_mobility_weight: 600,
            corner_adjacent_weight: 400,
        }
    }

    /// Evaluates a board: an extreme sentinel for a full board with one side
    /// strictly ahead, and otherwise the weighted sum of the five features.
    /// Positive values favour the max player, negative the min player.
    pub fn evaluate(&self, board: &OthelloPosition) -> (r: i64)
        requires
            board.wf(),
            wf_weights(*self),
        ensures
            r == eval_with(*self, board@),
            VERY_LOW <= r <= VERY_HIGH,
    {
        proof {
            lemma_eval_bounds(*self, board@);
        }
        let white = count_board(board, PLAYER_WHITE);
        let black = count_board(board, PLAYER_BLACK);
        if board.is_game_over() {
            if white > black {
                return VERY_HIGH;
            }
            if black > white {
                return VERY_LOW;
            }
        }
        let pieces = Evaluator::piece_count_value(board);
        let corners = Evaluator::corners_value(board);
        let imm_mobility = Evaluator::immediate_mobility(board);
        let pot_mobility = Evaluator::potential_mobility(board);
        let corner_adjacent = Evaluator::giving_away_corners(board);
        proof {
            lemma_mul_bound(self.count_weight as int, pieces as int);
            lemma_mul_bound(self.corners_weight as int, corners as int);
            lemma_mul_bound(self.imm_mobility_weight as int, imm_mobility as int);
            lemma_mul_bound(self.pot_mobility_weight as int, pot_mobility as int);
            lemma_mul_bound(self.corner_adjacent_weight as int, corner_adjacent as int);
        }
        self.count_weight * pieces + self.corners_weight * corners + self.imm_mobility_weight
            * imm_mobility + self.pot_mobility_weight * pot_mobility + self.corner_adjacent_weight
            * corner_adjacent
    }

    /// Returns the normalized piece-count differential of the board.
    fn piece_count_value(board: &OthelloPosition) -> (r: i64)
        requires
            board.wf(),
        ensures
            r == piece_val(board@),
            -100 <= r <= 100,
    {
        let max_player_coins = count_board(board, PLAYER_WHITE);
        let min_player_coins = count_board(board, PLAYER_BLACK);
        normalized(max_player_coins, min_player_coins)
    }

    /// Returns the normalized differential of held corners.
    fn corners_value(board: &OthelloPosition) -> (r: i64)
        requires
            board.wf(),
        ensures
            r == corners_val(board@),
            -100 <= r <= 100,
    {
        let mut max_corners: u64 = 0;
        let mut min_corners: u64 = 0;
        if board.board[0] == PLAYER_WHITE {
            max_corners = max_corners + 1;
        } else if board.board[0] == PLAYER_BLACK {
            min_corners = min_corners + 1;
        }
        if board.board[7] == PLAYER_WHITE {
            max_corners = max_corners + 1;
        } else if board.board[7] == PLAYER_BLACK {
            min_corners = min_corners + 1;
        }
        if board.board[56] == PLAYER_WHITE {
            max_corners = max_corners + 1;
        } else if board.board[56] == PLAYER_BLACK {
            min_corners = min_corners + 1;
        }
        if board.board[63] == PLAYER_WHITE {
            max_corners = max_corners + 1;
        } else if board.board[63] == PLAYER_BLACK {
            min_corners = min_corners + 1;
        }
        assert(max_corners == corner_count(board@, PLAYER_WHITE));
        assert(min_corners == corner_count(board@, PLAYER_BLACK));
        normalized(max_corners, min_corners)
    }

    /// Returns the negated normalized differential of held corner-adjacent
    /// cells: occupying the cells around a corner before owning the corner
    /// is a liability, so the feature counts against the holder.
    fn giving_away_corners(board: &OthelloPosition) -> (r: i64)
        requires
            board.wf(),
        ensures
            r == corner_adjacent_val(board@),
            -100 <= r <= 100,
    {
        let mut counts: (u64, u64) = (0, 0);
        counts = tally(board.board[9], counts);
        counts = tally(board.board[14], counts);
        counts = tally(board.board[49], counts);
        counts = tally(board.board[54], counts);
        counts = tally(board.board[8], counts);
        counts = tally(board.board[1], counts);
        counts = tally(board.board[6], counts);
        counts = tally(board.board[15], counts);
        counts = tally(board.board[48], counts);
        counts = tally(board.board[55], counts);
        counts = tally(board.board[57], counts);
        counts = tally(board.board[62], counts);
        assert(counts.0 == corner_adjacent_count(board@, PLAYER_WHITE));
        assert(counts.1 == corner_adjacent_count(board@, PLAYER_BLACK));
        let n = normalized(counts.0, counts.1);
        -n
    }

    /// Returns the normalized differential of the legal-move counts available
    /// to each side from the given pieces.
    fn immediate_mobility(board: &OthelloPosition) -> (r: i64)
        requires
            board.wf(),
        ensures
            r == mobility_val(board@),
            -100 <= r <= 100,
    {
        let max_board = OthelloPosition {
            board: copy_cells(&board.board),
            max_player: true,
            score: 0,
        };
        let min_board = OthelloPosition {
            board: copy_cells(&board.board),
            max_player: false,
            score: 0,
        };
        assert(max_board@ == with_side(board@, true));
        assert(min_board@ == with_side(board@, false));
        let num_max_moves = crate::move_generator::get_moves(&max_board).len();
        let num_min_moves = crate::move_generator::get_moves(&min_board).len();
        proof {
            crate::move_generator::lemma_moves_seq_len(with_side(board@, true));
            crate::move_generator::lemma_moves_seq_len(with_side(board@, false));
        }
        normalized(num_max_moves as u64, num_min_moves as u64)
    }

    /// Returns the normalized differential of the two sides' frontier
    /// exposure: for every piece, the empty cells around it are counted, and
    /// a side's exposed pieces are potential mobility for the other side.
    fn potential_mobility(board: &OthelloPosition) -> (r: i64)
        requires
            board.wf(),
        ensures
            r == potential_val(board@),
            -100 <= r <= 100,
    {
        let ghost v = board@;
        let mut white_count: u64 = 0;
        let mut black_count: u64 = 0;
        let mut row: usize = 0;
        while row < 8
            invariant
                board.wf(),
                v == board@,
                row <= 8,
                white_count == frontier_below(v, PLAYER_BLACK, row as int),
                black_count == frontier_below(v, PLAYER_WHITE, row as int),
                white_count <= 64 * row,
                black_count <= 64 * row,
            decreases 8 - row,
        {
            let mut col: usize = 0;
            while col < 8
                invariant
                    board.wf(),
                    v == board@,
                    row < 8,
                    col <= 8,
                    white_count == frontier_below(v, PLAYER_BLACK, row as int) + frontier_row(
                        v,
                        PLAYER_BLACK,
                        row as int,
                        col as int,
                    ),
                    black_count == frontier_below(v, PLAYER_WHITE, row as int) + frontier_row(
                        v,
                        PLAYER_WHITE,
                        row as int,
                        col as int,
                    ),
                    white_count <= 64 * row + 8 * col,
                    black_count <= 64 * row + 8 * col,
                decreases 8 - col,
            {
                proof {
                    lemma_frontier_below_range(v, PLAYER_BLACK, row as int);
                    lemma_frontier_below_range(v, PLAYER_WHITE, row as int);
                    lemma_frontier_row_range(v, PLAYER_BLACK, row as int, col as int);
                    lemma_frontier_row_range(v, PLAYER_WHITE, row as int, col as int);
                    lemma_empty_neighbor_count_range(v, row as int, col as int);
                }
                let c = board.board[row * 8 + col];
                if c == PLAYER_BLACK {
                    white_count = white_count + empty_neighbors_at(board, row, col);
                } else if c == PLAYER_WHITE {
                    black_count = black_count + empty_neighbors_at(board, row, col);
                }
                col = col + 1;
            }
            row = row + 1;
        }
        proof {
            lemma_frontier_row_range(v, PLAYER_BLACK, 7, 8);
        }
        normalized(white_count, black_count)
    }
}

/// Adds the given cell to a running (white, black) piece tally.
fn tally(c: char, counts: (u64, u64)) -> (r: (u64, u64))
    requires
        counts.0 < 1000,
        counts.1 < 1000,
    ensures
        r.0 == counts.0 + if c == PLAYER_WHITE {
            1int
        } else {
            0int
        },
        r.1 == counts.1 + if c == PLAYER_BLACK {
            1int
        } else {
            0int
        },
{
    if c == PLAYER_WHITE {
        (counts.0 + 1, counts.1)
    } else if c == PLAYER_BLACK {
        (counts.0, counts.1 + 1)
    } else {
        counts
    }
}

/// Returns the number of empty cells among the neighbours of (row, col).
fn empty_neighbors_at(board: &OthelloPosition, row: usize, col: usize) -> (r: u64)
    requires
        board.wf(),
        row < 8,
        col < 8,
    ensures
        r == empty_neighbor_count(board@, row as int, col as int),
        r <= 8,
{
    let mut n: u64 = 0;
    if row > 0 && crate::move_generator::is_free(board, row - 1, col) {
        n = n + 1;
    }
    if row > 0 && col < 7 && crate::move_generator::is_free(board, row - 1, col + 1) {
        n = n + 1;
    }
    if col < 7 && crate::move_generator::is_free(board, row, col + 1) {
        n = n + 1;
    }
    if row < 7 && col < 7 && crate::move_generator::is_free(board, row + 1, col + 1) {
        n = n + 1;
    }
    if row < 7 && crate::move_generator::is_free(board, row + 1, col) {
        n = n + 1;
    }
    if row < 7 && col > 0 && crate::move_generator::is_free(board, row + 1, col - 1) {
        n = n + 1;
    }
    if col > 0 && crate::move_generator::is_free(board, row, col - 1) {
        n = n + 1;
    }
    if row > 0 && col > 0 && crate::move_generator::is_free(board, row - 1, col - 1) {
        n = n + 1;
    }
    n
}

} // verus!
