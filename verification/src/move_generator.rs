//! The representation of a move, and the generation of the legal moves of a
//! position under Othello's flip-by-bracketing capture rule: a placement on
//! an empty cell is legal iff, in at least one of the eight directions, it
//! first meets one or more contiguous opponent pieces and then a piece of the
//! mover before any empty cell or the board edge.

use vstd::prelude::*;

use crate::board::{
    at, full, in_bounds, is_cell_char, wf_view, BoardView, OthelloPosition, EMPTY_CELL,
    PLAYER_BLACK, PLAYER_WHITE,
};

verus! {

/// The piece character of the side to move.
pub open spec fn own_char(max_player: bool) -> char {
    if max_player {
        PLAYER_WHITE
    } else {
        PLAYER_BLACK
    }
}

/// The piece character of the side not to move.
pub open spec fn opp_char(max_player: bool) -> char {
    if max_player {
        PLAYER_BLACK
    } else {
        PLAYER_WHITE
    }
}

/// The direction deltas are unit steps along a row, column or diagonal.
pub open spec fn is_direction(dr: int, dc: int) -> bool {
    -1 <= dr <= 1 && -1 <= dc <= 1 && !(dr == 0 && dc == 0)
}

/// The cell k steps from (row, col) in direction (dr, dc) is on the board
/// and holds an opponent piece.
pub open spec fn opp_step(v: BoardView, row: int, col: int, dr: int, dc: int, k: int) -> bool {
    &&& in_bounds(row + k * dr, col + k * dc)
    &&& at(v, row + k * dr, col + k * dc) == opp_char(v.max_player)
}

/// The cell k steps from (row, col) in direction (dr, dc) is on the board
/// and holds a piece of the side to move.
pub open spec fn own_step(v: BoardView, row: int, col: int, dr: int, dc: int, k: int) -> bool {
    &&& in_bounds(row + k * dr, col + k * dc)
    &&& at(v, row + k * dr, col + k * dc) == own_char(v.max_player)
}

/// From (row, col), walking k steps in direction (dr, dc) stays on the board,
/// crosses opponent pieces only, and ends on a piece of the side to move.
pub open spec fn bracket_at(v: BoardView, row: int, col: int, dr: int, dc: int, k: int) -> bool {
    &&& 2 <= k
    &&& own_step(v, row, col, dr, dc, k)
    &&& forall|j: int| 1 <= j < k ==> #[trigger] opp_step(v, row, col, dr, dc, j)
}

/// A placement at (row, col) captures along direction (dr, dc).
pub open spec fn captures_in_dir(v: BoardView, row: int, col: int, dr: int, dc: int) -> bool {
    exists|k: int| #[trigger] bracket_at(v, row, col, dr, dc, k)
}

/// A placement at (row, col) captures along at least one of the eight
/// directions.
pub open spec fn captures_some_dir(v: BoardView, row: int, col: int) -> bool {
    ||| captures_in_dir(v, row, col, -1, 0)
    ||| captures_in_dir(v, row, col, -1, 1)
    ||| captures_in_dir(v, row, col, 0, 1)
    ||| captures_in_dir(v, row, col, 1, 1)
    ||| captures_in_dir(v, row, col, 1, 0)
    ||| captures_in_dir(v, row, col, 1, -1)
    ||| captures_in_dir(v, row, col, 0, -1)
    ||| captures_in_dir(v, row, col, -1, -1)
}

/// The side to move may place a piece at (row, col): the cell is on the
/// board, empty, and the placement captures in some direction.
pub open spec fn is_legal(v: BoardView, row: int, col: int) -> bool {
    &&& in_bounds(row, col)
    &&& at(v, row, col) == EMPTY_CELL
    &&& captures_some_dir(v, row, col)
}

/// Some neighbour of (row, col) on the board holds a piece.
pub open spec fn neighbor_occupied(v: BoardView, row: int, col: int) -> bool {
    ||| (in_bounds(row - 1, col) && at(v, row - 1, col) != EMPTY_CELL)
    ||| (in_bounds(row - 1, col + 1) && at(v, row - 1, col + 1) != EMPTY_CELL)
    ||| (in_bounds(row, col + 1) && at(v, row, col + 1) != EMPTY_CELL)
    ||| (in_bounds(row + 1, col + 1) && at(v, row + 1, col + 1) != EMPTY_CELL)
    ||| (in_bounds(row + 1, col) && at(v, row + 1, col) != EMPTY_CELL)
    ||| (in_bounds(row + 1, col - 1) && at(v, row + 1, col - 1) != EMPTY_CELL)
    ||| (in_bounds(row, col - 1) && at(v, row, col - 1) != EMPTY_CELL)
    ||| (in_bounds(row - 1, col - 1) && at(v, row - 1, col - 1) != EMPTY_CELL)
}

/// A capture in some direction puts an opponent piece directly next to the
/// placement, so a legal cell always has an occupied neighbour: the
/// neighbour pre-filter of the generator never discards a legal move.
pub proof fn lemma_legal_has_neighbor(v: BoardView, row: int, col: int)
    requires
        is_legal(v, row, col),
    ensures
        neighbor_occupied(v, row, col),
{
    if captures_in_dir(v, row, col, -1, 0) {
        let k = choose|k: int| #[trigger] bracket_at(v, row, col, -1, 0, k);
        assert(opp_step(v, row, col, -1, 0, 1));
        assert(in_bounds(row - 1, col) && at(v, row - 1, col) != EMPTY_CELL);
    } else if captures_in_dir(v, row, col, -1, 1) {
        let k = choose|k: int| #[trigger] bracket_at(v, row, col, -1, 1, k);
        assert(opp_step(v, row, col, -1, 1, 1));
        assert(in_bounds(row - 1, col + 1) && at(v, row - 1, col + 1) != EMPTY_CELL);
    } else if captures_in_dir(v, row, col, 0, 1) {
        let k = choose|k: int| #[trigger] bracket_at(v, row, col, 0, 1, k);
        assert(opp_step(v, row, col, 0, 1, 1));
        assert(in_bounds(row, col + 1) && at(v, row, col + 1) != EMPTY_CELL);
    } else if captures_in_dir(v, row, col, 1, 1) {
        let k = choose|k: int| #[trigger] bracket_at(v, row, col, 1, 1, k);
        assert(opp_step(v, row, col, 1, 1, 1));
        assert(in_bounds(row + 1, col + 1) && at(v, row + 1, col + 1) != EMPTY_CELL);
    } else if captures_in_dir(v, row, col, 1, 0) {
        let k = choose|k: int| #[trigger] bracket_at(v, row, col, 1, 0, k);
        assert(opp_step(v, row, col, 1, 0, 1));
        assert(in_bounds(row + 1, col) && at(v, row + 1, col) != EMPTY_CELL);
    } else if captures_in_dir(v, row, col, 1, -1) {
        let k = choose|k: int| #[trigger] bracket_at(v, row, col, 1, -1, k);
        assert(opp_step(v, row, col, 1, -1, 1));
        assert(in_bounds(row + 1, col - 1) && at(v, row + 1, col - 1) != EMPTY_CELL);
    } else if captures_in_dir(v, row, col, 0, -1) {
        let k = choose|k: int| #[trigger] bracket_at(v, row, col, 0, -1, k);
        assert(opp_step(v, row, col, 0, -1, 1));
        assert(in_bounds(row, col - 1) && at(v, row, col - 1) != EMPTY_CELL);
    } else {
        let k = choose|k: int| #[trigger] bracket_at(v, row, col, -1, -1, k);
        assert(opp_step(v, row, col, -1, -1, 1));
        assert(in_bounds(row - 1, col - 1) && at(v, row - 1, col - 1) != EMPTY_CELL);
    }
}

/// Returns whether the cell holds no piece.
pub fn is_free(board: &OthelloPosition, row: usize, col: usize) -> (r: bool)
    requires
        board.wf(),
        row < 8,
        col < 8,
    ensures
        r == (at(board@, row as int, col as int) == EMPTY_CELL),
{
    board.board[row * 8 + col] == EMPTY_CELL
}

/// Returns whether the cell holds a piece of the side not to move.
pub fn is_opponent_square(board: &OthelloPosition, row: usize, col: usize) -> (r: bool)
    requires
        board.wf(),
        row < 8,
        col < 8,
    ensures
        r == (at(board@, row as int, col as int) == opp_char(board@.max_player)),
{
    if board.max_player && board.board[row * 8 + col] == PLAYER_BLACK {
        return true;
    }
    if !board.max_player && board.board[row * 8 + col] == PLAYER_WHITE {
        return true;
    }
    false
}

/// Returns whether the cell holds a piece of the side to move.
pub fn is_own_square(board: &OthelloPosition, row: usize, col: usize) -> (r: bool)
    requires
        board.wf(),
        row < 8,
        col < 8,
    ensures
        r == (at(board@, row as int, col as int) == own_char(board@.max_player)),
{
    if !board.max_player && board.board[row * 8 + col] == PLAYER_BLACK {
        return true;
    }
    if board.max_player && board.board[row * 8 + col] == PLAYER_WHITE {
        return true;
    }
    false
}

/// Returns whether some neighbour of the cell holds a piece.
pub fn has_neighbor(board: &OthelloPosition, row: usize, col: usize) -> (r: bool)
    requires
        board.wf(),
        row < 8,
        col < 8,
    ensures
        r == neighbor_occupied(board@, row as int, col as int),
{
    if row > 0 && !is_free(board, row - 1, col) {
        return true;
    }
    if row > 0 && col < 7 && !is_free(board, row - 1, col + 1) {
        return true;
    }
    if col < 7 && !is_free(board, row, col + 1) {
        return true;
    }
    if row < 7 && col < 7 && !is_free(board, row + 1, col + 1) {
        return true;
    }
    if row < 7 && !is_free(board, row + 1, col) {
        return true;
    }
    if row < 7 && col > 0 && !is_free(board, row + 1, col - 1) {
        return true;
    }
    if col > 0 && !is_free(board, row, col - 1) {
        return true;
    }
    if row > 0 && col > 0 && !is_free(board, row - 1, col - 1) {
        return true;
    }
    false
}

/// Returns whether the cell is a placement candidate: empty with at least
/// one occupied neighbour. This pre-filter is purely an optimization; by
/// `lemma_legal_has_neighbor` it never discards a legal move.
pub fn is_candidate(board: &OthelloPosition, row: usize, col: usize) -> (r: bool)
    requires
        board.wf(),
        row < 8,
        col < 8,
    ensures
        r == (at(board@, row as int, col as int) == EMPTY_CELL && neighbor_occupied(
            board@,
            row as int,
            col as int,
        )),
{
    if !is_free(board, row, col) {
        return false;
    }
    if has_neighbor(board, row, col) {
        return true;
    }
    false
}

/// Scans outward from (row, col) along direction (dr, dc) and returns
/// whether the placement captures there: the first cell must hold an
/// opponent piece, and the run of opponent pieces must end on a piece of the
/// side to move before any empty cell or the board edge.
fn check_direction(board: &OthelloPosition, row: usize, col: usize, dr: i64, dc: i64) -> (r: bool)
    requires
        board.wf(),
        row < 8,
        col < 8,
        is_direction(dr as int, dc as int),
    ensures
        r == captures_in_dir(board@, row as int, col as int, dr as int, dc as int),
{
    let ghost v = board@;
    let ghost ri: int = row as int;
    let ghost ci: int = col as int;
    let ghost di: int = dr as int;
    let ghost dj: int = dc as int;
    let mut k: i64 = 1;
    loop
        invariant
            board.wf(),
            v == board@,
            ri == row as int,
            ci == col as int,
            di == dr as int,
            dj == dc as int,
            row < 8,
            col < 8,
            is_direction(di, dj),
            1 <= k <= 8,
            forall|j: int| 1 <= j < k as int ==> #[trigger] opp_step(v, ri, ci, di, dj, j),
        decreases 9 - k,
    {
        proof {
            assert(-8 <= (k as int) * di <= 8 && -8 <= (k as int) * dj <= 8) by (nonlinear_arith)
                requires
                    1 <= k as int <= 8,
                    -1 <= di <= 1,
                    -1 <= dj <= 1,
            ;
        }
        let rr: i64 = row as i64 + k * dr;
        let cc: i64 = col as i64 + k * dc;
        assert(rr as int == ri + (k as int) * di && cc as int == ci + (k as int) * dj);
        if rr < 0 || rr > 7 || cc < 0 || cc > 7 {
            // The scan ran off the board before finding a piece of the side
            // to move: no step count can bracket here.
            assert(!in_bounds(ri + (k as int) * di, ci + (k as int) * dj));
            assert forall|kk: int| !bracket_at(v, ri, ci, di, dj, kk) by {
                if kk >= 2 {
                    if kk < k as int {
                        assert(opp_step(v, ri, ci, di, dj, kk));
                        assert(!own_step(v, ri, ci, di, dj, kk));
                    } else if kk == k as int {
                        assert(!own_step(v, ri, ci, di, dj, kk));
                    } else {
                        assert(!opp_step(v, ri, ci, di, dj, k as int));
                    }
                }
            }
            return false;
        }
        let ur: usize = rr as usize;
        let uc: usize = cc as usize;
        assert(ur as int == ri + (k as int) * di && uc as int == ci + (k as int) * dj);
        if k == 1 {
            let opp = is_opponent_square(board, ur, uc);
            assert(opp == opp_step(v, ri, ci, di, dj, 1));
            if !opp {
                // The adjacent cell is not an opponent piece: every bracket
                // needs one at step 1.
                assert forall|kk: int| !bracket_at(v, ri, ci, di, dj, kk) by {
                    if kk >= 2 {
                        assert(!opp_step(v, ri, ci, di, dj, 1));
                    }
                }
                return false;
            }
            assert(opp_step(v, ri, ci, di, dj, k as int));
        } else {
            let own = is_own_square(board, ur, uc);
            assert(own == own_step(v, ri, ci, di, dj, k as int));
            if own {
                assert(bracket_at(v, ri, ci, di, dj, k as int));
                return true;
            }
            let opp = is_opponent_square(board, ur, uc);
            assert(opp == opp_step(v, ri, ci, di, dj, k as int));
            if !opp {
                // A cell that holds neither piece ends the run before a piece
                // of the side to move was found: no step count can bracket.
                assert forall|kk: int| !bracket_at(v, ri, ci, di, dj, kk) by {
                    if kk >= 2 {
                        if kk < k as int {
                            assert(opp_step(v, ri, ci, di, dj, kk));
                            assert(!own_step(v, ri, ci, di, dj, kk));
                        } else if kk == k as int {
                            assert(!own_step(v, ri, ci, di, dj, kk));
                        } else {
                            assert(!opp_step(v, ri, ci, di, dj, k as int));
                        }
                    }
                }
                return false;
            }
            assert(opp_step(v, ri, ci, di, dj, k as int));
        }
        // The step-k cell is on the board and holds an opponent piece; after
        // eight steps in any direction the scan is off the board, so this
        // point is only reached with k < 8.
        assert(k < 8) by {
            if k == 8 {
                assert(!in_bounds(ri + 8 * di, ci + 8 * dj));
                assert(!opp_step(v, ri, ci, di, dj, 8));
            }
        }
        k = k + 1;
    }
}

/// Returns whether a placement at (row, col) by the side to move captures in
/// at least one of the eight directions.
fn is_move(board: &OthelloPosition, row: usize, col: usize) -> (r: bool)
    requires
        board.wf(),
        row < 8,
        col < 8,
    ensures
        r == captures_some_dir(board@, row as int, col as int),
{
    check_north(board, row, col) || check_north_east(board, row, col) || check_east(board, row, col)
        || check_south_east(board, row, col) || check_south(board, row, col) || check_south_west(
        board,
        row,
        col,
    ) || check_north_west(board, row, col) || check_west(board, row, col)
}

/// Returns whether a placement at (row, col) captures towards the north.
fn check_north(board: &OthelloPosition, row: usize, col: usize) -> (r: bool)
    requires
        board.wf(),
        row < 8,
        col < 8,
    ensures
        r == captures_in_dir(board@, row as int, col as int, -1, 0),
{
    check_direction(board, row, col, -1, 0)
}

/// Returns whether a placement at (row, col) captures towards the east.
fn check_east(board: &OthelloPosition, row: usize, col: usize) -> (r: bool)
    requires
        board.wf(),
        row < 8,
        col < 8,
    ensures
        r == captures_in_dir(board@, row as int, col as int, 0, 1),
{
    check_direction(board, row, col, 0, 1)
}

/// Returns whether a placement at (row, col) captures towards the south.
fn check_south(board: &OthelloPosition, row: usize, col: usize) -> (r: bool)
    requires
        board.wf(),
        row < 8,
        col < 8,
    ensures
        r == captures_in_dir(board@, row as int, col as int, 1, 0),
{
    check_direction(board, row, col, 1, 0)
}

/// Returns whether a placement at (row, col) captures towards the west.
fn check_west(board: &OthelloPosition, row: usize, col: usize) -> (r: bool)
    requires
        board.wf(),
        row < 8,
        col < 8,
    ensures
        r == captures_in_dir(board@, row as int, col as int, 0, -1),
{
    check_direction(board, row, col, 0, -1)
}

/// Returns whether a placement at (row, col) captures towards the north-east.
fn check_north_east(board: &OthelloPosition, row: usize, col: usize) -> (r: bool)
    requires
        board.wf(),
        row < 8,
        col < 8,
    ensures
        r == captures_in_dir(board@, row as int, col as int, -1, 1),
{
    check_direction(board, row, col, -1, 1)
}

/// Returns whether a placement at (row, col) captures towards the south-east.
fn check_south_east(board: &OthelloPosition, row: usize, col: usize) -> (r: bool)
    requires
        board.wf(),
        row < 8,
        col < 8,
    ensures
        r == captures_in_dir(board@, row as int, col as int, 1, 1),
{
    check_direction(board, row, col, 1, 1)
}

/// Returns whether a placement at (row, col) captures towards the south-west.
fn check_south_west(board: &OthelloPosition, row: usize, col: usize) -> (r: bool)
    requires
        board.wf(),
        row < 8,
        col < 8,
    ensures
        r == captures_in_dir(board@, row as int, col as int, 1, -1),
{
    check_direction(board, row, col, 1, -1)
}

/// Returns whether a placement at (row, col) captures towards the north-west.
fn check_north_west(board: &OthelloPosition, row: usize, col: usize) -> (r: bool)
    requires
        board.wf(),
        row < 8,
        col < 8,
    ensures
        r == captures_in_dir(board@, row as int, col as int, -1, -1),
{
    check_direction(board, row, col, -1, -1)
}

/// The legal placements in row `row` among columns 0..ncols, by ascending
/// column.
pub open spec fn row_moves(v: BoardView, row: int, ncols: int) -> Seq<(int, int)>
    decreases ncols,
{
    if ncols <= 0 {
        Seq::empty()
    } else if is_legal(v, row, ncols - 1) {
        row_moves(v, row, ncols - 1).push((row, ncols - 1))
    } else {
        row_moves(v, row, ncols - 1)
    }
}

/// The legal placements in rows 0..nrows, in row-major order.
pub open spec fn moves_below(v: BoardView, nrows: int) -> Seq<(int, int)>
    decreases nrows,
{
    if nrows <= 0 {
        Seq::empty()
    } else {
        moves_below(v, nrows - 1) + row_moves(v, nrows - 1, 8)
    }
}

/// All legal placements of the side to move, in row-major order. This is the
/// canonical move list: the move generator returns exactly these cells in
/// exactly this order.
pub open spec fn moves_seq(v: BoardView) -> Seq<(int, int)> {
    moves_below(v, 8)
}

/// (row1, col1) comes strictly before (row2, col2) in row-major order.
pub open spec fn row_major_lt(m1: (int, int), m2: (int, int)) -> bool {
    m1.0 < m2.0 || (m1.0 == m2.0 && m1.1 < m2.1)
}

proof fn lemma_row_moves_props(v: BoardView, row: int, ncols: int)
    ensures
        forall|i: int|
            0 <= i < row_moves(v, row, ncols).len() ==> (#[trigger] row_moves(v, row, ncols)[i]).0
                == row && 0 <= row_moves(v, row, ncols)[i].1 < ncols && is_legal(
                v,
                row,
                row_moves(v, row, ncols)[i].1,
            ),
        forall|i: int, j: int|
            0 <= i < j < row_moves(v, row, ncols).len() ==> (#[trigger] row_moves(
                v,
                row,
                ncols,
            )[i]).1 < (#[trigger] row_moves(v, row, ncols)[j]).1,
    decreases ncols,
{
    if ncols > 0 {
        lemma_row_moves_props(v, row, ncols - 1);
        let prev = row_moves(v, row, ncols - 1);
        let cur = row_moves(v, row, ncols);
        assert forall|i: int|
            0 <= i < cur.len() implies (#[trigger] cur[i]).0 == row && 0 <= cur[i].1 < ncols
            && is_legal(v, row, cur[i].1) by {
            if i < prev.len() {
                assert(cur[i] == prev[i]);
            } else {
                assert(cur[i] == (row, ncols - 1));
            }
        }
        assert forall|i: int, j: int|
            0 <= i < j < cur.len() implies (#[trigger] cur[i]).1 < (#[trigger] cur[j]).1 by {
            if j < prev.len() {
                assert(cur[i] == prev[i] && cur[j] == prev[j]);
            } else if j == prev.len() && is_legal(v, row, ncols - 1) {
                assert(cur[i] == prev[i] && cur[j] == (row, ncols - 1));
            }
        }
    }
}

proof fn lemma_row_moves_complete(v: BoardView, row: int, ncols: int, c: int)
    requires
        0 <= c < ncols,
        is_legal(v, row, c),
    ensures
        row_moves(v, row, ncols).contains((row, c)),
    decreases ncols,
{
    if c == ncols - 1 {
        assert(row_moves(v, row, ncols)[row_moves(v, row, ncols).len() - 1] == (row, c));
    } else {
        lemma_row_moves_complete(v, row, ncols - 1, c);
        let s = row_moves(v, row, ncols - 1);
        let i = choose|i: int| 0 <= i < s.len() && s[i] == (row, c);
        assert(row_moves(v, row, ncols)[i] == (row, c));
    }
}

proof fn lemma_moves_below_props(v: BoardView, nrows: int)
    ensures
        forall|i: int|
            0 <= i < moves_below(v, nrows).len() ==> 0 <= (#[trigger] moves_below(v, nrows)[i]).0
                < nrows && 0 <= moves_below(v, nrows)[i].1 < 8 && is_legal(
                v,
                moves_below(v, nrows)[i].0,
                moves_below(v, nrows)[i].1,
            ),
        forall|i: int, j: int|
            0 <= i < j < moves_below(v, nrows).len() ==> row_major_lt(
                #[trigger] moves_below(v, nrows)[i],
                #[trigger] moves_below(v, nrows)[j],
            ),
    decreases nrows,
{
    if nrows > 0 {
        lemma_moves_below_props(v, nrows - 1);
        lemma_row_moves_props(v, nrows - 1, 8);
        let prev = moves_below(v, nrows - 1);
        let rowm = row_moves(v, nrows - 1, 8);
        let cur = moves_below(v, nrows);
        assert forall|i: int|
            0 <= i < cur.len() implies 0 <= (#[trigger] cur[i]).0 < nrows && 0 <= cur[i].1 < 8
            && is_legal(v, cur[i].0, cur[i].1) by {
            if i < prev.len() {
                assert(cur[i] == prev[i]);
            } else {
                assert(cur[i] == rowm[i - prev.len()]);
            }
        }
        assert forall|i: int, j: int|
            0 <= i < j < cur.len() implies row_major_lt(
            #[trigger] cur[i],
            #[trigger] cur[j],
        ) by {
            if j < prev.len() {
                assert(cur[i] == prev[i] && cur[j] == prev[j]);
            } else if i < prev.len() {
                assert(cur[i] == prev[i] && cur[j] == rowm[j - prev.len()]);
                assert(cur[i].0 < nrows - 1 && cur[j].0 == nrows - 1);
            } else {
                assert(cur[i] == rowm[i - prev.len()] && cur[j] == rowm[j - prev.len()]);
            }
        }
    }
}

proof fn lemma_moves_below_complete(v: BoardView, nrows: int, r: int, c: int)
    requires
        0 <= r < nrows,
        is_legal(v, r, c),
    ensures
        moves_below(v, nrows).contains((r, c)),
    decreases nrows,
{
    if r == nrows - 1 {
        lemma_row_moves_complete(v, r, 8, c);
        let s = row_moves(v, r, 8);
        let i = choose|i: int| 0 <= i < s.len() && s[i] == (r, c);
        assert(moves_below(v, nrows)[moves_below(v, nrows - 1).len() + i] == (r, c));
    } else {
        lemma_moves_below_complete(v, nrows - 1, r, c);
        let s = moves_below(v, nrows - 1);
        let i = choose|i: int| 0 <= i < s.len() && s[i] == (r, c);
        assert(moves_below(v, nrows)[i] == (r, c));
    }
}

/// Every entry of the canonical move list is a legal placement of the side
/// to move, and the entries come in strictly increasing row-major order.
pub proof fn lemma_moves_seq_sorted(v: BoardView)
    ensures
        forall|i: int|
            0 <= i < moves_seq(v).len() ==> is_legal(
                v,
                (#[trigger] moves_seq(v)[i]).0,
                moves_seq(v)[i].1,
            ),
        forall|i: int, j: int|
            0 <= i < j < moves_seq(v).len() ==> row_major_lt(
                #[trigger] moves_seq(v)[i],
                #[trigger] moves_seq(v)[j],
            ),
{
    lemma_moves_below_props(v, 8);
}

/// Every legal placement of the side to move appears in the canonical move
/// list.
pub proof fn lemma_moves_seq_complete(v: BoardView, r: int, c: int)
    requires
        is_legal(v, r, c),
    ensures
        moves_seq(v).contains((r, c)),
{
    lemma_moves_below_complete(v, 8, r, c);
}

/// The legal moves of a position carry no duplicate (row, col) pair, and
/// every returned target cell is empty in the position.
pub proof fn lemma_legal_moves_distinct(v: BoardView)
    ensures
        forall|i: int, j: int|
            0 <= i < j < moves_seq(v).len() ==> #[trigger] moves_seq(v)[i] != #[trigger] moves_seq(
                v,
            )[j],
        forall|i: int|
            0 <= i < moves_seq(v).len() ==> at(
                v,
                (#[trigger] moves_seq(v)[i]).0,
                moves_seq(v)[i].1,
            ) == EMPTY_CELL,
{
    lemma_moves_seq_sorted(v);
}

/// A full board has no empty cell, so it admits no legal move.
pub proof fn lemma_full_no_moves(v: BoardView)
    requires
        wf_view(v),
        full(v),
    ensures
        moves_seq(v).len() == 0,
{
    lemma_moves_seq_sorted(v);
    if moves_seq(v).len() > 0 {
        let m = moves_seq(v)[0];
        assert(at(v, m.0, m.1) == EMPTY_CELL);
        assert(v.cells[m.0 * 8 + m.1] != EMPTY_CELL);
    }
}

proof fn lemma_row_moves_len(v: BoardView, row: int, ncols: int)
    ensures
        row_moves(v, row, ncols).len() <= if ncols <= 0 {
            0int
        } else {
            ncols
        },
    decreases ncols,
{
    if ncols > 0 {
        lemma_row_moves_len(v, row, ncols - 1);
    }
}

proof fn lemma_moves_below_len(v: BoardView, nrows: int)
    ensures
        moves_below(v, nrows).len() <= if nrows <= 0 {
            0int
        } else {
            8 * nrows
        },
    decreases nrows,
{
    if nrows > 0 {
        lemma_moves_below_len(v, nrows - 1);
        lemma_row_moves_len(v, nrows - 1, 8);
    }
}

/// A position admits at most 64 legal moves.
pub proof fn lemma_moves_seq_len(v: BoardView)
    ensures
        moves_seq(v).len() <= 64,
{
    lemma_moves_below_len(v, 8);
}

/// The position after the side to move places its piece at (row, col): the
/// target cell is written and the side to move flips. Mirrors `add_piece`:
/// bracketed opponent pieces are not converted.
pub open spec fn apply_view(v: BoardView, row: int, col: int) -> BoardView {
    BoardView {
        cells: v.cells.update(row * 8 + col, own_char(v.max_player)),
        max_player: !v.max_player,
    }
}

/// A representation of a move: the target cell and the colour of the piece
/// being placed. It does not own board state; applying it to a position
/// produces a new position.
#[derive(Debug, Clone, PartialEq)]
pub struct Move {
    /// A char representing the colour of the player to add a piece.
    pub player: char,
    /// The row where the piece should be added.
    pub row: usize,
    /// The column where the piece should be added.
    pub col: usize,
}

impl Move {
    /// Returns a new move with the given player, row, and column.
    pub fn new(player: char, row: usize, col: usize) -> (r: Move)
        ensures
            r.player == player,
            r.row == row,
            r.col == col,
    {
        Move { player, row, col }
    }

    /// Takes a board and a move, adds the piece to the board at the move's
    /// cell and returns the resulting board.
    pub fn make_move(board: &OthelloPosition, to_make: &Move) -> (r: OthelloPosition)
        requires
            board.wf(),
            to_make.row < 8,
            to_make.col < 8,
            to_make.player == PLAYER_WHITE || to_make.player == PLAYER_BLACK,
        ensures
            r@.cells == board@.cells.update(
                to_make.row * 8 + to_make.col,
                to_make.player,
            ),
            r@.max_player == !board@.max_player,
            to_make.player == own_char(board@.max_player) ==> r@ == apply_view(
                board@,
                to_make.row as int,
                to_make.col as int,
            ),
            r.wf(),
            r.score == 0,
    {
        board.add_piece(to_make.row, to_make.col, to_make.player)
    }
}

/// Returns the legal moves of the side to move, exactly the cells of the
/// canonical move list `moves_seq`, in row-major order, each carrying the
/// mover's colour.
pub fn get_moves(board: &OthelloPosition) -> (r: Vec<Move>)
    requires
        board.wf(),
    ensures
        r@.len() == moves_seq(board@).len(),
        forall|i: int|
            0 <= i < r@.len() ==> (#[trigger] r@[i]).row < 8 && r@[i].col < 8 && r@[i].player
                == own_char(board@.max_player) && (r@[i].row as int, r@[i].col as int) == moves_seq(
                board@,
            )[i],
{
    let ghost v = board@;
    let mut val_moves: Vec<Move> = Vec::new();
    let mut candidates: Vec<bool> = Vec::new();
    let mut row: usize = 0;
    while row < 8
        invariant
            board.wf(),
            v == board@,
            row <= 8,
            candidates@.len() == 8 * row,
            forall|idx: int|
                0 <= idx < 8 * row ==> candidates@[idx] == (at(v, idx / 8, idx % 8) == EMPTY_CELL
                    && neighbor_occupied(v, idx / 8, idx % 8)),
        decreases 8 - row,
    {
        let mut col: usize = 0;
        while col < 8
            invariant
                board.wf(),
                v == board@,
                row < 8,
                col <= 8,
                candidates@.len() == 8 * row + col,
                forall|idx: int|
                    0 <= idx < 8 * row + col ==> candidates@[idx] == (at(v, idx / 8, idx % 8)
                        == EMPTY_CELL && neighbor_occupied(v, idx / 8, idx % 8)),
            decreases 8 - col,
        {
            let c = is_candidate(board, row, col);
            candidates.push(c);
            proof {
                let idx = 8 * (row as int) + col as int;
                assert(idx / 8 == row as int && idx % 8 == col as int) by (nonlinear_arith)
                    requires
                        idx == 8 * (row as int) + col as int,
                        0 <= col < 8,
                        0 <= row,
                ;
            }
            col = col + 1;
        }
        row = row + 1;
    }
    let mut row: usize = 0;
    while row < 8
        invariant
            board.wf(),
            v == board@,
            row <= 8,
            candidates@.len() == 64,
            forall|idx: int|
                0 <= idx < 64 ==> candidates@[idx] == (at(v, idx / 8, idx % 8) == EMPTY_CELL
                    && neighbor_occupied(v, idx / 8, idx % 8)),
            val_moves@.len() == moves_below(v, row as int).len(),
            forall|i: int|
                0 <= i < val_moves@.len() ==> (#[trigger] val_moves@[i]).row < 8
                    && val_moves@[i].col < 8 && val_moves@[i].player == own_char(v.max_player) && (
                val_moves@[i].row as int,
                val_moves@[i].col as int,
                ) == moves_below(v, row as int)[i],
        decreases 8 - row,
    {
        let mut col: usize = 0;
        while col < 8
            invariant
                board.wf(),
                v == board@,
                row < 8,
                col <= 8,
                candidates@.len() == 64,
                forall|idx: int|
                    0 <= idx < 64 ==> candidates@[idx] == (at(v, idx / 8, idx % 8) == EMPTY_CELL
                        && neighbor_occupied(v, idx / 8, idx % 8)),
                val_moves@.len() == (moves_below(v, row as int) + row_moves(
                    v,
                    row as int,
                    col as int,
                )).len(),
                forall|i: int|
                    0 <= i < val_moves@.len() ==> (#[trigger] val_moves@[i]).row < 8
                        && val_moves@[i].col < 8 && val_moves@[i].player == own_char(v.max_player)
                        && (val_moves@[i].row as int, val_moves@[i].col as int) == (moves_below(
                        v,
                        row as int,
                    ) + row_moves(v, row as int, col as int))[i],
            decreases 8 - col,
        {
            proof {
                let idx = 8 * (row as int) + col as int;
                assert(idx / 8 == row as int && idx % 8 == col as int) by (nonlinear_arith)
                    requires
                        idx == 8 * (row as int) + col as int,
                        0 <= col < 8,
                        0 <= row,
                ;
            }
            let ghost old_moves = val_moves@;
            if candidates[row * 8 + col] {
                if is_move(board, row, col) {
                    assert(is_legal(v, row as int, col as int));
                    if board.max_player {
                        val_moves.push(Move::new(PLAYER_WHITE, row, col));
                    } else {
                        val_moves.push(Move::new(PLAYER_BLACK, row, col));
                    }
                }
            }
            proof {
                // A legal cell always passes the candidate pre-filter.
                if is_legal(v, row as int, col as int) {
                    lemma_legal_has_neighbor(v, row as int, col as int);
                }
                let prev = moves_below(v, row as int) + row_moves(v, row as int, col as int);
                let next = moves_below(v, row as int) + row_moves(v, row as int, col as int + 1);
                if is_legal(v, row as int, col as int) {
                    assert(row_moves(v, row as int, col as int + 1) == row_moves(
                        v,
                        row as int,
                        col as int,
                    ).push((row as int, col as int)));
                    assert(next =~= prev.push((row as int, col as int)));
                } else {
                    assert(row_moves(v, row as int, col as int + 1) == row_moves(
                        v,
                        row as int,
                        col as int,
                    ));
                }
            }
            col = col + 1;
        }
        proof {
            assert(row_moves(v, row as int, 0).len() == 0);
            assert(moves_below(v, row as int + 1) == moves_below(v, row as int) + row_moves(
                v,
                row as int,
                8,
            ));
        }
        row = row + 1;
    }
    val_moves
}

/// Compares two cell vectors and returns the first index where they differ,
/// together with the second vector's cell there, or None when they agree.
fn vec_differs(fst: &Vec<char>, snd: &Vec<char>) -> (r: Option<(usize, char)>)
    requires
        fst@.len() == snd@.len(),
    ensures
        match r {
            None => fst@ =~= snd@,
            Some((i, c)) => i < fst@.len() && fst@[i as int] != snd@[i as int] && c == snd@[i as int]
                && forall|j: int| 0 <= j < i ==> fst@[j] == snd@[j],
        },
{
    let mut i: usize = 0;
    while i < fst.len()
        invariant
            fst@.len() == snd@.len(),
            i <= fst@.len(),
            forall|j: int| 0 <= j < i ==> fst@[j] == snd@[j],
        decreases fst@.len() - i,
    {
        if fst[i] != snd[i] {
            return Some((i, snd[i]));
        }
        i = i + 1;
    }
    None
}

/// Returns the move that turns `from` into `to`: the first cell, in
/// row-major order, where the two boards differ, carrying `to`'s piece
/// there. Returns None when the boards hold the same pieces.
pub fn get_move_from_board_diff(from: &OthelloPosition, to: &OthelloPosition) -> (r: Option<Move>)
    requires
        from.wf(),
        to.wf(),
    ensures
        match r {
            None => from@.cells == to@.cells,
            Some(m) => {
                &&& m.row < 8
                &&& m.col < 8
                &&& from@.cells[m.row * 8 + m.col] != to@.cells[m.row * 8 + m.col]
                &&& m.player == to@.cells[m.row * 8 + m.col]
                &&& forall|j: int| 0 <= j < m.row * 8 + m.col ==> from@.cells[j] == to@.cells[j]
            },
        },
{
    match vec_differs(&from.board, &to.board) {
        Some((i, c)) => {
            let row = i / 8;
            let col = i % 8;
            assert(row * 8 + col == i as int && row < 8 && col < 8) by (nonlinear_arith)
                requires
                    row as int == i as int / 8,
                    col as int == i as int % 8,
                    0 <= i < 64,
            ;
            Some(Move::new(c, row, col))
        },
        None => None,
    }
}

/// The views of the positions reachable in one move, in the order of the
/// canonical move list.
pub open spec fn children_views(v: BoardView) -> Seq<BoardView> {
    moves_seq(v).map_values(|m: (int, int)| apply_view(v, m.0, m.1))
}

/// A placement on an empty cell keeps the board well formed: the written
/// cell holds a piece and every other cell is unchanged.
pub proof fn lemma_apply_wf(v: BoardView, row: int, col: int)
    requires
        wf_view(v),
        in_bounds(row, col),
    ensures
        wf_view(apply_view(v, row, col)),
{
    let w = apply_view(v, row, col);
    assert forall|i: int| 0 <= i < 64 implies is_cell_char(#[trigger] w.cells[i]) by {
        if i != row * 8 + col {
            assert(w.cells[i] == v.cells[i]);
        }
    }
}

/// Every child view of a well-formed position is well formed.
pub proof fn lemma_children_wf(v: BoardView)
    requires
        wf_view(v),
    ensures
        forall|i: int|
            0 <= i < children_views(v).len() ==> wf_view(#[trigger] children_views(v)[i]),
{
    lemma_moves_seq_sorted(v);
    assert forall|i: int|
        0 <= i < children_views(v).len() implies wf_view(#[trigger] children_views(v)[i]) by {
        let m = moves_seq(v)[i];
        lemma_apply_wf(v, m.0, m.1);
        assert(children_views(v)[i] == apply_view(v, m.0, m.1));
    }
}

} // verus!
