//! The search engine: iterative-deepening alpha-beta minimax over the game
//! tree, with per-depth move ordering and a transposition table keyed by the
//! canonical position string.

use vstd::prelude::*;

use crate::board::{parse_view, wf_view, BoardView, OthelloPosition};
use crate::evaluator::{eval_view, lemma_eval_bounds, spec_default_evaluator, Evaluator};
use crate::move_generator::{
    apply_view, children_views, get_move_from_board_diff, is_legal, lemma_children_wf,
    lemma_moves_seq_sorted, moves_seq, own_char, Move,
};

verus! {

broadcast use {vstd::seq_lib::group_to_multiset_ensures, vstd::multiset::group_multiset_axioms};

/// The search's upper sentinel: above every reachable evaluation, and the
/// value of a decided full board in the maximizer's favour.
pub const VERY_HIGH: i64 = 9999999999999;

/// The search's lower sentinel: below every reachable evaluation, and the
/// value of a decided full board in the minimizer's favour.
pub const VERY_LOW: i64 = -VERY_HIGH;

/// The value of full-width minimax to the given depth: a position at depth 0,
/// or one whose side to move has no legal move, is worth its static
/// evaluation; otherwise it is worth the best of its children's values, best
/// meaning largest when the maximizer is to move and smallest otherwise.
pub open spec fn minimax(v: BoardView, depth: nat) -> int
    decreases depth, 0nat, 0nat,
{
    if depth == 0 || children_views(v).len() == 0 {
        eval_view(v)
    } else {
        best_value(children_views(v), (depth - 1) as nat, v.max_player)
    }
}

/// The best of the minimax values of a non-empty family of positions: the
/// largest when maximizing, the smallest otherwise. An empty family is given
/// the corresponding worst sentinel; no caller relies on that case.
pub open spec fn best_value(kids: Seq<BoardView>, depth: nat, maximizing: bool) -> int
    decreases depth, 1nat, kids.len(),
{
    if kids.len() == 0 {
        if maximizing {
            VERY_LOW as int
        } else {
            VERY_HIGH as int
        }
    } else if kids.len() == 1 {
        minimax(kids[0], depth)
    } else {
        let head = minimax(kids[0], depth);
        let rest = best_value(kids.drop_first(), depth, maximizing);
        if maximizing {
            if head >= rest {
                head
            } else {
                rest
            }
        } else {
            if head <= rest {
                head
            } else {
                rest
            }
        }
    }
}

/// The best value of a family bounds each member's value, and is attained by
/// some member.
pub proof fn lemma_best_value_props(kids: Seq<BoardView>, depth: nat, maximizing: bool)
    requires
        kids.len() > 0,
    ensures
        forall|i: int|
            0 <= i < kids.len() ==> (maximizing ==> minimax(#[trigger] kids[i], depth)
                <= best_value(kids, depth, maximizing)) && (!maximizing ==> minimax(
                kids[i],
                depth,
            ) >= best_value(kids, depth, maximizing)),
        exists|i: int|
            0 <= i < kids.len() && minimax(#[trigger] kids[i], depth) == best_value(
                kids,
                depth,
                maximizing,
            ),
    decreases kids.len(),
{
    if kids.len() == 1 {
        assert(minimax(kids[0], depth) == best_value(kids, depth, maximizing));
    } else {
        let rest = kids.drop_first();
        lemma_best_value_props(rest, depth, maximizing);
        assert forall|i: int|
            0 <= i < kids.len() implies (maximizing ==> minimax(#[trigger] kids[i], depth)
            <= best_value(kids, depth, maximizing)) && (!maximizing ==> minimax(kids[i], depth)
            >= best_value(kids, depth, maximizing)) by {
            if i > 0 {
                assert(kids[i] == rest[i - 1]);
            }
        }
        let j = choose|j: int|
            0 <= j < rest.len() && minimax(#[trigger] rest[j], depth) == best_value(
                rest,
                depth,
                maximizing,
            );
        if best_value(kids, depth, maximizing) == minimax(kids[0], depth) {
            assert(exists|i: int|
                0 <= i < kids.len() && minimax(#[trigger] kids[i], depth) == best_value(
                    kids,
                    depth,
                    maximizing,
                ));
        } else {
            assert(kids[j + 1] == rest[j]);
            assert(minimax(kids[j + 1], depth) == best_value(kids, depth, maximizing));
        }
    }
}

/// Minimax values of well-formed positions lie between the search sentinels.
pub proof fn lemma_minimax_bounds(v: BoardView, depth: nat)
    requires
        wf_view(v),
    ensures
        VERY_LOW <= minimax(v, depth) <= VERY_HIGH,
    decreases depth, 0nat, 0nat,
{
    if depth == 0 || children_views(v).len() == 0 {
        lemma_eval_bounds(spec_default_evaluator(), v);
    } else {
        lemma_children_wf(v);
        lemma_best_value_bounds(children_views(v), (depth - 1) as nat, v.max_player);
    }
}

proof fn lemma_best_value_bounds(kids: Seq<BoardView>, depth: nat, maximizing: bool)
    requires
        forall|i: int| 0 <= i < kids.len() ==> wf_view(#[trigger] kids[i]),
    ensures
        VERY_LOW <= best_value(kids, depth, maximizing) <= VERY_HIGH,
    decreases depth, 1nat, kids.len(),
{
    if kids.len() == 0 {
    } else if kids.len() == 1 {
        lemma_minimax_bounds(kids[0], depth);
    } else {
        lemma_minimax_bounds(kids[0], depth);
        assert forall|i: int|
            0 <= i < kids.drop_first().len() implies wf_view(#[trigger] kids.drop_first()[i]) by {
            assert(kids.drop_first()[i] == kids[i + 1]);
        }
        lemma_best_value_bounds(kids.drop_first(), depth, maximizing);
    }
}

/// Move-ordering invariance: two families of children that hold the same
/// positions, in any order, have the same best value at every depth, so
/// re-ordering children before search cannot change the value the search
/// settles on.
pub proof fn lemma_move_ordering_invariance(
    kids1: Seq<BoardView>,
    kids2: Seq<BoardView>,
    depth: nat,
    maximizing: bool,
)
    requires
        kids1.to_multiset() == kids2.to_multiset(),
        kids1.len() > 0,
    ensures
        best_value(kids1, depth, maximizing) == best_value(kids2, depth, maximizing),
{
    assert(kids2.len() == kids2.to_multiset().len());
    lemma_best_value_props(kids1, depth, maximizing);
    lemma_best_value_props(kids2, depth, maximizing);
    let i1 = choose|i: int|
        0 <= i < kids1.len() && minimax(#[trigger] kids1[i], depth) == best_value(
            kids1,
            depth,
            maximizing,
        );
    let i2 = choose|i: int|
        0 <= i < kids2.len() && minimax(#[trigger] kids2[i], depth) == best_value(
            kids2,
            depth,
            maximizing,
        );
    assert(kids1.contains(kids1[i1]));
    assert(kids1.to_multiset().contains(kids1[i1]));
    assert(kids2.to_multiset().contains(kids1[i1]));
    assert(kids2.contains(kids1[i1]));
    let j2 = choose|j: int| 0 <= j < kids2.len() && kids2[j] == kids1[i1];
    assert(kids2.contains(kids2[i2]));
    assert(kids2.to_multiset().contains(kids2[i2]));
    assert(kids1.to_multiset().contains(kids2[i2]));
    assert(kids1.contains(kids2[i2]));
    let j1 = choose|j: int| 0 <= j < kids1.len() && kids1[j] == kids2[i2];
    assert(minimax(kids2[j2], depth) == best_value(kids1, depth, maximizing));
    assert(minimax(kids1[j1], depth) == best_value(kids2, depth, maximizing));
}

/// The number of nodes that a full-width search to the given depth explores:
/// the node itself, plus, below a non-terminal node, the nodes of each child
/// explored one level shallower.
pub open spec fn explored_nodes(v: BoardView, depth: nat) -> int
    decreases depth, 0nat, 0nat,
{
    if depth == 0 || children_views(v).len() == 0 {
        1
    } else {
        1 + explored_sum(children_views(v), (depth - 1) as nat)
    }
}

/// The total number of nodes explored below a family of children.
pub open spec fn explored_sum(kids: Seq<BoardView>, depth: nat) -> int
    decreases depth, 1nat, kids.len(),
{
    if kids.len() == 0 {
        0
    } else {
        explored_nodes(kids[0], depth) + explored_sum(kids.drop_first(), depth)
    }
}

proof fn lemma_explored_nodes_pos(v: BoardView, depth: nat)
    ensures
        explored_nodes(v, depth) >= 1,
    decreases depth, 0nat, 0nat,
{
    if !(depth == 0 || children_views(v).len() == 0) {
        lemma_explored_sum_pos(children_views(v), (depth - 1) as nat);
    }
}

proof fn lemma_explored_sum_pos(kids: Seq<BoardView>, depth: nat)
    ensures
        explored_sum(kids, depth) >= 0,
    decreases depth, 1nat, kids.len(),
{
    if kids.len() > 0 {
        lemma_explored_nodes_pos(kids[0], depth);
        lemma_explored_sum_pos(kids.drop_first(), depth);
    }
}

/// Iterative-deepening monotonicity: a search one level deeper explores at
/// least as many nodes, so each completed depth of the deepening loop is
/// computed from a tree at least as large as the depth before it.
pub proof fn lemma_deepening_explores_more(v: BoardView, depth: nat)
    ensures
        explored_nodes(v, depth) <= explored_nodes(v, depth + 1),
    decreases depth, 0nat, 0nat,
{
    if children_views(v).len() == 0 {
    } else if depth == 0 {
        lemma_explored_sum_pos(children_views(v), 0);
    } else {
        lemma_deepening_sum(children_views(v), (depth - 1) as nat);
    }
}

proof fn lemma_deepening_sum(kids: Seq<BoardView>, depth: nat)
    ensures
        explored_sum(kids, depth) <= explored_sum(kids, depth + 1),
    decreases depth, 1nat, kids.len(),
{
    if kids.len() > 0 {
        lemma_deepening_explores_more(kids[0], depth);
        lemma_deepening_sum(kids.drop_first(), depth);
    }
}

/// Declares std::time::Instant, which Verus has no model of; a value of it
/// is opaque and only the trusted clock functions below touch it.
#[verifier::external_type_specification]
#[verifier::external_body]
pub struct ExInstant(std::time::Instant);

/// Relies on std::time::Instant::now: returns the current instant; nothing
/// is assumed of the clock.
#[verifier::external_body]
fn instant_now() -> std::time::Instant {
    std::time::Instant::now()
}

/// Relies on std::time::Instant::duration_since: the time elapsed from
/// `earlier` to `now`, saturating to zero when `earlier` is the later one;
/// nothing is assumed of the result.
#[verifier::external_body]
fn elapsed_since(earlier: &std::time::Instant, now: std::time::Instant) -> std::time::Duration {
    now.duration_since(*earlier)
}

/// Relies on std::time::Duration::as_secs: the whole seconds of the
/// duration.
#[verifier::external_body]
fn duration_secs(d: std::time::Duration) -> u64 {
    d.as_secs()
}

/// Returns whether at least `time_limit` whole seconds have passed since
/// `start_time`. The result depends on the clock, so nothing is promised of
/// it; the search's contracts hold whatever it returns.
fn time_expired(start_time: &std::time::Instant, time_limit: u64) -> bool {
    let now = instant_now();
    let elapsed = elapsed_since(start_time, now);
    duration_secs(elapsed) >= time_limit
}

/// A transposition table: previously computed search values, keyed by the
/// canonical position string and the remaining search depth. An entry is
/// valid only for the depth at which it was computed, so the depth is part
/// of the key.
pub struct TranspositionTable {
    pub entries: Vec<(String, u32, i64)>,
}

impl TranspositionTable {
    /// Every stored value is the minimax value, at the stored depth, of the
    /// position that the stored canonical string encodes.
    pub open spec fn wf(&self) -> bool {
        forall|i: int|
            0 <= i < self.entries@.len() ==> (#[trigger] self.entries@[i]).2 == minimax(
                parse_view(self.entries@[i].0@),
                self.entries@[i].1 as nat,
            )
    }

    /// Returns an empty table.
    pub fn new() -> (r: TranspositionTable)
        ensures
            r.wf(),
            r.entries@.len() == 0,
    {
        TranspositionTable { entries: Vec::new() }
    }

    /// Returns the stored value for the given canonical key at the given
    /// depth, if one is present.
    pub fn lookup(&self, key: &String, depth: u32) -> (r: Option<i64>)
        requires
            self.wf(),
        ensures
            match r {
                Some(value) => value == minimax(parse_view(key@), depth as nat),
                None => true,
            },
    {
        let mut i: usize = 0;
        while i < self.entries.len()
            invariant
                self.wf(),
                i <= self.entries@.len(),
            decreases self.entries@.len() - i,
        {
            let entry = &self.entries[i];
            if entry.1 == depth && entry.0 == *key {
                return Some(entry.2);
            }
            i = i + 1;
        }
        None
    }

    /// Stores a value for the given canonical key at the given depth.
    pub fn insert(&mut self, key: String, depth: u32, value: i64)
        requires
            old(self).wf(),
            value == minimax(parse_view(key@), depth as nat),
        ensures
            final(self).wf(),
    {
        let ghost old_entries = self.entries@;
        self.entries.push((key, depth, value));
        assert forall|i: int|
            0 <= i < self.entries@.len() implies (#[trigger] self.entries@[i]).2 == minimax(
            parse_view(self.entries@[i].0@),
            self.entries@[i].1 as nat,
        ) by {
            if i < old_entries.len() {
                assert(self.entries@[i] == old_entries[i]);
            }
        }
    }
}

/// The outcome of one alpha-beta call: the computed value, and whether the
/// whole subtree was searched without the deadline firing. A value whose
/// `completed` flag is false may rest on truncated subtrees and carries no
/// claim beyond its range.
pub struct SearchValue {
    pub value: i64,
    pub completed: bool,
}

/// Minimax with fail-soft alpha-beta pruning. Evaluates the board statically
/// when the depth is exhausted, no moves are possible, or the time limit has
/// been reached. When the call completes (no deadline fired below it), the
/// result relates to full-width minimax in the fail-soft way: a value inside
/// the window is exact, a value at or below alpha is an upper bound on the
/// true value, and a value at or above beta is a lower bound; with the full
/// window the result is exactly the minimax value, so pruning changes only
/// the work done, never the answer.
pub fn alphabeta(
    board: &OthelloPosition,
    depth: u32,
    alpha: i64,
    beta: i64,
    start_time: &std::time::Instant,
    time_limit: u64,
) -> (r: SearchValue)
    requires
        board.wf(),
        VERY_LOW <= alpha <= VERY_HIGH,
        VERY_LOW <= beta <= VERY_HIGH,
    ensures
        VERY_LOW <= r.value <= VERY_HIGH,
        r.completed && alpha < beta && r.value <= alpha ==> minimax(board@, depth as nat)
            <= r.value,
        r.completed && alpha < beta && r.value >= beta ==> minimax(board@, depth as nat) >= r.value,
        r.completed && alpha < r.value < beta ==> r.value == minimax(board@, depth as nat),
        r.completed && alpha == VERY_LOW && beta == VERY_HIGH ==> r.value == minimax(
            board@,
            depth as nat,
        ),
    decreases depth,
{
    let ghost v = board@;
    let ghost d = depth as nat;
    if time_expired(start_time, time_limit) {
        let value = Evaluator::default().evaluate(board);
        return SearchValue { value, completed: false };
    }
    if depth == 0 {
        let value = Evaluator::default().evaluate(board);
        return SearchValue { value, completed: true };
    }
    if board.is_game_over() {
        proof {
            crate::move_generator::lemma_full_no_moves(v);
        }
        let value = Evaluator::default().evaluate(board);
        return SearchValue { value, completed: true };
    }
    let children = board.generate_children();
    if children.len() == 0 {
        let value = Evaluator::default().evaluate(board);
        return SearchValue { value, completed: true };
    }
    let ghost kv = children_views(v);
    let ghost dm1 = (depth - 1) as nat;
    proof {
        lemma_minimax_bounds(v, d);
        assert(kv.len() == moves_seq(v).len());
        assert(children@.len() == kv.len());
        assert(minimax(v, d) == best_value(kv, dm1, v.max_player));
    }
    if board.max_player {
        let mut value: i64 = VERY_LOW;
        let mut a = alpha;
        let mut completed = true;
        let mut i: usize = 0;
        while i < children.len()
            invariant
                board.wf(),
                v == board@,
                depth >= 1,
                d == depth as nat,
                dm1 == (depth - 1) as nat,
                kv == children_views(v),
                children@.len() == kv.len(),
                kv.len() > 0,
                forall|j: int|
                    0 <= j < children@.len() ==> (#[trigger] children@[j])@ == kv[j]
                        && children@[j].wf(),
                i <= children@.len(),
                VERY_LOW <= alpha <= VERY_HIGH,
                VERY_LOW <= beta <= VERY_HIGH,
                VERY_LOW <= value <= VERY_HIGH,
                a == (if value > alpha {
                    value
                } else {
                    alpha
                }),
                alpha < beta ==> value < beta,
                v.max_player,
                minimax(v, d) == best_value(kv, dm1, true),
                VERY_LOW <= minimax(v, d) <= VERY_HIGH,
                alpha < beta && completed ==> forall|j: int|
                    0 <= j < i ==> minimax(#[trigger] kv[j], dm1) <= value,
                alpha < beta && completed && value > alpha ==> exists|j: int|
                    0 <= j < i && minimax(#[trigger] kv[j], dm1) >= value,
            decreases children@.len() - i,
        {
            let child = &children[i];
            let r_child = alphabeta(child, depth - 1, a, beta, start_time, time_limit);
            let ghost old_value = value;
            let ghost old_completed = completed;
            completed = completed && r_child.completed;
            if r_child.value >= value {
                value = r_child.value;
            }
            if value >= beta {
                proof {
                    if completed && alpha < beta {
                        assert(value == r_child.value);
                        assert(minimax(kv[i as int], dm1) >= value);
                        lemma_best_value_props(kv, dm1, true);
                        assert(minimax(v, d) >= minimax(kv[i as int], dm1));
                        assert(minimax(v, d) >= value);
                        if alpha == VERY_LOW && beta == VERY_HIGH {
                            assert(value == VERY_HIGH);
                            assert(minimax(v, d) == value);
                        }
                    }
                }
                return SearchValue { value, completed };
            }
            if value > a {
                a = value;
            }
            proof {
                if alpha < beta && completed {
                    assert(minimax(kv[i as int], dm1) <= value);
                    if value > alpha && value == r_child.value && old_value < r_child.value {
                        assert(minimax(kv[i as int], dm1) >= value);
                    }
                }
            }
            i = i + 1;
        }
        proof {
            if completed && alpha < beta {
                lemma_best_value_props(kv, dm1, true);
                if value > alpha {
                    assert(minimax(v, d) >= value);
                }
                assert(minimax(v, d) <= value);
                if alpha == VERY_LOW && beta == VERY_HIGH {
                    assert(value == minimax(v, d));
                }
            }
        }
        SearchValue { value, completed }
    } else {
        let mut value: i64 = VERY_HIGH;
        let mut b = beta;
        let mut completed = true;
        let mut i: usize = 0;
        while i < children.len()
            invariant
                board.wf(),
                v == board@,
                depth >= 1,
                d == depth as nat,
                dm1 == (depth - 1) as nat,
                kv == children_views(v),
                children@.len() == kv.len(),
                kv.len() > 0,
                forall|j: int|
                    0 <= j < children@.len() ==> (#[trigger] children@[j])@ == kv[j]
                        && children@[j].wf(),
                i <= children@.len(),
                VERY_LOW <= alpha <= VERY_HIGH,
                VERY_LOW <= beta <= VERY_HIGH,
                VERY_LOW <= value <= VERY_HIGH,
                b == (if value < beta {
                    value
                } else {
                    beta
                }),
                alpha < beta ==> value > alpha,
                !v.max_player,
                minimax(v, d) == best_value(kv, dm1, false),
                VERY_LOW <= minimax(v, d) <= VERY_HIGH,
                alpha < beta && completed ==> forall|j: int|
                    0 <= j < i ==> minimax(#[trigger] kv[j], dm1) >= value,
                alpha < beta && completed && value < beta ==> exists|j: int|
                    0 <= j < i && minimax(#[trigger] kv[j], dm1) <= value,
            decreases children@.len() - i,
        {
            let child = &children[i];
            let r_child = alphabeta(child, depth - 1, alpha, b, start_time, time_limit);
            let ghost old_value = value;
            completed = completed && r_child.completed;
            if r_child.value <= value {
                value = r_child.value;
            }
            if value <= alpha {
                proof {
                    if completed && alpha < beta {
                        assert(value == r_child.value);
                        assert(minimax(kv[i as int], dm1) <= value);
                        lemma_best_value_props(kv, dm1, false);
                        assert(minimax(v, d) <= minimax(kv[i as int], dm1));
                        assert(minimax(v, d) <= value);
                        if alpha == VERY_LOW && beta == VERY_HIGH {
                            assert(value == VERY_LOW);
                            assert(minimax(v, d) == value);
                        }
                    }
                }
                return SearchValue { value, completed };
            }
            if value < b {
                b = value;
            }
            proof {
                if alpha < beta && completed {
                    assert(minimax(kv[i as int], dm1) >= value);
                    if value < beta && value == r_child.value && old_value > r_child.value {
                        assert(minimax(kv[i as int], dm1) <= value);
                    }
                }
            }
            i = i + 1;
        }
        proof {
            if completed && alpha < beta {
                lemma_best_value_props(kv, dm1, false);
                if value < beta {
                    assert(minimax(v, d) <= value);
                }
                assert(minimax(v, d) >= value);
                if alpha == VERY_LOW && beta == VERY_HIGH {
                    assert(value == minimax(v, d));
                }
            }
        }
        SearchValue { value, completed }
    }
}

/// The view of a position reachable in one move from `v`.
pub open spec fn child_of(c: BoardView, v: BoardView) -> bool {
    exists|i: int| 0 <= i < children_views(v).len() && c == #[trigger] children_views(v)[i]
}

/// The views of a family of positions.
pub open spec fn child_views_of(s: Seq<OthelloPosition>) -> Seq<BoardView> {
    s.map_values(|c: OthelloPosition| c@)
}

/// The move `m` leads to the first child of the family whose minimax value
/// at the given depth attains the family's best value: every earlier child
/// is strictly worse for the side to move.
pub open spec fn picks_first_best(s: Seq<OthelloPosition>, v: BoardView, m: Move, dl: nat) -> bool {
    exists|bi: int|
        {
            &&& 0 <= bi < s.len()
            &&& (#[trigger] s[bi])@ == apply_view(v, m.row as int, m.col as int)
            &&& minimax(s[bi]@, dl) == best_value(child_views_of(s), dl, v.max_player)
            &&& forall|j: int|
                0 <= j < bi ==> (if v.max_player {
                    minimax((#[trigger] s[j])@, dl) < minimax(s[bi]@, dl)
                } else {
                    minimax(s[j]@, dl) > minimax(s[bi]@, dl)
                })
        }
}

/// The outcome of one search of the root's children at a fixed depth: the
/// recommended move, or None when the side to move has no move, and whether
/// every child was searched to completion before the deadline.
pub struct RootSearch {
    pub best_move: Option<Move>,
    pub completed: bool,
}

/// Searches each child of the root with the full window at the given depth
/// and returns the move that leads to the child with the best value, ties
/// going to the first child that attains it. Every child's value is looked
/// up in the transposition table first and stored there when its search
/// completes; each child's score field receives its value, for the caller's
/// move ordering. A deadline that fires below a child degrades that child's
/// value to a truncated search and clears `completed`; the returned move is
/// a legal move of the board regardless.
pub fn alphabeta_at_root(
    board: &OthelloPosition,
    children: &mut Vec<OthelloPosition>,
    depth_limit: u32,
    start_time: &std::time::Instant,
    time_limit: u64,
    value_map: &mut TranspositionTable,
) -> (r: RootSearch)
    requires
        board.wf(),
        old(value_map).wf(),
        forall|j: int|
            0 <= j < old(children)@.len() ==> (#[trigger] old(children)@[j]).wf() && child_of(
                old(children)@[j]@,
                board@,
            ),
    ensures
        final(value_map).wf(),
        final(children)@.len() == old(children)@.len(),
        forall|j: int|
            0 <= j < final(children)@.len() ==> (#[trigger] final(children)@[j])@ == old(
                children,
            )@[j]@ && final(children)@[j].wf(),
        (r.best_move is None) <==> old(children)@.len() == 0,
        match r.best_move {
            Some(m) => is_legal(board@, m.row as int, m.col as int) && m.player == own_char(
                board@.max_player,
            ) && m.row < 8 && m.col < 8,
            None => true,
        },
        r.completed ==> forall|j: int|
            0 <= j < final(children)@.len() ==> (#[trigger] final(children)@[j]).score == minimax(
                old(children)@[j]@,
                depth_limit as nat,
            ),
        r.completed && r.best_move is Some ==> picks_first_best(
            old(children)@,
            board@,
            r.best_move->Some_0,
            depth_limit as nat,
        ),
{
    let ghost v = board@;
    let ghost dl = depth_limit as nat;
    let ghost kvs = child_views_of(old(children)@);
    if children.len() == 0 {
        return RootSearch { best_move: None, completed: true };
    }
    let n = children.len();
    let maximizing = board.max_player;
    let mut to_beat: i64 = if maximizing {
        VERY_LOW
    } else {
        VERY_HIGH
    };
    let mut best_idx: usize = 0;
    let mut completed = true;
    let mut i: usize = 0;
    while i < n
        invariant
            board.wf(),
            v == board@,
            dl == depth_limit as nat,
            maximizing == v.max_player,
            value_map.wf(),
            n == children@.len(),
            n == old(children)@.len(),
            n > 0,
            kvs == child_views_of(old(children)@),
            kvs.len() == n,
            forall|j: int|
                0 <= j < n ==> (#[trigger] children@[j])@ == old(children)@[j]@
                    && children@[j].wf() && child_of(children@[j]@, v),
            forall|j: int| 0 <= j < n ==> #[trigger] kvs[j] == old(children)@[j]@,
            i <= n,
            best_idx < n,
            i > 0 ==> best_idx < i,
            VERY_LOW <= to_beat <= VERY_HIGH,
            i == 0 ==> to_beat == (if maximizing {
                VERY_LOW
            } else {
                VERY_HIGH
            }) && best_idx == 0,
            completed && i > 0 ==> to_beat == minimax(kvs[best_idx as int], dl),
            completed ==> forall|j: int|
                0 <= j < i ==> (if maximizing {
                    minimax(#[trigger] kvs[j], dl) <= to_beat
                } else {
                    minimax(kvs[j], dl) >= to_beat
                }),
            completed ==> forall|j: int|
                0 <= j < best_idx ==> (if maximizing {
                    minimax(#[trigger] kvs[j], dl) < to_beat
                } else {
                    minimax(kvs[j], dl) > to_beat
                }),
            completed ==> forall|j: int|
                0 <= j < i ==> (#[trigger] children@[j]).score == minimax(kvs[j], dl),
        decreases n - i,
    {
        let child_value: i64;
        let child_completed: bool;
        let key = children[i].string_rep();
        proof {
            crate::board::lemma_round_trip(children@[i as int]@);
        }
        match value_map.lookup(&key, depth_limit) {
            Some(value) => {
                child_value = value;
                child_completed = true;
                proof {
                    lemma_minimax_bounds(kvs[i as int], dl);
                }
            },
            None => {
                let r_child = alphabeta(
                    &children[i],
                    depth_limit,
                    VERY_LOW,
                    VERY_HIGH,
                    start_time,
                    time_limit,
                );
                child_value = r_child.value;
                child_completed = r_child.completed;
                if child_completed {
                    value_map.insert(key, depth_limit, child_value);
                }
            },
        }
        completed = completed && child_completed;
        let updated = OthelloPosition {
            board: crate::board::copy_cells(&children[i].board),
            max_player: children[i].max_player,
            score: child_value,
        };
        children[i] = updated;
        assert(children@[i as int]@ == old(children)@[i as int]@);
        if maximizing {
            if child_value > to_beat {
                to_beat = child_value;
                best_idx = i;
            }
        } else {
            if child_value < to_beat {
                to_beat = child_value;
                best_idx = i;
            }
        }
        proof {
            if completed {
                assert(child_value == minimax(kvs[i as int], dl));
            }
        }
        i = i + 1;
    }
    let best_child = &children[best_idx];
    proof {
        lemma_moves_seq_sorted(v);
        let ci = choose|ci: int|
            0 <= ci < children_views(v).len() && best_child@ == #[trigger] children_views(v)[ci];
        let m = moves_seq(v)[ci];
        assert(best_child@ == apply_view(v, m.0, m.1));
        assert(is_legal(v, m.0, m.1));
        assert(best_child@.cells[m.0 * 8 + m.1] == own_char(v.max_player));
        assert(v.cells[m.0 * 8 + m.1] == crate::board::EMPTY_CELL);
        assert(v.cells != best_child@.cells);
    }
    let m_opt = get_move_from_board_diff(board, best_child);
    match m_opt {
        Some(m) => {
            proof {
                let ci = choose|ci: int|
                    0 <= ci < children_views(v).len() && best_child@ == #[trigger] children_views(
                        v,
                    )[ci];
                let mv = moves_seq(v)[ci];
                // The child differs from the board exactly at the placed
                // cell, so the first differing cell is the move's cell.
                assert(best_child@.cells[mv.0 * 8 + mv.1] != v.cells[mv.0 * 8 + mv.1]);
                assert forall|j: int|
                    0 <= j < 64 && j != mv.0 * 8 + mv.1 implies v.cells[j]
                    == best_child@.cells[j] by {}
                let midx = m.row * 8 + m.col;
                assert(v.cells[midx as int] != best_child@.cells[midx as int]);
                assert(midx == mv.0 * 8 + mv.1);
                assert(m.row as int == mv.0 && m.col as int == mv.1);
                assert(is_legal(v, m.row as int, m.col as int));
                assert(m.player == own_char(v.max_player));
                if completed {
                    lemma_best_value_props(kvs, dl, maximizing);
                    let bi = best_idx as int;
                    assert(old(children)@[bi]@ == apply_view(v, m.row as int, m.col as int));
                    assert(minimax(kvs[bi], dl) == best_value(kvs, dl, maximizing));
                    assert(minimax(old(children)@[bi]@, dl) == best_value(
                        child_views_of(old(children)@),
                        dl,
                        v.max_player,
                    ));
                    assert forall|j: int|
                        0 <= j < bi implies (if v.max_player {
                        minimax((#[trigger] old(children)@[j])@, dl) < minimax(
                            old(children)@[bi]@,
                            dl,
                        )
                    } else {
                        minimax(old(children)@[j]@, dl) > minimax(old(children)@[bi]@, dl)
                    }) by {
                        assert(kvs[j] == old(children)@[j]@);
                        assert(minimax(kvs[j], dl) != to_beat);
                    }
                    assert(picks_first_best(old(children)@, v, m, dl));
                }
            }
            RootSearch { best_move: Some(m), completed }
        },
        None => {
            // Unreachable: a child always differs from its parent at the
            // placed cell, so the diff above always finds a move.
            proof {
                assert(false);
            }
            RootSearch { best_move: None, completed }
        },
    }
}

/// Returns the index of the extremal score in the vector: the largest when
/// `descending`, the smallest otherwise; ties go to the earliest index.
fn extremal_index(children: &Vec<OthelloPosition>, descending: bool) -> (r: usize)
    requires
        children@.len() > 0,
    ensures
        r < children@.len(),
        forall|j: int|
            0 <= j < children@.len() ==> (if descending {
                (#[trigger] children@[j]).score <= children@[r as int].score
            } else {
                children@[j].score >= children@[r as int].score
            }),
{
    let mut best: usize = 0;
    let mut j: usize = 1;
    while j < children.len()
        invariant
            children@.len() > 0,
            best < j,
            j <= children@.len(),
            forall|k: int|
                0 <= k < j ==> (if descending {
                    (#[trigger] children@[k]).score <= children@[best as int].score
                } else {
                    children@[k].score >= children@[best as int].score
                }),
        decreases children@.len() - j,
    {
        if descending {
            if children[j].score > children[best].score {
                best = j;
            }
        } else {
            if children[j].score < children[best].score {
                best = j;
            }
        }
        j = j + 1;
    }
    best
}

/// Sorts the children by their cached score, descending when the maximizer
/// is to move and ascending otherwise, so that the most promising child of
/// the previous depth is searched first at the next depth. The result holds
/// exactly the same positions.
fn sort_children(children: &mut Vec<OthelloPosition>, descending: bool)
    ensures
        final(children)@.len() == old(children)@.len(),
        final(children)@.to_multiset() == old(children)@.to_multiset(),
        forall|i: int, j: int|
            0 <= i < j < final(children)@.len() ==> (if descending {
                (#[trigger] final(children)@[i]).score >= (#[trigger] final(children)@[j]).score
            } else {
                final(children)@[i].score <= final(children)@[j].score
            }),
{
    let ghost orig = children@;
    let mut sorted: Vec<OthelloPosition> = Vec::new();
    while children.len() > 0
        invariant
            sorted@.to_multiset().add(children@.to_multiset()) == orig.to_multiset(),
            sorted@.len() + children@.len() == orig.len(),
            forall|a: int, b: int|
                0 <= a < sorted@.len() && 0 <= b < children@.len() ==> (if descending {
                    (#[trigger] sorted@[a]).score >= (#[trigger] children@[b]).score
                } else {
                    sorted@[a].score <= children@[b].score
                }),
            forall|i: int, j: int|
                0 <= i < j < sorted@.len() ==> (if descending {
                    (#[trigger] sorted@[i]).score >= (#[trigger] sorted@[j]).score
                } else {
                    sorted@[i].score <= sorted@[j].score
                }),
        decreases children@.len(),
    {
        let idx = extremal_index(children, descending);
        let ghost before = children@;
        let x = children.remove(idx);
        proof {
            assert(before.remove(idx as int).to_multiset() == before.to_multiset().remove(
                before[idx as int],
            ));
            assert(sorted@.push(x).to_multiset() =~= sorted@.to_multiset().insert(x));
            assert(sorted@.push(x).to_multiset().add(children@.to_multiset())
                =~= orig.to_multiset());
            assert forall|b: int| 0 <= b < children@.len() implies (if descending {
                x.score >= (#[trigger] children@[b]).score
            } else {
                x.score <= children@[b].score
            }) by {
                if b < idx {
                    assert(children@[b] == before[b]);
                } else {
                    assert(children@[b] == before[b + 1]);
                }
            }
        }
        sorted.push(x);
    }
    *children = sorted;
    proof {
        assert(children@.to_multiset() =~= orig.to_multiset());
        assert(orig.to_multiset().len() == orig.len());
        assert(children@.to_multiset().len() == children@.len());
    }
}

/// Recommends a move for the board within the time budget, by iterative
/// deepening: the root's children are searched at depth 1, then repeatedly
/// one level deeper while the time limit has not been reached, keeping the
/// move of the last depth that completed. A depth cut short by the deadline
/// is discarded, never returned in part. Between depths, the children are
/// re-ordered by the scores the previous depth discovered, best first, to
/// tighten pruning. Returns None exactly when the side to move has no legal
/// move; otherwise the returned move is a legal move of the board.
pub fn alphabeta_move_gen(
    board: &OthelloPosition,
    start_time: &std::time::Instant,
    time_limit: u64,
) -> (r: Option<Move>)
    requires
        board.wf(),
    ensures
        (r is Some) <==> moves_seq(board@).len() > 0,
        match r {
            Some(m) => is_legal(board@, m.row as int, m.col as int) && m.player == own_char(
                board@.max_player,
            ) && m.row < 8 && m.col < 8,
            None => true,
        },
{
    let ghost v = board@;
    let max_depth: u32 = 100000000;
    let mut children = board.generate_children();
    proof {
        lemma_children_wf(v);
        assert forall|j: int|
            0 <= j < children@.len() implies (#[trigger] children@[j]).wf() && child_of(
            children@[j]@,
            v,
        ) by {
            assert(children@[j]@ == children_views(v)[j]);
        }
    }
    if children.len() == 0 {
        return None;
    }
    let mut value_map = TranspositionTable::new();
    let first = alphabeta_at_root(board, &mut children, 1, start_time, time_limit, &mut value_map);
    let mut best_move = first.best_move;
    let mut depth_limit: u32 = 2;
    loop
        invariant
            board.wf(),
            v == board@,
            children@.len() > 0,
            moves_seq(v).len() > 0,
            value_map.wf(),
            forall|j: int|
                0 <= j < children@.len() ==> (#[trigger] children@[j]).wf() && child_of(
                    children@[j]@,
                    v,
                ),
            best_move is Some,
            match best_move {
                Some(m) => is_legal(v, m.row as int, m.col as int) && m.player == own_char(
                    v.max_player,
                ) && m.row < 8 && m.col < 8,
                None => true,
            },
            2 <= depth_limit <= max_depth + 1,
            max_depth == 100000000,
        decreases max_depth + 1 - depth_limit,
    {
        if depth_limit > max_depth {
            return best_move;
        }
        if time_expired(start_time, time_limit) {
            return best_move;
        }
        let ghost before_sort = children@;
        sort_children(&mut children, board.max_player);
        proof {
            assert forall|j: int|
                0 <= j < children@.len() implies (#[trigger] children@[j]).wf() && child_of(
                children@[j]@,
                v,
            ) by {
                assert(children@.to_multiset().contains(children@[j]));
                assert(before_sort.to_multiset().contains(children@[j]));
                assert(before_sort.contains(children@[j]));
                let k = choose|k: int|
                    0 <= k < before_sort.len() && before_sort[k] == children@[j];
                assert(before_sort[k].wf() && child_of(before_sort[k]@, v));
            }
        }
        let outcome = alphabeta_at_root(
            board,
            &mut children,
            depth_limit,
            start_time,
            time_limit,
            &mut value_map,
        );
        if !outcome.completed {
            return best_move;
        }
        best_move = outcome.best_move;
        depth_limit = depth_limit + 1;
    }
}

} // verus!
