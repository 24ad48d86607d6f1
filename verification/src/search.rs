//! The move search: minimax over hypothetical boards up to a fixed depth
//! ceiling, with alpha-beta pruning.  The maximizing player is the one
//! the search works for; maximizing and minimizing levels alternate by
//! depth parity.  Every hypothetical move is played on an independent
//! copy of the board, so the caller's board is never touched.
//!
//! The specification [`mm`] is plain, unpruned minimax over the same
//! leaves.  The pruned search is proved against it: inside an open
//! `(alpha, beta)` window it returns exactly the minimax value and a
//! column whose child attains it, and outside the window it fails on the
//! correct side.  With the infinite window the result therefore *is* the
//! full minimax value, reached through the chosen column.

use vstd::prelude::*;

use crate::board::Board;
use crate::eval::eval_total;
use crate::eval::eval_win;
use crate::eval::evaluate_C4;
use crate::eval::lemma_dir_count_bound;
use crate::lines::imax;
use crate::lines::imin;
use crate::model::gcols;
use crate::model::gdrop_upto;
use crate::model::ghas_open;
use crate::model::ginsert;
use crate::model::gopen;
use crate::model::grows;
use crate::model::gwf;
use crate::model::lemma_ginsert_wf;
use crate::rng::random_below;

verus! {

/// The search recursion stops at this depth.
pub const DEPTH_LIMIT: usize = 4;

/// Saturating terminal utility of a detected four-in-a-line.
pub const WIN_SCORE: i64 = 999999;

/// Stands for minus infinity: below every reachable position value.
pub const NEG_INF: i64 = -1000000007;

/// Stands for plus infinity: above every reachable position value.
pub const POS_INF: i64 = 1000000007;

/// The opponent of a player in the two-player games.
pub open spec fn opp_of(p: nat) -> nat {
    if p == 1 {
        2
    } else {
        1
    }
}

/// The player to move at a search depth: the maximizing player `ai` at
/// even depths, the opponent at odd depths.
pub open spec fn mover_at(ai: nat, depth: nat) -> nat {
    if depth % 2 == 0 {
        ai
    } else {
        opp_of(ai)
    }
}

/// The leaf utility: the board evaluated for the player to move; a
/// detected four-in-a-line maps to the saturating terminal utility —
/// positive when the maximizing player has won, negative when the
/// minimizing player has — and otherwise the heuristic total score.
pub open spec fn leaf_value(g: Seq<Seq<nat>>, ai: nat, depth: nat) -> int {
    let m = mover_at(ai, depth);
    if eval_win(g, m) == 4 {
        if m == ai {
            WIN_SCORE as int
        } else {
            -(WIN_SCORE as int)
        }
    } else {
        eval_total(g, m) as int
    }
}

/// Unpruned minimax value of a position: the leaf utility at the depth
/// ceiling or on a full board; otherwise the best child value — maximal
/// at even depths, minimal at odd ones — over all open columns.
pub open spec fn mm(g: Seq<Seq<nat>>, ai: nat, depth: nat) -> int
    decreases DEPTH_LIMIT - depth, gcols(g) + 2,
{
    if depth >= DEPTH_LIMIT || !ghas_open(g) {
        leaf_value(g, ai, depth)
    } else if depth % 2 == 0 {
        mm_max_from(g, ai, depth, 1)
    } else {
        mm_min_from(g, ai, depth, 1)
    }
}

/// Largest minimax value of a child reached from an open column `>= c`,
/// or the minus-infinity sentinel when none is.
pub open spec fn mm_max_from(g: Seq<Seq<nat>>, ai: nat, depth: nat, c: int) -> int
    decreases DEPTH_LIMIT - depth, gcols(g) + 1 - c,
{
    if depth >= DEPTH_LIMIT || c < 1 || c > gcols(g) {
        NEG_INF as int
    } else {
        let rest = mm_max_from(g, ai, depth, c + 1);
        if gopen(g, c) {
            imax(mm(ginsert(g, c, mover_at(ai, depth)), ai, (depth + 1) as nat), rest)
        } else {
            rest
        }
    }
}

/// Smallest minimax value of a child reached from an open column `>= c`,
/// or the plus-infinity sentinel when none is.
pub open spec fn mm_min_from(g: Seq<Seq<nat>>, ai: nat, depth: nat, c: int) -> int
    decreases DEPTH_LIMIT - depth, gcols(g) + 1 - c,
{
    if depth >= DEPTH_LIMIT || c < 1 || c > gcols(g) {
        POS_INF as int
    } else {
        let rest = mm_min_from(g, ai, depth, c + 1);
        if gopen(g, c) {
            imin(mm(ginsert(g, c, mover_at(ai, depth)), ai, (depth + 1) as nat), rest)
        } else {
            rest
        }
    }
}

/// The leaf utility lies within the saturating win score, on grids no
/// larger than the games'.
pub proof fn lemma_leaf_bounds(g: Seq<Seq<nat>>, ai: nat, depth: nat)
    requires
        grows(g) <= 6,
        gcols(g) <= 7,
    ensures
        -(WIN_SCORE as int) <= leaf_value(g, ai, depth) <= WIN_SCORE as int,
{
    let m = mover_at(ai, depth);
    lemma_dir_count_bound(g, m, 0, 1);
    lemma_dir_count_bound(g, m, -1, 0);
    lemma_dir_count_bound(g, m, -1, 1);
    lemma_dir_count_bound(g, m, -1, -1);
    assert(grows(g) * gcols(g) <= 42) by (nonlinear_arith)
        requires
            grows(g) <= 6,
            gcols(g) <= 7,
    ;
}

/// Minimax values lie within the saturating win score.
pub proof fn lemma_mm_bounds(g: Seq<Seq<nat>>, ai: nat, depth: nat)
    requires
        gwf(g),
        grows(g) <= 6,
        gcols(g) <= 7,
    ensures
        -(WIN_SCORE as int) <= mm(g, ai, depth) <= WIN_SCORE as int,
    decreases DEPTH_LIMIT - depth, gcols(g) + 2,
{
    lemma_leaf_bounds(g, ai, depth);
    if depth < DEPTH_LIMIT && ghas_open(g) {
        if depth % 2 == 0 {
            lemma_mm_max_from_bounds(g, ai, depth, 1);
        } else {
            lemma_mm_min_from_bounds(g, ai, depth, 1);
        }
    }
}

/// The max scan stays below the win score, and above its negation as
/// soon as one open column remains.
pub proof fn lemma_mm_max_from_bounds(g: Seq<Seq<nat>>, ai: nat, depth: nat, c: int)
    requires
        gwf(g),
        grows(g) <= 6,
        gcols(g) <= 7,
        depth < DEPTH_LIMIT,
        1 <= c,
    ensures
        mm_max_from(g, ai, depth, c) <= WIN_SCORE as int,
        (exists|cc: int| c <= cc <= gcols(g) && gopen(g, cc)) ==> mm_max_from(g, ai, depth, c)
            >= -(WIN_SCORE as int),
    decreases DEPTH_LIMIT - depth, gcols(g) + 1 - c,
{
    if c <= gcols(g) {
        lemma_mm_max_from_bounds(g, ai, depth, c + 1);
        if gopen(g, c) {
            let h = ginsert(g, c, mover_at(ai, depth));
            lemma_ginsert_wf(g, c, mover_at(ai, depth));
            lemma_mm_bounds(h, ai, (depth + 1) as nat);
        }
    }
}

/// The min scan stays above the negated win score, and below the win
/// score as soon as one open column remains.
pub proof fn lemma_mm_min_from_bounds(g: Seq<Seq<nat>>, ai: nat, depth: nat, c: int)
    requires
        gwf(g),
        grows(g) <= 6,
        gcols(g) <= 7,
        depth < DEPTH_LIMIT,
        1 <= c,
    ensures
        mm_min_from(g, ai, depth, c) >= -(WIN_SCORE as int),
        (exists|cc: int| c <= cc <= gcols(g) && gopen(g, cc)) ==> mm_min_from(g, ai, depth, c)
            <= WIN_SCORE as int,
    decreases DEPTH_LIMIT - depth, gcols(g) + 1 - c,
{
    if c <= gcols(g) {
        lemma_mm_min_from_bounds(g, ai, depth, c + 1);
        if gopen(g, c) {
            let h = ginsert(g, c, mover_at(ai, depth));
            lemma_ginsert_wf(g, c, mover_at(ai, depth));
            lemma_mm_bounds(h, ai, (depth + 1) as nat);
        }
    }
}

/// The max scan from `c0` covers the child reached from any open column
/// `c >= c0`.
pub proof fn lemma_max_scan_covers(g: Seq<Seq<nat>>, ai: nat, depth: nat, c0: int, c: int)
    requires
        depth < DEPTH_LIMIT,
        1 <= c0 <= c <= gcols(g),
        gopen(g, c),
    ensures
        mm_max_from(g, ai, depth, c0) >= mm(ginsert(g, c, mover_at(ai, depth)), ai, (depth
            + 1) as nat),
    decreases c - c0,
{
    if c0 < c {
        lemma_max_scan_covers(g, ai, depth, c0 + 1, c);
    }
}

/// The min scan from `c0` covers the child reached from any open column
/// `c >= c0`.
pub proof fn lemma_min_scan_covers(g: Seq<Seq<nat>>, ai: nat, depth: nat, c0: int, c: int)
    requires
        depth < DEPTH_LIMIT,
        1 <= c0 <= c <= gcols(g),
        gopen(g, c),
    ensures
        mm_min_from(g, ai, depth, c0) <= mm(ginsert(g, c, mover_at(ai, depth)), ai, (depth
            + 1) as nat),
    decreases c - c0,
{
    if c0 < c {
        lemma_min_scan_covers(g, ai, depth, c0 + 1, c);
    }
}

/// The minimax value always lies strictly inside the infinite window the
/// difficult tier opens the search with, so by the search functions'
/// contracts the pruned search started there returns exactly the
/// unpruned minimax value.
pub proof fn lemma_infinite_window_exact(g: Seq<Seq<nat>>, ai: nat, depth: nat)
    requires
        gwf(g),
        grows(g) <= 6,
        gcols(g) <= 7,
    ensures
        NEG_INF < mm(g, ai, depth) < POS_INF,
{
    lemma_mm_bounds(g, ai, depth);
}

/// The search engine's result: the best value found and the column that
/// yields it.
pub struct SearchOutcome {
    pub value: i64,
    pub column: usize,
}

/// Whether `col` still has a cell with no piece in it, i.e. accepts a
/// four-in-a-row insertion.
pub(crate) fn col_is_open(board: &Board, col: usize) -> (res: bool)
    requires
        board.wf(),
        1 <= col <= board.num_cols,
    ensures
        res == gopen(board.id_view(), col as int),
{
    let ghost g = board.id_view();
    let ghost colv = g[col - 1];
    proof {
        board.lemma_id_view_matches();
    }
    let mut row: usize = board.rows();
    while row >= 1
        invariant
            board.wf(),
            1 <= col <= board.num_cols,
            row <= board.num_rows,
            g == board.id_view(),
            colv == g[col - 1],
            gdrop_upto(colv, board.num_rows as int) == gdrop_upto(colv, row as int),
        decreases row,
    {
        proof {
            board.lemma_id_view_matches();
            assert(colv[row - 1] == board.id_at(row as int, col as int));
        }
        match board.get_piece(row, col).player {
            None => {
                proof {
                    assert(gdrop_upto(colv, row as int) == row);
                }
                return true;
            },
            Some(_) => {
                proof {
                    assert(gdrop_upto(colv, row as int) == gdrop_upto(colv, row - 1));
                }
            },
        }
        row = row - 1;
    }
    proof {
        assert(gdrop_upto(colv, 0) == 0);
    }
    false
}

/// Whether any column of the board accepts a four-in-a-row insertion.
pub(crate) fn has_open_col(board: &Board) -> (res: bool)
    requires
        board.wf(),
    ensures
        res == ghas_open(board.id_view()),
{
    let ghost g = board.id_view();
    proof {
        board.lemma_id_view_matches();
    }
    let mut c: usize = 1;
    while c <= board.cols()
        invariant
            board.wf(),
            g == board.id_view(),
            1 <= c <= board.num_cols + 1,
            forall|cc: int| 1 <= cc < c ==> !(#[trigger] gopen(g, cc)),
        decreases board.num_cols + 1 - c,
    {
        if col_is_open(board, c) {
            proof {
                board.lemma_id_view_matches();
                assert(1 <= c as int <= gcols(g) && gopen(g, c as int));
            }
            return true;
        }
        c = c + 1;
    }
    proof {
        board.lemma_id_view_matches();
    }
    false
}

/// The leaf utility of a position, as [`leaf_value`] defines it.
fn leaf(board: &Board, player_id: usize, depth: usize) -> (r: i64)
    requires
        board.wf(),
        player_id == 1 || player_id == 2,
    ensures
        r == leaf_value(board.id_view(), player_id as nat, depth as nat),
        -WIN_SCORE <= r <= WIN_SCORE,
{
    let ghost g = board.id_view();
    proof {
        board.lemma_id_view_matches();
        lemma_leaf_bounds(g, player_id as nat, depth as nat);
    }
    let mover = if depth % 2 == 0 {
        player_id
    } else {
        3 - player_id
    };
    proof {
        assert(mover as nat == mover_at(player_id as nat, depth as nat));
    }
    let score = evaluate_C4(board, mover);
    if score.0 == 4 {
        if mover == player_id {
            WIN_SCORE
        } else {
            -WIN_SCORE
        }
    } else {
        score.1 as i64
    }
}

/// Picks one of the tied best columns of the four-in-a-row search
/// uniformly at random; the choice always comes from the given set.
pub fn choose_C4(choice: &Vec<usize>) -> (r: usize)
    requires
        choice@.len() >= 1,
    ensures
        exists|i: int| 0 <= i < choice@.len() && choice@[i] == r,
{
    let index = random_below(choice.len());
    let r = choice[index];
    proof {
        assert(choice@[index as int] == r);
    }
    r
}

/// Picks one of the tied best columns of the word-game search uniformly
/// at random; the choice always comes from the given set.
pub fn choose_TO(choice: &Vec<usize>) -> (r: usize)
    requires
        choice@.len() >= 1,
    ensures
        exists|i: int| 0 <= i < choice@.len() && choice@[i] == r,
{
    choose_C4(choice)
}

/// The value of one search node for the four-in-a-row game: the leaf
/// utility at the depth ceiling or on a full board, else the value of
/// the maximizing or minimizing level below, pruned by the
/// `(alpha, beta)` window.  Against the unpruned minimax value [`mm`]:
/// inside the window the result is exact, outside it fails on the
/// correct side.
pub fn value(board: &Board, player_id: usize, depth: usize, alpha: i64, beta: i64) -> (r: i64)
    requires
        board.wf(),
        player_id == 1 || player_id == 2,
        depth <= DEPTH_LIMIT,
        NEG_INF <= alpha,
        alpha <= beta,
        beta <= POS_INF,
    ensures
        -WIN_SCORE <= r <= WIN_SCORE,
        r <= alpha || r <= mm(board.id_view(), player_id as nat, depth as nat),
        r >= beta || r >= mm(board.id_view(), player_id as nat, depth as nat),
        alpha < mm(board.id_view(), player_id as nat, depth as nat) && mm(
            board.id_view(),
            player_id as nat,
            depth as nat,
        ) < beta ==> r == mm(board.id_view(), player_id as nat, depth as nat),
    decreases DEPTH_LIMIT - depth, 1usize,
{
    let ghost g = board.id_view();
    let ghost t = mm(g, player_id as nat, depth as nat);
    if depth >= DEPTH_LIMIT {
        proof {
            assert(t == leaf_value(g, player_id as nat, depth as nat));
        }
        return leaf(board, player_id, depth);
    }
    if !has_open_col(board) {
        proof {
            assert(t == leaf_value(g, player_id as nat, depth as nat));
        }
        return leaf(board, player_id, depth);
    }
    if depth % 2 == 0 {
        let out = maxState_C4(board, player_id, depth, alpha, beta);
        out.value
    } else {
        let out = minState_C4(board, player_id, depth, alpha, beta);
        out.value
    }
}

/// The lowest-numbered column that still accepts a piece.
fn first_open_col(board: &Board) -> (res: usize)
    requires
        board.wf(),
        ghas_open(board.id_view()),
    ensures
        1 <= res <= board.num_cols,
        gopen(board.id_view(), res as int),
{
    let ghost g = board.id_view();
    proof {
        board.lemma_id_view_matches();
    }
    let mut c: usize = 1;
    while c <= board.cols()
        invariant
            board.wf(),
            g == board.id_view(),
            gcols(g) == board.num_cols,
            ghas_open(g),
            1 <= c <= board.num_cols + 1,
            forall|cc: int| 1 <= cc < c ==> !(#[trigger] gopen(g, cc)),
        decreases board.num_cols + 1 - c,
    {
        if col_is_open(board, c) {
            return c;
        }
        c = c + 1;
    }
    proof {
        assert(false);
    }
    1
}

/// One maximizing level of the four-in-a-row search: tries every open
/// column on a cloned board, keeps the best child value, prunes once the
/// value exceeds `beta`, and picks uniformly at random among the columns
/// tied for the best value.  Each child is searched with the lower
/// window bound held one below the running best, so a column that ties
/// the best still comes back exactly valued and the tie set is genuine:
/// inside the `(alpha, beta)` window the chosen column attains the
/// returned — and then exact — minimax value.
pub fn maxState_C4(board: &Board, player_id: usize, depth: usize, alpha: i64, beta: i64) -> (r:
    SearchOutcome)
    requires
        board.wf(),
        player_id == 1 || player_id == 2,
        depth < DEPTH_LIMIT,
        depth % 2 == 0,
        ghas_open(board.id_view()),
        NEG_INF <= alpha,
        alpha <= beta,
        beta <= POS_INF,
    ensures
        1 <= r.column <= board.num_cols,
        gopen(board.id_view(), r.column as int),
        -WIN_SCORE <= r.value <= WIN_SCORE,
        r.value <= alpha || r.value <= mm(board.id_view(), player_id as nat, depth as nat),
        r.value >= beta || r.value >= mm(board.id_view(), player_id as nat, depth as nat),
        alpha < mm(board.id_view(), player_id as nat, depth as nat) && mm(
            board.id_view(),
            player_id as nat,
            depth as nat,
        ) < beta ==> {
            &&& r.value == mm(board.id_view(), player_id as nat, depth as nat)
            &&& mm(
                ginsert(board.id_view(), r.column as int, mover_at(player_id as nat, depth as nat)),
                player_id as nat,
                (depth + 1) as nat,
            ) == r.value
        },
    decreases DEPTH_LIMIT - depth, 0usize,
{
    let ghost g = board.id_view();
    let ghost ai = player_id as nat;
    let ghost t = mm(g, ai, depth as nat);
    proof {
        board.lemma_id_view_matches();
        assert(t == mm_max_from(g, ai, depth as nat, 1));
    }
    let mover = player_id;
    let mut val: i64 = NEG_INF;
    let mut a: i64 = alpha;
    let mut moves: Vec<usize> = Vec::new();
    let mut c: usize = 1;
    while c <= board.cols()
        invariant_except_break
            val <= beta,
            a == imax(alpha as int, val as int - 1),
        invariant
            board.wf(),
            player_id == 1 || player_id == 2,
            mover == player_id,
            depth < DEPTH_LIMIT,
            depth % 2 == 0,
            NEG_INF <= alpha,
            alpha <= beta,
            beta <= POS_INF,
            g == board.id_view(),
            gcols(g) == board.num_cols,
            ai == player_id as nat,
            t == mm(g, ai, depth as nat),
            t == mm_max_from(g, ai, depth as nat, 1),
            ghas_open(g),
            1 <= c <= board.num_cols + 1,
            val == NEG_INF || -WIN_SCORE <= val <= WIN_SCORE,
            val <= alpha || val <= t,
            imin(beta as int, t) <= imax(
                val as int,
                imin(beta as int, mm_max_from(g, ai, depth as nat, c as int)),
            ),
            forall|i: int|
                0 <= i < moves@.len() ==> {
                    let m = #[trigger] moves@[i];
                    &&& 1 <= m <= board.num_cols
                    &&& gopen(g, m as int)
                    &&& mm(ginsert(g, m as int, mover_at(ai, depth as nat)), ai, (depth
                        + 1) as nat) == val
                },
            alpha < val && val < beta ==> moves@.len() >= 1,
            forall|cc: int| 1 <= cc < c && #[trigger] gopen(g, cc) ==> val >= -WIN_SCORE,
        ensures
            forall|i: int|
                0 <= i < moves@.len() ==> {
                    let m = #[trigger] moves@[i];
                    &&& 1 <= m <= board.num_cols
                    &&& gopen(g, m as int)
                    &&& mm(ginsert(g, m as int, mover_at(ai, depth as nat)), ai, (depth
                        + 1) as nat) == val
                },
            -WIN_SCORE <= val <= WIN_SCORE,
            val <= alpha || val <= t,
            imin(beta as int, t) <= val as int,
            alpha < t && t < beta ==> val == t && moves@.len() >= 1,
        decreases board.num_cols + 1 - c,
    {
        if col_is_open(board, c) {
            let mut child = board.clone();
            let ghost gch = ginsert(g, c as int, mover as nat);
            let _landed = child.insert_piece_C4(c, mover);
            let ghost tc = mm(gch, ai, (depth + 1) as nat);
            proof {
                assert(child.id_view() == gch);
                lemma_ginsert_wf(g, c as int, mover as nat);
                assert(mover as nat == mover_at(ai, depth as nat));
                lemma_max_scan_covers(g, ai, depth as nat, 1, c as int);
                assert(tc <= t);
                assert(mm_max_from(g, ai, depth as nat, c as int) == imax(
                    tc,
                    mm_max_from(g, ai, depth as nat, c as int + 1),
                ));
            }
            let tempv = value(&child, player_id, depth + 1, a, beta);
            if tempv > val {
                val = tempv;
                if a < tempv && tempv < beta {
                    proof {
                        assert(tempv == tc);
                    }
                    moves = Vec::new();
                    moves.push(c);
                } else {
                    // The child hit the window, so its exact value is
                    // unknown: it cannot stand in the tie set.
                    moves = Vec::new();
                }
            } else if tempv == val && a < tempv && tempv < beta {
                proof {
                    assert(tempv == tc);
                }
                moves.push(c);
            }
            if val > beta {
                break ;
            }
            if val - 1 > a {
                a = val - 1;
            }
        } else {
            proof {
                assert(mm_max_from(g, ai, depth as nat, c as int) == mm_max_from(
                    g,
                    ai,
                    depth as nat,
                    c as int + 1,
                ));
            }
        }
        c = c + 1;
    }
    let column = if moves.len() >= 1 {
        choose_C4(&moves)
    } else {
        // Only a search failing outside its window ends with an empty
        // tie set; any open column serves such a pruned branch.
        first_open_col(board)
    };
    SearchOutcome { value: val, column }
}

/// One minimizing level of the four-in-a-row search: tries every open
/// column on a cloned board for the opponent, keeps the worst child
/// value, prunes once the value drops below `alpha`, and picks uniformly
/// at random among the columns tied for that value.  Each child is
/// searched with the upper window bound held one above the running
/// worst, so a column that ties it still comes back exactly valued and
/// the tie set is genuine: inside the `(alpha, beta)` window the chosen
/// column attains the returned — and then exact — minimax value.
pub fn minState_C4(board: &Board, player_id: usize, depth: usize, alpha: i64, beta: i64) -> (r:
    SearchOutcome)
    requires
        board.wf(),
        player_id == 1 || player_id == 2,
        depth < DEPTH_LIMIT,
        depth % 2 == 1,
        ghas_open(board.id_view()),
        NEG_INF <= alpha,
        alpha <= beta,
        beta <= POS_INF,
    ensures
        1 <= r.column <= board.num_cols,
        gopen(board.id_view(), r.column as int),
        -WIN_SCORE <= r.value <= WIN_SCORE,
        r.value <= alpha || r.value <= mm(board.id_view(), player_id as nat, depth as nat),
        r.value >= beta || r.value >= mm(board.id_view(), player_id as nat, depth as nat),
        alpha < mm(board.id_view(), player_id as nat, depth as nat) && mm(
            board.id_view(),
            player_id as nat,
            depth as nat,
        ) < beta ==> {
            &&& r.value == mm(board.id_view(), player_id as nat, depth as nat)
            &&& mm(
                ginsert(board.id_view(), r.column as int, mover_at(player_id as nat, depth as nat)),
                player_id as nat,
                (depth + 1) as nat,
            ) == r.value
        },
    decreases DEPTH_LIMIT - depth, 0usize,
{
    let ghost g = board.id_view();
    let ghost ai = player_id as nat;
    let ghost t = mm(g, ai, depth as nat);
    proof {
        board.lemma_id_view_matches();
        assert(t == mm_min_from(g, ai, depth as nat, 1));
    }
    let mover = 3 - player_id;
    let mut val: i64 = POS_INF;
    let mut b: i64 = beta;
    let mut moves: Vec<usize> = Vec::new();
    let mut c: usize = 1;
    while c <= board.cols()
        invariant_except_break
            val >= alpha,
            b == imin(beta as int, val as int + 1),
        invariant
            board.wf(),
            player_id == 1 || player_id == 2,
            mover == 3 - player_id,
            depth < DEPTH_LIMIT,
            depth % 2 == 1,
            NEG_INF <= alpha,
            alpha <= beta,
            beta <= POS_INF,
            g == board.id_view(),
            gcols(g) == board.num_cols,
            ai == player_id as nat,
            t == mm(g, ai, depth as nat),
            t == mm_min_from(g, ai, depth as nat, 1),
            ghas_open(g),
            1 <= c <= board.num_cols + 1,
            val == POS_INF || -WIN_SCORE <= val <= WIN_SCORE,
            val >= beta || val >= t,
            imax(alpha as int, t) >= imin(
                val as int,
                imax(alpha as int, mm_min_from(g, ai, depth as nat, c as int)),
            ),
            forall|i: int|
                0 <= i < moves@.len() ==> {
                    let m = #[trigger] moves@[i];
                    &&& 1 <= m <= board.num_cols
                    &&& gopen(g, m as int)
                    &&& mm(ginsert(g, m as int, mover_at(ai, depth as nat)), ai, (depth
                        + 1) as nat) == val
                },
            alpha < val && val < beta ==> moves@.len() >= 1,
            forall|cc: int| 1 <= cc < c && #[trigger] gopen(g, cc) ==> val <= WIN_SCORE,
        ensures
            forall|i: int|
                0 <= i < moves@.len() ==> {
                    let m = #[trigger] moves@[i];
                    &&& 1 <= m <= board.num_cols
                    &&& gopen(g, m as int)
                    &&& mm(ginsert(g, m as int, mover_at(ai, depth as nat)), ai, (depth
                        + 1) as nat) == val
                },
            -WIN_SCORE <= val <= WIN_SCORE,
            val >= beta || val >= t,
            imax(alpha as int, t) >= val as int,
            alpha < t && t < beta ==> val == t && moves@.len() >= 1,
        decreases board.num_cols + 1 - c,
    {
        if col_is_open(board, c) {
            let mut child = board.clone();
            let ghost gch = ginsert(g, c as int, mover as nat);
            let _landed = child.insert_piece_C4(c, mover);
            let ghost tc = mm(gch, ai, (depth + 1) as nat);
            proof {
                assert(child.id_view() == gch);
                lemma_ginsert_wf(g, c as int, mover as nat);
                assert(mover as nat == mover_at(ai, depth as nat));
                lemma_min_scan_covers(g, ai, depth as nat, 1, c as int);
                assert(tc >= t);
                assert(mm_min_from(g, ai, depth as nat, c as int) == imin(
                    tc,
                    mm_min_from(g, ai, depth as nat, c as int + 1),
                ));
            }
            let tempv = value(&child, player_id, depth + 1, alpha, b);
            if tempv < val {
                val = tempv;
                if alpha < tempv && tempv < b {
                    proof {
                        assert(tempv == tc);
                    }
                    moves = Vec::new();
                    moves.push(c);
                } else {
                    // The child hit the window, so its exact value is
                    // unknown: it cannot stand in the tie set.
                    moves = Vec::new();
                }
            } else if tempv == val && alpha < tempv && tempv < b {
                proof {
                    assert(tempv == tc);
                }
                moves.push(c);
            }
            if val < alpha {
                break ;
            }
            if val + 1 < b {
                b = val + 1;
            }
        } else {
            proof {
                assert(mm_min_from(g, ai, depth as nat, c as int) == mm_min_from(
                    g,
                    ai,
                    depth as nat,
                    c as int + 1,
                ));
            }
        }
        c = c + 1;
    }
    let column = if moves.len() >= 1 {
        choose_C4(&moves)
    } else {
        // Only a search failing outside its window ends with an empty
        // tie set; any open column serves such a pruned branch.
        first_open_col(board)
    };
    SearchOutcome { value: val, column }
}

/// The value of one search node for the word game.  Both games share one
/// identifier-based search engine; on a board holding only letter tokens
/// every identifier reads `0`.
pub fn value_TO(board: &Board, player_id: usize, depth: usize, alpha: i64, beta: i64) -> (r: i64)
    requires
        board.wf(),
        player_id == 1 || player_id == 2,
        depth <= DEPTH_LIMIT,
        NEG_INF <= alpha,
        alpha <= beta,
        beta <= POS_INF,
    ensures
        -WIN_SCORE <= r <= WIN_SCORE,
        r <= alpha || r <= mm(board.id_view(), player_id as nat, depth as nat),
        r >= beta || r >= mm(board.id_view(), player_id as nat, depth as nat),
        alpha < mm(board.id_view(), player_id as nat, depth as nat) && mm(
            board.id_view(),
            player_id as nat,
            depth as nat,
        ) < beta ==> r == mm(board.id_view(), player_id as nat, depth as nat),
{
    value(board, player_id, depth, alpha, beta)
}

/// One maximizing level of the word game's search.
pub fn maxState_TO(board: &Board, player_id: usize, depth: usize, alpha: i64, beta: i64) -> (r:
    SearchOutcome)
    requires
        board.wf(),
        player_id == 1 || player_id == 2,
        depth < DEPTH_LIMIT,
        depth % 2 == 0,
        ghas_open(board.id_view()),
        NEG_INF <= alpha,
        alpha <= beta,
        beta <= POS_INF,
    ensures
        1 <= r.column <= board.num_cols,
        gopen(board.id_view(), r.column as int),
        -WIN_SCORE <= r.value <= WIN_SCORE,
        r.value <= alpha || r.value <= mm(board.id_view(), player_id as nat, depth as nat),
        r.value >= beta || r.value >= mm(board.id_view(), player_id as nat, depth as nat),
        alpha < mm(board.id_view(), player_id as nat, depth as nat) && mm(
            board.id_view(),
            player_id as nat,
            depth as nat,
        ) < beta ==> {
            &&& r.value == mm(board.id_view(), player_id as nat, depth as nat)
            &&& mm(
                ginsert(board.id_view(), r.column as int, mover_at(player_id as nat, depth as nat)),
                player_id as nat,
                (depth + 1) as nat,
            ) == r.value
        },
{
    maxState_C4(board, player_id, depth, alpha, beta)
}

/// One minimizing level of the word game's search.
pub fn minState_TO(board: &Board, player_id: usize, depth: usize, alpha: i64, beta: i64) -> (r:
    SearchOutcome)
    requires
        board.wf(),
        player_id == 1 || player_id == 2,
        depth < DEPTH_LIMIT,
        depth % 2 == 1,
        ghas_open(board.id_view()),
        NEG_INF <= alpha,
        alpha <= beta,
        beta <= POS_INF,
    ensures
        1 <= r.column <= board.num_cols,
        gopen(board.id_view(), r.column as int),
        -WIN_SCORE <= r.value <= WIN_SCORE,
        r.value <= alpha || r.value <= mm(board.id_view(), player_id as nat, depth as nat),
        r.value >= beta || r.value >= mm(board.id_view(), player_id as nat, depth as nat),
        alpha < mm(board.id_view(), player_id as nat, depth as nat) && mm(
            board.id_view(),
            player_id as nat,
            depth as nat,
        ) < beta ==> {
            &&& r.value == mm(board.id_view(), player_id as nat, depth as nat)
            &&& mm(
                ginsert(board.id_view(), r.column as int, mover_at(player_id as nat, depth as nat)),
                player_id as nat,
                (depth + 1) as nat,
            ) == r.value
        },
{
    minState_C4(board, player_id, depth, alpha, beta)
}

} // verus!
