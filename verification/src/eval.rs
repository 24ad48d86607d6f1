//! The heuristic position evaluator: scores a board for a player by
//! counting, in each of four directions, the length-4 windows fully owned
//! by that player (no opposing or empty cell breaking the run).  The win
//! flag equals the winning length exactly when such a window — a
//! four-in-a-line — exists; the total score, the sum of the four
//! directional counters, approximates how close to winning a position is
//! and feeds the move search.

use vstd::prelude::*;

use crate::board::Board;
use crate::model::gcols;
use crate::model::gid;
use crate::model::grows;
use crate::model::gwf;

verus! {

/// A window of four cells starting at `(r, c)` and stepping by
/// `(dr, dc)`, all owned by player `p`.  For `p >= 1` this forces the
/// whole window onto the grid, since off-grid cells show `0`.
pub open spec fn owned4(g: Seq<Seq<nat>>, p: nat, r: int, c: int, dr: int, dc: int) -> bool {
    &&& gid(g, r, c) == p
    &&& gid(g, r + dr, c + dc) == p
    &&& gid(g, r + 2 * dr, c + 2 * dc) == p
    &&& gid(g, r + 3 * dr, c + 3 * dc) == p
}

/// Number of windows owned by `p` in direction `(dr, dc)` whose anchor
/// lies in row `r` at a column `>= c`.
pub open spec fn dir_count_row(
    g: Seq<Seq<nat>>,
    p: nat,
    dr: int,
    dc: int,
    r: int,
    c: int,
) -> nat
    decreases gcols(g) + 1 - c,
{
    if c < 1 || c > gcols(g) {
        0
    } else {
        (if owned4(g, p, r, c, dr, dc) {
            1nat
        } else {
            0nat
        }) + dir_count_row(g, p, dr, dc, r, c + 1)
    }
}

/// Number of windows owned by `p` in direction `(dr, dc)` whose anchor
/// lies in a row `>= r`.
pub open spec fn dir_count_from(g: Seq<Seq<nat>>, p: nat, dr: int, dc: int, r: int) -> nat
    decreases grows(g) + 1 - r,
{
    if r < 1 || r > grows(g) {
        0
    } else {
        dir_count_row(g, p, dr, dc, r, 1) + dir_count_from(g, p, dr, dc, r + 1)
    }
}

/// Number of windows owned by `p` in direction `(dr, dc)`, over all
/// anchors of the grid.
pub open spec fn dir_count(g: Seq<Seq<nat>>, p: nat, dr: int, dc: int) -> nat {
    dir_count_from(g, p, dr, dc, 1)
}

/// The evaluator's total score: the sum of the four directional window
/// counts — horizontal, vertical, `/` diagonal and `\` diagonal.
pub open spec fn eval_total(g: Seq<Seq<nat>>, p: nat) -> nat {
    dir_count(g, p, 0, 1) + dir_count(g, p, -1, 0) + dir_count(g, p, -1, 1) + dir_count(
        g,
        p,
        -1,
        -1,
    )
}

/// The evaluator's win flag: the winning length `4` exactly when a fully
/// owned length-4 window — a four-in-a-line — exists for `p` in some
/// direction, `0` otherwise.
pub open spec fn eval_win(g: Seq<Seq<nat>>, p: nat) -> nat {
    if dir_count(g, p, 0, 1) > 0 || dir_count(g, p, -1, 0) > 0 || dir_count(g, p, -1, 1) > 0
        || dir_count(g, p, -1, -1) > 0 {
        4
    } else {
        0
    }
}

/// At most one owned window is anchored per column of a row.
pub proof fn lemma_dir_count_row_bound(g: Seq<Seq<nat>>, p: nat, dr: int, dc: int, r: int, c: int)
    requires
        1 <= c <= gcols(g) + 1,
    ensures
        dir_count_row(g, p, dr, dc, r, c) <= gcols(g) + 1 - c,
    decreases gcols(g) + 1 - c,
{
    if c <= gcols(g) {
        lemma_dir_count_row_bound(g, p, dr, dc, r, c + 1);
    }
}

/// At most `cols` owned windows are anchored per row.
pub proof fn lemma_dir_count_from_bound(g: Seq<Seq<nat>>, p: nat, dr: int, dc: int, r: int)
    requires
        1 <= r <= grows(g) + 1,
    ensures
        dir_count_from(g, p, dr, dc, r) <= (grows(g) + 1 - r) * gcols(g),
    decreases grows(g) + 1 - r,
{
    if r <= grows(g) {
        lemma_dir_count_row_bound(g, p, dr, dc, r, 1);
        lemma_dir_count_from_bound(g, p, dr, dc, r + 1);
        assert((grows(g) + 1 - r) * gcols(g) == gcols(g) + (grows(g) - r) * gcols(g))
            by (nonlinear_arith);
    }
}

/// A directional count never exceeds the number of grid cells.
pub proof fn lemma_dir_count_bound(g: Seq<Seq<nat>>, p: nat, dr: int, dc: int)
    ensures
        dir_count(g, p, dr, dc) <= grows(g) * gcols(g),
{
    lemma_dir_count_from_bound(g, p, dr, dc, 1);
}

/// Two grids that agree except at one cell, empty in the first and owned
/// by `p` in the second: every window owned in the first is owned in the
/// second.
proof fn lemma_owned4_mono(
    g1: Seq<Seq<nat>>,
    g2: Seq<Seq<nat>>,
    p: nat,
    r0: int,
    c0: int,
    r: int,
    c: int,
    dr: int,
    dc: int,
)
    requires
        p >= 1,
        gid(g1, r0, c0) == 0,
        forall|rr: int, cc: int|
            !(rr == r0 && cc == c0) ==> #[trigger] gid(g1, rr, cc) == gid(g2, rr, cc),
        owned4(g1, p, r, c, dr, dc),
    ensures
        owned4(g2, p, r, c, dr, dc),
{
    assert(!(r == r0 && c == c0));
    assert(!(r + dr == r0 && c + dc == c0));
    assert(!(r + 2 * dr == r0 && c + 2 * dc == c0));
    assert(!(r + 3 * dr == r0 && c + 3 * dc == c0));
}

proof fn lemma_count_row_mono(
    g1: Seq<Seq<nat>>,
    g2: Seq<Seq<nat>>,
    p: nat,
    r0: int,
    c0: int,
    dr: int,
    dc: int,
    r: int,
    c: int,
)
    requires
        p >= 1,
        gcols(g1) == gcols(g2),
        grows(g1) == grows(g2),
        gid(g1, r0, c0) == 0,
        forall|rr: int, cc: int|
            !(rr == r0 && cc == c0) ==> #[trigger] gid(g1, rr, cc) == gid(g2, rr, cc),
    ensures
        dir_count_row(g1, p, dr, dc, r, c) <= dir_count_row(g2, p, dr, dc, r, c),
    decreases gcols(g1) + 1 - c,
{
    if 1 <= c <= gcols(g1) {
        if owned4(g1, p, r, c, dr, dc) {
            lemma_owned4_mono(g1, g2, p, r0, c0, r, c, dr, dc);
        }
        lemma_count_row_mono(g1, g2, p, r0, c0, dr, dc, r, c + 1);
    }
}

proof fn lemma_count_from_mono(
    g1: Seq<Seq<nat>>,
    g2: Seq<Seq<nat>>,
    p: nat,
    r0: int,
    c0: int,
    dr: int,
    dc: int,
    r: int,
)
    requires
        p >= 1,
        gcols(g1) == gcols(g2),
        grows(g1) == grows(g2),
        gid(g1, r0, c0) == 0,
        forall|rr: int, cc: int|
            !(rr == r0 && cc == c0) ==> #[trigger] gid(g1, rr, cc) == gid(g2, rr, cc),
    ensures
        dir_count_from(g1, p, dr, dc, r) <= dir_count_from(g2, p, dr, dc, r),
    decreases grows(g1) + 1 - r,
{
    if 1 <= r <= grows(g1) {
        lemma_count_row_mono(g1, g2, p, r0, c0, dr, dc, r, 1);
        lemma_count_from_mono(g1, g2, p, r0, c0, dr, dc, r + 1);
    }
}

/// Evaluator monotonicity: turning one empty cell into a cell of player
/// `p` never decreases any of `p`'s four directional window counts, nor
/// the total score.
pub proof fn lemma_eval_monotone(g1: Seq<Seq<nat>>, g2: Seq<Seq<nat>>, p: nat, r0: int, c0: int)
    requires
        p >= 1,
        gcols(g1) == gcols(g2),
        grows(g1) == grows(g2),
        gid(g1, r0, c0) == 0,
        gid(g2, r0, c0) == p,
        forall|rr: int, cc: int|
            !(rr == r0 && cc == c0) ==> #[trigger] gid(g1, rr, cc) == gid(g2, rr, cc),
    ensures
        dir_count(g1, p, 0, 1) <= dir_count(g2, p, 0, 1),
        dir_count(g1, p, -1, 0) <= dir_count(g2, p, -1, 0),
        dir_count(g1, p, -1, 1) <= dir_count(g2, p, -1, 1),
        dir_count(g1, p, -1, -1) <= dir_count(g2, p, -1, -1),
        eval_total(g1, p) <= eval_total(g2, p),
{
    lemma_count_from_mono(g1, g2, p, r0, c0, 0, 1, 1);
    lemma_count_from_mono(g1, g2, p, r0, c0, -1, 0, 1);
    lemma_count_from_mono(g1, g2, p, r0, c0, -1, 1, 1);
    lemma_count_from_mono(g1, g2, p, r0, c0, -1, -1, 1);
}

/// The identifier at a cell, `0` for an empty cell.
fn piece_id(board: &Board, r: usize, c: usize) -> (res: usize)
    requires
        board.wf(),
        1 <= r <= board.num_rows,
        1 <= c <= board.num_cols,
    ensures
        res as nat == board.id_at(r as int, c as int),
{
    match board.get_piece(r, c).player {
        None => 0,
        Some(pl) => pl.id,
    }
}

/// Whether the horizontal window anchored at `(r, c)` is owned by `p`.
fn owned_h(board: &Board, p: usize, r: usize, c: usize) -> (res: bool)
    requires
        board.wf(),
        p >= 1,
        1 <= r <= board.num_rows,
        1 <= c <= board.num_cols,
    ensures
        res == owned4(board.id_view(), p as nat, r as int, c as int, 0, 1),
{
    proof {
        board.lemma_id_view_matches();
    }
    if c + 3 > board.cols() {
        proof {
            assert(gid(board.id_view(), r as int, c + 3) == 0);
        }
        return false;
    }
    piece_id(board, r, c) == p && piece_id(board, r, c + 1) == p && piece_id(board, r, c + 2)
        == p && piece_id(board, r, c + 3) == p
}

/// Whether the vertical window from `(r, c)` upward is owned by `p`.
fn owned_v(board: &Board, p: usize, r: usize, c: usize) -> (res: bool)
    requires
        board.wf(),
        p >= 1,
        1 <= r <= board.num_rows,
        1 <= c <= board.num_cols,
    ensures
        res == owned4(board.id_view(), p as nat, r as int, c as int, -1, 0),
{
    proof {
        board.lemma_id_view_matches();
    }
    if r < 4 {
        proof {
            assert(gid(board.id_view(), r - 3, c as int) == 0);
        }
        return false;
    }
    piece_id(board, r, c) == p && piece_id(board, r - 1, c) == p && piece_id(board, r - 2, c)
        == p && piece_id(board, r - 3, c) == p
}

/// Whether the `/` diagonal window from `(r, c)` up-right is owned by
/// `p`.
fn owned_d(board: &Board, p: usize, r: usize, c: usize) -> (res: bool)
    requires
        board.wf(),
        p >= 1,
        1 <= r <= board.num_rows,
        1 <= c <= board.num_cols,
    ensures
        res == owned4(board.id_view(), p as nat, r as int, c as int, -1, 1),
{
    proof {
        board.lemma_id_view_matches();
    }
    if r < 4 {
        proof {
            assert(gid(board.id_view(), r - 3, c + 3) == 0);
        }
        return false;
    }
    if c + 3 > board.cols() {
        proof {
            assert(gid(board.id_view(), r - 3, c + 3) == 0);
        }
        return false;
    }
    piece_id(board, r, c) == p && piece_id(board, r - 1, c + 1) == p && piece_id(
        board,
        r - 2,
        c + 2,
    ) == p && piece_id(board, r - 3, c + 3) == p
}

/// Whether the `\` diagonal window from `(r, c)` up-left is owned by
/// `p`.
fn owned_a(board: &Board, p: usize, r: usize, c: usize) -> (res: bool)
    requires
        board.wf(),
        p >= 1,
        1 <= r <= board.num_rows,
        1 <= c <= board.num_cols,
    ensures
        res == owned4(board.id_view(), p as nat, r as int, c as int, -1, -1),
{
    proof {
        board.lemma_id_view_matches();
    }
    if r < 4 {
        proof {
            assert(gid(board.id_view(), r - 3, c - 3) == 0);
        }
        return false;
    }
    if c < 4 {
        proof {
            assert(gid(board.id_view(), r - 3, c - 3) == 0);
        }
        return false;
    }
    piece_id(board, r, c) == p && piece_id(board, r - 1, c - 1) == p && piece_id(
        board,
        r - 2,
        c - 2,
    ) == p && piece_id(board, r - 3, c - 3) == p
}

/// Evaluates the four-in-a-row board for `player_id`, returning the win
/// flag and the total score, exactly as [`eval_win`] and [`eval_total`]
/// define them over the identifier grid.
pub fn evaluate_C4(board: &Board, player_id: usize) -> (r: (usize, usize))
    requires
        board.wf(),
        player_id >= 1,
    ensures
        r.0 == eval_win(board.id_view(), player_id as nat),
        r.1 == eval_total(board.id_view(), player_id as nat),
{
    let ghost g = board.id_view();
    proof {
        board.lemma_id_view_matches();
    }
    let mut h: usize = 0;
    let mut v: usize = 0;
    let mut d: usize = 0;
    let mut a: usize = 0;
    let mut row: usize = 1;
    while row <= board.rows()
        invariant
            board.wf(),
            player_id >= 1,
            g == board.id_view(),
            1 <= row <= board.num_rows + 1,
            h + dir_count_from(g, player_id as nat, 0, 1, row as int) == dir_count(
                g,
                player_id as nat,
                0,
                1,
            ),
            v + dir_count_from(g, player_id as nat, -1, 0, row as int) == dir_count(
                g,
                player_id as nat,
                -1,
                0,
            ),
            d + dir_count_from(g, player_id as nat, -1, 1, row as int) == dir_count(
                g,
                player_id as nat,
                -1,
                1,
            ),
            a + dir_count_from(g, player_id as nat, -1, -1, row as int) == dir_count(
                g,
                player_id as nat,
                -1,
                -1,
            ),
        decreases board.num_rows + 1 - row,
    {
        let ghost p = player_id as nat;
        proof {
            board.lemma_id_view_matches();
            lemma_dir_count_bound(g, p, 0, 1);
            lemma_dir_count_bound(g, p, -1, 0);
            lemma_dir_count_bound(g, p, -1, 1);
            lemma_dir_count_bound(g, p, -1, -1);
        }
        let mut col: usize = 1;
        while col <= board.cols()
            invariant
                board.wf(),
                player_id >= 1,
                p == player_id as nat,
                g == board.id_view(),
                1 <= row <= board.num_rows,
                1 <= col <= board.num_cols + 1,
                h + dir_count_row(g, p, 0, 1, row as int, col as int) + dir_count_from(
                    g,
                    p,
                    0,
                    1,
                    row + 1,
                ) == dir_count(g, p, 0, 1),
                v + dir_count_row(g, p, -1, 0, row as int, col as int) + dir_count_from(
                    g,
                    p,
                    -1,
                    0,
                    row + 1,
                ) == dir_count(g, p, -1, 0),
                d + dir_count_row(g, p, -1, 1, row as int, col as int) + dir_count_from(
                    g,
                    p,
                    -1,
                    1,
                    row + 1,
                ) == dir_count(g, p, -1, 1),
                a + dir_count_row(g, p, -1, -1, row as int, col as int) + dir_count_from(
                    g,
                    p,
                    -1,
                    -1,
                    row + 1,
                ) == dir_count(g, p, -1, -1),
            decreases board.num_cols + 1 - col,
        {
            proof {
                board.lemma_id_view_matches();
                lemma_dir_count_bound(g, p, 0, 1);
                lemma_dir_count_bound(g, p, -1, 0);
                lemma_dir_count_bound(g, p, -1, 1);
                lemma_dir_count_bound(g, p, -1, -1);
                assert(grows(g) <= 6 && gcols(g) <= 7);
                assert(grows(g) * gcols(g) <= 42) by (nonlinear_arith)
                    requires grows(g) <= 6 && gcols(g) <= 7;
            }
            if owned_h(board, player_id, row, col) {
                h = h + 1;
            }
            if owned_v(board, player_id, row, col) {
                v = v + 1;
            }
            if owned_d(board, player_id, row, col) {
                d = d + 1;
            }
            if owned_a(board, player_id, row, col) {
                a = a + 1;
            }
            col = col + 1;
        }
        row = row + 1;
    }
    let win: usize = if h > 0 || v > 0 || d > 0 || a > 0 {
        4
    } else {
        0
    };
    proof {
        board.lemma_id_view_matches();
        lemma_dir_count_bound(g, player_id as nat, 0, 1);
        lemma_dir_count_bound(g, player_id as nat, -1, 0);
        lemma_dir_count_bound(g, player_id as nat, -1, 1);
        lemma_dir_count_bound(g, player_id as nat, -1, -1);
        assert(grows(g) <= 6 && gcols(g) <= 7);
        assert(grows(g) * gcols(g) <= 42) by (nonlinear_arith)
            requires grows(g) <= 6 && gcols(g) <= 7;
    }
    (win, h + v + d + a)
}

/// Evaluates the word-game board for `player_id`.  The evaluator reads
/// the same identifier grid in both games; on a board holding only
/// letter tokens every identifier is `0`, so every counter is `0`.
pub fn evaluate_TO(board: &Board, player_id: usize) -> (r: (usize, usize))
    requires
        board.wf(),
        player_id >= 1,
    ensures
        r.0 == eval_win(board.id_view(), player_id as nat),
        r.1 == eval_total(board.id_view(), player_id as nat),
{
    evaluate_C4(board, player_id)
}

} // verus!
