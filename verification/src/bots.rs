//! The difficulty selector: maps a requested strength to a concrete
//! computer move.  Easy picks a uniformly random legal column — and, in
//! the word game, a random letter.  Medium selects exactly as Easy does:
//! the engine applies no single-ply evaluator gate before the random
//! choice, a collapse that is kept deliberately rather than corrected.
//! Difficult invokes the full search at depth `0` with the infinite
//! `(alpha, beta)` window and applies the returned column.
//!
//! Every tier only ever targets a column with an empty cell left, and
//! reports [`GameError::NoLegalMove`] on a full board.

use vstd::prelude::*;

use crate::board::Board;
use crate::game::GameError;
use crate::model::gdrop_row;
use crate::model::ghas_open;
use crate::model::ginsert;
use crate::model::gopen;
use crate::rng::random_below;
use crate::search::NEG_INF;
use crate::search::POS_INF;
use crate::search::col_is_open;
use crate::search::has_open_col;
use crate::search::lemma_infinite_window_exact;
use crate::search::maxState_C4;
use crate::search::mm;

verus! {

/// All columns of the board that accept a four-in-a-row insertion.
fn open_columns(board: &Board) -> (res: Vec<usize>)
    requires
        board.wf(),
    ensures
        forall|i: int|
            0 <= i < res@.len() ==> 1 <= #[trigger] res@[i] <= board.num_cols && gopen(
                board.id_view(),
                res@[i] as int,
            ),
        res@.len() >= 1 <==> ghas_open(board.id_view()),
{
    let ghost g = board.id_view();
    proof {
        board.lemma_id_view_matches();
    }
    let mut res: Vec<usize> = Vec::new();
    let mut c: usize = 1;
    while c <= board.cols()
        invariant
            board.wf(),
            g == board.id_view(),
            1 <= c <= board.num_cols + 1,
            forall|i: int|
                0 <= i < res@.len() ==> 1 <= #[trigger] res@[i] <= board.num_cols && gopen(
                    g,
                    res@[i] as int,
                ),
            forall|cc: int| 1 <= cc < c && #[trigger] gopen(g, cc) ==> res@.len() >= 1,
        decreases board.num_cols + 1 - c,
    {
        if col_is_open(board, c) {
            res.push(c);
        }
        c = c + 1;
    }
    proof {
        board.lemma_id_view_matches();
        if res@.len() >= 1 {
            assert(1 <= res@[0] <= board.num_cols && gopen(g, res@[0] as int));
        }
    }
    res
}

/// Whether `col` still accepts a letter token.
fn col_letter_open(board: &Board, col: usize) -> (res: bool)
    requires
        board.wf(),
        1 <= col <= board.num_cols,
    ensures
        res == board.letter_open(col as int),
{
    let mut row: usize = board.rows();
    while row >= 1
        invariant
            board.wf(),
            1 <= col <= board.num_cols,
            row <= board.num_rows,
            board.letter_drop_row(col as int) == board.ldrop_upto(col as int, row as int),
        decreases row,
    {
        match board.get_piece(row, col).letter {
            None => {
                proof {
                    assert(board.letter_at(row as int, col as int) == '-');
                    assert(board.ldrop_upto(col as int, row as int) == row);
                }
                return true;
            },
            Some(_) => {
                proof {
                    assert(board.letter_at(row as int, col as int) != '-');
                    assert(board.ldrop_upto(col as int, row as int) == board.ldrop_upto(
                        col as int,
                        row - 1,
                    ));
                }
            },
        }
        row = row - 1;
    }
    proof {
        assert(board.ldrop_upto(col as int, 0) == 0);
    }
    false
}

/// All columns of the board that accept a letter token.
fn letter_open_columns(board: &Board) -> (res: Vec<usize>)
    requires
        board.wf(),
    ensures
        forall|i: int|
            0 <= i < res@.len() ==> 1 <= #[trigger] res@[i] <= board.num_cols
                && board.letter_open(res@[i] as int),
        res@.len() >= 1 <==> board.letter_has_open(),
{
    let mut res: Vec<usize> = Vec::new();
    let mut c: usize = 1;
    while c <= board.cols()
        invariant
            board.wf(),
            1 <= c <= board.num_cols + 1,
            forall|i: int|
                0 <= i < res@.len() ==> 1 <= #[trigger] res@[i] <= board.num_cols
                    && board.letter_open(res@[i] as int),
            forall|cc: int| 1 <= cc < c && #[trigger] board.letter_open(cc) ==> res@.len() >= 1,
        decreases board.num_cols + 1 - c,
    {
        if col_letter_open(board, c) {
            res.push(c);
        }
        c = c + 1;
    }
    proof {
        if res@.len() >= 1 {
            assert(1 <= res@[0] <= board.num_cols && board.letter_open(res@[0] as int));
        }
    }
    res
}

/// The easy computer move for the four-in-a-row game: a uniformly random
/// column among those with an empty cell left, applied to the board.
/// Returns the landing row and the chosen column, or
/// [`GameError::NoLegalMove`] on a full board.
pub fn easy_bot_C4(board: &mut Board, player_id: usize) -> (r: Result<(usize, usize), GameError>)
    requires
        old(board).wf(),
        player_id >= 1,
    ensures
        final(board).wf(),
        final(board).num_rows == old(board).num_rows,
        final(board).num_cols == old(board).num_cols,
        r is Ok <==> ghas_open(old(board).id_view()),
        !ghas_open(old(board).id_view()) ==> r == Err::<(usize, usize), GameError>(
            GameError::NoLegalMove,
        ) && final(board).unchanged_from(*old(board)),
        r matches Ok(rc) ==> {
            &&& 1 <= rc.1 <= old(board).num_cols
            &&& gopen(old(board).id_view(), rc.1 as int)
            &&& rc.0 == gdrop_row(old(board).id_view(), rc.1 as int)
            &&& 1 <= rc.0 <= old(board).num_rows
            &&& final(board).id_view() == ginsert(
                old(board).id_view(),
                rc.1 as int,
                player_id as nat,
            )
        },
{
    let candidates = open_columns(board);
    if candidates.len() == 0 {
        return Err(GameError::NoLegalMove);
    }
    let idx = random_below(candidates.len());
    let col = candidates[idx];
    match board.insert_piece_C4(col, player_id) {
        Ok(row) => Ok((row, col)),
        Err(e) => Err(e),
    }
}

/// The medium computer move for the four-in-a-row game.  By design it
/// selects exactly as [`easy_bot_C4`] does: a uniformly random column
/// among those still open.
pub fn medium_C4(board: &mut Board, player_id: usize) -> (r: Result<(usize, usize), GameError>)
    requires
        old(board).wf(),
        player_id >= 1,
    ensures
        final(board).wf(),
        final(board).num_rows == old(board).num_rows,
        final(board).num_cols == old(board).num_cols,
        r is Ok <==> ghas_open(old(board).id_view()),
        !ghas_open(old(board).id_view()) ==> r == Err::<(usize, usize), GameError>(
            GameError::NoLegalMove,
        ) && final(board).unchanged_from(*old(board)),
        r matches Ok(rc) ==> {
            &&& 1 <= rc.1 <= old(board).num_cols
            &&& gopen(old(board).id_view(), rc.1 as int)
            &&& rc.0 == gdrop_row(old(board).id_view(), rc.1 as int)
            &&& 1 <= rc.0 <= old(board).num_rows
            &&& final(board).id_view() == ginsert(
                old(board).id_view(),
                rc.1 as int,
                player_id as nat,
            )
        },
{
    easy_bot_C4(board, player_id)
}

/// The difficult computer move for the four-in-a-row game: the search
/// engine is invoked at depth `0` with the infinite `(alpha, beta)`
/// window — its value is then exactly the unpruned minimax value — and
/// the returned column, which attains that value, is applied to the
/// board.
pub fn difficult_C4(board: &mut Board, player_id: usize) -> (r: Result<(usize, usize), GameError>)
    requires
        old(board).wf(),
        player_id == 1 || player_id == 2,
    ensures
        final(board).wf(),
        final(board).num_rows == old(board).num_rows,
        final(board).num_cols == old(board).num_cols,
        r is Ok <==> ghas_open(old(board).id_view()),
        !ghas_open(old(board).id_view()) ==> r == Err::<(usize, usize), GameError>(
            GameError::NoLegalMove,
        ) && final(board).unchanged_from(*old(board)),
        r matches Ok(rc) ==> {
            &&& 1 <= rc.1 <= old(board).num_cols
            &&& gopen(old(board).id_view(), rc.1 as int)
            &&& rc.0 == gdrop_row(old(board).id_view(), rc.1 as int)
            &&& 1 <= rc.0 <= old(board).num_rows
            &&& final(board).id_view() == ginsert(
                old(board).id_view(),
                rc.1 as int,
                player_id as nat,
            )
            &&& mm(
                ginsert(old(board).id_view(), rc.1 as int, player_id as nat),
                player_id as nat,
                1,
            ) == mm(old(board).id_view(), player_id as nat, 0)
        },
{
    if !has_open_col(board) {
        return Err(GameError::NoLegalMove);
    }
    proof {
        board.lemma_id_view_matches();
        lemma_infinite_window_exact(board.id_view(), player_id as nat, 0);
    }
    let out = maxState_C4(board, player_id, 0, NEG_INF, POS_INF);
    let col = out.column;
    match board.insert_piece_C4(col, player_id) {
        Ok(row) => Ok((row, col)),
        Err(e) => Err(e),
    }
}

/// The easy computer move for the word game: a uniformly random letter
/// and a uniformly random column among those with room for one, applied
/// to the board.  Returns the landing row, the chosen column and the
/// letter, or [`GameError::NoLegalMove`] on a full board.
pub fn easy_otto(board: &mut Board) -> (r: Result<(usize, usize, char), GameError>)
    requires
        old(board).wf(),
    ensures
        final(board).wf(),
        final(board).num_rows == old(board).num_rows,
        final(board).num_cols == old(board).num_cols,
        r is Ok <==> old(board).letter_has_open(),
        !old(board).letter_has_open() ==> r == Err::<(usize, usize, char), GameError>(
            GameError::NoLegalMove,
        ) && final(board).unchanged_from(*old(board)),
        r matches Ok(rcl) ==> {
            &&& 1 <= rcl.1 <= old(board).num_cols
            &&& old(board).letter_open(rcl.1 as int)
            &&& rcl.0 == old(board).letter_drop_row(rcl.1 as int)
            &&& 1 <= rcl.0 <= old(board).num_rows
            &&& (rcl.2 == 'T' || rcl.2 == 'O')
            &&& final(board).letter_at(rcl.0 as int, rcl.1 as int) == rcl.2
            &&& final(board).id_view() == old(board).id_view()
        },
{
    let letter = if random_below(2) == 0 {
        'T'
    } else {
        'O'
    };
    let candidates = letter_open_columns(board);
    if candidates.len() == 0 {
        return Err(GameError::NoLegalMove);
    }
    let idx = random_below(candidates.len());
    let col = candidates[idx];
    match board.insert_piece_TO(col, letter) {
        Ok(row) => Ok((row, col, letter)),
        Err(e) => Err(e),
    }
}

/// The medium computer move for the word game.  By design it selects
/// exactly as [`easy_otto`] does; the `player_id` it is handed plays no
/// part in the choice.
pub fn medium_TO(board: &mut Board, player_id: usize) -> (r: Result<(usize, usize, char), GameError>)
    requires
        old(board).wf(),
    ensures
        final(board).wf(),
        final(board).num_rows == old(board).num_rows,
        final(board).num_cols == old(board).num_cols,
        r is Ok <==> old(board).letter_has_open(),
        !old(board).letter_has_open() ==> r == Err::<(usize, usize, char), GameError>(
            GameError::NoLegalMove,
        ) && final(board).unchanged_from(*old(board)),
        r matches Ok(rcl) ==> {
            &&& 1 <= rcl.1 <= old(board).num_cols
            &&& old(board).letter_open(rcl.1 as int)
            &&& rcl.0 == old(board).letter_drop_row(rcl.1 as int)
            &&& 1 <= rcl.0 <= old(board).num_rows
            &&& (rcl.2 == 'T' || rcl.2 == 'O')
            &&& final(board).letter_at(rcl.0 as int, rcl.1 as int) == rcl.2
            &&& final(board).id_view() == old(board).id_view()
        },
{
    easy_otto(board)
}

/// The difficult computer move for the word game: the shared search
/// engine proposes a column (with a random letter, as every tier of this
/// game draws one); when that column has no room for a letter — the
/// engine judges occupancy by pieces, not tokens — the move falls back
/// to a uniformly random column with room.  Whenever every piece-open
/// column also has room for a letter, the inserted column attains the
/// identifier grid's unpruned minimax value.
pub fn difficult_TO(board: &mut Board, player_id: usize) -> (r: Result<
    (usize, usize, char),
    GameError,
>)
    requires
        old(board).wf(),
        player_id == 1 || player_id == 2,
    ensures
        final(board).wf(),
        final(board).num_rows == old(board).num_rows,
        final(board).num_cols == old(board).num_cols,
        r is Ok <==> old(board).letter_has_open(),
        !old(board).letter_has_open() ==> r == Err::<(usize, usize, char), GameError>(
            GameError::NoLegalMove,
        ) && final(board).unchanged_from(*old(board)),
        r matches Ok(rcl) ==> {
            &&& 1 <= rcl.1 <= old(board).num_cols
            &&& old(board).letter_open(rcl.1 as int)
            &&& rcl.0 == old(board).letter_drop_row(rcl.1 as int)
            &&& 1 <= rcl.0 <= old(board).num_rows
            &&& (rcl.2 == 'T' || rcl.2 == 'O')
            &&& final(board).letter_at(rcl.0 as int, rcl.1 as int) == rcl.2
            &&& final(board).id_view() == old(board).id_view()
        },
        ghas_open(old(board).id_view()) && (forall|cx: int|
            1 <= cx <= old(board).num_cols && #[trigger] gopen(old(board).id_view(), cx)
                ==> old(board).letter_open(cx)) ==> (r matches Ok(rcl) ==> mm(
            ginsert(old(board).id_view(), rcl.1 as int, player_id as nat),
            player_id as nat,
            1,
        ) == mm(old(board).id_view(), player_id as nat, 0)),
{
    let letter = if random_below(2) == 0 {
        'T'
    } else {
        'O'
    };
    let candidates = letter_open_columns(board);
    if candidates.len() == 0 {
        return Err(GameError::NoLegalMove);
    }
    if has_open_col(board) {
        proof {
            board.lemma_id_view_matches();
            lemma_infinite_window_exact(board.id_view(), player_id as nat, 0);
        }
        let out = maxState_C4(board, player_id, 0, NEG_INF, POS_INF);
        if col_letter_open(board, out.column) {
            let col = out.column;
            match board.insert_piece_TO(col, letter) {
                Ok(row) => {
                    return Ok((row, col, letter));
                },
                Err(e) => {
                    return Err(e);
                },
            }
        }
    }
    let idx = random_below(candidates.len());
    let col = candidates[idx];
    match board.insert_piece_TO(col, letter) {
        Ok(row) => Ok((row, col, letter)),
        Err(e) => Err(e),
    }
}

} // verus!
