//! Win and tie detection, invoked right after a successful insertion with
//! the inserted cell's coordinates.  The four full lines through the cell
//! are each scanned: the four-in-a-row game looks for a run of four equal
//! player identifiers, the word game for the substrings `TOOT` (crediting
//! player 1) and `OTTO` (crediting player 2).

use vstd::prelude::*;

use crate::board::Board;

verus! {

/// Four cells of `s` in a row, starting at `i`, all showing `p`.
pub open spec fn run_at(s: Seq<nat>, p: nat, i: int) -> bool {
    &&& s[i] == p
    &&& s[i + 1] == p
    &&& s[i + 2] == p
    &&& s[i + 3] == p
}

/// Whether `s` contains a run of four `p`s.
pub open spec fn has_run(s: Seq<nat>, p: nat) -> bool {
    exists|i: int| 0 <= i && i + 3 < s.len() && run_at(s, p, i)
}

/// The four letters `a b c d` standing in `s` at position `i`.
pub open spec fn word_at(s: Seq<char>, a: char, b: char, c: char, d: char, i: int) -> bool {
    &&& s[i] == a
    &&& s[i + 1] == b
    &&& s[i + 2] == c
    &&& s[i + 3] == d
}

/// Whether `s` contains the four letters `a b c d` consecutively.
pub open spec fn has_word(s: Seq<char>, a: char, b: char, c: char, d: char) -> bool {
    exists|i: int| 0 <= i && i + 3 < s.len() && word_at(s, a, b, c, d, i)
}

/// Whether `s` contains `TOOT`, the word that credits player 1.
pub open spec fn has_toot(s: Seq<char>) -> bool {
    has_word(s, 'T', 'O', 'O', 'T')
}

/// Whether `s` contains `OTTO`, the word that credits player 2.
pub open spec fn has_otto(s: Seq<char>) -> bool {
    has_word(s, 'O', 'T', 'T', 'O')
}

/// Whether the four-in-a-row player `p` has a winning run on one of the
/// four lines through `(row, col)`.
pub open spec fn c4_win_at(b: Board, row: int, col: int, p: nat) -> bool {
    ||| has_run(b.row_ids(row), p)
    ||| has_run(b.col_ids(col), p)
    ||| has_run(b.rdiag_ids(row, col), p)
    ||| has_run(b.ldiag_ids(row, col), p)
}

/// The credit after the first scanned line of the word game: `1` for
/// `TOOT`, `2` for `OTTO`, `3` (a tie) when the line completes both, `0`
/// for neither.
pub open spec fn word_first(t: bool, o: bool) -> nat {
    if t && o {
        3
    } else if t {
        1
    } else if o {
        2
    } else {
        0
    }
}

/// The credit after one more scanned line, given the credit `w` so far.
/// A line crediting the player already credited leaves `w` unchanged; one
/// crediting the other player turns the check into a tie.  A tie is
/// final.  A line completing both words credits `TOOT` first, so here the
/// tie arises only against an earlier `OTTO` credit — an asymmetry of the
/// game's rules that is preserved deliberately.
pub open spec fn word_step(w: nat, t: bool, o: bool) -> nat {
    if w == 3 {
        3
    } else if t {
        if w != 2 {
            1
        } else {
            3
        }
    } else if o {
        if w != 1 {
            2
        } else {
            3
        }
    } else {
        w
    }
}

/// The word game's verdict for an insertion at `(row, col)`: the four
/// lines through the cell are scanned in the fixed order row, column,
/// `/` diagonal, `\` diagonal, and their credits combined: `0` no
/// result, `1` player 1 won by `TOOT`, `2` player 2 won by `OTTO`, `3`
/// tie.
pub open spec fn word_outcome(b: Board, row: int, col: int) -> nat {
    let w1 = word_first(has_toot(b.row_letters(row)), has_otto(b.row_letters(row)));
    let w2 = word_step(w1, has_toot(b.col_letters(col)), has_otto(b.col_letters(col)));
    let w3 = word_step(
        w2,
        has_toot(b.rdiag_letters(row, col)),
        has_otto(b.rdiag_letters(row, col)),
    );
    word_step(w3, has_toot(b.ldiag_letters(row, col)), has_otto(b.ldiag_letters(row, col)))
}

/// Scans a line of player identifiers for a run of four `p`s.  `line` is
/// the mathematical value of `v`.
fn vec_has_run(v: &Vec<usize>, p: usize, Ghost(line): Ghost<Seq<nat>>) -> (r: bool)
    requires
        v@.len() == line.len(),
        forall|i: int| 0 <= i < v@.len() ==> #[trigger] v@[i] as nat == line[i],
    ensures
        r == has_run(line, p as nat),
{
    if v.len() < 4 {
        return false;
    }
    let mut i: usize = 0;
    while i < v.len() - 3
        invariant
            v@.len() == line.len(),
            v@.len() >= 4,
            forall|j: int| 0 <= j < v@.len() ==> #[trigger] v@[j] as nat == line[j],
            i + 3 <= v@.len(),
            forall|j: int| 0 <= j < i ==> !run_at(line, p as nat, j),
        decreases v@.len() - i,
    {
        if v[i] == p && v[i + 1] == p && v[i + 2] == p && v[i + 3] == p {
            proof {
                assert(run_at(line, p as nat, i as int));
            }
            return true;
        }
        proof {
            assert(!run_at(line, p as nat, i as int));
        }
        i = i + 1;
    }
    false
}

/// Scans a line of letters for the four letters `a b c d` in a row.
fn vec_has_word(v: &Vec<char>, a: char, b: char, c: char, d: char) -> (r: bool)
    ensures
        r == has_word(v@, a, b, c, d),
{
    if v.len() < 4 {
        return false;
    }
    let mut i: usize = 0;
    while i < v.len() - 3
        invariant
            v@.len() >= 4,
            i + 3 <= v@.len(),
            forall|j: int| 0 <= j < i ==> !word_at(v@, a, b, c, d, j),
        decreases v@.len() - i,
    {
        if v[i] == a && v[i + 1] == b && v[i + 2] == c && v[i + 3] == d {
            proof {
                assert(word_at(v@, a, b, c, d, i as int));
            }
            return true;
        }
        proof {
            assert(!word_at(v@, a, b, c, d, i as int));
        }
        i = i + 1;
    }
    false
}

/// Four-in-a-row win check around the cell `(row, col)` just filled by
/// `player_id`: `true` exactly when one of the four lines through the
/// cell holds four consecutive pieces of that player.
pub fn check_for_win_C4(board: &Board, row: usize, col: usize, player_id: usize) -> (r: bool)
    requires
        board.wf(),
        1 <= row <= board.num_rows,
        1 <= col <= board.num_cols,
    ensures
        r == c4_win_at(*board, row as int, col as int, player_id as nat),
{
    let ids_row = board.get_ids_in_row(row);
    if vec_has_run(&ids_row, player_id, Ghost(board.row_ids(row as int))) {
        return true;
    }
    let ids_col = board.get_ids_in_col(col);
    if vec_has_run(&ids_col, player_id, Ghost(board.col_ids(col as int))) {
        return true;
    }
    let ids_r_dia = board.get_ids_in_right_diagonal(row, col);
    if vec_has_run(&ids_r_dia, player_id, Ghost(board.rdiag_ids(row as int, col as int))) {
        return true;
    }
    let ids_l_dia = board.get_ids_in_left_diagonal(row, col);
    if vec_has_run(&ids_l_dia, player_id, Ghost(board.ldiag_ids(row as int, col as int))) {
        return true;
    }
    false
}

/// Word-game win check around the cell `(row, col)` just filled: `0` for
/// no result, `1` when `TOOT` credits player 1, `2` when `OTTO` credits
/// player 2, `3` for a tie, exactly as [`word_outcome`] combines the four
/// lines' credits.
pub fn check_for_win_TO(board: &Board, row: usize, col: usize) -> (r: usize)
    requires
        board.wf(),
        1 <= row <= board.num_rows,
        1 <= col <= board.num_cols,
    ensures
        r == word_outcome(*board, row as int, col as int),
        r <= 3,
{
    let ghost bd = *board;
    let mut winner: usize = 0;

    let letters_row = board.get_letters_in_row(row);
    let t = vec_has_word(&letters_row, 'T', 'O', 'O', 'T');
    let o = vec_has_word(&letters_row, 'O', 'T', 'T', 'O');
    if t {
        winner = 1;
    }
    if o {
        if winner != 1 {
            winner = 2;
        } else {
            return 3;
        }
    }
    let ghost w1 = word_first(has_toot(bd.row_letters(row as int)), has_otto(bd.row_letters(row as int)));
    proof {
        assert(winner == w1 && w1 != 3);
    }

    let letters_col = board.get_letters_in_col(col);
    let t = vec_has_word(&letters_col, 'T', 'O', 'O', 'T');
    let o = vec_has_word(&letters_col, 'O', 'T', 'T', 'O');
    if t {
        if winner != 2 {
            winner = 1;
        } else {
            return 3;
        }
    } else if o {
        if winner != 1 {
            winner = 2;
        } else {
            return 3;
        }
    }
    let ghost w2 = word_step(w1, has_toot(bd.col_letters(col as int)), has_otto(bd.col_letters(col as int)));
    proof {
        assert(winner == w2 && w2 != 3);
    }

    let letters_r_dia = board.get_letters_in_right_diagonal(row, col);
    let t = vec_has_word(&letters_r_dia, 'T', 'O', 'O', 'T');
    let o = vec_has_word(&letters_r_dia, 'O', 'T', 'T', 'O');
    if t {
        if winner != 2 {
            winner = 1;
        } else {
            return 3;
        }
    } else if o {
        if winner != 1 {
            winner = 2;
        } else {
            return 3;
        }
    }
    let ghost w3 = word_step(
        w2,
        has_toot(bd.rdiag_letters(row as int, col as int)),
        has_otto(bd.rdiag_letters(row as int, col as int)),
    );
    proof {
        assert(winner == w3 && w3 != 3);
    }

    let letters_l_dia = board.get_letters_in_left_diagonal(row, col);
    let t = vec_has_word(&letters_l_dia, 'T', 'O', 'O', 'T');
    let o = vec_has_word(&letters_l_dia, 'O', 'T', 'T', 'O');
    if t {
        if winner != 2 {
            winner = 1;
        } else {
            return 3;
        }
    } else if o {
        if winner != 1 {
            winner = 2;
        } else {
            return 3;
        }
    }
    winner
}

/// Win detection is direction-agnostic: a run of four on any one of the
/// four lines through the inserted cell — row, column or either diagonal
/// — independently triggers a win, and a board whose four lines hold no
/// such run never does.
pub proof fn lemma_win_direction_agnostic(b: Board, row: int, col: int, p: nat)
    ensures
        has_run(b.row_ids(row), p) ==> c4_win_at(b, row, col, p),
        has_run(b.col_ids(col), p) ==> c4_win_at(b, row, col, p),
        has_run(b.rdiag_ids(row, col), p) ==> c4_win_at(b, row, col, p),
        has_run(b.ldiag_ids(row, col), p) ==> c4_win_at(b, row, col, p),
        !has_run(b.row_ids(row), p) && !has_run(b.col_ids(col), p) && !has_run(
            b.rdiag_ids(row, col),
            p,
        ) && !has_run(b.ldiag_ids(row, col), p) ==> !c4_win_at(b, row, col, p),
{
}

/// A line that completes only `TOOT`.
pub open spec fn toot_only(s: Seq<char>) -> bool {
    has_toot(s) && !has_otto(s)
}

/// A line that completes only `OTTO`.
pub open spec fn otto_only(s: Seq<char>) -> bool {
    has_otto(s) && !has_toot(s)
}

/// Word-variant tie: when, among the four lines through the inserted
/// cell, some line completes `TOOT` alone and some line completes `OTTO`
/// alone, the verdict is a tie — never a single-player win — whatever
/// the other lines hold.
pub proof fn lemma_word_tie(b: Board, row: int, col: int)
    requires
        toot_only(b.row_letters(row)) || toot_only(b.col_letters(col)) || toot_only(
            b.rdiag_letters(row, col),
        ) || toot_only(b.ldiag_letters(row, col)),
        otto_only(b.row_letters(row)) || otto_only(b.col_letters(col)) || otto_only(
            b.rdiag_letters(row, col),
        ) || otto_only(b.ldiag_letters(row, col)),
    ensures
        word_outcome(b, row, col) == 3,
{
}

} // verus!
