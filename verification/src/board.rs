//! The grid itself: a fixed-size, 1-indexed cell store with gravity-based
//! column insertion.  A board is owned by one game session and is mutated
//! only through the insertion operations; the search engine explores
//! hypothetical futures on independent copies.

use vstd::prelude::*;

use crate::game::GameError;
use crate::game::Player;
use crate::game::Space;
use crate::game::Variant;
use crate::game::id_of;
use crate::game::letter_of;
use crate::game::letter_ok;
use crate::game::player_ok;
use crate::model::gcols;
use crate::model::gdrop_row;
use crate::model::gdrop_upto;
use crate::model::gid;
use crate::model::ginsert;
use crate::model::gopen;
use crate::model::grows;
use crate::model::gwf;
use crate::model::lemma_gdrop_upto;

verus! {

/// A `rows x cols` matrix of [`Space`]s plus its fixed dimensions.
/// `pieces` is a vector of columns, each column a vector of rows, so the
/// cell at 1-indexed `(row, col)` sits at `pieces[col - 1][row - 1]`.
pub struct Board {
    pub pieces: Vec<Vec<Space>>,
    pub num_rows: usize,
    pub num_cols: usize,
}

impl Board {
    /// Well-formedness: the dimensions are those of one of the two game
    /// variants and never change; every column has the full height; every
    /// cell remembers its own coordinates; occupants are valid.
    pub open spec fn wf(self) -> bool {
        &&& (self.num_rows == 6 && self.num_cols == 7) || (self.num_rows == 4 && self.num_cols
            == 6)
        &&& self.pieces@.len() == self.num_cols
        &&& forall|c: int|
            0 <= c < self.num_cols ==> (#[trigger] self.pieces@[c])@.len() == self.num_rows
        &&& forall|c: int, r: int|
            0 <= c < self.num_cols && 0 <= r < self.num_rows ==> {
                let s = #[trigger] self.pieces@[c]@[r];
                &&& s.row == r + 1
                &&& s.col == c + 1
                &&& player_ok(s.player)
                &&& letter_ok(s.letter)
            }
    }

    /// The cell at 1-indexed `(row, col)`.
    pub open spec fn cell(self, row: int, col: int) -> Space {
        self.pieces@[col - 1]@[row - 1]
    }

    /// The player identifier shown at `(row, col)`: the occupant's id, `0`
    /// for an empty cell, and `0` for any coordinates off the grid.
    pub open spec fn id_at(self, row: int, col: int) -> nat {
        if 1 <= row <= self.num_rows && 1 <= col <= self.num_cols {
            id_of(self.cell(row, col).player)
        } else {
            0
        }
    }

    /// The letter shown at `(row, col)`: the token there, `'-'` for an
    /// empty cell, and `'-'` for any coordinates off the grid.
    pub open spec fn letter_at(self, row: int, col: int) -> char {
        if 1 <= row <= self.num_rows && 1 <= col <= self.num_cols {
            letter_of(self.cell(row, col).letter)
        } else {
            '-'
        }
    }

    /// The grid of player identifiers, as columns of rows, both 0-indexed.
    /// This is the board model the evaluator and the search engine reason
    /// over.
    pub open spec fn id_view(self) -> Seq<Seq<nat>> {
        Seq::new(
            self.num_cols as nat,
            |c: int| Seq::new(self.num_rows as nat, |r: int| id_of(self.pieces@[c]@[r].player)),
        )
    }

    /// The identifier grid model shows exactly the identifiers the board
    /// shows: same dimensions, same entry at every coordinate.
    pub proof fn lemma_id_view_matches(self)
        requires
            self.wf(),
        ensures
            gwf(self.id_view()),
            gcols(self.id_view()) == self.num_cols,
            grows(self.id_view()) == self.num_rows,
            forall|r: int, c: int| #[trigger] gid(self.id_view(), r, c) == self.id_at(r, c),
    {
        let g = self.id_view();
        assert(g[0].len() == self.num_rows);
        assert(forall|c: int| 0 <= c < g.len() ==> (#[trigger] g[c]).len() == grows(g));
        assert forall|r: int, c: int| #[trigger] gid(g, r, c) == self.id_at(r, c) by {
            if 1 <= r <= self.num_rows && 1 <= c <= self.num_cols {
                assert(g[c - 1][r - 1] == id_of(self.pieces@[c - 1]@[r - 1].player));
            }
        }
    }

    /// Whether this board shows exactly the same cells as `other`.
    pub open spec fn unchanged_from(self, other: Board) -> bool {
        &&& self.num_rows == other.num_rows
        &&& self.num_cols == other.num_cols
        &&& forall|r: int, c: int|
            1 <= r <= self.num_rows && 1 <= c <= self.num_cols ==> self.cell(r, c) == other.cell(
                r,
                c,
            )
        &&& self.id_view() == other.id_view()
    }

    /// The landing row of a letter token dropped into `col`, restricted
    /// to rows `1..=r`: the bottommost row among them with no letter, or
    /// `0` when they all hold one.
    pub open spec fn ldrop_upto(self, col: int, r: int) -> int
        decreases r,
    {
        if r < 1 {
            0
        } else if self.letter_at(r, col) == '-' {
            r
        } else {
            self.ldrop_upto(col, r - 1)
        }
    }

    /// The row where a letter dropped into `col` lands, `0` when the
    /// column is full of letters.
    pub open spec fn letter_drop_row(self, col: int) -> int {
        self.ldrop_upto(col, self.num_rows as int)
    }

    /// Whether `col` still accepts a letter token.
    pub open spec fn letter_open(self, col: int) -> bool {
        self.letter_drop_row(col) >= 1
    }

    /// Whether any column still accepts a letter token.
    pub open spec fn letter_has_open(self) -> bool {
        exists|c: int| 1 <= c <= self.num_cols && self.letter_open(c)
    }

    /// What `ldrop_upto` finds, in the manner of
    /// [`crate::model::lemma_gdrop_upto`].
    pub proof fn lemma_ldrop_upto(self, col: int, r: int)
        ensures
            0 <= self.ldrop_upto(col, r),
            r >= 0 ==> self.ldrop_upto(col, r) <= r,
            self.ldrop_upto(col, r) == 0 ==> forall|q: int|
                1 <= q <= r ==> #[trigger] self.letter_at(q, col) != '-',
            self.ldrop_upto(col, r) >= 1 ==> self.letter_at(self.ldrop_upto(col, r), col) == '-',
            forall|q: int| self.ldrop_upto(col, r) < q <= r ==> #[trigger] self.letter_at(q, col) != '-',
        decreases r,
    {
        if r >= 1 && self.letter_at(r, col) != '-' {
            self.lemma_ldrop_upto(col, r - 1);
        }
    }

    /// Creates the empty board of the chosen variant.  The variant must be
    /// fixed before any board exists; callers that take game names resolve
    /// them through [`crate::game::variant_from_name`] first.
    pub fn new(variant: Variant) -> (b: Board)
        ensures
            b.wf(),
            b.num_rows == variant.rows_spec(),
            b.num_cols == variant.cols_spec(),
            forall|r: int, c: int| b.id_at(r, c) == 0,
            forall|r: int, c: int| b.letter_at(r, c) == '-',
    {
        let num_rows = variant.rows();
        let num_cols = variant.cols();
        let mut pieces: Vec<Vec<Space>> = Vec::new();
        let mut i: usize = 0;
        while i < num_cols
            invariant
                i <= num_cols,
                pieces@.len() == i,
                forall|c: int| 0 <= c < i ==> (#[trigger] pieces@[c])@.len() == num_rows,
                forall|c: int, r: int|
                    0 <= c < i && 0 <= r < num_rows ==> {
                        let s = #[trigger] pieces@[c]@[r];
                        &&& s.row == r + 1
                        &&& s.col == c + 1
                        &&& s.player is None
                        &&& s.letter is None
                    },
            decreases num_cols - i,
        {
            let mut col: Vec<Space> = Vec::new();
            let mut j: usize = 0;
            while j < num_rows
                invariant
                    i < num_cols,
                    j <= num_rows,
                    col@.len() == j,
                    forall|r: int|
                        0 <= r < j ==> {
                            let s = #[trigger] col@[r];
                            &&& s.row == r + 1
                            &&& s.col == i + 1
                            &&& s.player is None
                            &&& s.letter is None
                        },
                decreases num_rows - j,
            {
                col.push(Space::new(j + 1, i + 1, None, None));
                j = j + 1;
            }
            pieces.push(col);
            i = i + 1;
        }
        Board { pieces, num_rows, num_cols }
    }

    pub fn rows(&self) -> (r: usize)
        ensures
            r == self.num_rows,
    {
        self.num_rows
    }

    pub fn cols(&self) -> (r: usize)
        ensures
            r == self.num_cols,
    {
        self.num_cols
    }

    /// The [`Space`] at the given 1-indexed coordinates, which must lie on
    /// the grid; [`Board::occupant_at`] is the total lookup.
    pub fn get_piece(&self, row: usize, col: usize) -> (s: Space)
        requires
            self.wf(),
            1 <= row <= self.num_rows,
            1 <= col <= self.num_cols,
        ensures
            s == self.cell(row as int, col as int),
    {
        self.pieces[col - 1][row - 1]
    }

    /// Pure lookup of the cell at `(row, col)`; coordinates off the grid
    /// are rejected with [`GameError::InvalidCell`].
    pub fn occupant_at(&self, row: usize, col: usize) -> (r: Result<Space, GameError>)
        requires
            self.wf(),
        ensures
            1 <= row <= self.num_rows && 1 <= col <= self.num_cols ==> r == Ok::<
                Space,
                GameError,
            >(self.cell(row as int, col as int)),
            !(1 <= row <= self.num_rows && 1 <= col <= self.num_cols) ==> r == Err::<
                Space,
                GameError,
            >(GameError::InvalidCell),
    {
        if 1 <= row && row <= self.num_rows && 1 <= col && col <= self.num_cols {
            Ok(self.pieces[col - 1][row - 1])
        } else {
            Err(GameError::InvalidCell)
        }
    }

    /// Places `player`'s piece at the given cell (for the four-in-a-row
    /// game).  Everything else on the board is untouched.
    pub fn set_piece_player(&mut self, row: usize, col: usize, player: Player)
        requires
            old(self).wf(),
            1 <= row <= old(self).num_rows,
            1 <= col <= old(self).num_cols,
            player.id >= 1,
        ensures
            final(self).wf(),
            final(self).num_rows == old(self).num_rows,
            final(self).num_cols == old(self).num_cols,
            final(self).cell(row as int, col as int).player == Some(player),
            final(self).cell(row as int, col as int).letter == old(self).cell(
                row as int,
                col as int,
            ).letter,
            forall|r: int, c: int|
                1 <= r <= old(self).num_rows && 1 <= c <= old(self).num_cols && !(r == row && c
                    == col) ==> final(self).cell(r, c) == old(self).cell(r, c),
    {
        self.pieces[col - 1][row - 1].player = Some(player);
    }

    /// Places a letter token at the given cell (for the word game).
    /// Everything else on the board is untouched.
    pub fn set_piece_letter(&mut self, row: usize, col: usize, letter: char)
        requires
            old(self).wf(),
            1 <= row <= old(self).num_rows,
            1 <= col <= old(self).num_cols,
            letter == 'T' || letter == 'O',
        ensures
            final(self).wf(),
            final(self).num_rows == old(self).num_rows,
            final(self).num_cols == old(self).num_cols,
            final(self).cell(row as int, col as int).letter == Some(letter),
            final(self).cell(row as int, col as int).player == old(self).cell(
                row as int,
                col as int,
            ).player,
            forall|r: int, c: int|
                1 <= r <= old(self).num_rows && 1 <= c <= old(self).num_cols && !(r == row && c
                    == col) ==> final(self).cell(r, c) == old(self).cell(r, c),
    {
        self.pieces[col - 1][row - 1].letter = Some(letter);
    }

    /// Deep copy.  The search engine explores hypothetical futures on such
    /// copies, so the caller's live board is never mutated by a search.
    pub fn clone(&self) -> (b: Board)
        requires
            self.wf(),
        ensures
            b.wf(),
            b.num_rows == self.num_rows,
            b.num_cols == self.num_cols,
            forall|r: int, c: int|
                1 <= r <= self.num_rows && 1 <= c <= self.num_cols ==> b.cell(r, c) == self.cell(
                    r,
                    c,
                ),
            b.id_view() == self.id_view(),
    {
        let mut pieces: Vec<Vec<Space>> = Vec::new();
        let mut i: usize = 0;
        while i < self.num_cols
            invariant
                self.wf(),
                i <= self.num_cols,
                pieces@.len() == i,
                forall|c: int| 0 <= c < i ==> #[trigger] pieces@[c]@ == self.pieces@[c]@,
            decreases self.num_cols - i,
        {
            let mut col: Vec<Space> = Vec::new();
            let mut j: usize = 0;
            while j < self.num_rows
                invariant
                    self.wf(),
                    i < self.num_cols,
                    j <= self.num_rows,
                    col@.len() == j,
                    forall|r: int| 0 <= r < j ==> col@[r] == self.pieces@[i as int]@[r],
                decreases self.num_rows - j,
            {
                col.push(self.pieces[i][j]);
                j = j + 1;
            }
            proof {
                assert(col@ =~= self.pieces@[i as int]@);
            }
            pieces.push(col);
            i = i + 1;
        }
        let b = Board { pieces, num_rows: self.num_rows, num_cols: self.num_cols };
        proof {
            assert(b.id_view() =~~= self.id_view());
        }
        b
    }

    /// Gravity insertion for the four-in-a-row game: `player_id`'s piece
    /// drops into `col` and lands in the bottommost empty cell, whose row
    /// is returned.  A column outside `[1, cols]` is rejected with
    /// [`GameError::InvalidColumn`]; a column with no empty cell with
    /// [`GameError::ColumnFull`]; either way the board is untouched.
    pub fn insert_piece_C4(&mut self, col: usize, player_id: usize) -> (r: Result<
        usize,
        GameError,
    >)
        requires
            old(self).wf(),
            player_id >= 1,
        ensures
            final(self).wf(),
            final(self).num_rows == old(self).num_rows,
            final(self).num_cols == old(self).num_cols,
            !(1 <= col <= old(self).num_cols) ==> r == Err::<usize, GameError>(
                GameError::InvalidColumn,
            ) && final(self).unchanged_from(*old(self)),
            1 <= col <= old(self).num_cols && !gopen(old(self).id_view(), col as int) ==> r
                == Err::<usize, GameError>(GameError::ColumnFull) && final(self).unchanged_from(
                *old(self),
            ),
            1 <= col <= old(self).num_cols && gopen(old(self).id_view(), col as int) ==> {
                let d = gdrop_row(old(self).id_view(), col as int);
                &&& r == Ok::<usize, GameError>(d as usize)
                &&& 1 <= d <= old(self).num_rows
                &&& old(self).id_at(d, col as int) == 0
                &&& forall|q: int| d < q <= old(self).num_rows ==> old(self).id_at(q, col as int)
                    != 0
                &&& final(self).id_view() == ginsert(
                    old(self).id_view(),
                    col as int,
                    player_id as nat,
                )
                &&& final(self).cell(d, col as int).player == Some(Player { id: player_id })
                &&& final(self).cell(d, col as int).letter == old(self).cell(d, col as int).letter
                &&& forall|rr: int, cc: int|
                    1 <= rr <= old(self).num_rows && 1 <= cc <= old(self).num_cols && !(rr == d
                        && cc == col) ==> final(self).cell(rr, cc) == old(self).cell(rr, cc)
            },
    {
        if col < 1 || col > self.num_cols {
            proof {
                assert(self.id_view() =~~= self.id_view());
            }
            return Err(GameError::InvalidColumn);
        }
        let ghost g = self.id_view();
        let ghost colv = g[col - 1];
        proof {
            assert(forall|q: int|
                1 <= q <= self.num_rows ==> colv[q - 1] == #[trigger] self.id_at(q, col as int));
            lemma_gdrop_upto(colv, self.num_rows as int);
        }
        let mut row: usize = self.num_rows;
        while row >= 1
            invariant
                *self == *old(self),
                old(self).wf(),
                player_id >= 1,
                1 <= col <= old(self).num_cols,
                row <= old(self).num_rows,
                g == old(self).id_view(),
                colv == g[col - 1],
                gdrop_upto(colv, old(self).num_rows as int) == gdrop_upto(colv, row as int),
            decreases row,
        {
            let sp = self.get_piece(row, col);
            match sp.player {
                None => {
                    proof {
                        assert(colv[row - 1] == 0);
                        assert(gdrop_upto(colv, row as int) == row);
                        lemma_gdrop_upto(colv, old(self).num_rows as int);
                        assert(forall|q: int|
                            1 <= q <= old(self).num_rows ==> colv[q - 1] == #[trigger] old(
                                self,
                            ).id_at(q, col as int));
                    }
                    self.set_piece_player(row, col, Player { id: player_id });
                    proof {
                        assert(grows(g) == old(self).num_rows);
                        assert(gdrop_row(g, col as int) == row);
                        let gnew = self.id_view();
                        let target = ginsert(g, col as int, player_id as nat);
                        assert forall|c: int, q: int|
                            0 <= c < old(self).num_cols && 0 <= q < old(self).num_rows implies
                            #[trigger] gnew[c][q] == target[c][q] by {
                            if c == col - 1 && q == row - 1 {
                                assert(gnew[c][q] == player_id as nat);
                            } else {
                                assert(self.cell(q + 1, c + 1) == old(self).cell(q + 1, c + 1));
                            }
                        }
                        assert(gnew =~~= target);
                    }
                    return Ok(row);
                },
                Some(_) => {
                    proof {
                        assert(colv[row - 1] != 0);
                        assert(gdrop_upto(colv, row as int) == gdrop_upto(colv, row - 1));
                    }
                },
            }
            row = row - 1;
        }
        proof {
            assert(gdrop_upto(colv, 0) == 0);
            assert(!gopen(g, col as int));
            assert(self.id_view() =~~= self.id_view());
        }
        Err(GameError::ColumnFull)
    }

    /// Gravity insertion for the word game: the letter token drops into
    /// `col` and lands in the bottommost cell that holds no letter, whose
    /// row is returned.  The same columns are rejected as in
    /// [`Board::insert_piece_C4`], here judged by letter occupancy.
    pub fn insert_piece_TO(&mut self, col: usize, letter: char) -> (r: Result<usize, GameError>)
        requires
            old(self).wf(),
            letter == 'T' || letter == 'O',
        ensures
            final(self).wf(),
            final(self).num_rows == old(self).num_rows,
            final(self).num_cols == old(self).num_cols,
            !(1 <= col <= old(self).num_cols) ==> r == Err::<usize, GameError>(
                GameError::InvalidColumn,
            ) && final(self).unchanged_from(*old(self)),
            1 <= col <= old(self).num_cols && !old(self).letter_open(col as int) ==> r == Err::<
                usize,
                GameError,
            >(GameError::ColumnFull) && final(self).unchanged_from(*old(self)),
            1 <= col <= old(self).num_cols && old(self).letter_open(col as int) ==> {
                let d = old(self).letter_drop_row(col as int);
                &&& r == Ok::<usize, GameError>(d as usize)
                &&& 1 <= d <= old(self).num_rows
                &&& old(self).letter_at(d, col as int) == '-'
                &&& forall|q: int|
                    d < q <= old(self).num_rows ==> old(self).letter_at(q, col as int) != '-'
                &&& final(self).id_view() == old(self).id_view()
                &&& final(self).cell(d, col as int).letter == Some(letter)
                &&& final(self).letter_at(d, col as int) == letter
                &&& final(self).cell(d, col as int).player == old(self).cell(d, col as int).player
                &&& forall|rr: int, cc: int|
                    1 <= rr <= old(self).num_rows && 1 <= cc <= old(self).num_cols && !(rr == d
                        && cc == col) ==> final(self).cell(rr, cc) == old(self).cell(rr, cc)
            },
    {
        if col < 1 || col > self.num_cols {
            proof {
                assert(self.id_view() =~~= self.id_view());
            }
            return Err(GameError::InvalidColumn);
        }
        proof {
            old(self).lemma_ldrop_upto(col as int, old(self).num_rows as int);
        }
        let mut row: usize = self.num_rows;
        while row >= 1
            invariant
                *self == *old(self),
                old(self).wf(),
                letter == 'T' || letter == 'O',
                1 <= col <= old(self).num_cols,
                row <= old(self).num_rows,
                old(self).letter_drop_row(col as int) == old(self).ldrop_upto(
                    col as int,
                    row as int,
                ),
            decreases row,
        {
            let sp = self.get_piece(row, col);
            match sp.letter {
                None => {
                    proof {
                        assert(old(self).letter_at(row as int, col as int) == '-');
                        assert(old(self).ldrop_upto(col as int, row as int) == row);
                        old(self).lemma_ldrop_upto(col as int, old(self).num_rows as int);
                    }
                    self.set_piece_letter(row, col, letter);
                    proof {
                        let gnew = self.id_view();
                        let gold = old(self).id_view();
                        assert forall|c: int, q: int|
                            0 <= c < old(self).num_cols && 0 <= q < old(self).num_rows implies
                            #[trigger] gnew[c][q] == gold[c][q] by {
                            if c == col - 1 && q == row - 1 {
                                assert(self.cell(q + 1, c + 1).player == old(self).cell(
                                    q + 1,
                                    c + 1,
                                ).player);
                            } else {
                                assert(self.cell(q + 1, c + 1) == old(self).cell(q + 1, c + 1));
                            }
                        }
                        assert(gnew =~~= gold);
                    }
                    return Ok(row);
                },
                Some(_) => {
                    proof {
                        assert(old(self).letter_at(row as int, col as int) != '-');
                        assert(old(self).ldrop_upto(col as int, row as int) == old(
                            self,
                        ).ldrop_upto(col as int, row - 1));
                    }
                },
            }
            row = row - 1;
        }
        proof {
            assert(old(self).ldrop_upto(col as int, 0) == 0);
            assert(self.id_view() =~~= self.id_view());
        }
        Err(GameError::ColumnFull)
    }
}

} // verus!
