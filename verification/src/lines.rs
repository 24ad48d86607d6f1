//! The line extractor: for a cell, the four full lines through it (its
//! row, its column and both diagonals), clipped to the grid, as ordered
//! sequences of cell contents.  Win detection and the evaluator both work
//! on these lines.

use vstd::prelude::*;

use crate::board::Board;

verus! {

/// The smaller of two integers.
pub open spec fn imin(a: int, b: int) -> int {
    if a <= b {
        a
    } else {
        b
    }
}

/// The larger of two integers.
pub open spec fn imax(a: int, b: int) -> int {
    if a >= b {
        a
    } else {
        b
    }
}

impl Board {
    /// The player identifiers along row `row`, left to right.
    pub open spec fn row_ids(self, row: int) -> Seq<nat> {
        Seq::new(self.num_cols as nat, |i: int| self.id_at(row, i + 1))
    }

    /// The player identifiers along column `col`, top to bottom.
    pub open spec fn col_ids(self, col: int) -> Seq<nat> {
        Seq::new(self.num_rows as nat, |i: int| self.id_at(i + 1, col))
    }

    /// Bottommost row of the `/` diagonal through `(row, col)`.
    pub open spec fn rdiag_row(self, row: int, col: int) -> int {
        imin(self.num_rows as int, row + col - 1)
    }

    /// Leftmost column of the `/` diagonal through `(row, col)`.
    pub open spec fn rdiag_col(self, row: int, col: int) -> int {
        row + col - self.rdiag_row(row, col)
    }

    /// Number of cells of the `/` diagonal through `(row, col)`.
    pub open spec fn rdiag_len(self, row: int, col: int) -> int {
        imin(
            self.rdiag_row(row, col) - 1,
            self.num_cols - self.rdiag_col(row, col),
        ) + 1
    }

    /// The player identifiers along the `/` diagonal through
    /// `(row, col)`, from its bottom-left end to its top-right end.
    pub open spec fn rdiag_ids(self, row: int, col: int) -> Seq<nat> {
        Seq::new(
            self.rdiag_len(row, col) as nat,
            |i: int| self.id_at(self.rdiag_row(row, col) - i, self.rdiag_col(row, col) + i),
        )
    }

    /// Topmost row of the `\` diagonal through `(row, col)`.
    pub open spec fn ldiag_row(self, row: int, col: int) -> int {
        row - imin(row - 1, col - 1)
    }

    /// Leftmost column of the `\` diagonal through `(row, col)`.
    pub open spec fn ldiag_col(self, row: int, col: int) -> int {
        col - imin(row - 1, col - 1)
    }

    /// Number of cells of the `\` diagonal through `(row, col)`.
    pub open spec fn ldiag_len(self, row: int, col: int) -> int {
        imin(
            self.num_rows - self.ldiag_row(row, col),
            self.num_cols - self.ldiag_col(row, col),
        ) + 1
    }

    /// The player identifiers along the `\` diagonal through
    /// `(row, col)`, from its top-left end to its bottom-right end.
    pub open spec fn ldiag_ids(self, row: int, col: int) -> Seq<nat> {
        Seq::new(
            self.ldiag_len(row, col) as nat,
            |i: int| self.id_at(self.ldiag_row(row, col) + i, self.ldiag_col(row, col) + i),
        )
    }

    /// The letters along row `row`, left to right.
    pub open spec fn row_letters(self, row: int) -> Seq<char> {
        Seq::new(self.num_cols as nat, |i: int| self.letter_at(row, i + 1))
    }

    /// The letters along column `col`, top to bottom.
    pub open spec fn col_letters(self, col: int) -> Seq<char> {
        Seq::new(self.num_rows as nat, |i: int| self.letter_at(i + 1, col))
    }

    /// The letters along the `/` diagonal through `(row, col)`.
    pub open spec fn rdiag_letters(self, row: int, col: int) -> Seq<char> {
        Seq::new(
            self.rdiag_len(row, col) as nat,
            |i: int| self.letter_at(self.rdiag_row(row, col) - i, self.rdiag_col(row, col) + i),
        )
    }

    /// The letters along the `\` diagonal through `(row, col)`.
    pub open spec fn ldiag_letters(self, row: int, col: int) -> Seq<char> {
        Seq::new(
            self.ldiag_len(row, col) as nat,
            |i: int| self.letter_at(self.ldiag_row(row, col) + i, self.ldiag_col(row, col) + i),
        )
    }

    /// The player identifiers in row `row`, `0` standing for an empty
    /// cell.
    pub fn get_ids_in_row(&self, row: usize) -> (res: Vec<usize>)
        requires
            self.wf(),
            1 <= row <= self.num_rows,
        ensures
            res@.len() == self.row_ids(row as int).len(),
            forall|i: int|
                0 <= i < res@.len() ==> #[trigger] res@[i] as nat == self.row_ids(row as int)[i],
    {
        let mut res: Vec<usize> = Vec::new();
        let mut col: usize = 1;
        while col <= self.num_cols
            invariant
                self.wf(),
                1 <= row <= self.num_rows,
                1 <= col <= self.num_cols + 1,
                res@.len() == col - 1,
                forall|i: int|
                    0 <= i < col - 1 ==> #[trigger] res@[i] as nat == self.id_at(row as int, i + 1),
            decreases self.num_cols + 1 - col,
        {
            match self.get_piece(row, col).player {
                None => res.push(0),
                Some(player) => res.push(player.id),
            }
            col = col + 1;
        }
        res
    }

    /// The player identifiers in column `col`, top to bottom.
    pub fn get_ids_in_col(&self, col: usize) -> (res: Vec<usize>)
        requires
            self.wf(),
            1 <= col <= self.num_cols,
        ensures
            res@.len() == self.col_ids(col as int).len(),
            forall|i: int|
                0 <= i < res@.len() ==> #[trigger] res@[i] as nat == self.col_ids(col as int)[i],
    {
        let mut res: Vec<usize> = Vec::new();
        let mut row: usize = 1;
        while row <= self.num_rows
            invariant
                self.wf(),
                1 <= col <= self.num_cols,
                1 <= row <= self.num_rows + 1,
                res@.len() == row - 1,
                forall|i: int|
                    0 <= i < row - 1 ==> #[trigger] res@[i] as nat == self.id_at(i + 1, col as int),
            decreases self.num_rows + 1 - row,
        {
            match self.get_piece(row, col).player {
                None => res.push(0),
                Some(player) => res.push(player.id),
            }
            row = row + 1;
        }
        res
    }

    /// The player identifiers along the `/` diagonal through
    /// `(row, col)`, from its bottom-left end up to its top-right end.
    pub fn get_ids_in_right_diagonal(&self, row: usize, col: usize) -> (res: Vec<usize>)
        requires
            self.wf(),
            1 <= row <= self.num_rows,
            1 <= col <= self.num_cols,
        ensures
            res@.len() == self.rdiag_ids(row as int, col as int).len(),
            forall|i: int|
                0 <= i < res@.len() ==> #[trigger] res@[i] as nat == self.rdiag_ids(
                    row as int,
                    col as int,
                )[i],
    {
        let ghost row0 = self.rdiag_row(row as int, col as int);
        let ghost col0 = self.rdiag_col(row as int, col as int);
        let mut r: usize = row;
        let mut c: usize = col;
        // Walk down-left to the bottom-left end of the diagonal.
        while r < self.num_rows && c > 1
            invariant
                self.wf(),
                1 <= r <= self.num_rows,
                1 <= c <= self.num_cols,
                r + c == row + col,
            decreases self.num_rows - r,
        {
            r = r + 1;
            c = c - 1;
        }
        proof {
            assert(r == row0);
            assert(c == col0);
        }
        // Walk up-right, collecting the whole diagonal.
        let mut res: Vec<usize> = Vec::new();
        while r >= 1 && c <= self.num_cols
            invariant
                self.wf(),
                row0 == self.rdiag_row(row as int, col as int),
                col0 == self.rdiag_col(row as int, col as int),
                1 <= row0 <= self.num_rows,
                1 <= col0 <= self.num_cols,
                r == row0 - res@.len(),
                c == col0 + res@.len(),
                res@.len() <= self.rdiag_len(row as int, col as int),
                1 <= row <= self.num_rows,
                1 <= col <= self.num_cols,
                forall|i: int|
                    0 <= i < res@.len() ==> #[trigger] res@[i] as nat == self.id_at(
                        row0 - i,
                        col0 + i,
                    ),
            decreases self.num_cols + 1 - c,
        {
            match self.get_piece(r, c).player {
                None => res.push(0),
                Some(player) => res.push(player.id),
            }
            r = r - 1;
            c = c + 1;
        }
        proof {
            assert(res@.len() == self.rdiag_len(row as int, col as int));
        }
        res
    }

    /// The player identifiers along the `\` diagonal through
    /// `(row, col)`, from its top-left end down to its bottom-right end.
    pub fn get_ids_in_left_diagonal(&self, row: usize, col: usize) -> (res: Vec<usize>)
        requires
            self.wf(),
            1 <= row <= self.num_rows,
            1 <= col <= self.num_cols,
        ensures
            res@.len() == self.ldiag_ids(row as int, col as int).len(),
            forall|i: int|
                0 <= i < res@.len() ==> #[trigger] res@[i] as nat == self.ldiag_ids(
                    row as int,
                    col as int,
                )[i],
    {
        let ghost row0 = self.ldiag_row(row as int, col as int);
        let ghost col0 = self.ldiag_col(row as int, col as int);
        let mut r: usize = row;
        let mut c: usize = col;
        // Walk up-left to the top-left end of the diagonal.
        while r > 1 && c > 1
            invariant
                self.wf(),
                1 <= r <= self.num_rows,
                1 <= c <= self.num_cols,
                r - c == row - col,
            decreases r,
        {
            r = r - 1;
            c = c - 1;
        }
        proof {
            assert(r == row0);
            assert(c == col0);
        }
        // Walk down-right, collecting the whole diagonal.
        let mut res: Vec<usize> = Vec::new();
        while r <= self.num_rows && c <= self.num_cols
            invariant
                self.wf(),
                row0 == self.ldiag_row(row as int, col as int),
                col0 == self.ldiag_col(row as int, col as int),
                1 <= row0 <= self.num_rows,
                1 <= col0 <= self.num_cols,
                r == row0 + res@.len(),
                c == col0 + res@.len(),
                res@.len() <= self.ldiag_len(row as int, col as int),
                1 <= row <= self.num_rows,
                1 <= col <= self.num_cols,
                forall|i: int|
                    0 <= i < res@.len() ==> #[trigger] res@[i] as nat == self.id_at(
                        row0 + i,
                        col0 + i,
                    ),
            decreases self.num_cols + 1 - c,
        {
            match self.get_piece(r, c).player {
                None => res.push(0),
                Some(player) => res.push(player.id),
            }
            r = r + 1;
            c = c + 1;
        }
        proof {
            assert(res@.len() == self.ldiag_len(row as int, col as int));
        }
        res
    }

    /// The letters in row `row`, `'-'` standing for an empty cell.
    pub fn get_letters_in_row(&self, row: usize) -> (res: Vec<char>)
        requires
            self.wf(),
            1 <= row <= self.num_rows,
        ensures
            res@ == self.row_letters(row as int),
    {
        let mut res: Vec<char> = Vec::new();
        let mut col: usize = 1;
        while col <= self.num_cols
            invariant
                self.wf(),
                1 <= row <= self.num_rows,
                1 <= col <= self.num_cols + 1,
                res@.len() == col - 1,
                forall|i: int|
                    0 <= i < col - 1 ==> #[trigger] res@[i] == self.letter_at(row as int, i + 1),
            decreases self.num_cols + 1 - col,
        {
            match self.get_piece(row, col).letter {
                None => res.push('-'),
                Some(letter) => res.push(letter),
            }
            col = col + 1;
        }
        proof {
            assert(res@ =~= self.row_letters(row as int));
        }
        res
    }

    /// The letters in column `col`, top to bottom.
    pub fn get_letters_in_col(&self, col: usize) -> (res: Vec<char>)
        requires
            self.wf(),
            1 <= col <= self.num_cols,
        ensures
            res@ == self.col_letters(col as int),
    {
        let mut res: Vec<char> = Vec::new();
        let mut row: usize = 1;
        while row <= self.num_rows
            invariant
                self.wf(),
                1 <= col <= self.num_cols,
                1 <= row <= self.num_rows + 1,
                res@.len() == row - 1,
                forall|i: int|
                    0 <= i < row - 1 ==> #[trigger] res@[i] == self.letter_at(i + 1, col as int),
            decreases self.num_rows + 1 - row,
        {
            match self.get_piece(row, col).letter {
                None => res.push('-'),
                Some(letter) => res.push(letter),
            }
            row = row + 1;
        }
        proof {
            assert(res@ =~= self.col_letters(col as int));
        }
        res
    }

    /// The letters along the `/` diagonal through `(row, col)`, from its
    /// bottom-left end up to its top-right end.
    pub fn get_letters_in_right_diagonal(&self, row: usize, col: usize) -> (res: Vec<char>)
        requires
            self.wf(),
            1 <= row <= self.num_rows,
            1 <= col <= self.num_cols,
        ensures
            res@ == self.rdiag_letters(row as int, col as int),
    {
        let ghost row0 = self.rdiag_row(row as int, col as int);
        let ghost col0 = self.rdiag_col(row as int, col as int);
        let mut r: usize = row;
        let mut c: usize = col;
        while r < self.num_rows && c > 1
            invariant
                self.wf(),
                1 <= r <= self.num_rows,
                1 <= c <= self.num_cols,
                r + c == row + col,
            decreases self.num_rows - r,
        {
            r = r + 1;
            c = c - 1;
        }
        proof {
            assert(r == row0);
            assert(c == col0);
        }
        let mut res: Vec<char> = Vec::new();
        while r >= 1 && c <= self.num_cols
            invariant
                self.wf(),
                row0 == self.rdiag_row(row as int, col as int),
                col0 == self.rdiag_col(row as int, col as int),
                1 <= row0 <= self.num_rows,
                1 <= col0 <= self.num_cols,
                r == row0 - res@.len(),
                c == col0 + res@.len(),
                res@.len() <= self.rdiag_len(row as int, col as int),
                1 <= row <= self.num_rows,
                1 <= col <= self.num_cols,
                forall|i: int|
                    0 <= i < res@.len() ==> #[trigger] res@[i] == self.letter_at(
                        row0 - i,
                        col0 + i,
                    ),
            decreases self.num_cols + 1 - c,
        {
            match self.get_piece(r, c).letter {
                None => res.push('-'),
                Some(letter) => res.push(letter),
            }
            r = r - 1;
            c = c + 1;
        }
        proof {
            assert(res@ =~= self.rdiag_letters(row as int, col as int));
        }
        res
    }

    /// The letters along the `\` diagonal through `(row, col)`, from its
    /// top-left end down to its bottom-right end.
    pub fn get_letters_in_left_diagonal(&self, row: usize, col: usize) -> (res: Vec<char>)
        requires
            self.wf(),
            1 <= row <= self.num_rows,
            1 <= col <= self.num_cols,
        ensures
            res@ == self.ldiag_letters(row as int, col as int),
    {
        let ghost row0 = self.ldiag_row(row as int, col as int);
        let ghost col0 = self.ldiag_col(row as int, col as int);
        let mut r: usize = row;
        let mut c: usize = col;
        while r > 1 && c > 1
            invariant
                self.wf(),
                1 <= r <= self.num_rows,
                1 <= c <= self.num_cols,
                r - c == row - col,
            decreases r,
        {
            r = r - 1;
            c = c - 1;
        }
        proof {
            assert(r == row0);
            assert(c == col0);
        }
        let mut res: Vec<char> = Vec::new();
        while r <= self.num_rows && c <= self.num_cols
            invariant
                self.wf(),
                row0 == self.ldiag_row(row as int, col as int),
                col0 == self.ldiag_col(row as int, col as int),
                1 <= row0 <= self.num_rows,
                1 <= col0 <= self.num_cols,
                r == row0 + res@.len(),
                c == col0 + res@.len(),
                res@.len() <= self.ldiag_len(row as int, col as int),
                1 <= row <= self.num_rows,
                1 <= col <= self.num_cols,
                forall|i: int|
                    0 <= i < res@.len() ==> #[trigger] res@[i] == self.letter_at(
                        row0 + i,
                        col0 + i,
                    ),
            decreases self.num_cols + 1 - c,
        {
            match self.get_piece(r, c).letter {
                None => res.push('-'),
                Some(letter) => res.push(letter),
            }
            r = r + 1;
            c = c + 1;
        }
        proof {
            assert(res@ =~= self.ldiag_letters(row as int, col as int));
        }
        res
    }
}

} // verus!
