//! The mathematical model of a grid of player identifiers: columns of
//! rows, 0-indexed, each entry the occupant's id or `0` for an empty cell.
//! Gravity insertion, the evaluator and the move search are all specified
//! over this model, so that hypothetical positions explored by the search
//! are ordinary mathematical values.

use vstd::prelude::*;

verus! {

/// Number of columns of the model grid.
pub open spec fn gcols(g: Seq<Seq<nat>>) -> nat {
    g.len()
}

/// Number of rows of the model grid (the height of its first column).
pub open spec fn grows(g: Seq<Seq<nat>>) -> nat {
    if g.len() > 0 {
        g[0].len()
    } else {
        0
    }
}

/// A rectangular, non-empty grid.
pub open spec fn gwf(g: Seq<Seq<nat>>) -> bool {
    &&& g.len() > 0
    &&& grows(g) > 0
    &&& forall|c: int| 0 <= c < g.len() ==> (#[trigger] g[c]).len() == grows(g)
}

/// The identifier at 1-indexed `(row, col)`, `0` off the grid.
pub open spec fn gid(g: Seq<Seq<nat>>, row: int, col: int) -> nat {
    if 1 <= row <= grows(g) && 1 <= col <= gcols(g) {
        g[col - 1][row - 1]
    } else {
        0
    }
}

/// The landing row of gravity insertion, restricted to rows `1..=r` of a
/// column: the bottommost (largest-indexed) empty row among them, or `0`
/// when they are all occupied.
pub open spec fn gdrop_upto(column: Seq<nat>, r: int) -> int
    decreases r,
{
    if r < 1 {
        0
    } else if column[r - 1] == 0 {
        r
    } else {
        gdrop_upto(column, r - 1)
    }
}

/// The row where a piece dropped into `col` lands: the bottommost empty
/// row of the column, or `0` when the column is full.
pub open spec fn gdrop_row(g: Seq<Seq<nat>>, col: int) -> int {
    gdrop_upto(g[col - 1], grows(g) as int)
}

/// Whether `col` still has an empty cell, i.e. accepts an insertion.
pub open spec fn gopen(g: Seq<Seq<nat>>, col: int) -> bool {
    gdrop_row(g, col) >= 1
}

/// Whether any column of the grid accepts an insertion.
pub open spec fn ghas_open(g: Seq<Seq<nat>>) -> bool {
    exists|c: int| 1 <= c <= gcols(g) && gopen(g, c)
}

/// The grid after dropping player `p`'s piece into `col`: the landing
/// cell now shows `p`, everything else is unchanged.
pub open spec fn ginsert(g: Seq<Seq<nat>>, col: int, p: nat) -> Seq<Seq<nat>> {
    g.update(col - 1, g[col - 1].update(gdrop_row(g, col) - 1, p))
}

/// What `gdrop_upto` finds: a value in `0..=r`; `0` exactly when rows
/// `1..=r` are all occupied; otherwise an empty row with every row below
/// it occupied.
pub proof fn lemma_gdrop_upto(column: Seq<nat>, r: int)
    ensures
        0 <= gdrop_upto(column, r),
        r >= 0 ==> gdrop_upto(column, r) <= r,
        gdrop_upto(column, r) == 0 ==> forall|q: int| 1 <= q <= r ==> #[trigger] column[q - 1] != 0,
        gdrop_upto(column, r) >= 1 ==> column[gdrop_upto(column, r) - 1] == 0,
        forall|q: int| gdrop_upto(column, r) < q <= r ==> #[trigger] column[q - 1] != 0,
    decreases r,
{
    if r >= 1 && column[r - 1] != 0 {
        lemma_gdrop_upto(column, r - 1);
    }
}

/// A column accepts an insertion exactly when one of its cells is empty.
pub proof fn lemma_gopen_iff(g: Seq<Seq<nat>>, col: int)
    requires
        gwf(g),
        1 <= col <= gcols(g),
    ensures
        gopen(g, col) <==> exists|row: int| 1 <= row <= grows(g) && gid(g, row, col) == 0,
{
    lemma_gdrop_upto(g[col - 1], grows(g) as int);
    if gopen(g, col) {
        let d = gdrop_row(g, col);
        assert(1 <= d <= grows(g) && gid(g, d, col) == 0);
    }
}

/// Two columns that agree on their first `r` rows land a drop in the
/// same place within them.
pub proof fn lemma_gdrop_upto_agree(col1: Seq<nat>, col2: Seq<nat>, r: int)
    requires
        forall|q: int| 1 <= q <= r ==> col1[q - 1] == #[trigger] col2[q - 1],
    ensures
        gdrop_upto(col1, r) == gdrop_upto(col2, r),
    decreases r,
{
    if r >= 1 {
        lemma_gdrop_upto_agree(col1, col2, r - 1);
    }
}

/// Filling a column: each insertion lands strictly above the previous
/// one, so a column of `rows` cells takes at most `rows` insertions
/// before it is full and rejects the next one.
pub proof fn lemma_insert_fills(g: Seq<Seq<nat>>, col: int, p: nat)
    requires
        gwf(g),
        1 <= col <= gcols(g),
        gopen(g, col),
        p >= 1,
    ensures
        0 <= gdrop_row(ginsert(g, col, p), col) < gdrop_row(g, col),
{
    let d = gdrop_row(g, col);
    let oldc = g[col - 1];
    let newc = oldc.update(d - 1, p);
    let h = ginsert(g, col, p);
    lemma_gdrop_upto(oldc, grows(g) as int);
    lemma_ginsert_wf(g, col, p);
    assert(h[col - 1] == newc);
    assert(forall|q: int| d < q <= grows(g) ==> newc[q - 1] == #[trigger] oldc[q - 1]);
    assert forall|q: int| d <= q <= grows(g) implies #[trigger] newc[q - 1] != 0 by {
        if q == d {
            assert(newc[d - 1] == p);
        } else {
            assert(oldc[q - 1] != 0);
        }
    }
    lemma_gdrop_upto(newc, grows(g) as int);
    assert(gdrop_upto(newc, grows(g) as int) == gdrop_upto(newc, d - 1)) by {
        lemma_gdrop_upto_skip(newc, d - 1, grows(g) as int);
    }
    lemma_gdrop_upto_agree(newc, oldc, d - 1);
    lemma_gdrop_upto(oldc, d - 1);
}

/// Rows `r0+1 ..= r1` all occupied: the drop within `r1` rows equals the
/// drop within `r0`.
pub proof fn lemma_gdrop_upto_skip(column: Seq<nat>, r0: int, r1: int)
    requires
        r0 <= r1,
        forall|q: int| r0 < q <= r1 ==> #[trigger] column[q - 1] != 0,
    ensures
        gdrop_upto(column, r1) == gdrop_upto(column, r0),
    decreases r1 - r0,
{
    if r0 < r1 {
        lemma_gdrop_upto_skip(column, r0, r1 - 1);
    }
}

/// Inserting into an open column of a rectangular grid keeps it
/// rectangular, with the same dimensions.
pub proof fn lemma_ginsert_wf(g: Seq<Seq<nat>>, col: int, p: nat)
    requires
        gwf(g),
        1 <= col <= gcols(g),
        gopen(g, col),
    ensures
        gwf(ginsert(g, col, p)),
        gcols(ginsert(g, col, p)) == gcols(g),
        grows(ginsert(g, col, p)) == grows(g),
{
    let h = ginsert(g, col, p);
    lemma_gdrop_upto(g[col - 1], grows(g) as int);
    assert(h[col - 1].len() == g[col - 1].len());
    assert(forall|c: int| 0 <= c < h.len() && c != col - 1 ==> h[c] == g[c]);
    if col == 1 {
        assert(h[0].len() == grows(g));
    }
}

} // verus!
