//! Shared vocabulary of the two games: the variant selector, piece owners,
//! grid cells and the error kinds every operation reports.

use vstd::prelude::*;
use vstd::string::StringExecFns;

verus! {

/// Which of the two grid-drop games a board is set up for.
///
/// The four-in-a-row game plays on a 6-row, 7-column grid of numbered
/// pieces; the word game plays on a 4-row, 6-column grid of `T`/`O` tokens.
#[derive(Clone, Copy, Debug, PartialEq, Eq, Structural)]
pub enum Variant {
    Connect4,
    TootOtto,
}

impl Variant {
    /// Number of rows of this variant's grid.
    pub open spec fn rows_spec(self) -> nat {
        match self {
            Variant::Connect4 => 6,
            Variant::TootOtto => 4,
        }
    }

    /// Number of columns of this variant's grid.
    pub open spec fn cols_spec(self) -> nat {
        match self {
            Variant::Connect4 => 7,
            Variant::TootOtto => 6,
        }
    }

    pub fn rows(&self) -> (r: usize)
        ensures
            r == self.rows_spec(),
    {
        match self {
            Variant::Connect4 => 6,
            Variant::TootOtto => 4,
        }
    }

    pub fn cols(&self) -> (r: usize)
        ensures
            r == self.cols_spec(),
    {
        match self {
            Variant::Connect4 => 7,
            Variant::TootOtto => 6,
        }
    }
}

/// Selects the variant named by a caller-supplied game name, the two
/// accepted names being `"Connect4"` and `"Toot-Otto"`.  Any other name
/// leaves the variant undefined, which every board operation depends on,
/// so it is rejected with [`GameError::UninitializedVariant`].
pub fn variant_from_name(name: &String) -> (r: Result<Variant, GameError>)
    ensures
        name@ == "Connect4"@ ==> r == Ok::<Variant, GameError>(Variant::Connect4),
        name@ == "Toot-Otto"@ ==> r == Ok::<Variant, GameError>(Variant::TootOtto),
        name@ != "Connect4"@ && name@ != "Toot-Otto"@ ==> r == Err::<Variant, GameError>(
            GameError::UninitializedVariant,
        ),
{
    proof {
        reveal_strlit("Connect4");
        reveal_strlit("Toot-Otto");
        assert("Connect4"@.len() == 8);
        assert("Toot-Otto"@.len() == 9);
    }
    let c4_name: String = "Connect4".to_owned();
    let to_name: String = "Toot-Otto".to_owned();
    if name.eq(&c4_name) {
        Ok(Variant::Connect4)
    } else if name.eq(&to_name) {
        Ok(Variant::TootOtto)
    } else {
        Err(GameError::UninitializedVariant)
    }
}

/// A piece owner: a small positive identifier.  `0` never names a player;
/// it stands for an empty cell in the line views.
#[derive(Clone, Copy, Debug, PartialEq, Eq, Structural)]
pub struct Player {
    pub id: usize,
}

/// One cell of the grid.  A cell remembers its own 1-indexed coordinates
/// and holds at most one occupant: a player's piece in the four-in-a-row
/// game, or a letter token in the word game.  Once occupied, a cell is
/// never cleared or overwritten.
#[derive(Clone, Copy, Debug)]
pub struct Space {
    pub row: usize,
    pub col: usize,
    pub player: Option<Player>,
    pub letter: Option<char>,
}

impl Space {
    pub fn new(row: usize, col: usize, player: Option<Player>, letter: Option<char>) -> (s: Space)
        ensures
            s == (Space { row, col, player, letter }),
    {
        Space { row, col, player, letter }
    }
}

/// The player identifier a cell shows: the owner's id, or `0` when the
/// cell holds no piece.
pub open spec fn id_of(p: Option<Player>) -> nat {
    match p {
        Some(pl) => pl.id as nat,
        None => 0,
    }
}

/// The letter a cell shows: its token, or `'-'` when the cell holds none.
pub open spec fn letter_of(l: Option<char>) -> char {
    match l {
        Some(ch) => ch,
        None => '-',
    }
}

/// A stored piece always names a real player.
pub open spec fn player_ok(p: Option<Player>) -> bool {
    match p {
        Some(pl) => pl.id >= 1,
        None => true,
    }
}

/// A stored token is always one of the word game's two letters.
pub open spec fn letter_ok(l: Option<char>) -> bool {
    match l {
        Some(ch) => ch == 'T' || ch == 'O',
        None => true,
    }
}

/// Renders the placeholder four-in-a-row leaderboard the interface
/// shows before the persistence layer answers: five ranked slots
/// awaiting names.
pub fn showC4Leaderboard() -> (r: String)
    ensures
        r@ == "1. [USER]\n2. [USER]\n3. [USER]\n4. [USER]\n5. [USER]\n"@,
{
    String::from_str("1. [USER]\n2. [USER]\n3. [USER]\n4. [USER]\n5. [USER]\n")
}

/// Every failure a board operation can report.  Each kind is recoverable:
/// the caller turns it into a rejected-move response rather than a crash.
#[derive(Clone, Copy, Debug, PartialEq, Eq, Structural)]
pub enum GameError {
    /// The requested column lies outside `[1, cols]`.
    InvalidColumn,
    /// Gravity insertion found no empty cell in the column.
    ColumnFull,
    /// A lookup used coordinates outside the grid.
    InvalidCell,
    /// A board operation was requested before a variant was fixed.
    UninitializedVariant,
    /// Move search was invoked on a board with every column full.
    NoLegalMove,
}

} // verus!
