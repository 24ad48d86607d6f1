use grid_drop::Board;
use grid_drop::GameError;
use grid_drop::Player;
use grid_drop::Variant;
use grid_drop::game::showC4Leaderboard;
use grid_drop::game::variant_from_name;

#[test]
fn new_board_dimensions() {
    let c4 = Board::new(Variant::Connect4);
    assert_eq!(c4.rows(), 6);
    assert_eq!(c4.cols(), 7);
    let to = Board::new(Variant::TootOtto);
    assert_eq!(to.rows(), 4);
    assert_eq!(to.cols(), 6);
}

#[test]
fn variant_names() {
    assert_eq!(variant_from_name(&"Connect4".to_owned()), Ok(Variant::Connect4));
    assert_eq!(variant_from_name(&"Toot-Otto".to_owned()), Ok(Variant::TootOtto));
    assert_eq!(
        variant_from_name(&"chess".to_owned()),
        Err(GameError::UninitializedVariant)
    );
    assert_eq!(
        variant_from_name(&"".to_owned()),
        Err(GameError::UninitializedVariant)
    );
}

#[test]
fn insert_lands_in_lowest_empty_row_and_fills_column() {
    let mut b = Board::new(Variant::Connect4);
    // Six insertions into one column land bottom-up in rows 6..1 ...
    for expected_row in (1..=6).rev() {
        let r = b.insert_piece_C4(3, 1);
        assert_eq!(r, Ok(expected_row));
    }
    // ... and the seventh is rejected: the column is full.
    assert_eq!(b.insert_piece_C4(3, 1), Err(GameError::ColumnFull));
}

#[test]
fn insert_rejects_invalid_columns() {
    let mut b = Board::new(Variant::Connect4);
    assert_eq!(b.insert_piece_C4(0, 1), Err(GameError::InvalidColumn));
    assert_eq!(b.insert_piece_C4(8, 1), Err(GameError::InvalidColumn));
    let mut t = Board::new(Variant::TootOtto);
    assert_eq!(t.insert_piece_TO(0, 'T'), Err(GameError::InvalidColumn));
    assert_eq!(t.insert_piece_TO(7, 'O'), Err(GameError::InvalidColumn));
}

#[test]
fn letter_insert_fills_column() {
    let mut b = Board::new(Variant::TootOtto);
    for expected_row in (1..=4).rev() {
        assert_eq!(b.insert_piece_TO(2, 'T'), Ok(expected_row));
    }
    assert_eq!(b.insert_piece_TO(2, 'O'), Err(GameError::ColumnFull));
}

#[test]
fn occupant_lookup() {
    let mut b = Board::new(Variant::Connect4);
    assert_eq!(b.insert_piece_C4(5, 2), Ok(6));
    let s = b.occupant_at(6, 5).unwrap();
    assert_eq!(s.player, Some(Player { id: 2 }));
    assert_eq!(s.letter, None);
    let empty = b.occupant_at(1, 1).unwrap();
    assert_eq!(empty.player, None);
    assert_eq!(b.occupant_at(7, 1).unwrap_err(), GameError::InvalidCell);
    assert_eq!(b.occupant_at(1, 8).unwrap_err(), GameError::InvalidCell);
    assert_eq!(b.occupant_at(0, 0).unwrap_err(), GameError::InvalidCell);
}

#[test]
fn clone_is_independent() {
    let mut b = Board::new(Variant::Connect4);
    b.insert_piece_C4(1, 1).unwrap();
    let mut copy = b.clone();
    copy.insert_piece_C4(1, 2).unwrap();
    // The original still has a single piece in column 1.
    assert_eq!(b.get_piece(6, 1).player, Some(Player { id: 1 }));
    assert_eq!(b.get_piece(5, 1).player, None);
    assert_eq!(copy.get_piece(5, 1).player, Some(Player { id: 2 }));
}

#[test]
fn line_extraction_row_and_col() {
    let mut b = Board::new(Variant::Connect4);
    b.set_piece_player(6, 1, Player { id: 1 });
    b.set_piece_player(6, 3, Player { id: 2 });
    assert_eq!(b.get_ids_in_row(6), vec![1, 0, 2, 0, 0, 0, 0]);
    assert_eq!(b.get_ids_in_col(1), vec![0, 0, 0, 0, 0, 1]);
    assert_eq!(b.get_ids_in_row(1), vec![0, 0, 0, 0, 0, 0, 0]);
}

#[test]
fn line_extraction_diagonals() {
    let mut b = Board::new(Variant::Connect4);
    // A `/` diagonal from the bottom-left corner: (6,1), (5,2), (4,3), ...
    b.set_piece_player(6, 1, Player { id: 1 });
    b.set_piece_player(5, 2, Player { id: 2 });
    b.set_piece_player(4, 3, Player { id: 1 });
    let rdiag = b.get_ids_in_right_diagonal(5, 2);
    assert_eq!(rdiag, vec![1, 2, 1, 0, 0, 0]);
    // A `\` diagonal from the top-left corner: (1,1), (2,2), (3,3), ...
    b.set_piece_player(2, 2, Player { id: 2 });
    let ldiag = b.get_ids_in_left_diagonal(3, 3);
    assert_eq!(ldiag, vec![0, 2, 0, 0, 0, 0]);
}

#[test]
fn letter_line_extraction() {
    let mut b = Board::new(Variant::TootOtto);
    b.set_piece_letter(4, 1, 'T');
    b.set_piece_letter(4, 2, 'O');
    b.set_piece_letter(3, 2, 'T');
    assert_eq!(b.get_letters_in_row(4), vec!['T', 'O', '-', '-', '-', '-']);
    assert_eq!(b.get_letters_in_col(2), vec!['-', '-', 'T', 'O']);
    assert_eq!(b.get_letters_in_right_diagonal(4, 1), vec!['T', 'T', '-', '-']);
    assert_eq!(b.get_letters_in_left_diagonal(3, 1), vec!['-', 'O']);
}

#[test]
fn leaderboard_placeholder() {
    assert_eq!(
        showC4Leaderboard(),
        "1. [USER]\n2. [USER]\n3. [USER]\n4. [USER]\n5. [USER]\n"
    );
}
