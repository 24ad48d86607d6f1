use grid_drop::Board;
use grid_drop::Player;
use grid_drop::Variant;
use grid_drop::win::check_for_win_C4;
use grid_drop::win::check_for_win_TO;

#[test]
fn vertical_win_scenario() {
    // Empty 6x7 board: player 1 drops into column 4 four times, landing
    // in rows 6, 5, 4, 3; the fourth insertion completes a vertical win.
    let mut b = Board::new(Variant::Connect4);
    assert_eq!(b.insert_piece_C4(4, 1), Ok(6));
    assert!(!check_for_win_C4(&b, 6, 4, 1));
    assert_eq!(b.insert_piece_C4(4, 1), Ok(5));
    assert!(!check_for_win_C4(&b, 5, 4, 1));
    assert_eq!(b.insert_piece_C4(4, 1), Ok(4));
    assert!(!check_for_win_C4(&b, 4, 4, 1));
    assert_eq!(b.insert_piece_C4(4, 1), Ok(3));
    assert!(check_for_win_C4(&b, 3, 4, 1));
    // The run belongs to player 1 alone.
    assert!(!check_for_win_C4(&b, 3, 4, 2));
}

#[test]
fn horizontal_win() {
    let mut b = Board::new(Variant::Connect4);
    for col in 1..=4 {
        b.set_piece_player(6, col, Player { id: 2 });
    }
    assert!(check_for_win_C4(&b, 6, 2, 2));
}

#[test]
fn right_diagonal_win() {
    let mut b = Board::new(Variant::Connect4);
    b.set_piece_player(6, 1, Player { id: 1 });
    b.set_piece_player(5, 2, Player { id: 1 });
    b.set_piece_player(4, 3, Player { id: 1 });
    b.set_piece_player(3, 4, Player { id: 1 });
    assert!(check_for_win_C4(&b, 4, 3, 1));
}

#[test]
fn left_diagonal_win() {
    let mut b = Board::new(Variant::Connect4);
    b.set_piece_player(3, 1, Player { id: 1 });
    b.set_piece_player(4, 2, Player { id: 1 });
    b.set_piece_player(5, 3, Player { id: 1 });
    b.set_piece_player(6, 4, Player { id: 1 });
    assert!(check_for_win_C4(&b, 5, 3, 1));
}

#[test]
fn three_in_a_line_never_wins() {
    let mut b = Board::new(Variant::Connect4);
    // Three in a row horizontally, vertically and diagonally.
    b.set_piece_player(6, 1, Player { id: 1 });
    b.set_piece_player(6, 2, Player { id: 1 });
    b.set_piece_player(6, 3, Player { id: 1 });
    b.set_piece_player(5, 1, Player { id: 1 });
    b.set_piece_player(4, 1, Player { id: 1 });
    b.set_piece_player(5, 2, Player { id: 1 });
    b.set_piece_player(4, 3, Player { id: 1 });
    for row in 1..=6 {
        for col in 1..=7 {
            assert!(!check_for_win_C4(&b, row, col, 1));
        }
    }
}

#[test]
fn toot_horizontal_win_scenario() {
    // 4x6 word board: T, O, O stand in the bottom row; dropping the
    // final T into column 4 completes TOOT and credits player 1.
    let mut b = Board::new(Variant::TootOtto);
    assert_eq!(b.insert_piece_TO(1, 'T'), Ok(4));
    assert_eq!(b.insert_piece_TO(2, 'O'), Ok(4));
    assert_eq!(b.insert_piece_TO(3, 'O'), Ok(4));
    assert_eq!(check_for_win_TO(&b, 4, 3), 0);
    assert_eq!(b.insert_piece_TO(4, 'T'), Ok(4));
    assert_eq!(check_for_win_TO(&b, 4, 4), 1);
}

#[test]
fn otto_win_credits_player_two() {
    let mut b = Board::new(Variant::TootOtto);
    b.set_piece_letter(4, 2, 'O');
    b.set_piece_letter(4, 3, 'T');
    b.set_piece_letter(4, 4, 'T');
    b.set_piece_letter(4, 5, 'O');
    assert_eq!(check_for_win_TO(&b, 4, 3), 2);
}

#[test]
fn word_tie_scenario() {
    // One move completes TOOT along the top row and OTTO down column 2
    // at the same time: the verdict is a tie, not a single-player win.
    let mut b = Board::new(Variant::TootOtto);
    // Top row holds T, _, O, T at columns 1, 3, 4 (column 2 still open).
    b.set_piece_letter(1, 1, 'T');
    b.set_piece_letter(1, 3, 'O');
    b.set_piece_letter(1, 4, 'T');
    // Column 2 below the top: T, T, O going down.
    b.set_piece_letter(2, 2, 'T');
    b.set_piece_letter(3, 2, 'T');
    b.set_piece_letter(4, 2, 'O');
    // The drop lands in row 1 of column 2 and completes both words.
    assert_eq!(b.insert_piece_TO(2, 'O'), Ok(1));
    assert_eq!(check_for_win_TO(&b, 1, 2), 3);
}

#[test]
fn single_row_with_both_words_is_a_tie() {
    // A six-cell row can spell TOOTTO, which contains both words at
    // once; completing it is a tie straight away.
    let mut b = Board::new(Variant::TootOtto);
    b.set_piece_letter(4, 1, 'T');
    b.set_piece_letter(4, 2, 'O');
    b.set_piece_letter(4, 3, 'O');
    b.set_piece_letter(4, 4, 'T');
    b.set_piece_letter(4, 5, 'T');
    assert_eq!(b.insert_piece_TO(6, 'O'), Ok(4));
    assert_eq!(check_for_win_TO(&b, 4, 6), 3);
}

#[test]
fn same_player_recredit_is_not_a_tie() {
    // TOOT both along the bottom row and down column 1: the same player
    // is credited twice, which stays a win for player 1.
    let mut b = Board::new(Variant::TootOtto);
    b.set_piece_letter(4, 1, 'T');
    b.set_piece_letter(4, 2, 'O');
    b.set_piece_letter(4, 3, 'O');
    b.set_piece_letter(4, 4, 'T');
    b.set_piece_letter(1, 1, 'T');
    b.set_piece_letter(2, 1, 'O');
    b.set_piece_letter(3, 1, 'O');
    assert_eq!(check_for_win_TO(&b, 4, 1), 1);
}
