use grid_drop::Board;
use grid_drop::GameError;
use grid_drop::Player;
use grid_drop::Variant;
use grid_drop::bots::difficult_C4;
use grid_drop::bots::difficult_TO;
use grid_drop::bots::easy_bot_C4;
use grid_drop::bots::easy_otto;
use grid_drop::bots::medium_C4;
use grid_drop::bots::medium_TO;
use grid_drop::eval::evaluate_C4;
use grid_drop::eval::evaluate_TO;
use grid_drop::search::NEG_INF;
use grid_drop::search::POS_INF;
use grid_drop::search::WIN_SCORE;
use grid_drop::search::choose_C4;
use grid_drop::search::choose_TO;
use grid_drop::search::maxState_C4;
use grid_drop::search::maxState_TO;
use grid_drop::search::value;

#[test]
fn evaluator_empty_board() {
    let b = Board::new(Variant::Connect4);
    assert_eq!(evaluate_C4(&b, 1), (0, 0));
    assert_eq!(evaluate_C4(&b, 2), (0, 0));
    let t = Board::new(Variant::TootOtto);
    assert_eq!(evaluate_TO(&t, 1), (0, 0));
}

#[test]
fn evaluator_counts_vertical_windows() {
    let mut b = Board::new(Variant::Connect4);
    for _ in 0..4 {
        b.insert_piece_C4(1, 1).unwrap();
    }
    // One fully owned vertical window, rows 6..3 of column 1.
    assert_eq!(evaluate_C4(&b, 1), (4, 1));
    assert_eq!(evaluate_C4(&b, 2), (0, 0));
    // A fifth piece adds a second window, rows 5..2.
    b.insert_piece_C4(1, 1).unwrap();
    assert_eq!(evaluate_C4(&b, 1), (4, 2));
}

#[test]
fn evaluator_counts_horizontal_windows() {
    let mut b = Board::new(Variant::Connect4);
    for col in 1..=4 {
        b.set_piece_player(6, col, Player { id: 2 });
    }
    assert_eq!(evaluate_C4(&b, 2), (4, 1));
    // Three in a row own no length-4 window.
    let mut c = Board::new(Variant::Connect4);
    for col in 1..=3 {
        c.set_piece_player(6, col, Player { id: 2 });
    }
    assert_eq!(evaluate_C4(&c, 2), (0, 0));
}

#[test]
fn evaluator_counts_diagonal_windows() {
    let mut b = Board::new(Variant::Connect4);
    // One `/` window from (6,1) up to (3,4) ...
    b.set_piece_player(6, 1, Player { id: 1 });
    b.set_piece_player(5, 2, Player { id: 1 });
    b.set_piece_player(4, 3, Player { id: 1 });
    b.set_piece_player(3, 4, Player { id: 1 });
    assert_eq!(evaluate_C4(&b, 1), (4, 1));
    // ... and one `\` window from (3,4) down to (6,7), sharing a cell.
    b.set_piece_player(4, 5, Player { id: 1 });
    b.set_piece_player(5, 6, Player { id: 1 });
    b.set_piece_player(6, 7, Player { id: 1 });
    assert_eq!(evaluate_C4(&b, 1), (4, 2));
}

#[test]
fn evaluator_monotone_on_added_piece() {
    let mut b = Board::new(Variant::Connect4);
    b.set_piece_player(6, 1, Player { id: 1 });
    b.set_piece_player(6, 2, Player { id: 1 });
    b.set_piece_player(6, 3, Player { id: 1 });
    let before = evaluate_C4(&b, 1);
    b.set_piece_player(6, 4, Player { id: 1 });
    let after = evaluate_C4(&b, 1);
    assert!(after.1 >= before.1);
    assert_eq!(before, (0, 0));
    assert_eq!(after, (4, 1));
}

/// Fills every column but one of a board so that search is forced down a
/// single line of play.
fn forced_board() -> Board {
    let mut b = Board::new(Variant::Connect4);
    // Columns 2..=7 are filled with a pattern that never lines up four.
    for col in 2..=7 {
        for row in (1..=6).rev() {
            let id = if (row / 2 + col) % 2 == 0 { 1 } else { 2 };
            b.set_piece_player(row, col, Player { id });
        }
    }
    // Column 1 keeps rows 5 and 6 occupied, rows 1..4 free.
    b.set_piece_player(6, 1, Player { id: 1 });
    b.set_piece_player(5, 1, Player { id: 2 });
    b
}

#[test]
fn alpha_beta_matches_unpruned_minimax_on_forced_line() {
    // With a single open column the search tree is one forced line, so
    // the unpruned minimax value can be computed by replaying it: the
    // players alternate into column 1 until the depth ceiling, and the
    // leaf evaluates the final position for the maximizing player.
    let b = forced_board();
    let mut replay = b.clone();
    replay.insert_piece_C4(1, 2).unwrap();
    replay.insert_piece_C4(1, 1).unwrap();
    replay.insert_piece_C4(1, 2).unwrap();
    replay.insert_piece_C4(1, 1).unwrap();
    let leaf = evaluate_C4(&replay, 2);
    let expected = if leaf.0 == 4 { WIN_SCORE } else { leaf.1 as i64 };

    let out = maxState_C4(&b, 2, 0, NEG_INF, POS_INF);
    assert_eq!(out.column, 1);
    assert_eq!(out.value, expected);
    assert_eq!(value(&b, 2, 0, NEG_INF, POS_INF), expected);
}

#[test]
fn search_on_empty_word_board_is_neutral() {
    // A word board carries no player identifiers, so every leaf of the
    // shared search engine evaluates to zero and so does the root.
    let b = Board::new(Variant::TootOtto);
    let out = maxState_TO(&b, 2, 0, NEG_INF, POS_INF);
    assert_eq!(out.value, 0);
    assert!(1 <= out.column && out.column <= 6);
}

#[test]
fn choose_picks_from_the_given_set() {
    assert_eq!(choose_C4(&vec![5]), 5);
    assert_eq!(choose_TO(&vec![3, 3, 3]), 3);
    let picked = choose_C4(&vec![2, 4, 6]);
    assert!(picked == 2 || picked == 4 || picked == 6);
}

#[test]
fn easy_and_medium_only_target_open_columns() {
    // Board with a single open column: every tier must pick it.
    let mut b = Board::new(Variant::Connect4);
    for col in 1..=7 {
        if col == 2 {
            continue;
        }
        for row in (1..=6).rev() {
            let id = if (row / 2 + col) % 2 == 0 { 1 } else { 2 };
            b.set_piece_player(row, col, Player { id });
        }
    }
    let r = easy_bot_C4(&mut b.clone(), 1).unwrap();
    assert_eq!(r, (6, 2));
    let r = medium_C4(&mut b.clone(), 2).unwrap();
    assert_eq!(r, (6, 2));
    let r = difficult_C4(&mut b.clone(), 2).unwrap();
    assert_eq!(r, (6, 2));
}

#[test]
fn difficult_plays_the_winning_column() {
    // Player 2 already has three pieces stacked in column 1; dropping a
    // fourth there is the unique minimax-best move (any other first
    // move lets the opponent block the column), and the difficult tier
    // is bound to the search's chosen column, so it must play it.
    let mut b = Board::new(Variant::Connect4);
    b.set_piece_player(6, 1, Player { id: 2 });
    b.set_piece_player(5, 1, Player { id: 2 });
    b.set_piece_player(4, 1, Player { id: 2 });
    let out = maxState_C4(&b, 2, 0, NEG_INF, POS_INF);
    assert_eq!(out.value, WIN_SCORE);
    assert_eq!(out.column, 1);
    assert_eq!(difficult_C4(&mut b, 2), Ok((3, 1)));
}

#[test]
fn bots_report_no_legal_move_on_full_boards() {
    let mut b = Board::new(Variant::Connect4);
    for col in 1..=7 {
        for row in (1..=6).rev() {
            let id = if (row / 2 + col) % 2 == 0 { 1 } else { 2 };
            b.set_piece_player(row, col, Player { id });
        }
    }
    assert_eq!(easy_bot_C4(&mut b.clone(), 1), Err(GameError::NoLegalMove));
    assert_eq!(medium_C4(&mut b.clone(), 1), Err(GameError::NoLegalMove));
    assert_eq!(difficult_C4(&mut b.clone(), 1), Err(GameError::NoLegalMove));

    let mut t = Board::new(Variant::TootOtto);
    for col in 1..=6 {
        for row in 1..=4 {
            t.set_piece_letter(row, col, 'T');
        }
    }
    assert_eq!(easy_otto(&mut t.clone()), Err(GameError::NoLegalMove));
    assert_eq!(medium_TO(&mut t.clone(), 1), Err(GameError::NoLegalMove));
    assert_eq!(difficult_TO(&mut t.clone(), 2), Err(GameError::NoLegalMove));
}

#[test]
fn word_bots_only_target_open_columns() {
    // Word board with a single column that still has room.
    let mut t = Board::new(Variant::TootOtto);
    for col in 1..=6 {
        if col == 5 {
            continue;
        }
        for row in 1..=4 {
            t.set_piece_letter(row, col, if row % 2 == 0 { 'T' } else { 'O' });
        }
    }
    let (row, col, letter) = easy_otto(&mut t.clone()).unwrap();
    assert_eq!((row, col), (4, 5));
    assert!(letter == 'T' || letter == 'O');
    let (row, col, letter) = medium_TO(&mut t.clone(), 1).unwrap();
    assert_eq!((row, col), (4, 5));
    assert!(letter == 'T' || letter == 'O');
    let (row, col, letter) = difficult_TO(&mut t.clone(), 2).unwrap();
    assert_eq!((row, col), (4, 5));
    assert!(letter == 'T' || letter == 'O');
}
