use navy_lib::board_file::{cell_from_char, parse_board, BoardFileError};
use navy_lib::state::{Board, Field};

fn board(cells: [Field; 4]) -> Board {
    Board(cells)
}

#[test]
fn default_board_is_empty() {
    assert_eq!(Board::default(), board([Field::Empty; 4]));
    assert_eq!(Field::default(), Field::Empty);
}

#[test]
fn get_and_set_address_row_by_row() {
    let mut b = Board::default();
    b.set(1, 0, Field::Ship);
    b.set(0, 1, Field::Miss);
    assert_eq!(b.0, [Field::Empty, Field::Ship, Field::Miss, Field::Empty]);
    assert_eq!(b.get(1, 0), Field::Ship);
    assert_eq!(b.get(0, 1), Field::Miss);
    assert_eq!(b.get(1, 1), Field::Empty);
}

#[test]
fn validate_counts_exactly_one_ship() {
    assert!(board([Field::Ship, Field::Empty, Field::Empty, Field::Empty]).validate());
    assert!(!Board::default().validate());
    assert!(!board([Field::Ship, Field::Empty, Field::Empty, Field::Ship]).validate());
    assert!(board([Field::Hit, Field::Ship, Field::Miss, Field::Empty]).validate());
}

#[test]
fn all_sunk_means_no_ship_left() {
    assert!(Board::default().all_sunk());
    assert!(board([Field::Hit, Field::Miss, Field::Empty, Field::Hit]).all_sunk());
    assert!(!board([Field::Hit, Field::Empty, Field::Empty, Field::Ship]).all_sunk());
}

#[test]
fn shoot_hits_misses_and_refuses_repeats() {
    let mut b = board([Field::Ship, Field::Empty, Field::Empty, Field::Empty]);
    assert_eq!(b.shoot(1, 1), Some(false));
    assert_eq!(b.get(1, 1), Field::Miss);
    assert_eq!(b.shoot(1, 1), None);
    assert_eq!(b.shoot(0, 0), Some(true));
    assert_eq!(b.get(0, 0), Field::Hit);
    assert_eq!(b.shoot(0, 0), None);
    assert!(b.all_sunk());
    assert_eq!(b.0, [Field::Hit, Field::Empty, Field::Empty, Field::Miss]);
}

#[test]
fn board_file_characters() {
    assert_eq!(cell_from_char('.'), Ok(Field::Empty));
    assert_eq!(cell_from_char('+'), Ok(Field::Ship));
    assert_eq!(cell_from_char('x'), Err(BoardFileError::InvalidChar('x')));
}

#[test]
fn board_file_parses_valid_text() {
    let expected = board([Field::Empty, Field::Ship, Field::Empty, Field::Empty]);
    assert_eq!(parse_board(".+\n..\n"), Ok(expected));
    assert_eq!(parse_board(".+\n..\n\n"), Err(BoardFileError::LineCount { actual: 3 }));
    assert_eq!(parse_board(" .+\n.."), Err(BoardFileError::LineLength { line: 1 }));
    assert_eq!(parse_board(".+\n..!"), Err(BoardFileError::LineLength { line: 2 }));
    assert_eq!(parse_board(".+\n.+ "), Err(BoardFileError::LineLength { line: 2 }));
    assert_eq!(parse_board("+.\n.. "), Err(BoardFileError::LineLength { line: 2 }));
    assert_eq!(parse_board("+.\n..\r"), Err(BoardFileError::LineLength { line: 2 }));
    assert_eq!(parse_board(".+\r\n..\r\n"), Ok(expected));
}

#[test]
fn board_file_too_short_is_incomplete() {
    assert_eq!(parse_board(""), Err(BoardFileError::Incomplete));
    assert_eq!(parse_board(".+\n."), Err(BoardFileError::Incomplete));
    assert_eq!(parse_board(".+\n.."), Err(BoardFileError::Incomplete));
}

#[test]
fn board_file_line_count() {
    assert_eq!(parse_board(".+\n..\n..\n"), Err(BoardFileError::LineCount { actual: 3 }));
    assert_eq!(parse_board(".+....\n"), Err(BoardFileError::LineCount { actual: 1 }));
}

#[test]
fn board_file_line_length() {
    assert_eq!(parse_board("+..\n..\n"), Err(BoardFileError::LineLength { line: 1 }));
    assert_eq!(parse_board("+.\n...\n"), Err(BoardFileError::LineLength { line: 2 }));
}

#[test]
fn board_file_invalid_character() {
    assert_eq!(parse_board("+.\n.x\n"), Err(BoardFileError::InvalidChar('x')));
    assert_eq!(parse_board("+x\n...\n"), Err(BoardFileError::InvalidChar('x')));
}

#[test]
fn board_file_ship_count() {
    assert_eq!(parse_board("..\n..\n"), Err(BoardFileError::ShipCount));
    assert_eq!(parse_board("++\n..\n"), Err(BoardFileError::ShipCount));
}

#[test]
fn render_own_and_enemy_boards() {
    let b = board([Field::Ship, Field::Hit, Field::Miss, Field::Empty]);
    assert_eq!(b.render(), "+x\no.\n");
    assert_eq!(b.render_enemy(), ".x\no.\n");
    assert_eq!(Board::default().render(), "..\n..\n");
}

#[test]
fn board_file_line_length_counts_bytes() {
    assert_eq!(parse_board("+\u{e9}\n..\n"), Err(BoardFileError::LineLength { line: 1 }));
    assert_eq!(parse_board("\u{e9}\n..\n"), Err(BoardFileError::InvalidChar('\u{e9}')));
    assert_eq!(parse_board("+.\n\u{e9}\n"), Err(BoardFileError::InvalidChar('\u{e9}')));
}
