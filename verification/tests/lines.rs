use connect4::lines::{four_of, Direction, WINDOWS};
use connect4::{State, Token};

fn board(columns: [&str; 7]) -> State {
    let mut s = State::new();
    for (c, stack) in columns.iter().enumerate() {
        for ch in stack.chars() {
            let t = if ch == 'R' { Token::Red } else { Token::Yellow };
            s.append(c, &t).unwrap();
        }
    }
    s
}

#[test]
fn empty_board_has_no_winner() {
    assert_eq!(State::new().win(), None);
}

#[test]
fn full_board_without_a_line_has_no_winner() {
    let s = board(["RRYYRR", "RRYYRR", "YYRRYY", "RRYYRR", "YYRRYY", "RYRYRY", "YYRRYY"]);
    assert_eq!(s.plies_left(), 0);
    assert_eq!(s.win(), None);
}

#[test]
fn vertical_win() {
    for column in 0..7 {
        for t in [Token::Red, Token::Yellow] {
            let mut s = State::new();
            for i in 0..4 {
                assert_eq!(s.win(), None, "after {} tokens", i);
                s.append(column, &t).unwrap();
            }
            assert_eq!(s.win(), Some(t));
        }
    }
}

#[test]
fn vertical_win_above_other_tokens() {
    let s = board(["", "", "", "", "", "", "RYYYYY"]);
    assert_eq!(s.win(), Some(Token::Yellow));
    let s = board(["", "", "", "", "", "", "RYYYRY"]);
    assert_eq!(s.win(), None);
}

#[test]
fn horizontal_win() {
    for first in 0..4 {
        for t in [Token::Red, Token::Yellow] {
            let mut s = State::new();
            for i in 0..4 {
                assert_eq!(s.win(), None);
                s.append(first + i, &t).unwrap();
            }
            assert_eq!(s.win(), Some(t));
        }
    }
}

#[test]
fn three_in_a_row_is_no_win() {
    let s = board(["R", "R", "R", "Y", "R", "R", "R"]);
    assert_eq!(s.win(), None);
}

#[test]
fn rising_diagonal_win() {
    let s = board(["R", "YR", "YYR", "YRYR", "", "", ""]);
    assert_eq!(s.win(), Some(Token::Red));
    let s = board(["", "", "", "Y", "RY", "RRY", "RYRY"]);
    assert_eq!(s.win(), Some(Token::Yellow));
}

#[test]
fn falling_diagonal_win() {
    let s = board(["YRYR", "YYR", "YR", "R", "", "", ""]);
    assert_eq!(s.win(), Some(Token::Red));
    let s = board(["", "", "", "RYRY", "RRY", "RY", "Y"]);
    assert_eq!(s.win(), Some(Token::Yellow));
}

#[test]
fn first_line_in_scan_order_is_reported() {
    // vertical windows are looked at before horizontal ones
    let s = board(["Y", "Y", "Y", "Y", "", "", "RRRR"]);
    assert_eq!(s.win(), Some(Token::Red));
    // and among vertical ones, lower columns first
    let s = board(["YYYY", "", "", "", "", "", "RRRR"]);
    assert_eq!(s.win(), Some(Token::Yellow));
}

#[test]
fn counts_along_each_direction() {
    let s = board(["RYRR", "YR", "RRY", "YYYR", "", "", ""]);
    assert_eq!(s.count_vertical(0, 0), (3, 1));
    assert_eq!(s.count_vertical(1, 0), (2, 1));
    assert_eq!(s.count_vertical(2, 0), (2, 0));
    assert_eq!(s.count_horizontal(0, 0), (2, 2));
    assert_eq!(s.count_horizontal(1, 0), (2, 2));
    assert_eq!(s.count_horizontal(0, 3), (0, 1));
    assert_eq!(s.count_diag_ne(0, 0), (3, 1));
    assert_eq!(s.count_diag_ne(1, 0), (0, 1));
    assert_eq!(s.count_diag_nw(0, 3), (2, 1));
    assert_eq!(s.count_diag_nw(0, 6), (1, 0));
    assert_eq!(s.count_diag_nw(2, 6), (0, 0));
}

#[test]
fn windows_are_numbered_in_scan_order() {
    let s = board(["RYRR", "YR", "RRY", "YYYR", "", "", ""]);
    assert_eq!(WINDOWS, 69);
    assert_eq!(s.window_counts(0), s.count_vertical(0, 0));
    assert_eq!(s.window_counts(2), s.count_vertical(2, 0));
    assert_eq!(s.window_counts(3), s.count_vertical(0, 1));
    assert_eq!(s.window_counts(20), s.count_vertical(2, 6));
    assert_eq!(s.window_counts(21), s.count_horizontal(0, 0));
    assert_eq!(s.window_counts(22), s.count_horizontal(1, 0));
    assert_eq!(s.window_counts(27), s.count_horizontal(0, 1));
    assert_eq!(s.window_counts(44), s.count_horizontal(5, 3));
    assert_eq!(s.window_counts(45), s.count_diag_ne(0, 0));
    assert_eq!(s.window_counts(46), s.count_diag_ne(1, 0));
    assert_eq!(s.window_counts(56), s.count_diag_ne(2, 3));
    assert_eq!(s.window_counts(57), s.count_diag_nw(0, 3));
    assert_eq!(s.window_counts(57), (2, 1));
    assert_eq!(s.window_counts(68), s.count_diag_nw(2, 6));
}

#[test]
fn four_of_reads_a_pair_of_counts() {
    assert_eq!(four_of((4, 0)), Some(Token::Red));
    assert_eq!(four_of((0, 4)), Some(Token::Yellow));
    assert_eq!(four_of((3, 1)), None);
    assert_eq!(four_of((0, 0)), None);
}

#[test]
fn run_counts_follow_the_direction() {
    let s = board(["RYRR", "YR", "RRY", "YYYR", "", "", ""]);
    assert_eq!(s.run_counts(0, 0, Direction::Vertical), (3, 1));
    assert_eq!(s.run_counts(0, 0, Direction::Horizontal), (2, 2));
    assert_eq!(s.run_counts(0, 0, Direction::Rising), (3, 1));
    assert_eq!(s.run_counts(0, 3, Direction::Falling), (2, 1));
    assert_eq!(s.run_counts(2, 3, Direction::Vertical), (1, 1));
    assert_eq!(s.run_counts(5, 3, Direction::Horizontal), (0, 0));
}
