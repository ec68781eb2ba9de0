use connect4::ai::{line_scores, marginal_scores, score, square_sums, BruteForce, Heuristic, Rand};
use connect4::{Player, State, Token};

fn board(columns: [&str; 7]) -> State {
    let mut s = State::new();
    for (c, stack) in columns.iter().enumerate() {
        for ch in stack.chars() {
            let t = if ch == 'R' { Token::Red } else { Token::Yellow };
            s.append(c, &t).unwrap();
        }
    }
    s
}

fn cells(s: &State) -> Vec<Option<Token>> {
    let mut all = Vec::new();
    for column in 0..7 {
        for row in 0..6 {
            all.push(s.get(row, column));
        }
    }
    all
}

const MIXED: [&str; 7] = ["RYRR", "YR", "RRY", "YYYR", "", "", ""];

#[test]
fn line_scores_square_the_count_of_a_lone_colour() {
    assert_eq!(line_scores((0, 0)), (0, 0));
    assert_eq!(line_scores((1, 0)), (1, 0));
    assert_eq!(line_scores((2, 0)), (4, 0));
    assert_eq!(line_scores((3, 0)), (9, 0));
    assert_eq!(line_scores((4, 0)), (16, 0));
    assert_eq!(line_scores((0, 1)), (0, 1));
    assert_eq!(line_scores((0, 3)), (0, 9));
    assert_eq!(line_scores((1, 1)), (0, 0));
    assert_eq!(line_scores((3, 1)), (0, 0));
    assert_eq!(line_scores((2, 2)), (0, 0));
}

#[test]
fn heuristic_of_the_empty_board_is_zero() {
    assert_eq!(marginal_scores(&State::new()), (0, 0));
    assert_eq!(square_sums(&State::new()), (0, 0));
}

#[test]
fn heuristic_counts_the_windows_through_a_single_token() {
    assert_eq!(marginal_scores(&board(["R", "", "", "", "", "", ""])), (3, 0));
    assert_eq!(marginal_scores(&board(["", "", "", "R", "", "", ""])), (7, 0));
    assert_eq!(marginal_scores(&board(["", "", "", "Y", "", "", ""])), (0, 7));
}

#[test]
fn heuristic_sums_squares_of_unmixed_windows() {
    assert_eq!(marginal_scores(&board(["", "", "R", "RY", "", "", ""])), (16, 8));
    assert_eq!(marginal_scores(&board(MIXED)), (16, 27));
    assert_eq!(marginal_scores(&board(["", "", "RRR", "", "", "", ""])), (32, 0));
    assert_eq!(marginal_scores(&board(["RY", "RY", "RY", "", "", "", ""])), (15, 21));
}

#[test]
fn heuristic_saturates_on_a_completed_line() {
    assert_eq!(marginal_scores(&board(["", "", "RRRR", "", "", "", ""])), (i32::MAX, 0));
    assert_eq!(marginal_scores(&board(["", "Y", "Y", "Y", "Y", "", ""])), (0, i32::MAX));
}

#[test]
fn square_sums_do_not_saturate() {
    assert_eq!(square_sums(&board(["", "", "RRRR", "", "", "", ""])), (55, 0));
    assert_eq!(square_sums(&board(MIXED)), (16, 27));
    assert_eq!(square_sums(&board(["RYRYRY", "", "", "", "", "", ""])), (6, 6));
}

#[test]
fn depth_zero_is_the_heuristic_alone() {
    let mut s = board(MIXED);
    assert_eq!(score(&mut s, &Token::Red, &Token::Red, 0), (0, -11));
    assert_eq!(score(&mut s, &Token::Red, &Token::Yellow, 0), (0, -11));
    assert_eq!(score(&mut s, &Token::Yellow, &Token::Yellow, 0), (0, 11));
    assert_eq!(score(&mut s, &Token::Yellow, &Token::Red, 0), (0, 11));
    let mut s = board(["", "", "", "R", "", "", ""]);
    assert_eq!(score(&mut s, &Token::Yellow, &Token::Yellow, 0), (0, -7));
    assert_eq!(score(&mut s, &Token::Red, &Token::Yellow, 0), (0, 7));
    let mut s = State::new();
    assert_eq!(score(&mut s, &Token::Red, &Token::Red, 0), (0, 0));
}

#[test]
fn depth_zero_on_a_won_board_saturates_without_overflow() {
    let mut s = board(["", "", "RRRR", "", "", "", ""]);
    assert_eq!(score(&mut s, &Token::Red, &Token::Yellow, 0), (0, i32::MAX));
    assert_eq!(score(&mut s, &Token::Yellow, &Token::Yellow, 0), (0, -i32::MAX));
}

#[test]
fn depth_zero_agrees_with_the_one_ply_player_where_it_plays_column_zero() {
    let s = board(["", "", "RRR", "", "", "", ""]);
    let mut p = Heuristic::new();
    p.start(Token::Yellow);
    assert_eq!(p.play(&s), 0);
    let mut copy = s.clone();
    assert_eq!(score(&mut copy, &Token::Yellow, &Token::Yellow, 0).0, p.play(&s));
}

#[test]
fn search_on_the_empty_board() {
    let mut s = State::new();
    assert_eq!(score(&mut s, &Token::Red, &Token::Red, 1), (3, 7));
    assert_eq!(score(&mut s, &Token::Red, &Token::Red, 2), (1, -3));
    assert_eq!(score(&mut s, &Token::Red, &Token::Red, 3), (2, 10));
}

#[test]
fn search_in_the_middle_of_a_game() {
    let mut s = board(MIXED);
    assert_eq!(score(&mut s, &Token::Red, &Token::Red, 1), (2, 6));
    assert_eq!(score(&mut s, &Token::Red, &Token::Yellow, 1), (2, -33));
    assert_eq!(score(&mut s, &Token::Red, &Token::Red, 2), (2, -4));
    assert_eq!(score(&mut s, &Token::Red, &Token::Yellow, 2), (2, -17));
    assert_eq!(score(&mut s, &Token::Red, &Token::Red, 3), (2, 8));
    assert_eq!(score(&mut s, &Token::Red, &Token::Red, 4), (2, -1));
    assert_eq!(score(&mut s, &Token::Yellow, &Token::Yellow, 1), (2, 33));
    assert_eq!(score(&mut s, &Token::Yellow, &Token::Yellow, 2), (2, 17));
    assert_eq!(score(&mut s, &Token::Yellow, &Token::Red, 2), (2, 4));
    assert_eq!(score(&mut s, &Token::Yellow, &Token::Yellow, 3), (2, 32));
    assert_eq!(score(&mut s, &Token::Yellow, &Token::Yellow, 4), (2, 13));
}

#[test]
fn search_keeps_the_lowest_column_among_equals() {
    // two cells are left, in columns 5 and 6, and every line of play is a draw
    let mut s = board(["RRYYRR", "RRYYRR", "YYRRYY", "RRYYRR", "YYRRYY", "RYRYR", "YYRRY"]);
    for depth in 1..5 {
        assert_eq!(score(&mut s, &Token::Red, &Token::Red, depth), (5, 0));
        assert_eq!(score(&mut s, &Token::Yellow, &Token::Yellow, depth), (5, 0));
        assert_eq!(score(&mut s, &Token::Red, &Token::Yellow, depth), (5, 0));
    }
}

#[test]
fn search_is_deterministic_and_leaves_the_board_alone() {
    let mut s = board(MIXED);
    let before = cells(&s);
    let left = s.plies_left();
    for depth in 0..5 {
        let first = score(&mut s, &Token::Red, &Token::Red, depth);
        assert_eq!(cells(&s), before);
        assert_eq!(s.plies_left(), left);
        let second = score(&mut s, &Token::Red, &Token::Red, depth);
        assert_eq!(first, second);
        let mut fresh = board(MIXED);
        assert_eq!(score(&mut fresh, &Token::Red, &Token::Red, depth), first);
    }
}

#[test]
fn search_finds_the_forced_win() {
    let mut s = board(["RY", "RY", "RY", "", "", "", ""]);
    for depth in 1..5 {
        assert_eq!(score(&mut s, &Token::Red, &Token::Red, depth), (3, i32::MAX));
    }
    let mut s = board(["", "", "RRR", "", "", "", ""]);
    assert_eq!(score(&mut s, &Token::Red, &Token::Red, 2), (2, i32::MAX));
}

#[test]
fn search_blocks_the_threat() {
    let mut s = board(["RY", "RY", "R", "", "", "", ""]);
    assert_eq!(score(&mut s, &Token::Yellow, &Token::Yellow, 1), (3, 10));
    assert_eq!(score(&mut s, &Token::Yellow, &Token::Yellow, 2), (3, -5));
    assert_eq!(score(&mut s, &Token::Yellow, &Token::Yellow, 3), (3, 8));
    let mut s = board(["", "", "RRR", "", "", "", ""]);
    assert_eq!(score(&mut s, &Token::Yellow, &Token::Yellow, 2), (2, -25));
}

#[test]
fn search_on_a_finished_game() {
    let mut s = board(["", "", "RRRR", "", "", "", ""]);
    assert_eq!(score(&mut s, &Token::Red, &Token::Yellow, 1), (0, i32::MAX));
    assert_eq!(score(&mut s, &Token::Yellow, &Token::Yellow, 1), (0, i32::MIN));
    assert_eq!(score(&mut s, &Token::Yellow, &Token::Yellow, 4), (0, i32::MIN));
    let mut s = board(["RRYYRR", "RRYYRR", "YYRRYY", "RRYYRR", "YYRRYY", "RYRYRY", "YYRRYY"]);
    assert_eq!(score(&mut s, &Token::Red, &Token::Red, 3), (0, 0));
    assert_eq!(score(&mut s, &Token::Yellow, &Token::Red, 1), (0, 0));
}

#[test]
fn search_skips_full_columns() {
    let mut s = board(["RRYYRR", "RRYYRR", "YYRRYY", "RRYYRR", "YYRRYY", "RYRYRY", "YYRRY"]);
    assert_eq!(score(&mut s, &Token::Red, &Token::Yellow, 1), (6, 0));
    assert_eq!(score(&mut s, &Token::Red, &Token::Yellow, 2), (6, 0));
    assert_eq!(score(&mut s, &Token::Red, &Token::Yellow, 5), (6, 0));
    assert_eq!(score(&mut s, &Token::Yellow, &Token::Yellow, 2), (6, 0));
}

#[test]
fn brute_force_plays_red_until_told_otherwise() {
    let s = board(["RY", "RY", "R", "", "", "", ""]);
    // as red, with red to move, column 3 completes the line
    let p = BruteForce::new(2);
    assert_eq!(p.play(&s), 3);
    let mut q = BruteForce::new(3);
    q.start(Token::Yellow);
    assert_eq!(q.play(&s), 3);
    let mut r = BruteForce::new(1);
    r.start(Token::Yellow);
    let mut t = board(MIXED);
    assert_eq!(r.play(&t), score(&mut t, &Token::Yellow, &Token::Yellow, 1).0);
    assert_eq!(r.play(&t), 2);
}

#[test]
fn brute_force_does_not_touch_the_board_it_is_shown() {
    let s = board(MIXED);
    let before = cells(&s);
    let p = BruteForce::new(4);
    assert_eq!(p.play(&s), 2);
    assert_eq!(cells(&s), before);
    p.win(&s);
    p.lose(&s);
    p.draw(&s);
    assert_eq!(cells(&s), before);
}

#[test]
fn one_ply_player_takes_the_greatest_margin() {
    let mut red = Heuristic::new();
    assert_eq!(red.play(&State::new()), 3);
    let mut yellow = Heuristic::new();
    yellow.start(Token::Yellow);
    assert_eq!(yellow.play(&State::new()), 3);
    let s = board(["", "", "R", "RY", "", "", ""]);
    assert_eq!(yellow.play(&s), 2);
    assert_eq!(red.play(&s), 4);
    let s = board(MIXED);
    assert_eq!(red.play(&s), 2);
    assert_eq!(yellow.play(&s), 2);
    let s = board(["RY", "RY", "RY", "", "", "", ""]);
    assert_eq!(red.play(&s), 3);
    red.start(Token::Yellow);
    assert_eq!(red.play(&State::new()), 3);
}

#[test]
fn one_ply_player_skips_a_full_column_for_a_better_one() {
    let s = board(["RYRYRY", "", "", "", "", "", ""]);
    assert_eq!(Heuristic::new().play(&s), 3);
}

#[test]
fn one_ply_player_falls_back_to_column_zero() {
    // no move gives yellow a margin above zero
    let s = board(["", "", "RRR", "", "", "", ""]);
    let mut yellow = Heuristic::new();
    yellow.start(Token::Yellow);
    assert_eq!(yellow.play(&s), 0);
    // even where column 0 is full
    let s = board(["RRYYRR", "RRYYRR", "YYRRYY", "RRYYRR", "YYRRYY", "RYRYRY", "YYRRY"]);
    assert_eq!(yellow.play(&s), 0);
    assert!(!s.can_append(0));
}

#[test]
fn random_player_names_a_column_of_the_board() {
    let mut p = Rand {};
    p.start(Token::Yellow);
    let s = State::new();
    let mut seen = [false; 7];
    for _ in 0..2000 {
        let mv = p.play(&s);
        assert!(mv < 7);
        seen[mv] = true;
    }
    assert!(seen.iter().all(|x| *x));
    p.win(&s);
    p.lose(&s);
    p.draw(&s);
}

#[test]
fn random_player_does_not_look_at_the_board() {
    let s = board(["RYRYRY", "RYRYRY", "RYRYRY", "YRYRYR", "RYRYRY", "RYRYRY", ""]);
    let p = Rand {};
    let mut full = 0;
    for _ in 0..1000 {
        let mv = p.play(&s);
        assert!(mv < 7);
        if !s.can_append(mv) {
            full += 1;
        }
    }
    assert!(full > 0);
}
