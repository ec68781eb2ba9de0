use connect4::{State, Token};

#[test]
fn an_empty_board_is_drawn_as_an_empty_frame() {
    let expected = "+-------+\n|       |\n|       |\n|       |\n|       |\n|       |\n|       |\n+-------+\n";
    assert_eq!(State::new().render(), expected);
}

#[test]
fn tokens_are_drawn_bottom_row_last() {
    let mut s = State::new();
    s.append(0, &Token::Red).unwrap();
    s.append(0, &Token::Yellow).unwrap();
    s.append(3, &Token::Yellow).unwrap();
    s.append(6, &Token::Red).unwrap();
    for _ in 0..5 {
        s.append(6, &Token::Yellow).unwrap();
    }
    let expected = "+-------+\n|      Y|\n|      Y|\n|      Y|\n|      Y|\n|Y     Y|\n|R  Y  R|\n+-------+\n";
    assert_eq!(s.render(), expected);
}
