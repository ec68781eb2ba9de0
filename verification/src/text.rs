//! The board as text: a frame of `+`, `-` and `|` around the rows, top row
//! first, with `R` and `Y` for the tokens and a blank for a free cell.
use vstd::prelude::*;
use crate::board::{Board, State, Token, cell_at, token_letter, HEIGHT, WIDTH};

verus! {

/// The character that stands for the cell at `(row, col)`.
pub open spec fn cell_char(b: Board, row: int, col: int) -> char {
    match cell_at(b, row, col) {
        Some(t) => token_letter(t),
        None => ' ',
    }
}

/// The line above and below the rows.
pub open spec fn border_text() -> Seq<char> {
    seq!['+', '-', '-', '-', '-', '-', '-', '-', '+', '\n']
}

/// The first `n` cells of row `row`, after the bar that opens the line.
pub open spec fn row_start(b: Board, row: int, n: int) -> Seq<char> {
    seq!['|'] + Seq::new(n as nat, |c: int| cell_char(b, row, c))
}

/// The line of row `row`.
pub open spec fn row_text(b: Board, row: int) -> Seq<char> {
    row_start(b, row, WIDTH as int) + seq!['|', '\n']
}

/// The lines of the `n` topmost rows, top row first.
pub open spec fn rows_text(b: Board, n: int) -> Seq<char>
    decreases n,
{
    if n <= 0 {
        Seq::empty()
    } else {
        rows_text(b, n - 1) + row_text(b, HEIGHT - n)
    }
}

/// The whole board as text.
pub open spec fn board_text(b: Board) -> Seq<char> {
    border_text() + rows_text(b, HEIGHT as int) + border_text()
}

impl State {
    /// Draws the board, top row first, in a frame.
    pub fn render(&self) -> (text: String)
        requires
            self.wf(),
        ensures
            text@ == board_text(self@),
    {
        proof {
            reveal_strlit("+-------+\n");
            reveal_strlit("|");
            reveal_strlit("|\n");
            reveal_strlit(" ");
            reveal_strlit("R");
            reveal_strlit("Y");
        }
        let mut s = String::new();
        s.append("+-------+\n");
        assert(s@ =~= border_text() + rows_text(self@, 0));
        let mut n: usize = 0;
        while n < HEIGHT
            invariant
                n <= HEIGHT,
                self.wf(),
                s@ == border_text() + rows_text(self@, n as int),
                "|"@ == seq!['|'],
                "|\n"@ == seq!['|', '\n'],
                " "@ == seq![' '],
                "R"@ == seq!['R'],
                "Y"@ == seq!['Y'],
            decreases HEIGHT - n,
        {
            let i = HEIGHT - 1 - n;
            let ghost above = s@;
            s.append("|");
            assert(s@ =~= above + row_start(self@, i as int, 0));
            let mut j: usize = 0;
            while j < WIDTH
                invariant
                    j <= WIDTH,
                    self.wf(),
                    s@ == above + row_start(self@, i as int, j as int),
                    " "@ == seq![' '],
                    "R"@ == seq!['R'],
                    "Y"@ == seq!['Y'],
                decreases WIDTH - j,
            {
                match self.get(i, j) {
                    None => {
                        s.append(" ");
                    },
                    Some(Token::Red) => {
                        s.append("R");
                    },
                    Some(Token::Yellow) => {
                        s.append("Y");
                    },
                }
                assert(s@ =~= above + row_start(self@, i as int, j + 1));
                j += 1;
            }
            s.append("|\n");
            assert(s@ =~= border_text() + rows_text(self@, n + 1));
            n += 1;
        }
        s.append("+-------+\n");
        assert(s@ =~= board_text(self@));
        s
    }
}

} // verus!
