//! Lines of four: counting the tokens of each colour in a window of four
//! cells, and finding a completed line.
//!
//! A window is given by its origin `(row, col)` and a direction; its four
//! cells are the origin and the three cells that follow in that direction.
//! The windows that lie wholly on the board are numbered `0..WINDOWS` in the
//! order in which they are scanned.
use vstd::prelude::*;
use crate::board::{
    Board, State, Token, board_wf, cell_at, empty_board, opponent, placed, HEIGHT, LINE, WIDTH,
};

verus! {

/// The direction in which a window runs from its origin.
#[derive(Clone, Copy, Debug, PartialEq, Eq, Structural)]
pub enum Direction {
    /// Up a column.
    Vertical,
    /// Along a row, to the right.
    Horizontal,
    /// Up and to the right.
    Rising,
    /// Up and to the left.
    Falling,
}

/// The number of windows of four cells on the board.
pub const WINDOWS: usize = 69;

/// The row of the `i`-th cell of a window that starts in `row`.
pub open spec fn line_row(row: int, dir: Direction, i: int) -> int {
    match dir {
        Direction::Horizontal => row,
        _ => row + i,
    }
}

/// The column of the `i`-th cell of a window that starts in `col`.
pub open spec fn line_col(col: int, dir: Direction, i: int) -> int {
    match dir {
        Direction::Vertical => col,
        Direction::Falling => col - i,
        _ => col + i,
    }
}

/// How many of the first `n` cells of the window hold a token of colour `t`.
pub open spec fn run_count(b: Board, row: int, col: int, dir: Direction, n: int, t: Token) -> int
    decreases n,
{
    if n <= 0 {
        0
    } else {
        run_count(b, row, col, dir, n - 1, t) + if cell_at(
            b,
            line_row(row, dir, n - 1),
            line_col(col, dir, n - 1),
        ) == Some(t) {
            1int
        } else {
            0int
        }
    }
}

/// Whether the four cells of the window that starts at `(row, col)` and
/// runs in direction `dir` all lie on the board.
pub open spec fn on_board(row: int, col: int, dir: Direction) -> bool {
    &&& 0 <= line_row(row, dir, 0) && line_row(row, dir, LINE - 1) < HEIGHT
    &&& 0 <= line_col(col, dir, LINE - 1) < WIDTH
    &&& 0 <= col < WIDTH
}

/// The direction of window number `k`.
pub open spec fn window_dir(k: int) -> Direction {
    if k < 21 {
        Direction::Vertical
    } else if k < 45 {
        Direction::Horizontal
    } else if k < 57 {
        Direction::Rising
    } else {
        Direction::Falling
    }
}

/// The row in which window number `k` starts.
pub open spec fn window_row(k: int) -> int {
    if k < 21 {
        k % 3
    } else if k < 45 {
        (k - 21) % 6
    } else if k < 57 {
        (k - 45) % 3
    } else {
        (k - 57) % 3
    }
}

/// The column in which window number `k` starts.
pub open spec fn window_col(k: int) -> int {
    if k < 21 {
        k / 3
    } else if k < 45 {
        (k - 21) / 6
    } else if k < 57 {
        (k - 45) / 3
    } else {
        3 + (k - 57) / 3
    }
}

/// How many cells of window number `k` hold a token of colour `t`.
pub open spec fn window_count(b: Board, k: int, t: Token) -> int {
    run_count(b, window_row(k), window_col(k), window_dir(k), LINE as int, t)
}

/// The colour that fills window number `k`, if one does.
pub open spec fn four_in(b: Board, k: int) -> Option<Token> {
    if window_count(b, k, Token::Red) == LINE {
        Some(Token::Red)
    } else if window_count(b, k, Token::Yellow) == LINE {
        Some(Token::Yellow)
    } else {
        None
    }
}

/// The colour of the first filled window among the windows `0..k`.
pub open spec fn winner_upto(b: Board, k: int) -> Option<Token>
    decreases k,
{
    if k <= 0 {
        None
    } else {
        match winner_upto(b, k - 1) {
            Some(t) => Some(t),
            None => four_in(b, k - 1),
        }
    }
}

/// The colour of the first filled window in scan order, if any window is
/// filled.
pub open spec fn winner(b: Board) -> Option<Token> {
    winner_upto(b, WINDOWS as int)
}

/// The numbered windows are the windows that lie on the board: every number
/// names one of them, and each of them has a number.
pub proof fn lemma_windows_cover_the_board(row: int, col: int, dir: Direction)
    ensures
        forall|k: int|
            0 <= k < WINDOWS ==> on_board(window_row(k), window_col(k), #[trigger] window_dir(k)),
        on_board(row, col, dir) ==> exists|k: int|
            0 <= k < WINDOWS && row == window_row(k) && col == window_col(k) && dir
                == #[trigger] window_dir(k),
{
    if on_board(row, col, dir) {
        let k = match dir {
            Direction::Vertical => 3 * col + row,
            Direction::Horizontal => 21 + 6 * col + row,
            Direction::Rising => 45 + 3 * col + row,
            Direction::Falling => 57 + 3 * (col - 3) + row,
        };
        assert(0 <= k < WINDOWS && row == window_row(k) && col == window_col(k) && dir
            == window_dir(k));
    }
}

/// A window holds between zero and `n` tokens among its first `n` cells,
/// both colours together.
pub proof fn lemma_run_count_bounds(b: Board, row: int, col: int, dir: Direction, n: int)
    requires
        0 <= n,
    ensures
        0 <= run_count(b, row, col, dir, n, Token::Red),
        0 <= run_count(b, row, col, dir, n, Token::Yellow),
        run_count(b, row, col, dir, n, Token::Red) + run_count(b, row, col, dir, n, Token::Yellow)
            <= n,
    decreases n,
{
    if n > 0 {
        lemma_run_count_bounds(b, row, col, dir, n - 1);
    }
}

/// Once a filled window has been met, the windows after it do not change
/// the result.
pub proof fn lemma_winner_stable(b: Board, k: int, n: int)
    requires
        0 <= k <= n,
        winner_upto(b, k) is Some,
    ensures
        winner_upto(b, n) == winner_upto(b, k),
    decreases n - k,
{
    if k < n {
        lemma_winner_stable(b, k, n - 1);
    }
}

/// If window `k` is the first filled one, its colour is the winner.
pub proof fn lemma_first_four_wins(b: Board, k: int)
    requires
        0 <= k < WINDOWS,
        winner_upto(b, k) is None,
        four_in(b, k) is Some,
    ensures
        winner(b) == four_in(b, k),
{
    lemma_winner_stable(b, k + 1, WINDOWS as int);
}

/// The winner, if there is one, fills some window; and there is none
/// exactly if no window among `0..n` is filled.
pub proof fn lemma_winner_upto_is_a_line(b: Board, n: int)
    requires
        0 <= n,
    ensures
        winner_upto(b, n) is None <==> (forall|k: int| 0 <= k < n ==> four_in(b, k) is None),
        winner_upto(b, n) is Some ==> exists|k: int|
            0 <= k < n && #[trigger] four_in(b, k) == winner_upto(b, n),
    decreases n,
{
    if n > 0 {
        lemma_winner_upto_is_a_line(b, n - 1);
        if winner_upto(b, n - 1) is Some {
            let k = choose|k: int|
                0 <= k < n - 1 && #[trigger] four_in(b, k) == winner_upto(b, n - 1);
            assert(0 <= k < n && four_in(b, k) == winner_upto(b, n));
            assert(four_in(b, k) is Some);
        } else {
            if four_in(b, n - 1) is Some {
                assert(0 <= n - 1 < n && four_in(b, n - 1) == winner_upto(b, n));
            } else {
                assert forall|k: int| 0 <= k < n implies four_in(b, k) is None by {
                    if k < n - 1 {
                    }
                }
            }
        }
    }
}

/// Nobody has won exactly if no window on the board is filled, and whoever
/// has won fills a window.
pub proof fn lemma_winner_is_a_line(b: Board)
    ensures
        winner(b) is None <==> (forall|k: int| 0 <= k < WINDOWS ==> four_in(b, k) is None),
        winner(b) is Some ==> exists|k: int|
            0 <= k < WINDOWS && #[trigger] four_in(b, k) == winner(b),
{
    lemma_winner_upto_is_a_line(b, WINDOWS as int);
}

/// A colour that fills a window wins, unless the other colour fills one
/// too.
pub proof fn lemma_sole_line_wins(b: Board, k: int, t: Token)
    requires
        0 <= k < WINDOWS,
        four_in(b, k) == Some(t),
        forall|j: int| 0 <= j < WINDOWS ==> four_in(b, j) != Some(opponent(t)),
    ensures
        winner(b) == Some(t),
{
    lemma_winner_is_a_line(b);
}

/// No window of the empty board holds a token.
pub proof fn lemma_empty_run_count(row: int, col: int, dir: Direction, n: int, t: Token)
    ensures
        run_count(empty_board(), row, col, dir, n, t) == 0,
    decreases n,
{
    if n > 0 {
        lemma_empty_run_count(row, col, dir, n - 1, t);
    }
}

/// Nobody has won on the empty board.
pub proof fn lemma_empty_board_has_no_winner()
    ensures
        winner(empty_board()) is None,
{
    assert forall|k: int| 0 <= k < WINDOWS implies four_in(empty_board(), k) is None by {
        lemma_empty_run_count(window_row(k), window_col(k), window_dir(k), 4, Token::Red);
        lemma_empty_run_count(window_row(k), window_col(k), window_dir(k), 4, Token::Yellow);
    }
    lemma_winner_is_a_line(empty_board());
}

/// A token dropped into a column changes no count of the other colour.
pub proof fn lemma_run_count_of_other(
    b: Board,
    col: int,
    t: Token,
    row: int,
    c: int,
    dir: Direction,
    n: int,
)
    requires
        0 <= col < b.len(),
    ensures
        run_count(placed(b, col, t), row, c, dir, n, opponent(t)) == run_count(
            b,
            row,
            c,
            dir,
            n,
            opponent(t),
        ),
    decreases n,
{
    if n > 0 {
        lemma_run_count_of_other(b, col, t, row, c, dir, n - 1);
    }
}

/// A move completes no line for the other colour: a window that the other
/// colour fills after the move was filled by it before.
pub proof fn lemma_move_gives_the_other_no_line(b: Board, col: int, t: Token)
    requires
        0 <= col < b.len(),
    ensures
        forall|k: int| #[trigger]
            four_in(placed(b, col, t), k) == Some(opponent(t)) ==> four_in(b, k) == Some(
                opponent(t),
            ),
{
    assert forall|k: int| #[trigger]
        four_in(placed(b, col, t), k) == Some(opponent(t)) implies four_in(b, k) == Some(
        opponent(t),
    ) by {
        lemma_run_count_of_other(b, col, t, window_row(k), window_col(k), window_dir(k), 4);
        lemma_run_count_bounds(b, window_row(k), window_col(k), window_dir(k), 4);
    }
}

/// Whoever drops four tokens into an empty column has won, unless the other
/// colour had a line before.
pub proof fn lemma_vertical_line_wins(b: Board, col: int, t: Token)
    requires
        board_wf(b),
        0 <= col < WIDTH,
        b[col].len() == 0,
        forall|k: int| 0 <= k < WINDOWS ==> four_in(b, k) != Some(opponent(t)),
    ensures
        winner(placed(placed(placed(placed(b, col, t), col, t), col, t), col, t)) == Some(t),
{
    let b1 = placed(b, col, t);
    let b2 = placed(b1, col, t);
    let b3 = placed(b2, col, t);
    let b4 = placed(b3, col, t);
    lemma_move_gives_the_other_no_line(b, col, t);
    lemma_move_gives_the_other_no_line(b1, col, t);
    lemma_move_gives_the_other_no_line(b2, col, t);
    lemma_move_gives_the_other_no_line(b3, col, t);
    let k = 3 * col;
    reveal_with_fuel(run_count, 5);
    assert(run_count(b4, 0, col, Direction::Vertical, 4, t) == 4);
    lemma_run_count_bounds(b4, 0, col, Direction::Vertical, 4);
    assert(four_in(b4, k) == Some(t));
    lemma_sole_line_wins(b4, k, t);
}

/// Whoever drops a token into each of four empty columns side by side has
/// won, unless the other colour had a line before.
pub proof fn lemma_horizontal_line_wins(b: Board, col: int, t: Token)
    requires
        board_wf(b),
        0 <= col,
        col + LINE <= WIDTH,
        forall|c: int| col <= c < col + LINE ==> (#[trigger] b[c]).len() == 0,
        forall|k: int| 0 <= k < WINDOWS ==> four_in(b, k) != Some(opponent(t)),
    ensures
        winner(placed(placed(placed(placed(b, col, t), col + 1, t), col + 2, t), col + 3, t))
            == Some(t),
{
    let b1 = placed(b, col, t);
    let b2 = placed(b1, col + 1, t);
    let b3 = placed(b2, col + 2, t);
    let b4 = placed(b3, col + 3, t);
    lemma_move_gives_the_other_no_line(b, col, t);
    lemma_move_gives_the_other_no_line(b1, col + 1, t);
    lemma_move_gives_the_other_no_line(b2, col + 2, t);
    lemma_move_gives_the_other_no_line(b3, col + 3, t);
    assert(b[col].len() == 0 && b[col + 1].len() == 0 && b[col + 2].len() == 0 && b[col
        + 3].len() == 0);
    let k = 21 + 6 * col;
    reveal_with_fuel(run_count, 5);
    assert(run_count(b4, 0, col, Direction::Horizontal, 4, t) == 4);
    lemma_run_count_bounds(b4, 0, col, Direction::Horizontal, 4);
    assert(four_in(b4, k) == Some(t));
    lemma_sole_line_wins(b4, k, t);
}

/// The colour that a pair of counts shows to have filled a window.
pub fn four_of(counts: (i32, i32)) -> (r: Option<Token>)
    ensures
        r == (if counts.0 == 4 {
            Some(Token::Red)
        } else if counts.1 == 4 {
            Some(Token::Yellow)
        } else {
            None
        }),
{
    if counts.0 == 4 {
        Some(Token::Red)
    } else if counts.1 == 4 {
        Some(Token::Yellow)
    } else {
        None
    }
}

impl State {
    /// Counts the red and the yellow tokens in the four cells that go up
    /// from `(row, column)`.
    pub fn count_vertical(&self, row: usize, column: usize) -> (r: (i32, i32))
        requires
            self.wf(),
            row + LINE <= HEIGHT,
            column < WIDTH,
        ensures
            r.0 == run_count(self@, row as int, column as int, Direction::Vertical, 4, Token::Red),
            r.1 == run_count(
                self@,
                row as int,
                column as int,
                Direction::Vertical,
                4,
                Token::Yellow,
            ),
    {
        let mut count_r: i32 = 0;
        let mut count_y: i32 = 0;
        let mut i: usize = 0;
        while i < LINE
            invariant
                i <= LINE,
                self.wf(),
                row + LINE <= HEIGHT,
                0 <= count_r <= i,
                0 <= count_y <= i,
                count_r == run_count(
                    self@,
                    row as int,
                    column as int,
                    Direction::Vertical,
                    i as int,
                    Token::Red,
                ),
                count_y == run_count(
                    self@,
                    row as int,
                    column as int,
                    Direction::Vertical,
                    i as int,
                    Token::Yellow,
                ),
            decreases LINE - i,
        {
            if let Some(t) = self.get(row + i, column) {
                match t {
                    Token::Red => {
                        count_r += 1;
                    },
                    Token::Yellow => {
                        count_y += 1;
                    },
                }
            }
            i += 1;
        }
        (count_r, count_y)
    }

    /// Counts the red and the yellow tokens in the four cells that go to the
    /// right from `(row, column)`.
    pub fn count_horizontal(&self, row: usize, column: usize) -> (r: (i32, i32))
        requires
            self.wf(),
            row < HEIGHT,
            column + LINE <= WIDTH,
        ensures
            r.0 == run_count(
                self@,
                row as int,
                column as int,
                Direction::Horizontal,
                4,
                Token::Red,
            ),
            r.1 == run_count(
                self@,
                row as int,
                column as int,
                Direction::Horizontal,
                4,
                Token::Yellow,
            ),
    {
        let mut count_r: i32 = 0;
        let mut count_y: i32 = 0;
        let mut i: usize = 0;
        while i < LINE
            invariant
                i <= LINE,
                self.wf(),
                column + LINE <= WIDTH,
                0 <= count_r <= i,
                0 <= count_y <= i,
                count_r == run_count(
                    self@,
                    row as int,
                    column as int,
                    Direction::Horizontal,
                    i as int,
                    Token::Red,
                ),
                count_y == run_count(
                    self@,
                    row as int,
                    column as int,
                    Direction::Horizontal,
                    i as int,
                    Token::Yellow,
                ),
            decreases LINE - i,
        {
            if let Some(t) = self.get(row, column + i) {
                match t {
                    Token::Red => {
                        count_r += 1;
                    },
                    Token::Yellow => {
                        count_y += 1;
                    },
                }
            }
            i += 1;
        }
        (count_r, count_y)
    }

    /// Counts the red and the yellow tokens in the four cells that go up and
    /// to the right from `(row, column)`.
    pub fn count_diag_ne(&self, row: usize, column: usize) -> (r: (i32, i32))
        requires
            self.wf(),
            row + LINE <= HEIGHT,
            column + LINE <= WIDTH,
        ensures
            r.0 == run_count(self@, row as int, column as int, Direction::Rising, 4, Token::Red),
            r.1 == run_count(
                self@,
                row as int,
                column as int,
                Direction::Rising,
                4,
                Token::Yellow,
            ),
    {
        let mut count_r: i32 = 0;
        let mut count_y: i32 = 0;
        let mut i: usize = 0;
        while i < LINE
            invariant
                i <= LINE,
                self.wf(),
                row + LINE <= HEIGHT,
                column + LINE <= WIDTH,
                0 <= count_r <= i,
                0 <= count_y <= i,
                count_r == run_count(
                    self@,
                    row as int,
                    column as int,
                    Direction::Rising,
                    i as int,
                    Token::Red,
                ),
                count_y == run_count(
                    self@,
                    row as int,
                    column as int,
                    Direction::Rising,
                    i as int,
                    Token::Yellow,
                ),
            decreases LINE - i,
        {
            if let Some(t) = self.get(row + i, column + i) {
                match t {
                    Token::Red => {
                        count_r += 1;
                    },
                    Token::Yellow => {
                        count_y += 1;
                    },
                }
            }
            i += 1;
        }
        (count_r, count_y)
    }

    /// Counts the red and the yellow tokens in the four cells that go up and
    /// to the left from `(row, column)`.
    pub fn count_diag_nw(&self, row: usize, column: usize) -> (r: (i32, i32))
        requires
            self.wf(),
            row + LINE <= HEIGHT,
            LINE - 1 <= column < WIDTH,
        ensures
            r.0 == run_count(self@, row as int, column as int, Direction::Falling, 4, Token::Red),
            r.1 == run_count(
                self@,
                row as int,
                column as int,
                Direction::Falling,
                4,
                Token::Yellow,
            ),
    {
        let mut count_r: i32 = 0;
        let mut count_y: i32 = 0;
        let mut i: usize = 0;
        while i < LINE
            invariant
                i <= LINE,
                self.wf(),
                row + LINE <= HEIGHT,
                LINE - 1 <= column < WIDTH,
                0 <= count_r <= i,
                0 <= count_y <= i,
                count_r == run_count(
                    self@,
                    row as int,
                    column as int,
                    Direction::Falling,
                    i as int,
                    Token::Red,
                ),
                count_y == run_count(
                    self@,
                    row as int,
                    column as int,
                    Direction::Falling,
                    i as int,
                    Token::Yellow,
                ),
            decreases LINE - i,
        {
            if let Some(t) = self.get(row + i, column - i) {
                match t {
                    Token::Red => {
                        count_r += 1;
                    },
                    Token::Yellow => {
                        count_y += 1;
                    },
                }
            }
            i += 1;
        }
        (count_r, count_y)
    }

    /// Counts the red and the yellow tokens in the four cells that start at
    /// `(row, column)` and run in direction `dir`.
    pub fn run_counts(&self, row: usize, column: usize, dir: Direction) -> (r: (i32, i32))
        requires
            self.wf(),
            on_board(row as int, column as int, dir),
        ensures
            r.0 == run_count(self@, row as int, column as int, dir, LINE as int, Token::Red),
            r.1 == run_count(self@, row as int, column as int, dir, LINE as int, Token::Yellow),
    {
        match dir {
            Direction::Vertical => self.count_vertical(row, column),
            Direction::Horizontal => self.count_horizontal(row, column),
            Direction::Rising => self.count_diag_ne(row, column),
            Direction::Falling => self.count_diag_nw(row, column),
        }
    }

    /// Counts the red and the yellow tokens in window number `k`.
    pub fn window_counts(&self, k: usize) -> (r: (i32, i32))
        requires
            self.wf(),
            k < WINDOWS,
        ensures
            r.0 == window_count(self@, k as int, Token::Red),
            r.1 == window_count(self@, k as int, Token::Yellow),
            0 <= r.0,
            0 <= r.1,
            r.0 + r.1 <= LINE,
    {
        proof {
            lemma_run_count_bounds(
                self@,
                window_row(k as int),
                window_col(k as int),
                window_dir(k as int),
                LINE as int,
            );
        }
        if k < 21 {
            self.count_vertical(k % 3, k / 3)
        } else if k < 45 {
            self.count_horizontal((k - 21) % 6, (k - 21) / 6)
        } else if k < 57 {
            self.count_diag_ne((k - 45) % 3, (k - 45) / 3)
        } else {
            self.count_diag_nw((k - 57) % 3, 3 + (k - 57) / 3)
        }
    }

    /// Returns the token color of the player who wins.
    ///
    /// Returns `None` if no line of four is complete.
    pub fn win(&self) -> (r: Option<Token>)
        requires
            self.wf(),
        ensures
            r == winner(self@),
    {
        let mut column: usize = 0;
        while column < WIDTH
            invariant
                column <= WIDTH,
                self.wf(),
                winner_upto(self@, column * 3) is None,
            decreases WIDTH - column,
        {
            let mut row: usize = 0;
            while row < HEIGHT - LINE + 1
                invariant
                    row <= HEIGHT - LINE + 1,
                    column < WIDTH,
                    self.wf(),
                    winner_upto(self@, column * 3 + row) is None,
                decreases HEIGHT - LINE + 1 - row,
            {
                let found = four_of(self.count_vertical(row, column));
                if found.is_some() {
                    proof {
                        lemma_first_four_wins(self@, column * 3 + row);
                    }
                    return found;
                }
                row += 1;
            }
            column += 1;
        }

        let mut column: usize = 0;
        while column < WIDTH - LINE + 1
            invariant
                column <= WIDTH - LINE + 1,
                self.wf(),
                winner_upto(self@, 21 + column * 6) is None,
            decreases WIDTH - LINE + 1 - column,
        {
            let mut row: usize = 0;
            while row < HEIGHT
                invariant
                    row <= HEIGHT,
                    column < WIDTH - LINE + 1,
                    self.wf(),
                    winner_upto(self@, 21 + column * 6 + row) is None,
                decreases HEIGHT - row,
            {
                let found = four_of(self.count_horizontal(row, column));
                if found.is_some() {
                    proof {
                        lemma_first_four_wins(self@, 21 + column * 6 + row);
                    }
                    return found;
                }
                row += 1;
            }
            column += 1;
        }

        let mut column: usize = 0;
        while column < WIDTH - LINE + 1
            invariant
                column <= WIDTH - LINE + 1,
                self.wf(),
                winner_upto(self@, 45 + column * 3) is None,
            decreases WIDTH - LINE + 1 - column,
        {
            let mut row: usize = 0;
            while row < HEIGHT - LINE + 1
                invariant
                    row <= HEIGHT - LINE + 1,
                    column < WIDTH - LINE + 1,
                    self.wf(),
                    winner_upto(self@, 45 + column * 3 + row) is None,
                decreases HEIGHT - LINE + 1 - row,
            {
                let found = four_of(self.count_diag_ne(row, column));
                if found.is_some() {
                    proof {
                        lemma_first_four_wins(self@, 45 + column * 3 + row);
                    }
                    return found;
                }
                row += 1;
            }
            column += 1;
        }

        let mut column: usize = LINE - 1;
        while column < WIDTH
            invariant
                LINE - 1 <= column <= WIDTH,
                self.wf(),
                winner_upto(self@, 57 + (column - 3) * 3) is None,
            decreases WIDTH - column,
        {
            let mut row: usize = 0;
            while row < HEIGHT - LINE + 1
                invariant
                    row <= HEIGHT - LINE + 1,
                    LINE - 1 <= column < WIDTH,
                    self.wf(),
                    winner_upto(self@, 57 + (column - 3) * 3 + row) is None,
                decreases HEIGHT - LINE + 1 - row,
            {
                let found = four_of(self.count_diag_nw(row, column));
                if found.is_some() {
                    proof {
                        lemma_first_four_wins(self@, 57 + (column - 3) * 3 + row);
                    }
                    return found;
                }
                row += 1;
            }
            column += 1;
        }

        None
    }
}

} // verus!
