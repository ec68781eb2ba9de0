//! The board: seven column stacks of at most six tokens each.
//!
//! A board is modelled as a sequence of columns, each column being the
//! sequence of tokens dropped into it, bottom first.
use vstd::prelude::*;

verus! {

/// Number of columns.
pub const WIDTH: usize = 7;

/// Number of rows.
pub const HEIGHT: usize = 6;

/// Number of aligned tokens that wins the game.
pub const LINE: usize = 4;

/// The colour of a token, and so of the player who drops it.
#[derive(Clone, Copy, Debug, PartialEq, Eq, Structural)]
pub enum Token {
    Red,
    Yellow,
}

/// The mathematical board: `b[c]` is the stack of column `c`, bottom first.
pub type Board = Seq<Seq<Token>>;

/// A board has `WIDTH` columns, none higher than `HEIGHT`.
pub open spec fn board_wf(b: Board) -> bool {
    &&& b.len() == WIDTH
    &&& forall|c: int| 0 <= c < WIDTH ==> (#[trigger] b[c]).len() <= HEIGHT
}

/// The board on which nothing has been played.
pub open spec fn empty_board() -> Board {
    Seq::new(WIDTH as nat, |c: int| Seq::<Token>::empty())
}

/// The token at `(row, col)`, if the position is on the board and occupied.
pub open spec fn cell_at(b: Board, row: int, col: int) -> Option<Token> {
    if 0 <= col < b.len() && 0 <= row < b[col].len() {
        Some(b[col][row])
    } else {
        None
    }
}

/// Whether there is a column `col` and it has a free cell.
pub open spec fn has_room(b: Board, col: int) -> bool {
    0 <= col < WIDTH && b[col].len() < HEIGHT
}

/// Whether there is a column `col` and it holds a token.
pub open spec fn has_token(b: Board, col: int) -> bool {
    0 <= col < WIDTH && b[col].len() > 0
}

/// The board after `t` is dropped into column `col`.
pub open spec fn placed(b: Board, col: int, t: Token) -> Board {
    b.update(col, b[col].push(t))
}

/// The board after the top token of column `col` is taken away.
pub open spec fn unplaced(b: Board, col: int) -> Board {
    b.update(col, b[col].drop_last())
}

/// The number of free cells in the columns `0..n`.
pub open spec fn free_cells(b: Board, n: int) -> int
    decreases n,
{
    if n <= 0 {
        0
    } else {
        free_cells(b, n - 1) + (HEIGHT - b[n - 1].len())
    }
}

/// The number of free cells on the whole board.
pub open spec fn free_total(b: Board) -> int {
    free_cells(b, WIDTH as int)
}

/// The other colour.
pub open spec fn opponent(t: Token) -> Token {
    match t {
        Token::Red => Token::Yellow,
        Token::Yellow => Token::Red,
    }
}

impl Token {
    /// The colour of the other player.
    pub fn other(&self) -> (r: Token)
        ensures
            r == opponent(*self),
    {
        match self {
            Token::Red => Token::Yellow,
            Token::Yellow => Token::Red,
        }
    }

    /// The letter that stands for this colour when a board is drawn.
    pub fn letter(&self) -> (c: char)
        ensures
            c == token_letter(*self),
    {
        match self {
            Token::Red => 'R',
            Token::Yellow => 'Y',
        }
    }
}

/// `'R'` for red, `'Y'` for yellow.
pub open spec fn token_letter(t: Token) -> char {
    match t {
        Token::Red => 'R',
        Token::Yellow => 'Y',
    }
}

/// Dropping a token into a column that has room and taking the top of that
/// column away again gives back the board as it was, cell for cell, and
/// with it the number of free cells; in between, one cell fewer is free.
pub proof fn lemma_place_then_remove(b: Board, col: int, t: Token)
    requires
        board_wf(b),
        0 <= col < WIDTH,
        has_room(b, col),
    ensures
        board_wf(placed(b, col, t)),
        placed(b, col, t)[col].len() > 0,
        placed(b, col, t)[col].last() == t,
        unplaced(placed(b, col, t), col) == b,
        forall|row: int, c: int|
            cell_at(unplaced(placed(b, col, t), col), row, c) == cell_at(b, row, c),
        free_total(unplaced(placed(b, col, t), col)) == free_total(b),
        free_total(placed(b, col, t)) == free_total(b) - 1,
{
    let p = placed(b, col, t);
    assert(p[col].drop_last() =~= b[col]);
    assert(unplaced(p, col) =~= b);
    lemma_free_cells_placed(b, col, t, WIDTH as int);
}

/// What one placement does to the count of free cells in the columns `0..n`.
pub proof fn lemma_free_cells_placed(b: Board, col: int, t: Token, n: int)
    requires
        b.len() == WIDTH,
        0 <= col < WIDTH,
        0 <= n <= WIDTH,
    ensures
        free_cells(placed(b, col, t), n) == free_cells(b, n) - (if col < n {
            1int
        } else {
            0int
        }),
    decreases n,
{
    if n > 0 {
        lemma_free_cells_placed(b, col, t, n - 1);
    }
}

/// On a well-formed board the free cells of the columns `0..n` number
/// between zero and `HEIGHT * n`, and none is free only if every one of
/// those columns is full.
pub proof fn lemma_free_cells_bounds(b: Board, n: int)
    requires
        board_wf(b),
        0 <= n <= WIDTH,
    ensures
        0 <= free_cells(b, n) <= HEIGHT * n,
        free_cells(b, n) == 0 <==> (forall|c: int| 0 <= c < n ==> !has_room(b, c)),
    decreases n,
{
    if n > 0 {
        lemma_free_cells_bounds(b, n - 1);
        if free_cells(b, n) == 0 {
            assert forall|c: int| 0 <= c < n implies !has_room(b, c) by {
                if c < n - 1 {
                } else {
                    assert(b[n - 1].len() <= HEIGHT);
                }
            }
        } else {
            if free_cells(b, n - 1) != 0 {
                let c = choose|c: int| 0 <= c < n - 1 && has_room(b, c);
                assert(has_room(b, c));
            } else {
                assert(has_room(b, n - 1));
            }
        }
    }
}

/// Tokens lie on one another: below an occupied cell every cell of the
/// column is occupied, and no cell outside the board is.
pub proof fn lemma_no_gaps(b: Board, row: int, col: int)
    requires
        board_wf(b),
        cell_at(b, row, col) is Some,
    ensures
        0 <= row < HEIGHT,
        0 <= col < WIDTH,
        forall|below: int| 0 <= below <= row ==> cell_at(b, below, col) is Some,
{
}

/// The empty board is well-formed and all its cells are free.
pub proof fn lemma_empty_board()
    ensures
        board_wf(empty_board()),
        free_total(empty_board()) == WIDTH * HEIGHT,
        forall|row: int, col: int| cell_at(empty_board(), row, col) == None::<Token>,
{
    reveal_with_fuel(free_cells, 8);
}

/// The index of the first zero cell of `col` at or after `i`, or the
/// length of `col` if there is none.
spec fn first_empty(col: Seq<u8>, i: int) -> int
    decreases col.len() - i,
{
    if 0 <= i < col.len() && col[i] != 0 {
        first_empty(col, i + 1)
    } else {
        i
    }
}

/// The colour that a cell's number stands for: 1 is red, 2 is yellow.
spec fn token_of(v: u8) -> Token {
    if v == 1 {
        Token::Red
    } else {
        Token::Yellow
    }
}

/// The stack that the cells of one column stand for.
spec fn column_stack(col: Seq<u8>) -> Seq<Token> {
    Seq::new(first_empty(col, 0) as nat, |r: int| token_of(col[r]))
}

/// Cells hold 0, 1 or 2, and nothing floats above a free cell.
spec fn column_ok(col: Seq<u8>) -> bool {
    forall|r: int|
        0 <= r < col.len() ==> #[trigger] col[r] <= 2 && (r >= first_empty(col, 0) ==> col[r]
            == 0)
}

proof fn lemma_first_empty_is(col: Seq<u8>, a: int, i: int)
    requires
        0 <= a <= i <= col.len(),
        forall|j: int| a <= j < i ==> col[j] != 0,
        i == col.len() || col[i] == 0,
    ensures
        first_empty(col, a) == i,
    decreases i - a,
{
    if a < i {
        lemma_first_empty_is(col, a + 1, i);
    }
}

proof fn lemma_first_empty_bounds(col: Seq<u8>, a: int)
    requires
        0 <= a <= col.len(),
    ensures
        a <= first_empty(col, a) <= col.len(),
        forall|j: int| a <= j < first_empty(col, a) ==> col[j] != 0,
        first_empty(col, a) < col.len() ==> col[first_empty(col, a)] == 0,
    decreases col.len() - a,
{
    if a < col.len() && col[a] != 0 {
        lemma_first_empty_bounds(col, a + 1);
    }
}

/// The state of a game: which token, if any, lies in each cell.
pub struct State {
    content: [[u8; 6]; 7],
}

impl View for State {
    type V = Board;

    closed spec fn view(&self) -> Board {
        Seq::new(WIDTH as nat, |c: int| column_stack(self.content[c]@))
    }
}

impl State {
    /// The cells describe stacks: each holds 0 (free), 1 (red) or 2
    /// (yellow), and no token lies above a free cell.
    pub closed spec fn inv(&self) -> bool {
        forall|c: int| 0 <= c < WIDTH ==> column_ok(#[trigger] self.content[c]@)
    }

    /// Well-formedness: the cells describe stacks, and the board they stand
    /// for has `WIDTH` columns of at most `HEIGHT` tokens. `new` gives such
    /// a state and every method keeps it so.
    pub open spec fn wf(&self) -> bool {
        &&& self.inv()
        &&& board_wf(self@)
    }

    proof fn lemma_columns(&self)
        ensures
            board_wf(self@),
            forall|c: int|
                0 <= c < WIDTH ==> (#[trigger] self@[c]).len() == first_empty(
                    self.content[c]@,
                    0,
                ),
    {
        assert forall|c: int| 0 <= c < WIDTH implies (#[trigger] self@[c]).len() <= HEIGHT
            && self@[c].len() == first_empty(self.content[c]@, 0) by {
            lemma_first_empty_bounds(self.content[c]@, 0);
        }
    }

    /// An empty board.
    pub fn new() -> (s: State)
        ensures
            s.wf(),
            s@ == empty_board(),
    {
        let s = State { content: [[0u8; 6]; 7] };
        proof {
            s.lemma_columns();
            assert forall|c: int| 0 <= c < WIDTH implies s@[c] =~= Seq::<Token>::empty() by {}
            assert(s@ =~= empty_board());
        }
        s
    }

    /// Width of the board.
    pub fn width(&self) -> (w: usize)
        ensures
            w == WIDTH,
    {
        WIDTH
    }

    /// Height of the board.
    pub fn height(&self) -> (h: usize)
        ensures
            h == HEIGHT,
    {
        HEIGHT
    }

    /// Target length of the line.
    pub fn line_length(&self) -> (l: usize)
        ensures
            l == LINE,
    {
        LINE
    }

    /// Returns the color of the token at the given position.
    ///
    /// Returns `None` if there is no token there, or no such position.
    pub fn get(&self, row: usize, column: usize) -> (r: Option<Token>)
        requires
            self.wf(),
        ensures
            r == cell_at(self@, row as int, column as int),
    {
        if column >= WIDTH || row >= HEIGHT {
            return None;
        }
        proof {
            self.lemma_columns();
            lemma_first_empty_bounds(self.content[column as int]@, 0);
        }
        let v = self.content[column][row];
        if v == 1 {
            Some(Token::Red)
        } else if v == 2 {
            Some(Token::Yellow)
        } else {
            None
        }
    }

    /// Returns whether or not a token can be appended to the column. None
    /// can be to a column that the board does not have.
    pub fn can_append(&self, column: usize) -> (r: bool)
        requires
            self.wf(),
        ensures
            r == has_room(self@, column as int),
    {
        if column >= WIDTH {
            return false;
        }
        proof {
            self.lemma_columns();
            lemma_first_empty_bounds(self.content[column as int]@, 0);
        }
        // is there at least one free cell in column?
        self.content[column][HEIGHT - 1] == 0
    }

    /// Append a token to the column.
    ///
    /// Returns `Err(())` if the column is already full, or is none of the
    /// board's; the board is then left as it was.
    pub fn append(&mut self, column: usize, t: &Token) -> (r: Result<(), ()>)
        requires
            old(self).wf(),
        ensures
            final(self).wf(),
            has_room(old(self)@, column as int) ==> r == Ok::<(), ()>(()) && final(self)@
                == placed(old(self)@, column as int, *t),
            !has_room(old(self)@, column as int) ==> r == Err::<(), ()>(()) && *final(self)
                == *old(self),
    {
        if column >= WIDTH {
            return Err(());
        }
        proof {
            self.lemma_columns();
        }
        let mut i: usize = 0;
        while i < HEIGHT
            invariant
                i <= HEIGHT,
                column < WIDTH,
                *self == *old(self),
                old(self).wf(),
                forall|j: int| 0 <= j < i ==> self.content[column as int][j] != 0,
            decreases HEIGHT - i,
        {
            // is there already a token at this position?
            if self.content[column][i] == 0 {
                let code: u8 = match t {
                    Token::Red => 1,
                    Token::Yellow => 2,
                };
                proof {
                    lemma_first_empty_is(old(self).content[column as int]@, 0, i as int);
                    assert(column_ok(old(self).content[column as int]@));
                }
                // add token to this column
                self.content[column][i] = code;
                proof {
                    let before = old(self).content[column as int]@;
                    let after = self.content[column as int]@;
                    assert(after =~= before.update(i as int, code));
                    lemma_first_empty_is(after, 0, i + 1);
                    assert(column_ok(after));
                    assert forall|c: int| 0 <= c < WIDTH implies column_ok(
                        #[trigger] self.content[c]@,
                    ) by {
                        if c != column {
                            assert(self.content[c] == old(self).content[c]);
                        }
                    }
                    self.lemma_columns();
                    assert(self@[column as int] =~= old(self)@[column as int].push(*t));
                    assert forall|c: int| 0 <= c < WIDTH && c != column implies self@[c] == old(
                        self,
                    )@[c] by {
                        assert(self.content[c] == old(self).content[c]);
                    }
                    assert(self@ =~= placed(old(self)@, column as int, *t));
                }
                return Ok(());  // add it only once!
            }
            i += 1;
        }
        proof {
            lemma_first_empty_is(self.content[column as int]@, 0, HEIGHT as int);
        }
        // could not add token because this column is already full
        Err(())
    }

    /// Removes last token appended to the column and returns it.
    ///
    /// Returns `None` if there was no token to remove; the board is then
    /// left as it was.
    pub fn pop(&mut self, column: usize) -> (r: Option<Token>)
        requires
            old(self).wf(),
        ensures
            final(self).wf(),
            has_token(old(self)@, column as int) ==> r == Some(old(self)@[column as int].last())
                && final(self)@ == unplaced(old(self)@, column as int),
            !has_token(old(self)@, column as int) ==> r == None::<Token> && *final(self) == *old(
                self,
            ),
    {
        if column >= WIDTH {
            return None;
        }
        proof {
            self.lemma_columns();
            lemma_first_empty_bounds(self.content[column as int]@, 0);
        }
        let mut i: usize = HEIGHT;
        while i > 0
            invariant
                i <= HEIGHT,
                column < WIDTH,
                *self == *old(self),
                old(self).wf(),
                forall|j: int| i <= j < HEIGHT ==> self.content[column as int][j] == 0,
            decreases i,
        {
            i -= 1;
            let v = self.content[column][i];
            // if empty, try below
            if v != 0 {
                proof {
                    assert(column_ok(old(self).content[column as int]@));
                    lemma_first_empty_bounds(old(self).content[column as int]@, 0);
                    lemma_first_empty_is(old(self).content[column as int]@, 0, i + 1);
                }
                // not empty, so empty it and return the token
                self.content[column][i] = 0;
                proof {
                    let before = old(self).content[column as int]@;
                    let after = self.content[column as int]@;
                    assert(after =~= before.update(i as int, 0u8));
                    lemma_first_empty_is(after, 0, i as int);
                    assert(column_ok(after));
                    assert forall|c: int| 0 <= c < WIDTH implies column_ok(
                        #[trigger] self.content[c]@,
                    ) by {
                        if c != column {
                            assert(self.content[c] == old(self).content[c]);
                        }
                    }
                    self.lemma_columns();
                    assert(self@[column as int] =~= old(self)@[column as int].drop_last());
                    assert forall|c: int| 0 <= c < WIDTH && c != column implies self@[c] == old(
                        self,
                    )@[c] by {
                        assert(self.content[c] == old(self).content[c]);
                    }
                    assert(self@ =~= unplaced(old(self)@, column as int));
                }
                if v == 1 {
                    return Some(Token::Red);
                } else {
                    return Some(Token::Yellow);
                }
            }
        }
        // cound not find any token to pop
        None
    }

    /// Maximum number of plies left before the game ends.
    pub fn plies_left(&self) -> (count: u8)
        requires
            self.wf(),
        ensures
            count == free_total(self@),
    {
        proof {
            self.lemma_columns();
        }
        let mut count: u8 = 0;
        let mut column: usize = 0;
        while column < WIDTH
            invariant
                column <= WIDTH,
                self.wf(),
                0 <= free_cells(self@, column as int) <= 6 * column,
                count == free_cells(self@, column as int),
            decreases WIDTH - column,
        {
            let ghost h = first_empty(self.content[column as int]@, 0);
            let ghost base = count;
            proof {
                self.lemma_columns();
                lemma_first_empty_bounds(self.content[column as int]@, 0);
            }
            let mut row: usize = 0;
            while row < HEIGHT
                invariant
                    row <= HEIGHT,
                    column < WIDTH,
                    self.wf(),
                    0 <= h <= HEIGHT,
                    h == first_empty(self.content[column as int]@, 0),
                    forall|j: int| 0 <= j < h ==> self.content[column as int][j] != 0,
                    base <= 6 * column,
                    count == base + (if row <= h { 0 } else { row - h }),
                decreases HEIGHT - row,
            {
                if self.content[column][row] == 0 {
                    count += 1;
                }
                row += 1;
            }
            column += 1;
        }
        count
    }
}

impl Clone for State {
    /// A copy of the whole grid.
    fn clone(&self) -> (s: State)
        ensures
            s == *self,
    {
        State { content: self.content }
    }
}

} // verus!
