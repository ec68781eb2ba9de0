//! Players that choose their own moves: one at random, one by exhaustive
//! search of the game tree to a fixed depth, and one that looks a single
//! ply ahead.
//!
//! The search is modelled by `minimax`, which follows the order in which
//! the columns are tried; `lemma_minimax_is_optimal` says what that comes
//! to: the best score that any move leads to, at the lowest column that
//! leads to it.
use vstd::prelude::*;
use rand::Rng;
use crate::board::{
    Board, State, Token, board_wf, free_total, has_room, opponent, placed, lemma_free_cells_bounds,
    lemma_place_then_remove, HEIGHT, LINE, WIDTH,
};
use crate::lines::{
    four_of, lemma_first_four_wins, lemma_run_count_bounds, window_col, window_count,
    window_dir, window_row, winner, winner_upto, WINDOWS,
};
use crate::player::Player;

verus! {

/// What window number `k` is worth to colour `t`: the square of the number
/// of its tokens there, if the other colour has none there.
pub open spec fn line_value(b: Board, k: int, t: Token) -> int {
    if window_count(b, k, opponent(t)) == 0 {
        window_count(b, k, t) * window_count(b, k, t)
    } else {
        0
    }
}

/// The sum of `line_value` over the windows `0..k`.
pub open spec fn value_upto(b: Board, k: int, t: Token) -> int
    decreases k,
{
    if k <= 0 {
        0
    } else {
        value_upto(b, k - 1, t) + line_value(b, k - 1, t)
    }
}

/// The scores of red and of yellow on a board. A colour that has completed
/// a line scores `i32::MAX` and the other zero; otherwise each scores the
/// sum of its `line_value` over all windows.
pub open spec fn heuristic(b: Board) -> (int, int) {
    match winner(b) {
        Some(Token::Red) => (i32::MAX as int, 0),
        Some(Token::Yellow) => (0, i32::MAX as int),
        None => (
            value_upto(b, WINDOWS as int, Token::Red),
            value_upto(b, WINDOWS as int, Token::Yellow),
        ),
    }
}

/// The score of a board for `player` where the search looks no further:
/// its own heuristic score less the opponent's.
pub open spec fn leaf_score(b: Board, player: Token) -> int {
    match player {
        Token::Red => heuristic(b).0 - heuristic(b).1,
        Token::Yellow => heuristic(b).1 - heuristic(b).0,
    }
}

/// Whether a score `s` displaces the best score `best` found so far: only
/// if strictly greater where `player` is to move, strictly less where its
/// opponent is.
pub open spec fn displaces(maximizing: bool, s: int, best: int) -> bool {
    if maximizing {
        s > best
    } else {
        s < best
    }
}

/// The column and the score that a search of `depth` plies gives for
/// `player` on board `b`, with `current` to move.
pub open spec fn minimax(b: Board, player: Token, current: Token, depth: nat) -> (int, int)
    decreases depth, WIDTH + 1,
{
    if depth == 0 {
        (0, leaf_score(b, player))
    } else if winner(b) is Some {
        if winner(b) == Some(player) {
            (0, i32::MAX as int)
        } else {
            (0, i32::MIN as int)
        }
    } else if free_total(b) == 0 {
        (0, 0)
    } else {
        match best_upto(b, player, current, depth, WIDTH as int) {
            Some(best) => best,
            None => (0, 0),
        }
    }
}

/// The best column and score among the columns `0..n` of an inner node of
/// the search, or `None` if none of them has room.
pub open spec fn best_upto(b: Board, player: Token, current: Token, depth: nat, n: int) -> Option<
    (int, int),
>
    decreases depth, n,
{
    if n <= 0 || n > WIDTH || depth == 0 {
        None
    } else {
        let before = best_upto(b, player, current, depth, n - 1);
        if !has_room(b, n - 1) {
            before
        } else {
            let s = minimax(
                placed(b, n - 1, current),
                player,
                opponent(current),
                (depth - 1) as nat,
            ).1;
            match before {
                None => Some((n - 1, s)),
                Some(best) => if displaces(player == current, s, best.1) {
                    Some((n - 1, s))
                } else {
                    before
                },
            }
        }
    }
}

/// Among the columns `0..n` a best move exists exactly if one has room, and
/// it is then one of those that have room.
pub proof fn lemma_best_is_legal(b: Board, player: Token, current: Token, depth: nat, n: int)
    requires
        depth > 0,
        0 <= n <= WIDTH,
    ensures
        best_upto(b, player, current, depth, n) is None <==> (forall|c: int|
            0 <= c < n ==> !has_room(b, c)),
        best_upto(b, player, current, depth, n) matches Some(best) ==> 0 <= best.0 < n && has_room(
            b,
            best.0,
        ),
    decreases n,
{
    if n > 0 {
        lemma_best_is_legal(b, player, current, depth, n - 1);
        if best_upto(b, player, current, depth, n) is None {
            assert forall|c: int| 0 <= c < n implies !has_room(b, c) by {
                if c < n - 1 {
                }
            }
        } else {
            if has_room(b, n - 1) {
            } else {
                let c = choose|c: int| 0 <= c < n - 1 && has_room(b, c);
                assert(has_room(b, c));
            }
        }
    }
}

/// The best move among the columns `0..n` is the lowest column whose score
/// no other of them improves on: where `player` is to move no column with
/// room scores more and none before it as much, and where its opponent is to
/// move none scores less and none before it as little.
pub proof fn lemma_best_is_extremal(
    b: Board,
    player: Token,
    current: Token,
    depth: nat,
    n: int,
    c: int,
)
    requires
        depth > 0,
        0 <= c < n <= WIDTH,
        has_room(b, c),
    ensures
        best_upto(b, player, current, depth, n) matches Some(best) && ({
            let of_c = minimax(
                placed(b, c, current),
                player,
                opponent(current),
                (depth - 1) as nat,
            ).1;
            &&& has_room(b, best.0)
            &&& best.1 == minimax(
                placed(b, best.0, current),
                player,
                opponent(current),
                (depth - 1) as nat,
            ).1
            &&& !displaces(player == current, of_c, best.1)
            &&& c < best.0 ==> displaces(player == current, best.1, of_c)
        }),
    decreases n,
{
    lemma_best_is_legal(b, player, current, depth, n);
    lemma_best_is_legal(b, player, current, depth, n - 1);
    if c < n - 1 {
        lemma_best_is_extremal(b, player, current, depth, n - 1, c);
    } else {
        if best_upto(b, player, current, depth, n - 1) is Some {
            let before = best_upto(b, player, current, depth, n - 1).unwrap();
            lemma_best_is_extremal(b, player, current, depth, n - 1, before.0);
        }
    }
}

/// Each colour's sum over the windows `0..k` lies between zero and sixteen
/// for each window, far below the score of a completed line.
pub proof fn lemma_value_bounds(b: Board, k: int, t: Token)
    requires
        0 <= k,
    ensures
        0 <= value_upto(b, k, t) <= 16 * k,
    decreases k,
{
    if k > 0 {
        lemma_value_bounds(b, k - 1, t);
        let j = k - 1;
        lemma_run_count_bounds(b, window_row(j), window_col(j), window_dir(j), 4);
        let n = window_count(b, j, t);
        assert(0 <= n * n <= 16) by (nonlinear_arith)
            requires
                0 <= n <= 4,
        ;
    }
}

/// A search of no plies looks at the board alone: it answers column 0 with
/// the board's leaf score. Where nobody has won, that score is the margin
/// by which the one-ply player judges a board, and it stays strictly
/// between the scores of a lost and of a won game.
pub proof fn lemma_depth_zero_is_leaf(b: Board, player: Token, current: Token)
    ensures
        minimax(b, player, current, 0) == (0int, leaf_score(b, player)),
        winner(b) is None ==> leaf_score(b, player) == margin(b, player),
        winner(b) is None ==> i32::MIN < leaf_score(b, player) < i32::MAX,
{
    lemma_value_bounds(b, WINDOWS as int, Token::Red);
    lemma_value_bounds(b, WINDOWS as int, Token::Yellow);
}

/// A search of no plies names the column that the one-ply player chooses
/// wherever that player chooses column 0.
pub proof fn lemma_depth_zero_column(b: Board, player: Token)
    requires
        one_ply_choice(b, player) == 0,
    ensures
        minimax(b, player, player, 0).0 == one_ply_choice(b, player),
{
}

/// At a node where the game goes on, the search names a column that has
/// room, and its score is the score of the board after that move, searched
/// one ply less deep with the other colour to move.
pub proof fn lemma_minimax_move(b: Board, player: Token, current: Token, depth: nat)
    requires
        board_wf(b),
        depth > 0,
        winner(b) is None,
        free_total(b) > 0,
    ensures
        0 <= minimax(b, player, current, depth).0 < WIDTH,
        has_room(b, minimax(b, player, current, depth).0),
        minimax(b, player, current, depth).1 == minimax(
            placed(b, minimax(b, player, current, depth).0, current),
            player,
            opponent(current),
            (depth - 1) as nat,
        ).1,
{
    lemma_free_cells_bounds(b, WIDTH as int);
    lemma_best_is_legal(b, player, current, depth, WIDTH as int);
    let c = choose|c: int| 0 <= c < WIDTH && has_room(b, c);
    lemma_best_is_extremal(b, player, current, depth, WIDTH as int, c);
}

/// At a node where the game goes on no move does better than the one the
/// search names, and none before it does as well: where `player` is to move
/// no column with room leads to a greater score and none before the named
/// one to an equal score; where its opponent is to move, the same with
/// lesser for greater.
pub proof fn lemma_minimax_is_optimal(
    b: Board,
    player: Token,
    current: Token,
    depth: nat,
    c: int,
)
    requires
        board_wf(b),
        depth > 0,
        winner(b) is None,
        0 <= c < WIDTH,
        has_room(b, c),
    ensures
        ({
            let found = minimax(b, player, current, depth);
            let of_c = minimax(
                placed(b, c, current),
                player,
                opponent(current),
                (depth - 1) as nat,
            ).1;
            &&& player == current ==> of_c <= found.1 && (c < found.0 ==> of_c < found.1)
            &&& player != current ==> of_c >= found.1 && (c < found.0 ==> of_c > found.1)
        }),
{
    lemma_free_cells_bounds(b, WIDTH as int);
    lemma_best_is_extremal(b, player, current, depth, WIDTH as int, c);
}

/// Where the game is over the search says so whatever its depth, if it
/// looks ahead at all: the best score for a board that `player` has won,
/// the worst for one that its opponent has won, zero for a full board that
/// nobody has won.
pub proof fn lemma_minimax_game_over(b: Board, player: Token, current: Token, depth: nat)
    requires
        depth > 0,
    ensures
        winner(b) == Some(player) ==> minimax(b, player, current, depth).1 == i32::MAX,
        winner(b) == Some(opponent(player)) ==> minimax(b, player, current, depth).1 == i32::MIN,
        winner(b) is None && free_total(b) == 0 ==> minimax(b, player, current, depth) == (
            0int,
            0int,
        ),
{
}

/// The search names a column of the board, and its score lies between the
/// scores of a lost and of a won game.
pub proof fn lemma_minimax_bounds(b: Board, player: Token, current: Token, depth: nat)
    ensures
        0 <= minimax(b, player, current, depth).0 < WIDTH,
        i32::MIN <= minimax(b, player, current, depth).1 <= i32::MAX,
    decreases depth, WIDTH + 1,
{
    lemma_value_bounds(b, WINDOWS as int, Token::Red);
    lemma_value_bounds(b, WINDOWS as int, Token::Yellow);
    if depth > 0 {
        lemma_best_bounds(b, player, current, depth, WIDTH as int);
    }
}

/// The best move among the columns `0..n` is one of them, and its score
/// lies between the scores of a lost and of a won game.
pub proof fn lemma_best_bounds(b: Board, player: Token, current: Token, depth: nat, n: int)
    requires
        depth > 0,
        0 <= n <= WIDTH,
    ensures
        best_upto(b, player, current, depth, n) matches Some(best) ==> 0 <= best.0 < n && i32::MIN
            <= best.1 <= i32::MAX,
    decreases depth, n,
{
    if n > 0 {
        lemma_best_bounds(b, player, current, depth, n - 1);
        lemma_minimax_bounds(
            placed(b, n - 1, current),
            player,
            opponent(current),
            (depth - 1) as nat,
        );
    }
}

/// Where `player` is to move and a token in column `c` completes a line for
/// it, the search finds the win: its score is that of a won game, and the
/// column it names is `c` or one before it. A search of one ply names the
/// first column that completes a line.
pub proof fn lemma_winning_move_is_found(b: Board, player: Token, depth: nat, c: int)
    requires
        board_wf(b),
        depth > 0,
        winner(b) is None,
        0 <= c < WIDTH,
        has_room(b, c),
        winner(placed(b, c, player)) == Some(player),
    ensures
        minimax(b, player, player, depth).1 == i32::MAX,
        0 <= minimax(b, player, player, depth).0 <= c,
        has_room(b, minimax(b, player, player, depth).0),
        depth == 1 ==> winner(placed(b, minimax(b, player, player, depth).0, player)) == Some(
            player,
        ),
{
    lemma_free_cells_bounds(b, WIDTH as int);
    lemma_minimax_move(b, player, player, depth);
    lemma_minimax_bounds(b, player, player, depth);
    lemma_best_is_extremal(b, player, player, depth, WIDTH as int, c);
    if depth == 1 {
        let chosen = minimax(b, player, player, depth).0;
        let after = placed(b, chosen, player);
        lemma_value_bounds(after, WINDOWS as int, Token::Red);
        lemma_value_bounds(after, WINDOWS as int, Token::Yellow);
    }
}

/// What one window adds to the scores of red and of yellow, given its
/// counts of red and of yellow tokens.
pub fn line_scores(counts: (i32, i32)) -> (r: (i32, i32))
    requires
        0 <= counts.0 <= 4,
        0 <= counts.1 <= 4,
    ensures
        r.0 == (if counts.1 == 0 {
            counts.0 * counts.0
        } else {
            0
        }),
        r.1 == (if counts.0 == 0 {
            counts.1 * counts.1
        } else {
            0
        }),
        0 <= r.0 <= 16,
        0 <= r.1 <= 16,
{
    let n = counts.0;
    let m = counts.1;
    assert(0 <= n * n <= 16 && 0 <= m * m <= 16 && (n == 0 ==> n * n == 0) && (m == 0 ==> m * m
        == 0)) by (nonlinear_arith)
        requires
            0 <= n <= 4,
            0 <= m <= 4,
    ;
    if m == 0 {
        (n * n, 0)
    } else if n == 0 {
        (0, m * m)
    } else {
        (0, 0)
    }
}

/// The scores of a board on which `t` has completed a line.
fn saturated(t: Token) -> (r: (i32, i32))
    ensures
        r == (match t {
            Token::Red => (i32::MAX, 0i32),
            Token::Yellow => (0i32, i32::MAX),
        }),
{
    match t {
        Token::Red => (i32::MAX, 0),
        Token::Yellow => (0, i32::MAX),
    }
}

/// Computes the heuristic scores of red and of yellow.
pub fn marginal_scores(s: &State) -> (r: (i32, i32))
    requires
        s.wf(),
    ensures
        r.0 == heuristic(s@).0,
        r.1 == heuristic(s@).1,
        0 <= r.0,
        0 <= r.1,
{
    let mut score_r: i32 = 0;
    let mut score_y: i32 = 0;

    let mut column: usize = 0;
    while column < s.width()
        invariant
            column <= WIDTH,
            s.wf(),
            winner_upto(s@, column * 3) is None,
            score_r == value_upto(s@, column * 3, Token::Red),
            score_y == value_upto(s@, column * 3, Token::Yellow),
            0 <= score_r <= 16 * (column * 3),
            0 <= score_y <= 16 * (column * 3),
        decreases WIDTH - column,
    {
        let mut row: usize = 0;
        while row < s.height() - s.line_length() + 1
            invariant
                row <= HEIGHT - LINE + 1,
                column < WIDTH,
                s.wf(),
                winner_upto(s@, column * 3 + row) is None,
                score_r == value_upto(s@, column * 3 + row, Token::Red),
                score_y == value_upto(s@, column * 3 + row, Token::Yellow),
                0 <= score_r <= 16 * (column * 3 + row),
                0 <= score_y <= 16 * (column * 3 + row),
            decreases HEIGHT - LINE + 1 - row,
        {
            let ghost k = (column * 3 + row) as int;
            let counts = s.count_vertical(row, column);
            proof {
                lemma_run_count_bounds(s@, window_row(k), window_col(k), window_dir(k), 4);
            }
            if let Some(t) = four_of(counts) {
                proof {
                    lemma_first_four_wins(s@, k);
                }
                return saturated(t);
            }
            let v = line_scores(counts);
            score_r += v.0;
            score_y += v.1;
            row += 1;
        }
        column += 1;
    }

    let mut column: usize = 0;
    while column < s.width() - s.line_length() + 1
        invariant
            column <= WIDTH - LINE + 1,
            s.wf(),
            winner_upto(s@, 21 + column * 6) is None,
            score_r == value_upto(s@, 21 + column * 6, Token::Red),
            score_y == value_upto(s@, 21 + column * 6, Token::Yellow),
            0 <= score_r <= 16 * (21 + column * 6),
            0 <= score_y <= 16 * (21 + column * 6),
        decreases WIDTH - LINE + 1 - column,
    {
        let mut row: usize = 0;
        while row < s.height()
            invariant
                row <= HEIGHT,
                column < WIDTH - LINE + 1,
                s.wf(),
                winner_upto(s@, 21 + column * 6 + row) is None,
                score_r == value_upto(s@, 21 + column * 6 + row, Token::Red),
                score_y == value_upto(s@, 21 + column * 6 + row, Token::Yellow),
                0 <= score_r <= 16 * (21 + column * 6 + row),
                0 <= score_y <= 16 * (21 + column * 6 + row),
            decreases HEIGHT - row,
        {
            let ghost k = (21 + column * 6 + row) as int;
            let counts = s.count_horizontal(row, column);
            proof {
                lemma_run_count_bounds(s@, window_row(k), window_col(k), window_dir(k), 4);
            }
            if let Some(t) = four_of(counts) {
                proof {
                    lemma_first_four_wins(s@, k);
                }
                return saturated(t);
            }
            let v = line_scores(counts);
            score_r += v.0;
            score_y += v.1;
            row += 1;
        }
        column += 1;
    }

    let mut column: usize = 0;
    while column < s.width() - s.line_length() + 1
        invariant
            column <= WIDTH - LINE + 1,
            s.wf(),
            winner_upto(s@, 45 + column * 3) is None,
            score_r == value_upto(s@, 45 + column * 3, Token::Red),
            score_y == value_upto(s@, 45 + column * 3, Token::Yellow),
            0 <= score_r <= 16 * (45 + column * 3),
            0 <= score_y <= 16 * (45 + column * 3),
        decreases WIDTH - LINE + 1 - column,
    {
        let mut row: usize = 0;
        while row < s.height() - s.line_length() + 1
            invariant
                row <= HEIGHT - LINE + 1,
                column < WIDTH - LINE + 1,
                s.wf(),
                winner_upto(s@, 45 + column * 3 + row) is None,
                score_r == value_upto(s@, 45 + column * 3 + row, Token::Red),
                score_y == value_upto(s@, 45 + column * 3 + row, Token::Yellow),
                0 <= score_r <= 16 * (45 + column * 3 + row),
                0 <= score_y <= 16 * (45 + column * 3 + row),
            decreases HEIGHT - LINE + 1 - row,
        {
            let ghost k = (45 + column * 3 + row) as int;
            let counts = s.count_diag_ne(row, column);
            proof {
                lemma_run_count_bounds(s@, window_row(k), window_col(k), window_dir(k), 4);
            }
            if let Some(t) = four_of(counts) {
                proof {
                    lemma_first_four_wins(s@, k);
                }
                return saturated(t);
            }
            let v = line_scores(counts);
            score_r += v.0;
            score_y += v.1;
            row += 1;
        }
        column += 1;
    }

    let mut column: usize = s.line_length() - 1;
    while column < s.width()
        invariant
            LINE - 1 <= column <= WIDTH,
            s.wf(),
            winner_upto(s@, 57 + (column - 3) * 3) is None,
            score_r == value_upto(s@, 57 + (column - 3) * 3, Token::Red),
            score_y == value_upto(s@, 57 + (column - 3) * 3, Token::Yellow),
            0 <= score_r <= 16 * (57 + (column - 3) * 3),
            0 <= score_y <= 16 * (57 + (column - 3) * 3),
        decreases WIDTH - column,
    {
        let mut row: usize = 0;
        while row < s.height() - s.line_length() + 1
            invariant
                row <= HEIGHT - LINE + 1,
                LINE - 1 <= column < WIDTH,
                s.wf(),
                winner_upto(s@, 57 + (column - 3) * 3 + row) is None,
                score_r == value_upto(s@, 57 + (column - 3) * 3 + row, Token::Red),
                score_y == value_upto(s@, 57 + (column - 3) * 3 + row, Token::Yellow),
                0 <= score_r <= 16 * (57 + (column - 3) * 3 + row),
                0 <= score_y <= 16 * (57 + (column - 3) * 3 + row),
            decreases HEIGHT - LINE + 1 - row,
        {
            let ghost k = (57 + (column - 3) * 3 + row) as int;
            let counts = s.count_diag_nw(row, column);
            proof {
                lemma_run_count_bounds(s@, window_row(k), window_col(k), window_dir(k), 4);
            }
            if let Some(t) = four_of(counts) {
                proof {
                    lemma_first_four_wins(s@, k);
                }
                return saturated(t);
            }
            let v = line_scores(counts);
            score_r += v.0;
            score_y += v.1;
            row += 1;
        }
        column += 1;
    }

    (score_r, score_y)
}

/// Searches the game tree below `s` to `max_depth` plies for `player`, with
/// `current_player` to move, and returns the column to play and its score.
/// The board is used to try the moves out and is handed back as it came.
pub fn score(s: &mut State, player: &Token, current_player: &Token, max_depth: usize) -> (r: (
    usize,
    i32,
))
    requires
        old(s).wf(),
    ensures
        final(s).wf(),
        final(s)@ == old(s)@,
        r.0 == minimax(old(s)@, *player, *current_player, max_depth as nat).0,
        r.1 == minimax(old(s)@, *player, *current_player, max_depth as nat).1,
        max_depth > 0 && winner(old(s)@) is None && free_total(old(s)@) > 0 ==> r.0 < WIDTH
            && has_room(old(s)@, r.0 as int),
    decreases max_depth,
{
    // recursion stops if
    // - max depth is 0
    // - game is finished (win or draw)
    // max depth has been reached
    if max_depth == 0 {
        let scores = marginal_scores(s);
        let score: i32 = match player {
            Token::Red => scores.0 - scores.1,
            Token::Yellow => scores.1 - scores.0,
        };
        return (0, score);
    }
    // game is finished

    match s.win() {
        Some(winner) => {
            if winner == *player {
                // player wins
                return (0, i32::MAX);
            } else {
                // player loses
                return (0, i32::MIN);
            }
        },
        None => {
            if s.plies_left() == 0 {
                // this is a draw
                return (0, 0);
            }
        },
    }

    // is current player minimizing or maximizing player's score?
    let max = *player == *current_player;
    let next_player = current_player.other();
    let ghost b = s@;
    let ghost depth = max_depth as nat;

    // recurse
    // note that there must be at least one possible move
    // otherwise the game would be finished
    let mut best_next: Option<usize> = None;
    let mut best_score: i32 = 0;

    let mut i: usize = 0;
    while i < s.width()
        invariant
            i <= WIDTH,
            s.wf(),
            s@ == b,
            depth == max_depth,
            max_depth > 0,
            max == (*player == *current_player),
            next_player == opponent(*current_player),
            best_upto(b, *player, *current_player, depth, i as int) == (match best_next {
                Some(c) => Some((c as int, best_score as int)),
                None => None,
            }),
        decreases WIDTH - i,
    {
        // simulate next move
        if s.append(i, current_player).is_ok() {
            proof {
                lemma_place_then_remove(b, i as int, *current_player);
            }
            // recursively compute score for this move
            let (_, score) = score(s, player, &next_player, max_depth - 1);

            match best_next {
                None => {
                    // first valid ply: init best next ply and best score
                    best_next = Some(i);
                    best_score = score;
                },
                Some(_) => {
                    if max && score > best_score {
                        best_next = Some(i);
                        best_score = score;
                    } else if !max && score < best_score {
                        best_next = Some(i);
                        best_score = score;
                    }
                },
            };

            // undo next ply
            s.pop(i);
        }
        i += 1;
    }

    proof {
        lemma_best_is_legal(b, *player, *current_player, depth, WIDTH as int);
        lemma_free_cells_bounds(b, WIDTH as int);
    }
    (best_next.unwrap(), best_score)
}

/// Player which plays randomly.
pub struct Rand {}

/// Draws an index below `bound` from the thread's random number generator,
/// by `rand::Rng::gen_range` on `rand::thread_rng()`. Trusted: the index
/// lies in `0..bound`; which one it is depends on chance, and nothing is
/// said of it.
#[verifier::external_body]
fn random_index(bound: usize) -> (i: usize)
    requires
        0 < bound,
    ensures
        i < bound,
{
    rand::thread_rng().gen_range(0, bound)
}

impl Player for Rand {
    fn start(&mut self, _t: Token) {
        /* no op */
    }

    /// Some column of the board, full or not.
    fn play(&self, _s: &State) -> (mv: usize)
        ensures
            mv < WIDTH,
    {
        random_index(WIDTH)
    }

    fn win(&self, _s: &State) {
        /* no op */
    }

    fn lose(&self, _s: &State) {
        /* no op */
    }

    fn draw(&self, _s: &State) {
        /* no op */
    }
}

/// Player which maximizes the score of the next ply by brute force analysis.
pub struct BruteForce {
    color: Token,
    max_depth: usize,
}

impl BruteForce {
    /// The colour that this player plays.
    pub closed spec fn color(&self) -> Token {
        self.color
    }

    /// The number of plies that this player looks ahead.
    pub closed spec fn depth(&self) -> nat {
        self.max_depth as nat
    }

    /// A player that looks `max_depth` plies ahead. It plays red until it
    /// is told otherwise.
    pub fn new(max_depth: usize) -> (p: BruteForce)
        ensures
            p.color() == Token::Red,
            p.depth() == max_depth,
    {
        BruteForce { color: Token::Red, max_depth }
    }
}

impl Player for BruteForce {
    fn start(&mut self, t: Token)
        ensures
            final(self).color() == t,
            final(self).depth() == old(self).depth(),
    {
        self.color = t;
    }

    /// The column that the search gives for this player's colour.
    fn play(&self, s: &State) -> (mv: usize)
        ensures
            mv == minimax(s@, self.color(), self.color(), self.depth()).0,
            self.depth() > 0 && winner(s@) is None && free_total(s@) > 0 ==> mv < WIDTH
                && has_room(s@, mv as int),
    {
        let mut board = s.clone();
        let (next, _) = score(&mut board, &self.color, &self.color, self.max_depth);
        next
    }

    fn win(&self, _s: &State) {
        /* no op */
    }

    fn lose(&self, _s: &State) {
        /* no op */
    }

    fn draw(&self, _s: &State) {
        /* no op */
    }
}

/// The scores of red and of yellow without regard to completed lines: each
/// the sum of its `line_value` over all windows.
pub open spec fn square_sums_spec(b: Board) -> (int, int) {
    (value_upto(b, WINDOWS as int, Token::Red), value_upto(b, WINDOWS as int, Token::Yellow))
}

/// The score of `player` by `square_sums_spec`, less its opponent's.
pub open spec fn margin(b: Board, player: Token) -> int {
    match player {
        Token::Red => square_sums_spec(b).0 - square_sums_spec(b).1,
        Token::Yellow => square_sums_spec(b).1 - square_sums_spec(b).0,
    }
}

/// The column and the margin that the one-ply player holds after it has
/// tried the columns `0..n`: it starts from column 0 with margin 0, and a
/// column with room displaces what it holds only by a strictly greater
/// margin after `player` has played there.
pub open spec fn one_ply_upto(b: Board, player: Token, n: int) -> (int, int)
    decreases n,
{
    if n <= 0 {
        (0, 0)
    } else {
        let before = one_ply_upto(b, player, n - 1);
        if has_room(b, n - 1) && margin(placed(b, n - 1, player), player) > before.1 {
            (n - 1, margin(placed(b, n - 1, player), player))
        } else {
            before
        }
    }
}

/// The column that the one-ply player chooses.
pub open spec fn one_ply_choice(b: Board, player: Token) -> int {
    one_ply_upto(b, player, WIDTH as int).0
}

/// What the one-ply player holds after the columns `0..n` is the best of
/// them: no column with room among them gives a greater margin. If the
/// margin it holds is above zero, it is that of the column it holds, which
/// has room, and every column with room before that one gives less;
/// otherwise it holds column 0.
pub proof fn lemma_one_ply_is_best(b: Board, player: Token, n: int, c: int)
    requires
        0 <= c < n <= WIDTH,
        has_room(b, c),
    ensures
        ({
            let best = one_ply_upto(b, player, n);
            let of_c = margin(placed(b, c, player), player);
            &&& 0 <= best.0 < n
            &&& 0 <= best.1
            &&& of_c <= best.1
            &&& best.1 == 0 ==> best.0 == 0
            &&& best.1 > 0 ==> has_room(b, best.0) && best.1 == margin(
                placed(b, best.0, player),
                player,
            ) && (c < best.0 ==> of_c < best.1)
        }),
    decreases n,
{
    lemma_one_ply_holds(b, player, n);
    if c < n - 1 {
        lemma_one_ply_is_best(b, player, n - 1, c);
    } else {
        lemma_one_ply_holds(b, player, n - 1);
    }
}

/// What the one-ply player holds after the columns `0..n`: column 0 with
/// margin zero, or a column with room among them with its margin, which is
/// above zero.
pub proof fn lemma_one_ply_holds(b: Board, player: Token, n: int)
    requires
        0 <= n <= WIDTH,
    ensures
        ({
            let best = one_ply_upto(b, player, n);
            &&& 0 <= best.0 < WIDTH
            &&& n > 0 ==> best.0 < n
            &&& 0 <= best.1
            &&& best.1 == 0 ==> best.0 == 0
            &&& best.1 > 0 ==> has_room(b, best.0) && best.1 == margin(
                placed(b, best.0, player),
                player,
            )
        }),
    decreases n,
{
    if n > 0 {
        lemma_one_ply_holds(b, player, n - 1);
    }
}

/// Computes the sums of squares of red and of yellow over all windows,
/// completed lines counted like any other.
pub fn square_sums(s: &State) -> (r: (i32, i32))
    requires
        s.wf(),
    ensures
        r.0 == square_sums_spec(s@).0,
        r.1 == square_sums_spec(s@).1,
        0 <= r.0 <= 16 * WINDOWS,
        0 <= r.1 <= 16 * WINDOWS,
{
    let mut score_r: i32 = 0;
    let mut score_y: i32 = 0;
    let mut k: usize = 0;
    while k < WINDOWS
        invariant
            k <= WINDOWS,
            s.wf(),
            score_r == value_upto(s@, k as int, Token::Red),
            score_y == value_upto(s@, k as int, Token::Yellow),
            0 <= score_r <= 16 * k,
            0 <= score_y <= 16 * k,
        decreases WINDOWS - k,
    {
        let v = line_scores(s.window_counts(k));
        score_r += v.0;
        score_y += v.1;
        k += 1;
    }
    (score_r, score_y)
}

/// Player which looks one ply ahead: it plays the column after which its
/// sum of squares exceeds its opponent's by most.
///
/// It compares each margin with the best so far, which starts at zero with
/// column 0; so where no column with room gives a margin above zero it
/// answers 0, whether or not column 0 has room.
pub struct Heuristic {
    color: Token,
}

impl Heuristic {
    /// The colour that this player plays.
    pub closed spec fn color(&self) -> Token {
        self.color
    }

    /// A one-ply player. It plays red until it is told otherwise.
    pub fn new() -> (p: Heuristic)
        ensures
            p.color() == Token::Red,
    {
        Heuristic { color: Token::Red }
    }
}

impl Player for Heuristic {
    fn start(&mut self, t: Token)
        ensures
            final(self).color() == t,
    {
        self.color = t;
    }

    /// The column that gives this player's colour the greatest margin, the
    /// lowest such column if several do.
    fn play(&self, s: &State) -> (mv: usize)
        ensures
            mv == one_ply_choice(s@, self.color()),
            mv < WIDTH,
    {
        let mut board = s.clone();
        let ghost b = s@;
        let mut best_next: usize = 0;
        let mut best_score: i32 = 0;
        let mut i: usize = 0;
        while i < WIDTH
            invariant
                i <= WIDTH,
                board.wf(),
                board@ == b,
                best_next < WIDTH,
                one_ply_upto(b, self.color, i as int) == (best_next as int, best_score as int),
            decreases WIDTH - i,
        {
            // simulate next move
            if board.append(i, &self.color).is_ok() {
                proof {
                    lemma_place_then_remove(b, i as int, self.color);
                }
                let sums = square_sums(&board);
                let score: i32 = match self.color {
                    Token::Red => sums.0 - sums.1,
                    Token::Yellow => sums.1 - sums.0,
                };
                if score > best_score {
                    best_next = i;
                    best_score = score;
                }
                // undo next ply
                board.pop(i);
            }
            i += 1;
        }
        best_next
    }

    fn win(&self, _s: &State) {
        /* no op */
    }

    fn lose(&self, _s: &State) {
        /* no op */
    }

    fn draw(&self, _s: &State) {
        /* no op */
    }
}

} // verus!
