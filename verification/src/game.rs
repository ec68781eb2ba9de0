//! The rules of a match: whose turn it is, which moves are accepted, and
//! when the game is over. Whoever runs a match asks the players for their
//! moves and hands each one to `advance`.
use vstd::prelude::*;
use crate::board::{
    Board, State, Token, board_wf, free_total, has_room, placed, lemma_empty_board, lemma_free_cells_bounds,
    lemma_place_then_remove, HEIGHT, WIDTH,
};
use crate::lines::{four_in, lemma_winner_is_a_line, winner, WINDOWS};
use crate::player::Player;

verus! {

/// What became of a move.
#[derive(Clone, Copy, Debug, PartialEq, Eq, Structural)]
pub enum Verdict {
    /// The move is not allowed: the same player is asked again.
    Rejected,
    /// The token was placed and the game goes on with the other player.
    Continue,
    /// The token was placed and its line of four ends the game.
    Won(Token),
    /// The token was placed, the board is full and nobody has won.
    Drawn,
}

/// The colour that makes ply number `count` of a game, counted from zero:
/// red begins and the colours alternate.
pub open spec fn turn_spec(count: nat) -> Token {
    if count % 2 == 0 {
        Token::Red
    } else {
        Token::Yellow
    }
}

/// How the game stands on board `b` once a token has been placed: won by
/// the colour with a line of four, else drawn if the board is full, else
/// open.
pub open spec fn standing(b: Board) -> Verdict {
    match winner(b) {
        Some(t) => Verdict::Won(t),
        None => if free_total(b) == 0 {
            Verdict::Drawn
        } else {
            Verdict::Continue
        },
    }
}

/// A full board on which no window is filled is a draw.
pub proof fn lemma_full_board_without_line_is_drawn(b: Board)
    requires
        free_total(b) == 0,
        forall|k: int| 0 <= k < WINDOWS ==> four_in(b, k) is None,
    ensures
        winner(b) is None,
        standing(b) == Verdict::Drawn,
{
    lemma_winner_is_a_line(b);
}

/// An accepted move leaves one free cell fewer, so a game is over after at
/// most `WIDTH * HEIGHT` accepted moves.
pub proof fn lemma_accepted_move_fills_a_cell(b: Board, mv: int, t: Token)
    requires
        board_wf(b),
        has_room(b, mv),
    ensures
        board_wf(placed(b, mv, t)),
        free_total(placed(b, mv, t)) == free_total(b) - 1,
        0 <= free_total(placed(b, mv, t)) < WIDTH * HEIGHT,
{
    lemma_place_then_remove(b, mv, t);
    lemma_free_cells_bounds(b, WIDTH as int);
}

/// The colour whose turn it is after `count` plies.
pub fn turn(count: u32) -> (t: Token)
    ensures
        t == turn_spec(count as nat),
{
    if count % 2 == 0 {
        Token::Red
    } else {
        Token::Yellow
    }
}

/// Plays column `mv` for `tok`. A column that does not exist or is full is
/// rejected and the board stays as it is; otherwise the token is placed and
/// the verdict says how the game stands after it.
pub fn advance(state: &mut State, tok: &Token, mv: usize) -> (v: Verdict)
    requires
        old(state).wf(),
    ensures
        final(state).wf(),
        !has_room(old(state)@, mv as int) ==> v == Verdict::Rejected && *final(state) == *old(
            state,
        ),
        has_room(old(state)@, mv as int) ==> final(state)@ == placed(
            old(state)@,
            mv as int,
            *tok,
        ) && v == standing(final(state)@),
{
    if mv >= WIDTH {
        return Verdict::Rejected;
    }
    if state.append(mv, tok).is_err() {
        return Verdict::Rejected;
    }
    // is this a win?
    match state.win() {
        None => {
            if state.plies_left() == 0 {
                Verdict::Drawn
            } else {
                Verdict::Continue
            }
        },
        Some(t) => Verdict::Won(t),
    }
}

/// Runs one game between two players. Player 1 is red and begins.
///
/// Each ply the player whose turn it is is asked for a column, and asked
/// again until `advance` accepts the answer. At the end each player is told
/// once how the game ended for it. A player that gives `u64::MAX` rejected
/// answers in a row ends the game without a result.
pub fn play<P1: Player, P2: Player>(mut player1: P1, mut player2: P2) {
    // player 1 is red
    player1.start(Token::Red);
    player2.start(Token::Yellow);

    // keep track of the number of moves
    let mut count: u32 = 0;

    // keep track of the current state of the game
    let mut state = State::new();
    proof {
        lemma_empty_board();
    }

    // run the game!
    let mut end_of_game = false;
    while !end_of_game
        invariant
            state.wf(),
            count + free_total(state@) == WIDTH * HEIGHT,
        decreases free_total(state@),
    {
        // player 1 is always red and always start
        let tok = turn(count);
        let ghost before = state@;

        let mut verdict = Verdict::Rejected;
        let mut patience: u64 = u64::MAX;
        while verdict == Verdict::Rejected && patience > 0
            invariant
                state.wf(),
                verdict == Verdict::Rejected ==> state@ == before,
                verdict != Verdict::Rejected ==> exists|mv: int|
                    has_room(before, mv) && state@ == #[trigger] placed(before, mv, tok)
                        && verdict == standing(state@),
            decreases patience,
        {
            let mv = match tok {
                Token::Red => player1.play(&state),
                Token::Yellow => player2.play(&state),
            };
            verdict = advance(&mut state, &tok, mv);
            patience -= 1;
        }

        proof {
            if verdict != Verdict::Rejected {
                let mv = choose|mv: int|
                    has_room(before, mv) && state@ == #[trigger] placed(before, mv, tok);
                lemma_place_then_remove(before, mv, tok);
            }
            lemma_free_cells_bounds(state@, WIDTH as int);
        }

        // is this a win?
        match verdict {
            Verdict::Rejected => {
                return ;
            },
            Verdict::Continue => {},
            Verdict::Drawn => {
                player1.draw(&state);
                player2.draw(&state);
                end_of_game = true;
            },
            Verdict::Won(t) => {
                match t {
                    Token::Red => {
                        player1.win(&state);
                        player2.lose(&state);
                    },
                    Token::Yellow => {
                        player1.lose(&state);
                        player2.win(&state);
                    },
                }
                end_of_game = true;
            },
        }

        // next round
        count += 1;
    }
}

} // verus!
