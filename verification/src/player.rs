//! What a player of the game can be asked to do.
use vstd::prelude::*;
use crate::board::{State, Token};

verus! {

/// A player: told its colour once, asked for a column at each of its turns,
/// and told how the game ended.
pub trait Player {
    /// Tells the player which colour it plays.
    fn start(&mut self, tok: Token);

    /// Asks the player for the column of its next token. Nothing is promised
    /// of the answer: whoever runs the game checks it.
    fn play(&self, s: &State) -> usize
        requires
            s.wf(),
    ;

    /// Tells the player that it has won.
    fn win(&self, s: &State)
        requires
            s.wf(),
    ;

    /// Tells the player that it has lost.
    fn lose(&self, s: &State)
        requires
            s.wf(),
    ;

    /// Tells the player that the game is a draw.
    fn draw(&self, s: &State)
        requires
            s.wf(),
    ;
}

} // verus!
