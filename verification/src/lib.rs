//! Connect Four: a gravity-fed board, four-in-a-row detection, the rules of
//! a match, and players that search the game tree.
pub mod board;
pub mod lines;
pub mod player;
pub mod ai;
pub mod game;
pub mod text;

pub use board::State;
pub use board::Token;
pub use game::play;
pub use player::Player;
