//! Rules engine for a two-player game of star systems and ships built from a
//! shared stock of thirty-six coloured, sized pieces.
//!
//! A [`game::Game`] holds a position and advances it one [`moves::Move`] at a
//! time; a move that the rules refuse leaves it untouched. What the rules are
//! is written down once, as functions on positions, in [`rules`]; the game is
//! proved to follow them, and [`laws`] and [`cascade`] prove what follows
//! from them for every position that play can reach.
//!
//! - [`kinds`], [`turn`], [`bank`]: sizes, colours and players; the turn and
//!   its phases; the stock of unused pieces.
//! - [`position`], [`rings`], [`edits`]: the board, what makes it well
//!   formed, and the elementary changes that keep it so.
//! - [`rules`], [`game`], [`moves`], [`text`]: the rules, the game that
//!   carries them out, the table of moves, and moves as text.
//! - [`code`]: pieces, moves and positions in compact form.
//! - [`keylist`]: the bounded list that a catastrophe collects its ships in.

pub mod bank;
pub mod cascade;
pub mod code;
pub mod edits;
pub mod game;
pub mod keylist;
pub mod kinds;
pub mod laws;
pub mod moves;
pub mod position;
pub mod rings;
pub mod rules;
pub mod text;
pub mod turn;
