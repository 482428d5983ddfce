//! Engine of a falling-block puzzle game: pure logic, input in, new state out.
use vstd::prelude::*;

pub mod board;
pub mod board_laws;
pub mod display;
pub mod game;
pub mod game_laws;
pub mod input;
pub mod random;
pub mod shape;

pub use crate::game::Game;
pub use crate::input::Input;

verus! {

/// Number of columns of the playing field.
pub const COLS: usize = 10;

/// Number of rows of the playing field.
pub const ROWS: usize = 20;

/// Milliseconds between two gravity steps at level zero.
pub const GRAVITY_TICK: u32 = 1000;

/// What a front end needs to draw one frame; `ghost_piece` holds the cells where the active
/// piece would land.
pub struct Frame {
    pub board: [[bool; COLS]; ROWS],
    pub score: u32,
    pub level: u32,
    pub ghost_piece: Option<[(usize, usize); 4]>,
}

} // verus!
