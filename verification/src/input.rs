//! What a player can ask of the game.
use vstd::prelude::*;

verus! {

#[derive(Copy, Clone, PartialEq, Eq, Debug, Structural)]
pub enum Input {
    Left,
    Right,
    RotateCw,
    RotateCcw,
    SoftDrop,
    HardDrop,
    Pause,
    Quit,
}

} // verus!
