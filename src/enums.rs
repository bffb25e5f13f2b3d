use vstd::prelude::*;

verus! {

/// The seven tetromino shapes.
#[derive(Debug, Copy, Clone, PartialEq, Eq, Structural)]
pub enum BlockID {
    I,
    J,
    L,
    O,
    S,
    T,
    Z,
}

/// Horizontal move of the falling piece.
#[derive(Debug, Copy, Clone, PartialEq, Eq, Structural)]
pub enum ShiftCmd {
    Left,
    Right,
}

/// Quarter turn of the falling piece about its pivot.
#[derive(Debug, Copy, Clone, PartialEq, Eq, Structural)]
pub enum RotateCmd {
    Left,
    Right,
}

/// Whether play can go on.
#[derive(Debug, Copy, Clone, PartialEq, Eq, Structural)]
pub enum GameStatus {
    Okay,
    GameOver,
}

} // verus!
