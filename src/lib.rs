// The simulation core of a falling-block puzzle game: pieces and their moves,
// the board with its settled pieces, the queue of upcoming shapes, and the game
// that applies shift, rotate, gravity and hard-drop commands. `model` states
// what each of these means; `laws` proves the properties the game keeps.

pub mod app;
pub mod block;
pub mod coord;
pub mod enums;
pub mod laws;
pub mod model;
pub mod rules;
pub mod scoreboard;
pub mod tetris;
pub mod timer;

pub use crate::app::TetrisApp;
pub use crate::tetris::Tetris;
