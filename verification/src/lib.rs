//! Rules of a two-player chess board driven by mouse clicks: the pieces,
//! the board layout, move generation and the click-by-click game logic.
//! Rendering and terminal input live outside this library.

pub mod pieces;
pub mod notation;
pub mod moves;
pub mod board;
pub mod game;
pub mod laws;
pub mod game_laws;
pub mod completeness;
pub mod distinct;
