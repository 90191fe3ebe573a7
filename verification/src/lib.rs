//! A falling-block puzzle engine: the playing field, the seven tetrominoes with
//! their rotations and wall kicks, the bag that deals them, and the state
//! machine that turns ticks and key presses into moves, locks and line clears.
//!
//! The engine performs no input or output. A driver calls [`tetris::Tetris::frame`]
//! once per tick with the current time and at most one [`settings::Action`], and
//! draws whatever [`settings::GameChange`] comes back.

pub mod grid;
pub mod machine;
pub mod menu;
pub mod settings;
pub mod tetromino;
pub mod tetrisfield;
pub mod tetris;
