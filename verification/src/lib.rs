//! A Minesweeper engine: the minefield, the rules for revealing and flagging
//! tiles, and the detection of a won or lost game. With it come the stopwatch
//! that times a game and the geometry of the screens around it.

pub mod game;
pub mod stopwatch;
pub mod ui;
