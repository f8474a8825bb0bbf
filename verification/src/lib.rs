//! A rules engine for Hnefatafl, the game of the Attacker and the
//! Defender on a square board with a throne and escape squares.
//!
//! - `board`, `figure`: the board, its squares and the figures on it;
//!   `figure_map` keeps the occupied squares in a hash map.
//! - `geometry`: from a point of the drawn board to its field and back.
//! - `move_validation`: the legal destinations of a figure.
//! - `capturing`, `shieldwall_capturing`: what a move takes off the board.
//! - `win_conditions`: the King's escape, the surrounded King, the clock.
//! - `moving`: a game, move by move; `ui`: the clocks of the two sides.
//! - `player_interaction`: selecting a figure and letting it go.
//! - `spawn_data`, `spawning`: a game's start from its texts, and the
//!   board's coming and going.
//!
//! Every function states what it returns and changes, and the verifier
//! proves it, but for the few functions of `figure_map`.

pub mod board;
pub mod capturing;
pub mod figure;
pub mod figure_map;
pub mod geometry;
pub mod move_validation;
pub mod moving;
pub mod player_interaction;
pub mod shieldwall_capturing;
pub mod spawn_data;
pub mod spawning;
pub mod ui;
pub mod win_conditions;
