//! Garden Bash: the state engine of a turn-based carrot-collecting board game.
//!
//! Players walk on a 16 by 16 board, pick up carrots by stepping on them and
//! may steal points from nearby opponents. Every executable function carries a
//! contract over the mathematical model of the board in [`model`], and the rules
//! that hold over whole games are proved in [`laws`].

pub mod board;
pub mod command;
pub mod engine;
pub mod entity;
pub mod laws;
pub mod model;
pub mod paint;
pub mod placement;
pub mod seq_facts;
