//! Puzzle simulation and replay engine of a single-player tile game.
//!
//! A player-controlled brick is thrown across a grid; it annihilates bricks of
//! its own kind, bricks stacked above a vacated cell fall, and the level is won
//! when the board is empty. Every input that drives the board can be recorded
//! with its tick and played back later.

pub mod brick;
pub mod common;
pub mod consts;
pub mod demo;
pub mod field;
pub mod loader;
pub mod mainmenu;
pub mod play;
pub mod replay;
pub mod rules;
pub mod scenes;
pub mod scores;
pub mod textnum;
