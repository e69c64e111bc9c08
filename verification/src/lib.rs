//! A multi-player snake simulation on a toroidal grid.
//!
//! The engine advances all snakes one cell per tick, resolves apple
//! growth, detects collisions, removes dead snakes, and stops the game
//! once no snake remains. Commands arrive as comma-separated text lines
//! and the observable state is exposed as a structured snapshot.
#![verifier::loop_isolation(false)]

use vstd::prelude::*;

pub mod cell;
pub mod collidable;
pub mod config;
pub mod data_transfer;
pub mod game;
pub mod snake;

verus! {

} // verus!
