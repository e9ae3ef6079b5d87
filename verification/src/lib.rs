//! Core of a location-based hide-and-seek game: questions and answers are
//! turned into signed distance fields over geographic coordinates, compiled
//! into a register-based instruction stream, and lowered into shader IR.

use vstd::prelude::*;

use crate::hide_and_seek::HideAndSeekGame;

pub mod hide_and_seek;
pub mod map;
pub mod resource;
pub mod search;
pub mod shape;
pub mod state;
pub mod text;
pub mod tile_server;
pub mod transit;
pub mod vector_tile;

verus! {

/// The games this crate knows.
#[derive(Debug)]
pub enum Game {
    HideAndSeek(HideAndSeekGame),
}

} // verus!
