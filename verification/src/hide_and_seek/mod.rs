//! The hide-and-seek game: questions a seeker may ask and the regions their
//! answers leave open.

use vstd::prelude::*;

use crate::hide_and_seek::question::context::GameState;

pub mod question;

verus! {

/// A running game of hide and seek.
#[derive(Debug)]
pub struct HideAndSeekGame {
    pub state: GameState,
}

} // verus!
