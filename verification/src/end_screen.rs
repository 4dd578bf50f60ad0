//! The result of a finished game and the one piece of state the victory
//! screen keeps between frames: whether its window has been placed once.

use crate::piece::Color;
use vstd::prelude::*;

verus! {

/// Represents the result of a chess game
#[derive(Debug, Clone, Copy)]
pub enum GameResult {
    // Winner's color
    Checkmate(Color),
    Stalemate,
    Draw,
}

/// Handles the end game victory screen
pub struct ChessEndScreen {
    window_initialized: bool,
}

impl ChessEndScreen {
    /// The window has already been positioned once.
    pub closed spec fn spec_initialized(self) -> bool {
        self.window_initialized
    }

    pub fn new() -> (r: Self)
        ensures
            !r.spec_initialized(),
    {
        Self { window_initialized: false }
    }

    pub fn reset(&mut self)
        ensures
            !final(self).spec_initialized(),
    {
        self.window_initialized = false;
    }
}

} // verus!
