//! Chessboard recognition: from a screenshot to a validated position
//! string, by template matching or with the help of a vision model.

use vstd::prelude::*;

pub mod classify;
pub mod engine;
pub mod fen;
pub mod locate;
pub mod notation;
pub mod ocr;
pub mod raster;
pub mod retry;
pub mod segment;
pub mod setup;
pub mod text;
pub mod vision;

verus! {

/// The colour that the player has.
#[derive(Clone, Copy, Debug, PartialEq, Eq, Structural)]
pub enum PlayerSide {
    White,
    Black,
}

} // verus!
