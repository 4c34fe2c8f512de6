//! The simulation core of a two-player light-cycle game: a raster canvas that
//! players paint their trails into, and the per-frame step that turns, moves,
//! collision-checks and paints each player.
use vstd::prelude::*;

pub mod canvas;
pub mod color;
pub mod game;
pub mod geometry;

verus! {

} // verus!
