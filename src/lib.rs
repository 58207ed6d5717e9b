//! A first-person player controller core: look accumulation, movement intent,
//! velocity integration with a speed cap, jumping, and the load/main lifecycle.
//! All quantities are fixed-point integers; see `vector::ONE`.
use vstd::prelude::*;

pub mod lifecycle;
pub mod movement;
pub mod vector;

pub use lifecycle::{Lifecycle, LoadStatus};
pub use movement::{HeldKeys, Movement, YawRotation};
pub use vector::Vec3;

verus! {

/// The two phases of the game: assets are loading, or the world is running.
#[derive(Clone, Copy, Debug, Hash, PartialEq, Eq, Structural)]
pub enum GameState {
    Load,
    Main,
}

impl Default for GameState {
    fn default() -> (r: Self)
        ensures
            r == GameState::Load,
    {
        GameState::Load
    }
}

} // verus!
