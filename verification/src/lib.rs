//! Core simulation for a pillar-climbing puzzle.
//!
//! Climbers ascend tile grids on the faces of vertical pillars. Some tiles
//! are rods that the player can toggle between two opposite faces; routing
//! every climber to the top row powers all pylons and wins the level.
//!
//! This crate holds the simulation proper: the per-face tile grid, the rod
//! toggle, the climber state machine and the pylon/win tracker. Rendering,
//! input and animation live outside; they only report motion completion
//! back as booleans and read the states exposed here.

pub mod climber;
pub mod data;
pub mod face;
pub mod level;
pub mod pillar;
pub mod rod;
pub mod spawn;

use vstd::prelude::*;

verus! {

/// A tile coordinate on a face: column `i`, row `j` (row 0 is the base).
#[derive(Clone, Copy, Debug, PartialEq, Eq, Structural)]
pub struct TilePosition {
    pub i: u16,
    pub j: u16,
}

/// Content of one grid cell. The boolean of the rod variants records
/// whether a climber currently rests on the tile.
#[derive(Clone, Copy, Debug, PartialEq, Eq, Structural)]
pub enum TileType {
    Void,
    StaticRod(bool),
    MovableRod(bool),
}

impl TileType {
    /// A tile offers support exactly when it is not `Void`.
    pub open spec fn is_ground(self) -> bool {
        self != TileType::Void
    }

    /// Whether a climber currently rests on this tile.
    pub open spec fn is_occupied(self) -> bool {
        self == TileType::StaticRod(true) || self == TileType::MovableRod(true)
    }

    /// Two tiles are of the same kind when they differ at most in their
    /// occupancy flag.
    pub open spec fn same_kind(self, other: TileType) -> bool {
        match (self, other) {
            (TileType::Void, TileType::Void) => true,
            (TileType::StaticRod(_), TileType::StaticRod(_)) => true,
            (TileType::MovableRod(_), TileType::MovableRod(_)) => true,
            _ => false,
        }
    }

    /// The same tile kind with its occupancy flag set to `occ`.
    /// `Void` carries no flag and is returned unchanged.
    pub open spec fn with_occupancy(self, occ: bool) -> TileType {
        match self {
            TileType::Void => TileType::Void,
            TileType::StaticRod(_) => TileType::StaticRod(occ),
            TileType::MovableRod(_) => TileType::MovableRod(occ),
        }
    }
}

/// A goal slot near the top of a pillar; powered once a climber arrives.
#[derive(Clone, Copy, Debug, PartialEq, Eq, Structural)]
pub struct Pylon {
    pub powered: bool,
}

/// Marker for the central win pylon of a pillar, which rises when the
/// level is won.
#[derive(Clone, Copy, Debug, PartialEq, Eq, Structural)]
pub struct WinPylon;

/// Overall phase of the running level.
#[derive(Clone, Copy, Debug, PartialEq, Eq, Structural)]
pub enum GameState {
    Playing,
    Lost,
    Won,
}

} // verus!
