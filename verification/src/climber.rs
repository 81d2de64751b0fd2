//! Climber records and their state machine's states.
//!
//! A climber belongs to one pillar and, except while falling, rests on a
//! tile of one face. The per-tick transition logic lives in
//! [`crate::level`], where the whole simulation state is available.

use vstd::prelude::*;

verus! {

use crate::face::Position;

/// A tile a climber rests on or moves to: the face (as an index into the
/// level's face arena) and the tile coordinate on it.
#[derive(Clone, Copy, Debug, PartialEq, Eq, Structural)]
pub struct ClimberPosition {
    pub face: usize,
    pub i: u16,
    pub j: u16,
}

/// Event emitted when a climber finishes its climb on the top row.
#[derive(Clone, Copy, Debug, PartialEq, Eq, Structural)]
pub enum ClimberEvent {
    ReachedTop,
}

/// The climber state machine. `Saved` and `Dead` are terminal.
#[derive(Clone, Copy, Debug, PartialEq, Eq, Structural)]
pub enum ClimberState {
    /// Resting on a tile, looking for a reachable next tile each tick.
    Waiting { on_tile: ClimberPosition },
    /// Relocating to a tile; waits for the motion-complete signal.
    Moving { to_tile: ClimberPosition },
    /// Falling along a face, no tile coordinate until it re-lands.
    Falling { on_face: usize },
    /// Reached the top row and powered a pylon.
    Saved,
    /// Fell to the ground plane.
    Dead,
}

/// One climber: its state, the pillar it climbs, and its world position.
#[derive(Clone, Copy, Debug, PartialEq, Eq, Structural)]
pub struct Climber {
    pub state: ClimberState,
    pub current_pillar: usize,
    pub position: Position,
}

} // verus!
