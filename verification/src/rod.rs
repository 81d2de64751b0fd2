//! Movable rods: support tiles that relocate between two opposite faces.

use vstd::prelude::*;

verus! {

use crate::TilePosition;

/// A movable rod links the same tile coordinate on two opposite faces of
/// one pillar. Exactly one of the two faces holds the rod; the other
/// holds `Void` there. While its relocation animation is in flight it
/// cannot be toggled again.
#[derive(Clone, Copy, Debug, PartialEq, Eq, Structural)]
pub struct MovableRod {
    /// Face (index into the level's face arena) currently holding the rod.
    pub face: usize,
    /// The opposite face, holding `Void` at the rod's coordinate.
    pub opposite_face: usize,
    /// The tile coordinate shared by both faces.
    pub position: TilePosition,
    /// True while the cross-face relocation animation is still running.
    pub in_flight: bool,
}

/// Marker for rod entities of the presentation layer; both static and
/// movable rods carry it.
#[derive(Clone, Copy, Debug, PartialEq, Eq, Structural)]
pub struct Rod {}

impl MovableRod {
    /// Exchanges the rod's current and opposite face references.
    pub fn swap_face(&mut self)
        ensures
            final(self).face == old(self).opposite_face,
            final(self).opposite_face == old(self).face,
            final(self).position == old(self).position,
            final(self).in_flight == old(self).in_flight,
    {
        let tmp_face = self.face;
        self.face = self.opposite_face;
        self.opposite_face = tmp_face;
    }
}

} // verus!
