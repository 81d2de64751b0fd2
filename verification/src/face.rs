//! The per-face tile grid and its coordinate geometry.
//!
//! World coordinates are fixed-point integers in thousandths of a world
//! unit, so every mapping between tiles and positions is exact. A face
//! owns a `w` by `h` grid of [`TileType`] indexed `tiles[i][j]` by column
//! `i` and row `j`; row `h - 1` is the top (win) row.

use vstd::prelude::*;

verus! {

use crate::climber::ClimberPosition;
use crate::data::{FaceDirection, FaceSize};
use crate::{TilePosition, TileType};

/// Edge length of one tile, in thousandths of a world unit.
pub const TILE_SIZE: i64 = 500;

/// Half of [`TILE_SIZE`].
pub const HALF_TILE_SIZE: i64 = 250;

/// Outward offset of a climber's anchor from the face plane.
pub const HALF_VISIBLE_ROD_LENGTH: i64 = 500;

/// Height of a climber's anchor above its tile row. Kept below
/// [`HALF_TILE_SIZE`] so that rounding the vertical coordinate recovers
/// the row exactly.
pub const CLIMBER_ALTITUDE: i64 = 225;

/// Vertical distance a falling climber drops per tick.
pub const FALL_STEP: i64 = 50;

/// Bound on the magnitude of face origins, so that all coordinate
/// arithmetic stays far from `i64` overflow.
pub const MAX_WORLD_COORD: i64 = 1_000_000_000;

/// A point in fixed-point world coordinates.
#[derive(Clone, Copy, Debug, PartialEq, Eq, Structural)]
pub struct Position {
    pub x: i64,
    pub y: i64,
    pub z: i64,
}

/// One face of a pillar: a compass direction, a grid size, a world-space
/// origin and the tile grid itself.
#[derive(Clone, Debug)]
pub struct Face {
    pub direction: FaceDirection,
    pub size: FaceSize,
    pub origin: Position,
    pub tiles: Vec<Vec<TileType>>,
}

/// Largest row or column index representable; out-of-range conversions
/// saturate here, far outside any valid grid.
pub const TILE_COORD_MAX: i64 = 65535;

/// Row recovered from a vertical offset relative to a face origin:
/// rounding division by [`TILE_SIZE`], saturated to `[0, 65535]`.
pub open spec fn row_from_offset(rel: int) -> int {
    if rel < 0 {
        0
    } else if (rel + HALF_TILE_SIZE) / (TILE_SIZE as int) > TILE_COORD_MAX {
        TILE_COORD_MAX as int
    } else {
        (rel + HALF_TILE_SIZE) / (TILE_SIZE as int)
    }
}

/// Column recovered from a horizontal offset relative to a face origin:
/// truncating division by [`TILE_SIZE`], saturated to `[0, 65535]`. The
/// truncation (rather than rounding) biases landing detection toward the
/// pillar's centre on purpose.
pub open spec fn column_from_offset(rel: int) -> int {
    if rel < 0 {
        0
    } else if rel / (TILE_SIZE as int) > TILE_COORD_MAX {
        TILE_COORD_MAX as int
    } else {
        rel / (TILE_SIZE as int)
    }
}

impl Face {
    /// The grid as a sequence of columns of tiles.
    pub open spec fn grid(&self) -> Seq<Seq<TileType>> {
        Seq::new(self.tiles@.len(), |k: int| self.tiles@[k]@)
    }

    /// Structural well-formedness: the grid has exactly `w` columns of
    /// `h` tiles each, and the origin is in range.
    pub open spec fn wf(&self) -> bool {
        &&& self.tiles@.len() == self.size.w
        &&& forall|k: int| 0 <= k < self.tiles@.len() ==> (#[trigger] self.tiles@[k])@.len()
            == self.size.h
        &&& 0 < self.size.w
        &&& 0 < self.size.h
        &&& -2 * MAX_WORLD_COORD <= self.origin.x <= 2 * MAX_WORLD_COORD
        &&& -2 * MAX_WORLD_COORD <= self.origin.y <= 2 * MAX_WORLD_COORD
        &&& -2 * MAX_WORLD_COORD <= self.origin.z <= 2 * MAX_WORLD_COORD
    }

    /// The tile stored at `(i, j)`.
    pub open spec fn tile_at(&self, i: int, j: int) -> TileType {
        self.tiles@[i]@[j]
    }

    /// Whether `(i, j)` lies inside the grid.
    pub open spec fn spec_is_valid(&self, i: int, j: int) -> bool {
        0 <= i < self.size.w && 0 <= j < self.size.h
    }

    /// The sole authority for "can a climber stand here": false outside
    /// the grid, false on `Void`, true on any rod.
    pub open spec fn ground(&self, i: int, j: int) -> bool {
        self.spec_is_valid(i, j) && self.tile_at(i, j).is_ground()
    }

    /// Returns whether `(i, j)` lies inside the grid.
    pub fn is_valid(&self, i: u16, j: u16) -> (r: bool)
        ensures
            r == self.spec_is_valid(i as int, j as int),
    {
        i < self.size.w && j < self.size.h
    }

    /// Returns whether a climber can stand on `(i, j)`. Out-of-range
    /// coordinates degrade gracefully to `false`.
    pub fn has_ground_on_tile(&self, i: u16, j: u16) -> (r: bool)
        requires
            self.wf(),
        ensures
            r == self.ground(i as int, j as int),
    {
        if !self.is_valid(i, j) {
            return false;
        }
        match self.tiles[i as usize][j as usize] {
            TileType::Void => false,
            _ => true,
        }
    }

    /// Returns the tile stored at `(i, j)`.
    pub fn tile(&self, i: u16, j: u16) -> (t: TileType)
        requires
            self.wf(),
            self.spec_is_valid(i as int, j as int),
        ensures
            t == self.tile_at(i as int, j as int),
    {
        self.tiles[i as usize][j as usize]
    }

    /// Support never exists outside the grid, regardless of stored
    /// content.
    pub proof fn lemma_no_ground_out_of_range(&self, i: int, j: int)
        requires
            i >= self.size.w || j >= self.size.h || i < 0 || j < 0,
        ensures
            !self.ground(i, j),
    {
    }

    /// Vertical coordinate of the anchor of tile row `j`.
    pub open spec fn anchor_y(&self, j: int) -> int {
        self.origin.y + j * (TILE_SIZE as int) + CLIMBER_ALTITUDE
    }

    /// Offset of the anchor of tile column `i` along the face's
    /// horizontal axis.
    pub open spec fn anchor_offset(i: int) -> int {
        i * (TILE_SIZE as int) + HALF_TILE_SIZE
    }

    /// The world anchor point of tile `(i, j)` on this face.
    pub open spec fn spec_pos_from_tile(&self, i: int, j: int) -> Position {
        pos_from_tile(self.direction, self.origin, i, j)
    }

    /// Returns the world anchor point a climber occupies when resting on
    /// the given tile.
    pub fn climber_get_pos_from_tile(&self, pos: &ClimberPosition) -> (r: Position)
        requires
            self.wf(),
            self.spec_is_valid(pos.i as int, pos.j as int),
        ensures
            r == self.spec_pos_from_tile(pos.i as int, pos.j as int),
    {
        let factor: i64 = match self.direction {
            FaceDirection::West | FaceDirection::South => -1,
            FaceDirection::North | FaceDirection::East => 1,
        };
        let y: i64 = self.origin.y + pos.j as i64 * TILE_SIZE + CLIMBER_ALTITUDE;
        let offset: i64 = pos.i as i64 * TILE_SIZE + HALF_TILE_SIZE;
        match self.direction {
            FaceDirection::West | FaceDirection::East => Position {
                x: self.origin.x + factor * HALF_VISIBLE_ROD_LENGTH,
                y,
                z: self.origin.z + offset,
            },
            FaceDirection::North | FaceDirection::South => Position {
                x: self.origin.x + offset,
                y,
                z: self.origin.z + factor * HALF_VISIBLE_ROD_LENGTH,
            },
        }
    }

    /// The horizontal offset of a world position relative to this face's
    /// origin, measured along the face's horizontal axis.
    pub open spec fn spec_horizontal_offset(&self, pos: Position) -> int {
        match self.direction {
            FaceDirection::West | FaceDirection::East => pos.z - self.origin.z,
            FaceDirection::North | FaceDirection::South => pos.x - self.origin.x,
        }
    }

    /// Recovers the tile coordinates under a world position: the row by
    /// rounding the vertical offset, the column by truncating the
    /// horizontal offset. Offsets below the face saturate to zero and
    /// offsets far above saturate past any valid grid; `has_ground`
    /// rejects both.
    pub fn get_tile_coords_from_pos(&self, pos: Position) -> (r: (u16, u16))
        requires
            self.wf(),
            -4 * MAX_WORLD_COORD <= pos.x <= 4 * MAX_WORLD_COORD,
            -4 * MAX_WORLD_COORD <= pos.y <= 4 * MAX_WORLD_COORD,
            -4 * MAX_WORLD_COORD <= pos.z <= 4 * MAX_WORLD_COORD,
        ensures
            r.0 == column_from_offset(self.spec_horizontal_offset(pos)),
            r.1 == row_from_offset(pos.y - self.origin.y),
    {
        let rel_y: i64 = pos.y - self.origin.y;
        let j: u16 = if rel_y < 0 {
            0
        } else {
            let q: i64 = (rel_y + HALF_TILE_SIZE) / TILE_SIZE;
            if q > TILE_COORD_MAX {
                65535
            } else {
                q as u16
            }
        };
        let rel_h: i64 = match self.direction {
            FaceDirection::West | FaceDirection::East => pos.z - self.origin.z,
            FaceDirection::North | FaceDirection::South => pos.x - self.origin.x,
        };
        let i: u16 = if rel_h < 0 {
            0
        } else {
            let q: i64 = rel_h / TILE_SIZE;
            if q > TILE_COORD_MAX {
                65535
            } else {
                q as u16
            }
        };
        (i, j)
    }

    /// Tile-to-world then world-to-tile is the identity on every valid
    /// tile: the anchor of `(i, j)` converts back to exactly `(i, j)`.
    pub proof fn lemma_tile_coords_roundtrip(&self, i: int, j: int)
        requires
            self.wf(),
            self.spec_is_valid(i, j),
        ensures
            column_from_offset(self.spec_horizontal_offset(self.spec_pos_from_tile(i, j))) == i,
            row_from_offset(self.spec_pos_from_tile(i, j).y - self.origin.y) == j,
    {
        let p = self.spec_pos_from_tile(i, j);
        assert(p.y - self.origin.y == j * 500 + 225);
        assert(self.spec_horizontal_offset(p) == i * 500 + 250);
        assert((j * 500 + 225 + 250) / 500 == j) by (nonlinear_arith)
            requires 0 <= j < 65536;
        assert((i * 500 + 250) / 500 == i) by (nonlinear_arith)
            requires 0 <= i < 65536;
    }

    /// Overwrites the tile at `pos` with `Void`. Callers must have
    /// validated the coordinate.
    pub fn remove_tile_at(&mut self, pos: TilePosition)
        requires
            old(self).wf(),
            old(self).spec_is_valid(pos.i as int, pos.j as int),
        ensures
            final(self).wf(),
            final(self).grid() == grid_set(old(self).grid(), pos.i as int, pos.j as int,
                TileType::Void),
            final(self).direction == old(self).direction,
            final(self).size == old(self).size,
            final(self).origin == old(self).origin,
    {
        self.set_tile_at(pos, TileType::Void);
    }

    /// Overwrites the tile at `pos` with `tile_type`. Callers must have
    /// validated the coordinate.
    pub fn set_tile_at(&mut self, pos: TilePosition, tile_type: TileType)
        requires
            old(self).wf(),
            old(self).spec_is_valid(pos.i as int, pos.j as int),
        ensures
            final(self).wf(),
            final(self).grid() == grid_set(old(self).grid(), pos.i as int, pos.j as int,
                tile_type),
            final(self).direction == old(self).direction,
            final(self).size == old(self).size,
            final(self).origin == old(self).origin,
    {
        self.tiles[pos.i as usize].set(pos.j as usize, tile_type);
        proof {
            assert(self.grid() =~~= grid_set(old(self).grid(), pos.i as int, pos.j as int,
                tile_type));
        }
    }

    /// Marks the tile under `pos` as holding a climber. The tile kind is
    /// preserved; a `Void` tile stays `Void`.
    pub fn set_occupied(&mut self, pos: &ClimberPosition)
        requires
            old(self).wf(),
            old(self).spec_is_valid(pos.i as int, pos.j as int),
        ensures
            final(self).wf(),
            final(self).grid() == grid_set(old(self).grid(), pos.i as int, pos.j as int,
                old(self).tile_at(pos.i as int, pos.j as int).with_occupancy(true)),
            final(self).grid() == grid_set(old(self).grid(), pos.i as int, pos.j as int,
                old(self).grid()[pos.i as int][pos.j as int].with_occupancy(true)),
            final(self).direction == old(self).direction,
            final(self).size == old(self).size,
            final(self).origin == old(self).origin,
    {
        self.set_flag(pos, true);
    }

    /// Clears the climber-occupancy mark of the tile under `pos`. The
    /// tile kind is preserved; a `Void` tile stays `Void`.
    pub fn set_free(&mut self, pos: &ClimberPosition)
        requires
            old(self).wf(),
            old(self).spec_is_valid(pos.i as int, pos.j as int),
        ensures
            final(self).wf(),
            final(self).grid() == grid_set(old(self).grid(), pos.i as int, pos.j as int,
                old(self).tile_at(pos.i as int, pos.j as int).with_occupancy(false)),
            final(self).grid() == grid_set(old(self).grid(), pos.i as int, pos.j as int,
                old(self).grid()[pos.i as int][pos.j as int].with_occupancy(false)),
            final(self).direction == old(self).direction,
            final(self).size == old(self).size,
            final(self).origin == old(self).origin,
    {
        self.set_flag(pos, false);
    }

    /// Rewrites the occupancy flag of the tile under `pos`.
    fn set_flag(&mut self, pos: &ClimberPosition, occ: bool)
        requires
            old(self).wf(),
            old(self).spec_is_valid(pos.i as int, pos.j as int),
        ensures
            final(self).wf(),
            final(self).grid() == grid_set(old(self).grid(), pos.i as int, pos.j as int,
                old(self).tile_at(pos.i as int, pos.j as int).with_occupancy(occ)),
            final(self).grid() == grid_set(old(self).grid(), pos.i as int, pos.j as int,
                old(self).grid()[pos.i as int][pos.j as int].with_occupancy(occ)),
            final(self).direction == old(self).direction,
            final(self).size == old(self).size,
            final(self).origin == old(self).origin,
    {
        let updated = match self.tiles[pos.i as usize][pos.j as usize] {
            TileType::Void => TileType::Void,
            TileType::StaticRod(_) => TileType::StaticRod(occ),
            TileType::MovableRod(_) => TileType::MovableRod(occ),
        };
        proof {
            assert(old(self).grid()[pos.i as int] == old(self).tiles@[pos.i as int]@);
        }
        self.set_tile_at(TilePosition { i: pos.i, j: pos.j }, updated);
    }

    /// Whether the tile at `(i, j)` is free to receive a climber: it has
    /// ground and no climber rests on it or is moving to it.
    pub open spec fn free_ground(&self, i: int, j: int) -> bool {
        self.ground(i, j) && !self.tile_at(i, j).is_occupied()
    }

    /// The search policy for climber advancement: the forward diagonal
    /// `(i + 1, j + 1)` if it has ground and is not already holding a
    /// climber, else the backward diagonal `(i - 1, j + 1)` when `i > 0`
    /// and it has free ground, else nothing. When both diagonals offer
    /// free ground the increasing column always wins. Skipping occupied
    /// candidates keeps a tile to at most one climber.
    pub open spec fn next_candidate(&self, i: int, j: int) -> Option<(int, int)> {
        if self.free_ground(i + 1, j + 1) {
            Some((i + 1, j + 1))
        } else if i > 0 && self.free_ground(i - 1, j + 1) {
            Some((i - 1, j + 1))
        } else {
            None
        }
    }

    /// Law: the tie-break of the search policy is fixed. Whenever the
    /// forward diagonal `(i + 1, j + 1)` offers free ground — in
    /// particular when the backward diagonal `(i - 1, j + 1)` offers it
    /// as well — the forward diagonal is selected. (An occupied forward
    /// diagonal is not selectable at all, so the law leaves it out.)
    pub proof fn lemma_forward_diagonal_preferred(&self, i: int, j: int)
        requires
            self.ground(i + 1, j + 1),
            !self.tile_at(i + 1, j + 1).is_occupied(),
        ensures
            self.next_candidate(i, j) == Some((i + 1, j + 1)),
    {
    }

    /// Returns the tile a waiting climber advances to, following the
    /// fixed search policy [`Face::next_candidate`], or `None` when
    /// neither diagonal offers free ground.
    pub fn get_next_tile_with_ground(&self, tile: &ClimberPosition) -> (r: Option<ClimberPosition>)
        requires
            self.wf(),
            self.spec_is_valid(tile.i as int, tile.j as int),
        ensures
            match r {
                Some(p) => self.next_candidate(tile.i as int, tile.j as int) == Some((
                    p.i as int,
                    p.j as int,
                )) && p.face == tile.face,
                None => self.next_candidate(tile.i as int, tile.j as int) is None,
            },
    {
        let next_i: u16 = tile.i + 1;
        let next_j: u16 = tile.j + 1;
        if self.has_free_ground_on_tile(next_i, next_j) {
            return Some(ClimberPosition { face: tile.face, i: next_i, j: next_j });
        }
        if tile.i > 0 {
            let back_i: u16 = tile.i - 1;
            if self.has_free_ground_on_tile(back_i, next_j) {
                return Some(ClimberPosition { face: tile.face, i: back_i, j: next_j });
            }
        }
        None
    }

    /// Returns whether a climber can move onto `(i, j)`: ground with no
    /// climber currently on it.
    pub fn has_free_ground_on_tile(&self, i: u16, j: u16) -> (r: bool)
        requires
            self.wf(),
        ensures
            r == self.free_ground(i as int, j as int),
    {
        if !self.has_ground_on_tile(i, j) {
            return false;
        }
        match self.tiles[i as usize][j as usize] {
            TileType::StaticRod(occ) => !occ,
            TileType::MovableRod(occ) => !occ,
            TileType::Void => false,
        }
    }
}

impl Face {
    /// The grid view has the face's declared dimensions and agrees with
    /// `tile_at` cell by cell.
    pub proof fn lemma_grid_dims(&self)
        requires
            self.wf(),
        ensures
            self.grid().len() == self.size.w,
            forall|x: int| 0 <= x < self.size.w ==> (#[trigger] self.grid()[x]).len()
                == self.size.h,
            forall|x: int, y: int|
                0 <= x < self.size.w && 0 <= y < self.size.h ==> #[trigger] self.grid()[x][y]
                    == self.tile_at(x, y),
    {
        assert forall|x: int| 0 <= x < self.size.w implies (#[trigger] self.grid()[x]).len()
            == self.size.h by {
            assert(self.grid()[x] == self.tiles@[x]@);
        }
        assert forall|x: int, y: int|
            0 <= x < self.size.w && 0 <= y < self.size.h implies #[trigger] self.grid()[x][y]
            == self.tile_at(x, y) by {
            assert(self.grid()[x] == self.tiles@[x]@);
        }
    }
}

/// The world anchor point of tile `(i, j)` on a face with the given
/// direction and origin. West and east faces extend along the `z` axis,
/// north and south faces along the `x` axis; the outward offset sign
/// follows the direction.
pub open spec fn pos_from_tile(direction: FaceDirection, origin: Position, i: int, j: int) -> Position {
    match direction {
        FaceDirection::West | FaceDirection::East => Position {
            x: (origin.x + direction.spec_factor() * HALF_VISIBLE_ROD_LENGTH) as i64,
            y: (origin.y + j * (TILE_SIZE as int) + CLIMBER_ALTITUDE) as i64,
            z: (origin.z + Face::anchor_offset(i)) as i64,
        },
        FaceDirection::North | FaceDirection::South => Position {
            x: (origin.x + Face::anchor_offset(i)) as i64,
            y: (origin.y + j * (TILE_SIZE as int) + CLIMBER_ALTITUDE) as i64,
            z: (origin.z + direction.spec_factor() * HALF_VISIBLE_ROD_LENGTH) as i64,
        },
    }
}

/// The grid `g` with the tile at `(i, j)` replaced by `t`.
pub open spec fn grid_set(g: Seq<Seq<TileType>>, i: int, j: int, t: TileType) -> Seq<
    Seq<TileType>,
> {
    g.update(i, g[i].update(j, t))
}

/// Replacing one cell by a tile of the same kind keeps every cell's
/// kind and the grid's dimensions.
pub proof fn lemma_grid_set_same_kind(
    g: Seq<Seq<TileType>>,
    h: Seq<Seq<TileType>>,
    i: int,
    j: int,
    t: TileType,
)
    requires
        0 <= i < g.len(),
        0 <= j < g[i].len(),
        t.same_kind(g[i][j]),
        h == grid_set(g, i, j, t),
    ensures
        h.len() == g.len(),
        forall|x: int| 0 <= x < g.len() ==> (#[trigger] h[x]).len() == g[x].len(),
        forall|x: int, y: int|
            0 <= x < g.len() && 0 <= y < g[x].len() ==> (#[trigger] h[x][y]).same_kind(g[x][y]),
{
    assert forall|x: int| 0 <= x < g.len() implies (#[trigger] h[x]).len() == g[x].len() by {
        if x == i {
            assert(h[x] == g[i].update(j, t));
        }
    }
    assert forall|x: int, y: int|
        0 <= x < g.len() && 0 <= y < g[x].len() implies (#[trigger] h[x][y]).same_kind(
        g[x][y],
    ) by {
        if x == i {
            assert(h[x] == g[i].update(j, t));
            if y != j {
                assert(h[x][y] == g[x][y]);
            }
        } else {
            assert(h[x] == g[x]);
        }
    }
}

} // verus!
