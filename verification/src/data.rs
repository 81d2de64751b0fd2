//! Level definitions: the read-only input a level is built from.
//!
//! A level lists pillars; each pillar carries up to four faces, and each
//! face lists its rod placements and climber spawn tiles. Coordinates of
//! pillars are fixed-point world units (see [`crate::face`]).

use vstd::prelude::*;

verus! {

use crate::face::MAX_WORLD_COORD;

/// Kind of rod placed on a tile of a level definition.
#[derive(Clone, Copy, Debug, PartialEq, Eq, Structural)]
pub enum TileDataType {
    StaticRod,
    MovableRod,
}

/// One rod placement: column `i`, row `j`, and the rod kind.
#[derive(Clone, Copy, Debug, PartialEq, Eq, Structural)]
pub struct TileData {
    pub i: u16,
    pub j: u16,
    pub kind: TileDataType,
}

/// Width and height of a face grid, in tiles.
#[derive(Clone, Copy, Debug, PartialEq, Eq, Structural)]
pub struct FaceSize {
    pub w: u16,
    pub h: u16,
}

/// A climber spawn point: the tile the climber starts on.
#[derive(Clone, Copy, Debug, PartialEq, Eq, Structural)]
pub struct ClimberData {
    pub tile_i: u16,
    pub tile_j: u16,
}

/// Compass direction of a face around its pillar.
#[derive(Clone, Copy, Debug, PartialEq, Eq, Structural)]
pub enum FaceDirection {
    West,
    North,
    East,
    South,
}

impl FaceDirection {
    /// The direction of the opposite face of the same pillar.
    pub open spec fn spec_opposite(self) -> FaceDirection {
        match self {
            FaceDirection::West => FaceDirection::East,
            FaceDirection::North => FaceDirection::South,
            FaceDirection::East => FaceDirection::West,
            FaceDirection::South => FaceDirection::North,
        }
    }

    /// Returns the direction of the opposite face of the same pillar.
    pub fn get_opposite(&self) -> (r: FaceDirection)
        ensures
            r == self.spec_opposite(),
    {
        match self {
            FaceDirection::West => FaceDirection::East,
            FaceDirection::North => FaceDirection::South,
            FaceDirection::East => FaceDirection::West,
            FaceDirection::South => FaceDirection::North,
        }
    }

    /// Offset sign of this face along its outward axis: west and south
    /// faces mirror the sign.
    pub open spec fn spec_factor(self) -> int {
        match self {
            FaceDirection::West => -1,
            FaceDirection::North => 1,
            FaceDirection::East => 1,
            FaceDirection::South => -1,
        }
    }

    /// Equality test usable from executable code.
    pub fn same_as(&self, other: &FaceDirection) -> (r: bool)
        ensures
            r == (*self == *other),
    {
        match (self, other) {
            (FaceDirection::West, FaceDirection::West) => true,
            (FaceDirection::North, FaceDirection::North) => true,
            (FaceDirection::East, FaceDirection::East) => true,
            (FaceDirection::South, FaceDirection::South) => true,
            _ => false,
        }
    }
}

/// One face of a pillar in a level definition: its direction, its rod
/// placements and its climber spawn tiles.
pub struct FaceData {
    pub direction: FaceDirection,
    pub tiles: Vec<TileData>,
    pub climbers: Vec<ClimberData>,
}

/// One pillar: its world position (fixed-point), its grid size shared by
/// all four faces, and the faces that carry rods or climbers.
pub struct PillarData {
    pub x: i64,
    pub z: i64,
    pub w: u16,
    pub h: u16,
    pub faces: Vec<FaceData>,
}

/// A whole level: a name and its pillars.
pub struct LevelData {
    pub name: String,
    pub pillars: Vec<PillarData>,
}

/// Well-formedness of the shipped level shape: one pillar with two face
/// definitions of distinct directions, everything in bounds, and at
/// least one climber.
proof fn lemma_two_face_level_wf(d: &LevelData)
    requires
        d.pillars@.len() == 1,
        d.pillars@[0].faces@.len() == 2,
        0 < d.pillars@[0].w,
        0 < d.pillars@[0].h,
        -MAX_WORLD_COORD <= d.pillars@[0].x <= MAX_WORLD_COORD,
        -MAX_WORLD_COORD <= d.pillars@[0].z <= MAX_WORLD_COORD,
        d.pillars@[0].faces@[0].direction != d.pillars@[0].faces@[1].direction,
        face_data_in_bounds(d.pillars@[0].faces@[0], d.pillars@[0].w as int,
            d.pillars@[0].h as int),
        face_data_in_bounds(d.pillars@[0].faces@[1], d.pillars@[0].w as int,
            d.pillars@[0].h as int),
        0 < d.pillars@[0].faces@[0].climbers@.len() + d.pillars@[0].faces@[1].climbers@.len()
            <= 255,
        face_spawns_distinct(d.pillars@[0].faces@[0]),
        face_spawns_distinct(d.pillars@[0].faces@[1]),
    ensures
        level_data_wf(*d),
{
    let p = d.pillars@[0];
    let f0 = p.faces@[0];
    let f1 = p.faces@[1];
    assert(pillar_data_wf(p));
    assert(p.faces@.drop_last() =~= seq![f0]);
    assert(seq![f0].drop_last() =~= Seq::<FaceData>::empty());
    assert(sum_face_climbers(Seq::<FaceData>::empty()) == 0);
    assert(sum_face_climbers(seq![f0]) == f0.climbers@.len());
    assert(sum_face_climbers(p.faces@) == f0.climbers@.len() + f1.climbers@.len());
    assert(d.pillars@.drop_last() =~= Seq::<PillarData>::empty());
    assert(sum_pillar_climbers(Seq::<PillarData>::empty()) == 0);
    assert(sum_pillar_climbers(d.pillars@) == sum_face_climbers(p.faces@));
}

/// A small level used while trying things out: one pillar, five by
/// seven, with rods and one climber on each of its west and east faces.
pub fn test_level_data() -> (r: LevelData)
    ensures
        level_data_wf(r),
        r.pillars@.len() == 1,
        r.pillars@[0].w == 5,
        r.pillars@[0].h == 7,
        r.pillars@[0].x == 0,
        r.pillars@[0].z == 0,
        r.pillars@[0].faces@.len() == 2,
        r.pillars@[0].faces@[0].direction == FaceDirection::West,
        r.pillars@[0].faces@[0].tiles@ == seq![
            (TileData { i: 0, j: 0, kind: TileDataType::StaticRod }),
            (TileData { i: 1, j: 1, kind: TileDataType::MovableRod }),
            (TileData { i: 3, j: 3, kind: TileDataType::StaticRod }),
            (TileData { i: 4, j: 4, kind: TileDataType::MovableRod }),
            (TileData { i: 4, j: 6, kind: TileDataType::MovableRod }),
        ],
        r.pillars@[0].faces@[0].climbers@ == seq![
            (ClimberData { tile_i: 0, tile_j: 0 }),
        ],
        r.pillars@[0].faces@[1].direction == FaceDirection::East,
        r.pillars@[0].faces@[1].tiles@ == seq![
            (TileData { i: 0, j: 0, kind: TileDataType::StaticRod }),
            (TileData { i: 2, j: 2, kind: TileDataType::MovableRod }),
            (TileData { i: 3, j: 3, kind: TileDataType::StaticRod }),
            (TileData { i: 3, j: 5, kind: TileDataType::MovableRod }),
        ],
        r.pillars@[0].faces@[1].climbers@ == seq![
            (ClimberData { tile_i: 0, tile_j: 0 }),
        ],
{
    let d = LevelData {
        name: "Test level".to_string(),
        pillars: vec![
            PillarData {
                w: 5,
                h: 7,
                x: 0,
                z: 0,
                faces: vec![
                    FaceData {
                        direction: FaceDirection::West,
                        tiles: vec![
                            TileData { i: 0, j: 0, kind: TileDataType::StaticRod },
                            TileData { i: 1, j: 1, kind: TileDataType::MovableRod },
                            TileData { i: 3, j: 3, kind: TileDataType::StaticRod },
                            TileData { i: 4, j: 4, kind: TileDataType::MovableRod },
                            TileData { i: 4, j: 6, kind: TileDataType::MovableRod },
                        ],
                        climbers: vec![ClimberData { tile_i: 0, tile_j: 0 }],
                    },
                    FaceData {
                        direction: FaceDirection::East,
                        tiles: vec![
                            TileData { i: 0, j: 0, kind: TileDataType::StaticRod },
                            TileData { i: 2, j: 2, kind: TileDataType::MovableRod },
                            TileData { i: 3, j: 3, kind: TileDataType::StaticRod },
                            TileData { i: 3, j: 5, kind: TileDataType::MovableRod },
                        ],
                        climbers: vec![ClimberData { tile_i: 0, tile_j: 0 }],
                    },
                ],
            },
        ],
    };
    proof {
        lemma_two_face_level_wf(&d);
    }
    d
}

/// The first level: two static rods on the west face and a path that
/// needs the east face's movable rods swapped over.
pub fn level_1() -> (r: LevelData)
    ensures
        level_data_wf(r),
        r.pillars@.len() == 1,
        r.pillars@[0].w == 5,
        r.pillars@[0].h == 7,
        r.pillars@[0].x == 0,
        r.pillars@[0].z == 0,
        r.pillars@[0].faces@.len() == 2,
        r.pillars@[0].faces@[0].direction == FaceDirection::West,
        r.pillars@[0].faces@[0].tiles@ == seq![
            (TileData { i: 1, j: 3, kind: TileDataType::StaticRod }),
            (TileData { i: 4, j: 6, kind: TileDataType::StaticRod }),
        ],
        r.pillars@[0].faces@[0].climbers@ == seq![
            (ClimberData { tile_i: 1, tile_j: 3 }),
        ],
        r.pillars@[0].faces@[1].direction == FaceDirection::East,
        r.pillars@[0].faces@[1].tiles@ == seq![
            (TileData { i: 2, j: 4, kind: TileDataType::MovableRod }),
            (TileData { i: 3, j: 5, kind: TileDataType::MovableRod }),
        ],
        r.pillars@[0].faces@[1].climbers@ == Seq::<ClimberData>::empty(),
{
    let d = LevelData {
        name: "I".to_string(),
        pillars: vec![
            PillarData {
                w: 5,
                h: 7,
                x: 0,
                z: 0,
                faces: vec![
                    FaceData {
                        direction: FaceDirection::West,
                        tiles: vec![
                            TileData { i: 1, j: 3, kind: TileDataType::StaticRod },
                            TileData { i: 4, j: 6, kind: TileDataType::StaticRod },
                        ],
                        climbers: vec![ClimberData { tile_i: 1, tile_j: 3 }],
                    },
                    FaceData {
                        direction: FaceDirection::East,
                        tiles: vec![
                            TileData { i: 2, j: 4, kind: TileDataType::MovableRod },
                            TileData { i: 3, j: 5, kind: TileDataType::MovableRod },
                        ],
                        climbers: vec![],
                    },
                ],
            },
        ],
    };
    proof {
        lemma_two_face_level_wf(&d);
    }
    d
}

/// The second level: one climber per side, sharing the movable rod.
pub fn level_2() -> (r: LevelData)
    ensures
        level_data_wf(r),
        r.pillars@.len() == 1,
        r.pillars@[0].w == 5,
        r.pillars@[0].h == 7,
        r.pillars@[0].x == 0,
        r.pillars@[0].z == 0,
        r.pillars@[0].faces@.len() == 2,
        r.pillars@[0].faces@[0].direction == FaceDirection::West,
        r.pillars@[0].faces@[0].tiles@ == seq![
            (TileData { i: 1, j: 3, kind: TileDataType::StaticRod }),
            (TileData { i: 3, j: 5, kind: TileDataType::MovableRod }),
            (TileData { i: 4, j: 6, kind: TileDataType::StaticRod }),
        ],
        r.pillars@[0].faces@[0].climbers@ == seq![
            (ClimberData { tile_i: 1, tile_j: 3 }),
        ],
        r.pillars@[0].faces@[1].direction == FaceDirection::East,
        r.pillars@[0].faces@[1].tiles@ == seq![
            (TileData { i: 2, j: 4, kind: TileDataType::MovableRod }),
            (TileData { i: 4, j: 6, kind: TileDataType::StaticRod }),
        ],
        r.pillars@[0].faces@[1].climbers@ == seq![
            (ClimberData { tile_i: 2, tile_j: 4 }),
        ],
{
    let d = LevelData {
        name: "II".to_string(),
        pillars: vec![
            PillarData {
                w: 5,
                h: 7,
                x: 0,
                z: 0,
                faces: vec![
                    FaceData {
                        direction: FaceDirection::West,
                        tiles: vec![
                            TileData { i: 1, j: 3, kind: TileDataType::StaticRod },
                            TileData { i: 3, j: 5, kind: TileDataType::MovableRod },
                            TileData { i: 4, j: 6, kind: TileDataType::StaticRod },
                        ],
                        climbers: vec![ClimberData { tile_i: 1, tile_j: 3 }],
                    },
                    FaceData {
                        direction: FaceDirection::East,
                        tiles: vec![
                            TileData { i: 2, j: 4, kind: TileDataType::MovableRod },
                            TileData { i: 4, j: 6, kind: TileDataType::StaticRod },
                        ],
                        climbers: vec![ClimberData { tile_i: 2, tile_j: 4 }],
                    },
                ],
            },
        ],
    };
    proof {
        lemma_two_face_level_wf(&d);
    }
    d
}

/// The third level, which introduces falling.
pub fn level_3() -> (r: LevelData)
    ensures
        level_data_wf(r),
        r.pillars@.len() == 1,
        r.pillars@[0].w == 5,
        r.pillars@[0].h == 7,
        r.pillars@[0].x == 0,
        r.pillars@[0].z == 0,
        r.pillars@[0].faces@.len() == 2,
        r.pillars@[0].faces@[0].direction == FaceDirection::West,
        r.pillars@[0].faces@[0].tiles@ == seq![
            (TileData { i: 0, j: 2, kind: TileDataType::MovableRod }),
            (TileData { i: 2, j: 4, kind: TileDataType::StaticRod }),
            (TileData { i: 3, j: 5, kind: TileDataType::StaticRod }),
            (TileData { i: 4, j: 6, kind: TileDataType::StaticRod }),
        ],
        r.pillars@[0].faces@[0].climbers@ == seq![
            (ClimberData { tile_i: 0, tile_j: 2 }),
        ],
        r.pillars@[0].faces@[1].direction == FaceDirection::East,
        r.pillars@[0].faces@[1].tiles@ == seq![
            (TileData { i: 0, j: 5, kind: TileDataType::MovableRod }),
            (TileData { i: 1, j: 3, kind: TileDataType::MovableRod }),
            (TileData { i: 2, j: 4, kind: TileDataType::StaticRod }),
            (TileData { i: 3, j: 5, kind: TileDataType::StaticRod }),
            (TileData { i: 4, j: 6, kind: TileDataType::StaticRod }),
        ],
        r.pillars@[0].faces@[1].climbers@ == seq![
            (ClimberData { tile_i: 0, tile_j: 5 }),
        ],
{
    let d = LevelData {
        name: "III".to_string(),
        pillars: vec![
            PillarData {
                w: 5,
                h: 7,
                x: 0,
                z: 0,
                faces: vec![
                    FaceData {
                        direction: FaceDirection::West,
                        tiles: vec![
                            TileData { i: 0, j: 2, kind: TileDataType::MovableRod },
                            TileData { i: 2, j: 4, kind: TileDataType::StaticRod },
                            TileData { i: 3, j: 5, kind: TileDataType::StaticRod },
                            TileData { i: 4, j: 6, kind: TileDataType::StaticRod },
                        ],
                        climbers: vec![ClimberData { tile_i: 0, tile_j: 2 }],
                    },
                    FaceData {
                        direction: FaceDirection::East,
                        tiles: vec![
                            TileData { i: 0, j: 5, kind: TileDataType::MovableRod },
                            TileData { i: 1, j: 3, kind: TileDataType::MovableRod },
                            TileData { i: 2, j: 4, kind: TileDataType::StaticRod },
                            TileData { i: 3, j: 5, kind: TileDataType::StaticRod },
                            TileData { i: 4, j: 6, kind: TileDataType::StaticRod },
                        ],
                        climbers: vec![ClimberData { tile_i: 0, tile_j: 5 }],
                    },
                ],
            },
        ],
    };
    proof {
        lemma_two_face_level_wf(&d);
    }
    d
}

/// The fourth level: three climbers and many movable rods.
pub fn level_4() -> (r: LevelData)
    ensures
        level_data_wf(r),
        r.pillars@.len() == 1,
        r.pillars@[0].w == 5,
        r.pillars@[0].h == 7,
        r.pillars@[0].x == 0,
        r.pillars@[0].z == 0,
        r.pillars@[0].faces@.len() == 2,
        r.pillars@[0].faces@[0].direction == FaceDirection::West,
        r.pillars@[0].faces@[0].tiles@ == seq![
            (TileData { i: 0, j: 5, kind: TileDataType::StaticRod }),
            (TileData { i: 1, j: 2, kind: TileDataType::MovableRod }),
            (TileData { i: 2, j: 3, kind: TileDataType::MovableRod }),
        ],
        r.pillars@[0].faces@[0].climbers@ == seq![
            (ClimberData { tile_i: 2, tile_j: 3 }),
        ],
        r.pillars@[0].faces@[1].direction == FaceDirection::East,
        r.pillars@[0].faces@[1].tiles@ == seq![
            (TileData { i: 1, j: 4, kind: TileDataType::MovableRod }),
            (TileData { i: 3, j: 4, kind: TileDataType::MovableRod }),
            (TileData { i: 1, j: 6, kind: TileDataType::MovableRod }),
            (TileData { i: 3, j: 2, kind: TileDataType::MovableRod }),
            (TileData { i: 3, j: 6, kind: TileDataType::StaticRod }),
            (TileData { i: 4, j: 5, kind: TileDataType::StaticRod }),
        ],
        r.pillars@[0].faces@[1].climbers@ == seq![
            (ClimberData { tile_i: 1, tile_j: 4 }),
            (ClimberData { tile_i: 3, tile_j: 2 }),
        ],
{
    let d = LevelData {
        name: "IV".to_string(),
        pillars: vec![
            PillarData {
                w: 5,
                h: 7,
                x: 0,
                z: 0,
                faces: vec![
                    FaceData {
                        direction: FaceDirection::West,
                        tiles: vec![
                            TileData { i: 0, j: 5, kind: TileDataType::StaticRod },
                            TileData { i: 1, j: 2, kind: TileDataType::MovableRod },
                            TileData { i: 2, j: 3, kind: TileDataType::MovableRod },
                        ],
                        climbers: vec![ClimberData { tile_i: 2, tile_j: 3 }],
                    },
                    FaceData {
                        direction: FaceDirection::East,
                        tiles: vec![
                            TileData { i: 1, j: 4, kind: TileDataType::MovableRod },
                            TileData { i: 3, j: 4, kind: TileDataType::MovableRod },
                            TileData { i: 1, j: 6, kind: TileDataType::MovableRod },
                            TileData { i: 3, j: 2, kind: TileDataType::MovableRod },
                            TileData { i: 3, j: 6, kind: TileDataType::StaticRod },
                            TileData { i: 4, j: 5, kind: TileDataType::StaticRod },
                        ],
                        climbers: vec![
                            ClimberData { tile_i: 1, tile_j: 4 },
                            ClimberData { tile_i: 3, tile_j: 2 },
                        ],
                    },
                ],
            },
        ],
    };
    proof {
        lemma_two_face_level_wf(&d);
    }
    d
}

/// Number of climbers spawned by a prefix-closed list of faces.
pub open spec fn sum_face_climbers(fs: Seq<FaceData>) -> int
    decreases fs.len(),
{
    if fs.len() == 0 {
        0
    } else {
        sum_face_climbers(fs.drop_last()) + fs.last().climbers@.len()
    }
}

/// Number of climbers spawned by a list of pillars.
pub open spec fn sum_pillar_climbers(ps: Seq<PillarData>) -> int
    decreases ps.len(),
{
    if ps.len() == 0 {
        0
    } else {
        sum_pillar_climbers(ps.drop_last()) + sum_face_climbers(ps.last().faces@)
    }
}

/// Climber spawn tiles of one face are pairwise distinct: a tile holds
/// at most one climber from the start.
pub open spec fn face_spawns_distinct(f: FaceData) -> bool {
    forall|a: int, b: int|
        0 <= a < b < f.climbers@.len() ==> ((#[trigger] f.climbers@[a]).tile_i != (
        #[trigger] f.climbers@[b]).tile_i || f.climbers@[a].tile_j != f.climbers@[b].tile_j)
}

/// Every tile and climber of the face lies inside a `w` by `h` grid.
pub open spec fn face_data_in_bounds(f: FaceData, w: int, h: int) -> bool {
    &&& forall|k: int|
        0 <= k < f.tiles@.len() ==> (#[trigger] f.tiles@[k]).i < w && f.tiles@[k].j < h
    &&& forall|k: int|
        0 <= k < f.climbers@.len() ==> (#[trigger] f.climbers@[k]).tile_i < w
            && f.climbers@[k].tile_j < h
}

/// Well-formedness of one pillar's definition: a non-empty grid, a world
/// position in range, at most one face per direction, and all placements
/// in bounds.
pub open spec fn pillar_data_wf(p: PillarData) -> bool {
    &&& 0 < p.w
    &&& 0 < p.h
    &&& -MAX_WORLD_COORD <= p.x <= MAX_WORLD_COORD
    &&& -MAX_WORLD_COORD <= p.z <= MAX_WORLD_COORD
    &&& p.faces@.len() <= 4
    &&& forall|a: int, b: int|
        0 <= a < b < p.faces@.len() ==> (#[trigger] p.faces@[a]).direction != (
        #[trigger] p.faces@[b]).direction
    &&& forall|k: int|
        0 <= k < p.faces@.len() ==> face_data_in_bounds(#[trigger] p.faces@[k], p.w as int,
            p.h as int)
    &&& forall|k: int| 0 <= k < p.faces@.len() ==> face_spawns_distinct(#[trigger] p.faces@[k])
}

/// Well-formedness of a whole level definition. Level data is assumed
/// internally consistent by the simulation; malformed data is rejected by
/// [`validate_level_data`], never repaired.
pub open spec fn level_data_wf(d: LevelData) -> bool {
    &&& forall|k: int| 0 <= k < d.pillars@.len() ==> pillar_data_wf(#[trigger] d.pillars@[k])
    &&& 0 < sum_pillar_climbers(d.pillars@) <= 255
}

/// The sum over a prefix grows by the element that the prefix gains.
proof fn lemma_sum_face_climbers_take(fs: Seq<FaceData>, k: int)
    requires
        0 <= k < fs.len(),
    ensures
        sum_face_climbers(fs.take(k + 1)) == sum_face_climbers(fs.take(k)) + fs[k].climbers@.len(),
{
    let pre = fs.take(k + 1);
    assert(pre.drop_last() =~= fs.take(k));
    assert(pre.last() == fs[k]);
}

/// The sum over a prefix grows by the pillar that the prefix gains.
proof fn lemma_sum_pillar_climbers_take(ps: Seq<PillarData>, k: int)
    requires
        0 <= k < ps.len(),
    ensures
        sum_pillar_climbers(ps.take(k + 1)) == sum_pillar_climbers(ps.take(k))
            + sum_face_climbers(ps[k].faces@),
{
    let pre = ps.take(k + 1);
    assert(pre.drop_last() =~= ps.take(k));
    assert(pre.last() == ps[k]);
}

/// Counts the climbers of one pillar's faces, stopping at 256.
fn count_pillar_climbers(p: &PillarData) -> (r: u16)
    ensures
        r == if sum_face_climbers(p.faces@) <= 256 {
            sum_face_climbers(p.faces@)
        } else {
            256int
        },
{
    let mut total: u16 = 0;
    let mut k: usize = 0;
    while k < p.faces.len()
        invariant
            0 <= k <= p.faces@.len(),
            total == if sum_face_climbers(p.faces@.take(k as int)) <= 256 {
                sum_face_climbers(p.faces@.take(k as int))
            } else {
                256int
            },
        decreases p.faces@.len() - k,
    {
        proof {
            lemma_sum_face_climbers_take(p.faces@, k as int);
        }
        let n = p.faces[k].climbers.len();
        if n >= 256 || total as usize + n >= 256 {
            total = 256;
        } else {
            total = total + n as u16;
        }
        k = k + 1;
    }
    proof {
        assert(p.faces@.take(p.faces@.len() as int) =~= p.faces@);
    }
    total
}

/// Checks that a level definition is internally consistent: every rod and
/// climber placement in bounds, directions distinct, the grid non-empty,
/// world positions in range, and at least one and at most 255 climbers.
///
/// Returns `true` exactly on the inputs that [`level_data_wf`] admits.
pub fn validate_level_data(d: &LevelData) -> (r: bool)
    ensures
        r == level_data_wf(*d),
{
    let mut total: u16 = 0;
    let mut n: usize = 0;
    let mut ok: bool = true;
    while n < d.pillars.len()
        invariant
            0 <= n <= d.pillars@.len(),
            ok == forall|k: int|
                0 <= k < n ==> pillar_data_wf(#[trigger] d.pillars@[k]),
            total == if sum_pillar_climbers(d.pillars@.take(n as int)) <= 256 {
                sum_pillar_climbers(d.pillars@.take(n as int))
            } else {
                256int
            },
        decreases d.pillars@.len() - n,
    {
        proof {
            lemma_sum_pillar_climbers_take(d.pillars@, n as int);
        }
        let p = &d.pillars[n];
        if !validate_pillar_data(p) {
            ok = false;
        }
        let c = count_pillar_climbers(p);
        if total as usize + c as usize >= 256 {
            total = 256;
        } else {
            total = total + c;
        }
        n = n + 1;
    }
    proof {
        assert(d.pillars@.take(d.pillars@.len() as int) =~= d.pillars@);
    }
    ok && total > 0 && total <= 255
}

/// Checks the per-pillar half of [`level_data_wf`].
fn validate_pillar_data(p: &PillarData) -> (r: bool)
    ensures
        r == pillar_data_wf(*p),
{
    if p.w == 0 || p.h == 0 {
        return false;
    }
    if p.x < -MAX_WORLD_COORD || p.x > MAX_WORLD_COORD || p.z < -MAX_WORLD_COORD || p.z
        > MAX_WORLD_COORD {
        return false;
    }
    if p.faces.len() > 4 {
        return false;
    }
    let mut k: usize = 0;
    while k < p.faces.len()
        invariant
            0 <= k <= p.faces@.len(),
            forall|j: int|
                0 <= j < k ==> face_data_in_bounds(#[trigger] p.faces@[j], p.w as int, p.h as int)
                    && face_spawns_distinct(p.faces@[j]),
        decreases p.faces@.len() - k,
    {
        if !validate_face_data(&p.faces[k], p.w, p.h) {
            return false;
        }
        k = k + 1;
    }
    let mut k: usize = 0;
    while k < p.faces.len()
        invariant
            0 <= k <= p.faces@.len(),
            forall|j: int|
                0 <= j < p.faces@.len() ==> face_data_in_bounds(#[trigger] p.faces@[j], p.w as int,
                    p.h as int) && face_spawns_distinct(p.faces@[j]),
            forall|a: int, b: int|
                0 <= a < b < k ==> (#[trigger] p.faces@[a]).direction != (
                #[trigger] p.faces@[b]).direction,
        decreases p.faces@.len() - k,
    {
        let mut a: usize = 0;
        while a < k
            invariant
                0 <= a <= k < p.faces@.len(),
                forall|b: int|
                    0 <= b < a ==> (#[trigger] p.faces@[b]).direction != p.faces@[k as int].direction,
            decreases k - a,
        {
            if p.faces[a].direction.same_as(&p.faces[k].direction) {
                return false;
            }
            a = a + 1;
        }
        k = k + 1;
    }
    true
}

/// Checks the per-face half of [`pillar_data_wf`]: placements and
/// spawns in bounds, spawn tiles pairwise distinct.
fn validate_face_data(f: &FaceData, w: u16, h: u16) -> (r: bool)
    ensures
        r == (face_data_in_bounds(*f, w as int, h as int) && face_spawns_distinct(*f)),
{
    let mut k: usize = 0;
    while k < f.tiles.len()
        invariant
            0 <= k <= f.tiles@.len(),
            forall|j: int| 0 <= j < k ==> (#[trigger] f.tiles@[j]).i < w && f.tiles@[j].j < h,
        decreases f.tiles@.len() - k,
    {
        let t = &f.tiles[k];
        if t.i >= w || t.j >= h {
            return false;
        }
        k = k + 1;
    }
    let mut k: usize = 0;
    while k < f.climbers.len()
        invariant
            0 <= k <= f.climbers@.len(),
            forall|j: int| 0 <= j < f.tiles@.len() ==> (#[trigger] f.tiles@[j]).i < w
                && f.tiles@[j].j < h,
            forall|j: int| 0 <= j < k ==> (#[trigger] f.climbers@[j]).tile_i < w
                && f.climbers@[j].tile_j < h,
        decreases f.climbers@.len() - k,
    {
        let c = &f.climbers[k];
        if c.tile_i >= w || c.tile_j >= h {
            return false;
        }
        k = k + 1;
    }
    let mut k: usize = 0;
    while k < f.climbers.len()
        invariant
            0 <= k <= f.climbers@.len(),
            forall|a: int, b: int|
                0 <= a < b < k ==> ((#[trigger] f.climbers@[a]).tile_i != (
                #[trigger] f.climbers@[b]).tile_i || f.climbers@[a].tile_j
                    != f.climbers@[b].tile_j),
        decreases f.climbers@.len() - k,
    {
        let mut a: usize = 0;
        while a < k
            invariant
                0 <= a <= k < f.climbers@.len(),
                forall|b: int|
                    0 <= b < a ==> ((#[trigger] f.climbers@[b]).tile_i
                        != f.climbers@[k as int].tile_i || f.climbers@[b].tile_j
                        != f.climbers@[k as int].tile_j),
            decreases k - a,
        {
            if f.climbers[a].tile_i == f.climbers[k].tile_i && f.climbers[a].tile_j
                == f.climbers[k].tile_j {
                return false;
            }
            a = a + 1;
        }
        k = k + 1;
    }
    true
}

} // verus!
