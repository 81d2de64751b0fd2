//! Level construction: building a running [`Level`] from a
//! [`LevelData`] definition.
//!
//! Each pillar gets exactly four faces, one per compass direction in the
//! fixed order west, north, east, south, so the face of pillar `p` with
//! direction index `d` sits at arena index `4 * p + d`. Directions not
//! listed in the definition get an all-`Void` grid. One pylon is pooled
//! per climber, under the direction of the face the climber spawns on.

use vstd::prelude::*;

verus! {

use crate::climber::{Climber, ClimberPosition, ClimberState};
use crate::data::{
    ClimberData, FaceData, FaceDirection, FaceSize, LevelData, PillarData, TileData, TileDataType,
    face_data_in_bounds, level_data_wf, pillar_data_wf, sum_face_climbers, sum_pillar_climbers,
};
use crate::face::{Face, Position, grid_set, pos_from_tile};
use crate::level::{Level, LevelCompletion};
use crate::pillar::{Pillar, PylonPools};
use crate::rod::MovableRod;
use crate::{GameState, Pylon, TilePosition, TileType};

/// Arena offset of a direction within its pillar's block of four faces.
pub open spec fn dir_index(d: FaceDirection) -> int {
    match d {
        FaceDirection::West => 0,
        FaceDirection::North => 1,
        FaceDirection::East => 2,
        FaceDirection::South => 3,
    }
}

/// The direction stored at offset `k` of a pillar's block of four faces.
pub open spec fn dir_of_index(k: int) -> FaceDirection {
    if k == 0 {
        FaceDirection::West
    } else if k == 1 {
        FaceDirection::North
    } else if k == 2 {
        FaceDirection::East
    } else {
        FaceDirection::South
    }
}

/// Arena index of the face opposite to the face at arena index `f`.
pub open spec fn opposite_index(f: int) -> int {
    4 * (f / 4) + dir_index(dir_of_index(f % 4).spec_opposite())
}

/// The grid tile a rod placement of the given kind produces.
pub open spec fn tile_of_kind(k: TileDataType) -> TileType {
    match k {
        TileDataType::StaticRod => TileType::StaticRod(false),
        TileDataType::MovableRod => TileType::MovableRod(false),
    }
}

/// An all-`Void` grid of `w` columns of `h` tiles.
pub open spec fn void_grid(w: int, h: int) -> Seq<Seq<TileType>> {
    Seq::new(w as nat, |i: int| Seq::new(h as nat, |j: int| TileType::Void))
}

/// The grid `g` after applying a list of rod placements in order.
pub open spec fn grid_from_tiles(g: Seq<Seq<TileType>>, ts: Seq<TileData>) -> Seq<Seq<TileType>>
    decreases ts.len(),
{
    if ts.len() == 0 {
        g
    } else {
        let t = ts.last();
        grid_set(grid_from_tiles(g, ts.drop_last()), t.i as int, t.j as int, tile_of_kind(t.kind))
    }
}

/// The grid `g` after marking each climber spawn tile occupied, in
/// order. A `Void` spawn tile stays `Void`.
pub open spec fn grid_with_climbers(g: Seq<Seq<TileType>>, cs: Seq<ClimberData>) -> Seq<
    Seq<TileType>,
>
    decreases cs.len(),
{
    if cs.len() == 0 {
        g
    } else {
        let c = cs.last();
        let prev = grid_with_climbers(g, cs.drop_last());
        grid_set(prev, c.tile_i as int, c.tile_j as int, prev[c.tile_i as int][c.tile_j as int].with_occupancy(true))
    }
}

/// The face definition with the given direction, if the list holds one.
pub open spec fn find_face(faces: Seq<FaceData>, d: FaceDirection) -> Option<FaceData>
    decreases faces.len(),
{
    if faces.len() == 0 {
        None
    } else if faces.last().direction == d {
        Some(faces.last())
    } else {
        find_face(faces.drop_last(), d)
    }
}

/// The finished grid of the face with direction `d`, built from the
/// face definitions in `faces`: all `Void` when no definition lists `d`,
/// else the placements applied over `Void` and the spawn tiles marked.
pub open spec fn face_grid_from(faces: Seq<FaceData>, w: int, h: int, d: FaceDirection) -> Seq<
    Seq<TileType>,
> {
    match find_face(faces, d) {
        Some(fd) => grid_with_climbers(grid_from_tiles(void_grid(w, h), fd.tiles@), fd.climbers@),
        None => void_grid(w, h),
    }
}

/// World origin of the face of pillar `p` with direction `d`.
pub open spec fn origin_of(p: PillarData, d: FaceDirection) -> Position {
    Position {
        x: (p.x + d.spec_factor() * ((p.w as int) * 250)) as i64,
        y: 0,
        z: (p.z - (p.w as int) * 250) as i64,
    }
}

/// Number of climbers spawned on the face with direction `d` among the
/// given face definitions; zero when none lists `d`.
pub open spec fn face_climbers_count_in(faces: Seq<FaceData>, d: FaceDirection) -> int {
    match find_face(faces, d) {
        Some(fd) => fd.climbers@.len() as int,
        None => 0,
    }
}

/// Number of climbers the definition spawns on the face with direction
/// `d` of pillar `p`; zero when no face definition lists `d`.
pub open spec fn face_climbers_count(p: PillarData, d: FaceDirection) -> int {
    face_climbers_count_in(p.faces@, d)
}

/// The climbers one face definition spawns, in list order: each waiting
/// on its spawn tile, anchored to it, owned by pillar `pi`.
pub open spec fn climbers_of_face(p: PillarData, pi: int, fd: FaceData) -> Seq<Climber> {
    Seq::new(fd.climbers@.len(), |k: int| Climber {
        state: ClimberState::Waiting {
            on_tile: ClimberPosition {
                face: (4 * pi + dir_index(fd.direction)) as usize,
                i: fd.climbers@[k].tile_i,
                j: fd.climbers@[k].tile_j,
            },
        },
        current_pillar: pi as usize,
        position: pos_from_tile(fd.direction, origin_of(p, fd.direction),
            fd.climbers@[k].tile_i as int, fd.climbers@[k].tile_j as int),
    })
}

/// The climbers a prefix-closed list of face definitions spawns.
pub open spec fn climbers_of_faces(p: PillarData, pi: int, faces: Seq<FaceData>) -> Seq<Climber>
    decreases faces.len(),
{
    if faces.len() == 0 {
        Seq::empty()
    } else {
        climbers_of_faces(p, pi, faces.drop_last()) + climbers_of_face(p, pi, faces.last())
    }
}

/// The climbers a list of pillars spawns, pillar by pillar.
pub open spec fn climbers_of_pillars(ps: Seq<PillarData>) -> Seq<Climber>
    decreases ps.len(),
{
    if ps.len() == 0 {
        Seq::empty()
    } else {
        climbers_of_pillars(ps.drop_last()) + climbers_of_faces(ps.last(), ps.len() - 1,
            ps.last().faces@)
    }
}

/// A freshly spawned climber: waiting on a valid tile of an existing
/// face, anchored to that tile, owned by one of the first `np` pillars.
pub open spec fn spawned_climber_ok(faces: Seq<Face>, np: int, c: Climber) -> bool {
    &&& c.current_pillar < np
    &&& match c.state {
        ClimberState::Waiting { on_tile } => {
            &&& on_tile.face < faces.len()
            &&& faces[on_tile.face as int].spec_is_valid(on_tile.i as int, on_tile.j as int)
            &&& c.position == faces[on_tile.face as int].spec_pos_from_tile(on_tile.i as int,
                on_tile.j as int)
        },
        _ => false,
    }
}

/// Every climber of the list satisfies [`spawned_climber_ok`].
pub open spec fn spawned_climbers_ok(faces: Seq<Face>, np: int, cs: Seq<Climber>) -> bool {
    forall|k: int| 0 <= k < cs.len() ==> spawned_climber_ok(faces, np, #[trigger] cs[k])
}

/// Spawned climbers survive any face change that keeps each face's
/// direction, size and origin, any growth of the face arena, and any
/// growth of the pillar bound.
proof fn lemma_spawned_climbers_same_geometry(
    faces0: Seq<Face>,
    faces1: Seq<Face>,
    np0: int,
    np1: int,
    cs: Seq<Climber>,
)
    requires
        spawned_climbers_ok(faces0, np0, cs),
        np0 <= np1,
        faces0.len() <= faces1.len(),
        forall|k: int|
            0 <= k < faces0.len() ==> (#[trigger] faces1[k]).direction == faces0[k].direction
                && faces1[k].size == faces0[k].size && faces1[k].origin == faces0[k].origin,
    ensures
        spawned_climbers_ok(faces1, np1, cs),
{
    assert forall|k: int| 0 <= k < cs.len() implies spawned_climber_ok(faces1, np1,
        #[trigger] cs[k]) by {
        assert(spawned_climber_ok(faces0, np0, cs[k]));
    }
}

/// The climbers of one face definition are as many as its spawn list.
proof fn lemma_climbers_of_faces_len(p: PillarData, pi: int, fs: Seq<FaceData>)
    ensures
        climbers_of_faces(p, pi, fs).len() == sum_face_climbers(fs),
    decreases fs.len(),
{
    if fs.len() > 0 {
        lemma_climbers_of_faces_len(p, pi, fs.drop_last());
    }
}

/// The climbers of a pillar list are as many as its definitions spawn.
proof fn lemma_climbers_of_pillars_len(ps: Seq<PillarData>)
    ensures
        climbers_of_pillars(ps).len() == sum_pillar_climbers(ps),
    decreases ps.len(),
{
    if ps.len() > 0 {
        lemma_climbers_of_pillars_len(ps.drop_last());
        lemma_climbers_of_faces_len(ps.last(), ps.len() - 1, ps.last().faces@);
    }
}

/// Growing a placement prefix applies the placement it gains.
proof fn lemma_grid_from_tiles_take(g: Seq<Seq<TileType>>, ts: Seq<TileData>, k: int)
    requires
        0 <= k < ts.len(),
    ensures
        grid_from_tiles(g, ts.take(k + 1)) == grid_set(grid_from_tiles(g, ts.take(k)),
            ts[k].i as int, ts[k].j as int, tile_of_kind(ts[k].kind)),
{
    assert(ts.take(k + 1).drop_last() =~= ts.take(k));
    assert(ts.take(k + 1).last() == ts[k]);
}

/// Growing a climber prefix marks the spawn tile it gains.
proof fn lemma_grid_with_climbers_take(g: Seq<Seq<TileType>>, cs: Seq<ClimberData>, k: int)
    requires
        0 <= k < cs.len(),
    ensures
        ({
            let prev = grid_with_climbers(g, cs.take(k));
            grid_with_climbers(g, cs.take(k + 1)) == grid_set(prev, cs[k].tile_i as int,
                cs[k].tile_j as int,
                prev[cs[k].tile_i as int][cs[k].tile_j as int].with_occupancy(true))
        }),
{
    assert(cs.take(k + 1).drop_last() =~= cs.take(k));
    assert(cs.take(k + 1).last() == cs[k]);
}

/// A direction absent from a prefix of face definitions is not found.
proof fn lemma_find_face_absent(faces: Seq<FaceData>, d: FaceDirection, k: int)
    requires
        0 <= k <= faces.len(),
        forall|a: int| 0 <= a < k ==> (#[trigger] faces[a]).direction != d,
    ensures
        find_face(faces.take(k), d) is None,
    decreases k,
{
    if k > 0 {
        assert(faces.take(k).last() == faces[k - 1]);
        assert(faces.take(k).drop_last() =~= faces.take(k - 1));
        lemma_find_face_absent(faces, d, k - 1);
    }
}

/// Growing a face prefix finds the face it gains, and nothing else
/// changes for other directions.
proof fn lemma_find_face_take(faces: Seq<FaceData>, d: FaceDirection, k: int)
    requires
        0 <= k < faces.len(),
    ensures
        faces[k].direction == d ==> find_face(faces.take(k + 1), d) == Some(faces[k]),
        faces[k].direction != d ==> find_face(faces.take(k + 1), d) == find_face(faces.take(k), d),
{
    assert(faces.take(k + 1).drop_last() =~= faces.take(k));
    assert(faces.take(k + 1).last() == faces[k]);
}

/// Growing a face prefix appends the climbers of the face it gains.
proof fn lemma_climbers_of_faces_take(p: PillarData, pi: int, faces: Seq<FaceData>, k: int)
    requires
        0 <= k < faces.len(),
    ensures
        climbers_of_faces(p, pi, faces.take(k + 1)) == climbers_of_faces(p, pi, faces.take(k))
            + climbers_of_face(p, pi, faces[k]),
{
    assert(faces.take(k + 1).drop_last() =~= faces.take(k));
    assert(faces.take(k + 1).last() == faces[k]);
}

/// Growing a pillar prefix appends the climbers of the pillar it gains.
proof fn lemma_climbers_of_pillars_take(ps: Seq<PillarData>, k: int)
    requires
        0 <= k < ps.len(),
    ensures
        climbers_of_pillars(ps.take(k + 1)) == climbers_of_pillars(ps.take(k)) + climbers_of_faces(
            ps[k], k, ps[k].faces@),
{
    assert(ps.take(k + 1).drop_last() =~= ps.take(k));
    assert(ps.take(k + 1).last() == ps[k]);
}

/// Basic facts about the opposite-face index: it stays in the same
/// block of four, differs from its argument, and is an involution.
pub proof fn lemma_opposite_index_props(f: int)
    requires
        f >= 0,
    ensures
        opposite_index(f) / 4 == f / 4,
        0 <= opposite_index(f) % 4 < 4,
        opposite_index(f) != f,
        opposite_index(f) >= 0,
        opposite_index(opposite_index(f)) == f,
        opposite_index(f) % 4 == dir_index(dir_of_index(f % 4).spec_opposite()),
        dir_of_index(opposite_index(f) % 4) == dir_of_index(f % 4).spec_opposite(),
{
    let q = f / 4;
    let m = f % 4;
    assert(f == 4 * q + m && 0 <= m < 4 && q >= 0) by (nonlinear_arith)
        requires f >= 0, q == f / 4, m == f % 4;
    let x = dir_index(dir_of_index(m).spec_opposite());
    assert(0 <= x < 4);
    assert((4 * q + x) / 4 == q && (4 * q + x) % 4 == x) by (nonlinear_arith)
        requires 0 <= x < 4 && q >= 0;
    assert(opposite_index(f) == 4 * q + x);
    assert(x != m);
    let x2 = dir_index(dir_of_index(x).spec_opposite());
    assert(x2 == m);
    assert((4 * q + x2) / 4 == q && (4 * q + x2) % 4 == x2) by (nonlinear_arith)
        requires 0 <= x2 < 4 && q >= 0;
}

/// A face index below a multiple-of-four length keeps its whole block
/// of four below that length.
proof fn lemma_block_in_range(f: int, len: int)
    requires
        0 <= f < len,
        len % 4 == 0,
    ensures
        0 <= 4 * (f / 4),
        4 * (f / 4) + 4 <= len,
        4 * (f / 4) <= f,
{
    let q = f / 4;
    assert(0 <= 4 * q <= f && 4 * q + 4 <= len) by (nonlinear_arith)
        requires 0 <= f < len, len % 4 == 0, q == f / 4;
}

/// Returns the arena offset of a direction within its pillar's block.
fn dir_index_of(d: &FaceDirection) -> (r: usize)
    ensures
        r == dir_index(*d),
{
    match d {
        FaceDirection::West => 0,
        FaceDirection::North => 1,
        FaceDirection::East => 2,
        FaceDirection::South => 3,
    }
}

/// Builds one face of a pillar with an all-`Void` grid.
fn make_face(p: &PillarData, direction: FaceDirection) -> (f: Face)
    requires
        pillar_data_wf(*p),
    ensures
        f.wf(),
        f.direction == direction,
        f.size == (FaceSize { w: p.w, h: p.h }),
        f.origin == origin_of(*p, direction),
        f.grid() == void_grid(p.w as int, p.h as int),
{
    let mut tiles: Vec<Vec<TileType>> = Vec::new();
    let mut k: usize = 0;
    while k < p.w as usize
        invariant
            tiles@.len() == k,
            k <= p.w,
            forall|x: int|
                0 <= x < k ==> (#[trigger] tiles@[x])@ == Seq::new(p.h as nat,
                    |j: int| TileType::Void),
        decreases p.w - k,
    {
        let mut col: Vec<TileType> = Vec::new();
        let mut j: usize = 0;
        while j < p.h as usize
            invariant
                col@.len() == j,
                j <= p.h,
                forall|y: int| 0 <= y < j ==> col@[y] == TileType::Void,
            decreases p.h - j,
        {
            col.push(TileType::Void);
            j = j + 1;
        }
        proof {
            assert(col@ =~= Seq::new(p.h as nat, |y: int| TileType::Void));
        }
        tiles.push(col);
        k = k + 1;
    }
    let factor: i64 = match direction {
        FaceDirection::West | FaceDirection::South => -1,
        FaceDirection::North | FaceDirection::East => 1,
    };
    let half: i64 = p.w as i64 * 250;
    let f = Face {
        direction,
        size: FaceSize { w: p.w, h: p.h },
        origin: Position { x: p.x + factor * half, y: 0, z: p.z - half },
        tiles,
    };
    proof {
        assert(f.grid() =~~= void_grid(p.w as int, p.h as int));
    }
    f
}

/// One well-formed rod cell: the tile under `(x, y)` on face `f` holds a
/// movable rod and the mirrored cell on the opposite face is `Void`.
#[verifier::opaque]
pub open spec fn movable_cell(faces: Seq<Face>, f: int, x: int, y: int) -> bool {
    &&& faces[f].tile_at(x, y) matches TileType::MovableRod(_)
    &&& faces[opposite_index(f)].tile_at(x, y) == TileType::Void
}

/// Scans the finished face grids and creates one movable rod per cell
/// that holds a movable rod with `Void` mirrored behind it: exactly the
/// rods a consistent level definition places. Rods start at rest (not in
/// flight) and link each cell to the same coordinate on the opposite
/// face of its pillar.
/// The face arena as level construction lays it out: blocks of four
/// faces, directions in the fixed order, sizes equal within a block.
pub open spec fn faces_block_ok(faces: Seq<Face>) -> bool {
    &&& faces.len() % 4 == 0
    &&& forall|k: int| 0 <= k < faces.len() ==> (#[trigger] faces[k]).wf()
    &&& forall|k: int| 0 <= k < faces.len() ==> (#[trigger] faces[k]).direction == dir_of_index(k % 4)
    &&& forall|a: int, b: int|
        0 <= a < faces.len() && 0 <= b < faces.len() && a / 4 == b / 4 ==> (
        #[trigger] faces[a]).size == (#[trigger] faces[b]).size
}

/// A rod as the scan creates it: at rest, linking a movable-rod cell to
/// the `Void` cell mirrored on the opposite face of the same pillar.
pub open spec fn scanned_rod_ok(faces: Seq<Face>, rod: MovableRod) -> bool {
    &&& !rod.in_flight
    &&& rod.face < faces.len()
    &&& rod.opposite_face == opposite_index(rod.face as int)
    &&& faces[rod.face as int].spec_is_valid(rod.position.i as int, rod.position.j as int)
    &&& faces[rod.face as int].tile_at(rod.position.i as int,
        rod.position.j as int) matches TileType::MovableRod(_)
    &&& faces[rod.opposite_face as int].tile_at(rod.position.i as int, rod.position.j as int)
        == TileType::Void
}

/// Some rod in the list sits on face `f` at `(x, y)`.
#[verifier::opaque]
pub open spec fn has_rod_at(rods: Seq<MovableRod>, f: int, x: int, y: int) -> bool {
    exists|r: int|
        0 <= r < rods.len() && (#[trigger] rods[r]).face == f && rods[r].position == (TilePosition {
            i: x as u16,
            j: y as u16,
        })
}

/// Extending a rod list keeps every cell it already covered covered.
proof fn lemma_has_rod_at_extend(rods0: Seq<MovableRod>, rods1: Seq<MovableRod>, f: int, x: int, y: int)
    requires
        rods0.len() <= rods1.len(),
        forall|r: int| 0 <= r < rods0.len() ==> rods1[r] == rods0[r],
        has_rod_at(rods0, f, x, y),
    ensures
        has_rod_at(rods1, f, x, y),
{
    reveal(has_rod_at);
    let r0 = choose|r: int|
        0 <= r < rods0.len() && (#[trigger] rods0[r]).face == f && rods0[r].position
            == (TilePosition { i: x as u16, j: y as u16 });
    assert(rods1[r0].face == f && rods1[r0].position == (TilePosition { i: x as u16, j: y as u16 }));
}

/// Scans one face and appends one rod per cell of it that holds a
/// movable rod with `Void` mirrored behind it on face `o`.
#[verifier::rlimit(100)]
fn scan_face_rods(faces: &Vec<Face>, f: usize, rods: &mut Vec<MovableRod>)
    requires
        faces_block_ok(faces@),
        f < faces@.len(),
    ensures
        old(rods)@.len() <= final(rods)@.len(),
        forall|r: int| 0 <= r < old(rods)@.len() ==> final(rods)@[r] == old(rods)@[r],
        forall|r: int|
            old(rods)@.len() <= r < final(rods)@.len() ==> scanned_rod_ok(faces@,
                #[trigger] final(rods)@[r]) && final(rods)@[r].face == f,
        forall|a: int, b: int|
            old(rods)@.len() <= a < final(rods)@.len() && old(rods)@.len() <= b < final(rods)@.len()
                && a != b ==> (#[trigger] final(rods)@[a]).position != (#[trigger] final(rods)@[b]).position,
        forall|x: int, y: int|
            0 <= x < faces@[f as int].size.w && 0 <= y < faces@[f as int].size.h && movable_cell(
                faces@, f as int, x, y) ==> has_rod_at(final(rods)@, f as int, x, y),
{
    proof {
        lemma_block_in_range(f as int, faces@.len() as int);
        lemma_opposite_index_props(f as int);
    }
    let o: usize = (f / 4) * 4 + dir_index_of(&faces[f].direction.get_opposite());
    proof {
        assert(faces@[f as int].direction == dir_of_index(f as int % 4));
        assert(o == opposite_index(f as int));
        assert(o as int / 4 == f as int / 4);
        assert(faces@[o as int].size == faces@[f as int].size);
    }
    let w = faces[f].size.w;
    let h = faces[f].size.h;
    let ghost base = rods@.len();
    let mut x: u16 = 0;
    while x < w
        invariant
            0 <= f < faces@.len(),
            0 <= o < faces@.len(),
            0 <= x <= w,
            o == opposite_index(f as int),
            w == faces@[f as int].size.w,
            h == faces@[f as int].size.h,
            faces@[f as int].wf(),
            faces@[o as int].wf(),
            faces@[o as int].size == faces@[f as int].size,
            base <= rods@.len(),
            base == old(rods)@.len(),
            forall|r: int| 0 <= r < base ==> rods@[r] == old(rods)@[r],
            forall|r: int|
                base <= r < rods@.len() ==> scanned_rod_ok(faces@, #[trigger] rods@[r])
                    && rods@[r].face == f,
            forall|r: int| base <= r < rods@.len() ==> (#[trigger] rods@[r]).position.i < x,
            forall|a: int, b: int|
                base <= a < rods@.len() && base <= b < rods@.len() && a != b ==> (
                #[trigger] rods@[a]).position != (#[trigger] rods@[b]).position,
            forall|cx: int, cy: int|
                0 <= cx < x && 0 <= cy < h && movable_cell(faces@, f as int, cx, cy)
                    ==> has_rod_at(rods@, f as int, cx, cy),
        decreases w - x,
    {
        let mut y: u16 = 0;
        while y < h
            invariant
                0 <= f < faces@.len(),
                0 <= o < faces@.len(),
                0 <= x < w,
                0 <= y <= h,
                o == opposite_index(f as int),
                w == faces@[f as int].size.w,
                h == faces@[f as int].size.h,
                faces@[f as int].wf(),
                faces@[o as int].wf(),
                faces@[o as int].size == faces@[f as int].size,
                base <= rods@.len(),
                base == old(rods)@.len(),
                forall|r: int| 0 <= r < base ==> rods@[r] == old(rods)@[r],
                forall|r: int|
                    base <= r < rods@.len() ==> scanned_rod_ok(faces@, #[trigger] rods@[r])
                        && rods@[r].face == f,
                forall|r: int|
                    base <= r < rods@.len() ==> (#[trigger] rods@[r]).position.i < x || (
                    rods@[r].position.i == x && rods@[r].position.j < y),
                forall|a: int, b: int|
                    base <= a < rods@.len() && base <= b < rods@.len() && a != b ==> (
                    #[trigger] rods@[a]).position != (#[trigger] rods@[b]).position,
                forall|cx: int, cy: int|
                    ((0 <= cx < x && 0 <= cy < h) || (cx == x && 0 <= cy < y)) && movable_cell(
                        faces@, f as int, cx, cy) ==> has_rod_at(rods@, f as int, cx, cy),
            decreases h - y,
        {
            let ghost rods0 = rods@;
            let cell = faces[f].tile(x, y);
            let movable = match cell {
                TileType::MovableRod(_) => true,
                _ => false,
            };
            if movable {
                let mirror = faces[o].tile(x, y);
                let clear = match mirror {
                    TileType::Void => true,
                    _ => false,
                };
                if clear {
                    rods.push(MovableRod {
                        face: f,
                        opposite_face: o,
                        position: TilePosition { i: x, j: y },
                        in_flight: false,
                    });
                }
            }
            proof {
                assert forall|cx: int, cy: int|
                    ((0 <= cx < x && 0 <= cy < h) || (cx == x && 0 <= cy < y + 1))
                        && movable_cell(faces@, f as int, cx, cy) implies has_rod_at(rods@,
                    f as int, cx, cy) by {
                    reveal(movable_cell);
                    reveal(has_rod_at);
                    if cx == x as int && cy == y as int {
                        assert(rods@.len() == rods0.len() + 1);
                        assert(rods@[rods@.len() - 1].face == f);
                        assert(rods@[rods@.len() - 1].position == (TilePosition {
                            i: cx as u16,
                            j: cy as u16,
                        }));
                    } else {
                        lemma_has_rod_at_extend(rods0, rods@, f as int, cx, cy);
                    }
                }
            }
            y = y + 1;
        }
        x = x + 1;
    }
}

/// Scans the finished face grids and creates one movable rod per cell
/// that holds a movable rod with `Void` mirrored behind it: exactly the
/// rods a consistent level definition places. Rods start at rest (not in
/// flight) and link each cell to the same coordinate on the opposite
/// face of its pillar.
#[verifier::rlimit(100)]
fn scan_rods(faces: &Vec<Face>) -> (rods: Vec<MovableRod>)
    requires
        faces_block_ok(faces@),
    ensures
        forall|r: int| 0 <= r < rods@.len() ==> scanned_rod_ok(faces@, #[trigger] rods@[r]),
        forall|a: int, b: int|
            0 <= a < rods@.len() && 0 <= b < rods@.len() && a != b ==> !((#[trigger] rods@[a]).face
                == (#[trigger] rods@[b]).face && rods@[a].position == rods@[b].position),
        forall|f: int, x: int, y: int|
            0 <= f < faces@.len() && 0 <= x < faces@[f].size.w && 0 <= y < faces@[f].size.h
                && movable_cell(faces@, f, x, y) ==> has_rod_at(rods@, f, x, y),
{
    let mut rods: Vec<MovableRod> = Vec::new();
    let mut f: usize = 0;
    while f < faces.len()
        invariant
            faces_block_ok(faces@),
            0 <= f <= faces@.len(),
            forall|r: int|
                0 <= r < rods@.len() ==> scanned_rod_ok(faces@, #[trigger] rods@[r])
                    && rods@[r].face < f,
            forall|a: int, b: int|
                0 <= a < rods@.len() && 0 <= b < rods@.len() && a != b ==> !((
                #[trigger] rods@[a]).face == (#[trigger] rods@[b]).face && rods@[a].position
                    == rods@[b].position),
            forall|g: int, x: int, y: int|
                0 <= g < f && 0 <= x < faces@[g].size.w && 0 <= y < faces@[g].size.h
                    && movable_cell(faces@, g, x, y) ==> has_rod_at(rods@, g, x, y),
        decreases faces@.len() - f,
    {
        let ghost rods0 = rods@;
        scan_face_rods(faces, f, &mut rods);
        proof {
            assert forall|g: int, x: int, y: int|
                0 <= g < f + 1 && 0 <= x < faces@[g].size.w && 0 <= y < faces@[g].size.h
                    && movable_cell(faces@, g, x, y) implies has_rod_at(rods@, g, x, y) by {
                if g < f as int {
                    lemma_has_rod_at_extend(rods0, rods@, g, x, y);
                }
            }
        }
        f = f + 1;
    }
    rods
}

/// Decomposition of an index inside a block of four.
proof fn lemma_block_decomp(k: int, pi: int)
    requires
        pi >= 0,
        4 * pi <= k < 4 * pi + 4,
    ensures
        k / 4 == pi,
        k % 4 == k - 4 * pi,
{
    assert(k / 4 == pi && k % 4 == k - 4 * pi) by (nonlinear_arith)
        requires pi >= 0, 4 * pi <= k < 4 * pi + 4;
}

/// One fully built face of the arena: its pillar's size and origin, the
/// direction of its offset, and the finished grid of its definition.
pub open spec fn built_face_full(ps: Seq<PillarData>, faces: Seq<Face>, k: int) -> bool {
    let q = ps[k / 4];
    let d = dir_of_index(k % 4);
    &&& faces[k].wf()
    &&& faces[k].direction == d
    &&& faces[k].size == (FaceSize { w: q.w, h: q.h })
    &&& faces[k].origin == origin_of(q, d)
    &&& faces[k].grid() == face_grid_from(q.faces@, q.w as int, q.h as int, d)
}

/// Distinct directions sit at distinct offsets within a block.
proof fn lemma_dir_index_injective(a: FaceDirection, b: FaceDirection)
    requires
        dir_index(a) == dir_index(b),
    ensures
        a == b,
{
}

/// One spawn step keeps claims distinct and covered: the climber list
/// gains one climber claiming `cp` on face `fidx`, whose cell just
/// gained the occupancy flag; earlier arrivals claim other faces, and
/// this face's own earlier spawns sit on distinct tiles.
proof fn lemma_spawn_claims_step(
    prev_faces: Seq<Face>,
    post_faces: Seq<Face>,
    prev_climbers: Seq<Climber>,
    newc: Climber,
    base: int,
    fidx: int,
    cp: ClimberPosition,
)
    requires
        Level::claims_distinct_in(prev_climbers),
        Level::claims_covered_in(prev_faces, prev_climbers),
        0 <= base <= prev_climbers.len(),
        0 <= fidx < prev_faces.len(),
        prev_faces[fidx].wf(),
        post_faces.len() == prev_faces.len(),
        forall|m: int| 0 <= m < prev_faces.len() && m != fidx ==> post_faces[m] == prev_faces[m],
        post_faces[fidx].wf(),
        post_faces[fidx].size == prev_faces[fidx].size,
        cp.face == fidx,
        cp.i < prev_faces[fidx].size.w,
        cp.j < prev_faces[fidx].size.h,
        post_faces[fidx].grid() == grid_set(prev_faces[fidx].grid(), cp.i as int, cp.j as int,
            prev_faces[fidx].tile_at(cp.i as int, cp.j as int).with_occupancy(true)),
        Level::claim_of(newc) == Some(cp),
        forall|m: int|
            0 <= m < base ==> match Level::claim_of(#[trigger] prev_climbers[m]) {
                Some(u) => u.face < prev_faces.len() && u.face != fidx,
                None => true,
            },
        forall|m: int|
            base <= m < prev_climbers.len() ==> match Level::claim_of(
                #[trigger] prev_climbers[m]) {
                Some(u) => u.face == fidx && u.i < prev_faces[fidx].size.w && u.j
                    < prev_faces[fidx].size.h && !(u.i == cp.i && u.j == cp.j),
                None => true,
            },
    ensures
        Level::claims_distinct_in(prev_climbers.push(newc)),
        Level::claims_covered_in(post_faces, prev_climbers.push(newc)),
{
    let face = prev_faces[fidx];
    let pface = post_faces[fidx];
    let ci = cp.i as int;
    let cj = cp.j as int;
    face.lemma_grid_dims();
    pface.lemma_grid_dims();
    assert(pface.grid()[ci] == face.grid()[ci].update(cj, face.tile_at(ci,
        cj).with_occupancy(true)));
    assert(pface.tile_at(ci, cj) == face.tile_at(ci, cj).with_occupancy(true));
    assert forall|x: int, y: int|
        0 <= x < face.size.w && 0 <= y < face.size.h && !(x == ci && y == cj) implies
        #[trigger] pface.tile_at(x, y) == face.tile_at(x, y) by {
        if x == ci {
            assert(pface.grid()[x][y] == face.grid()[x][y]);
        } else {
            assert(pface.grid()[x] == face.grid()[x]);
        }
    }
    let post_climbers = prev_climbers.push(newc);
    let newi = prev_climbers.len() as int;
    assert forall|a: int, b: int|
        0 <= a < post_climbers.len() && 0 <= b < post_climbers.len() && a != b implies match (
    Level::claim_of(#[trigger] post_climbers[a]), Level::claim_of(#[trigger] post_climbers[b])) {
        (Some(t), Some(u)) => t != u,
        _ => true,
    } by {
        if a == newi || b == newi {
            let o = if a == newi {
                b
            } else {
                a
            };
            assert(post_climbers[o] == prev_climbers[o]);
        } else {
            assert(post_climbers[a] == prev_climbers[a]);
            assert(post_climbers[b] == prev_climbers[b]);
        }
    }
    assert forall|m: int|
        0 <= m < post_climbers.len() implies match Level::claim_of(#[trigger] post_climbers[m]) {
        Some(u) => post_faces[u.face as int].tile_at(u.i as int, u.j as int).is_occupied()
            || !post_faces[u.face as int].ground(u.i as int, u.j as int),
        None => true,
    } by {
        if m == newi {
            assert(Level::claim_of(post_climbers[m]) == Some(cp));
            assert(pface.tile_at(ci, cj).is_occupied() || !pface.ground(ci, cj));
        } else {
            assert(post_climbers[m] == prev_climbers[m]);
            match Level::claim_of(prev_climbers[m]) {
                Some(u) => {
                    if u.face == fidx {
                        assert(pface.tile_at(u.i as int, u.j as int) == face.tile_at(u.i as int,
                            u.j as int));
                    } else {
                        assert(post_faces[u.face as int] == prev_faces[u.face as int]);
                    }
                },
                None => {},
            }
        }
    }
}

/// Applies one face definition: writes its rod placements into the face
/// grid, then spawns its climbers, marking their tiles occupied and
/// pooling one fresh pylon per climber into `pool`.
#[verifier::rlimit(100)]
fn spawn_face_content(
    p: &PillarData,
    pi: usize,
    fi: usize,
    faces: &mut Vec<Face>,
    pylons: &mut Vec<Pylon>,
    climbers: &mut Vec<Climber>,
    pool: &mut Vec<usize>,
)
    requires
        pillar_data_wf(*p),
        fi < p.faces@.len(),
        old(faces)@.len() >= 4 * (pi as int) + 4,
        4 * (pi as int) + dir_index(p.faces@[fi as int].direction) < old(faces)@.len(),
        ({
            let fidx = 4 * (pi as int) + dir_index(p.faces@[fi as int].direction);
            let fd = p.faces@[fi as int];
            &&& old(faces)@[fidx].wf()
            &&& old(faces)@[fidx].direction == fd.direction
            &&& old(faces)@[fidx].size == (FaceSize { w: p.w, h: p.h })
            &&& old(faces)@[fidx].origin == origin_of(*p, fd.direction)
            &&& old(faces)@[fidx].grid() == void_grid(p.w as int, p.h as int)
        }),
        old(pylons)@.len() == old(climbers)@.len(),
        Level::claims_distinct_in(old(climbers)@),
        Level::claims_covered_in(old(faces)@, old(climbers)@),
        forall|k: int|
            0 <= k < old(climbers)@.len() ==> match Level::claim_of(#[trigger] old(climbers)@[k]) {
                Some(u) => u.face < old(faces)@.len() && u.face != 4 * (pi as int) + dir_index(
                    p.faces@[fi as int].direction),
                None => true,
            },
    ensures
        ({
            let fidx = 4 * (pi as int) + dir_index(p.faces@[fi as int].direction);
            let fd = p.faces@[fi as int];
            &&& final(faces)@.len() == old(faces)@.len()
            &&& forall|k: int|
                0 <= k < old(faces)@.len() && k != fidx ==> final(faces)@[k] == old(faces)@[k]
            &&& final(faces)@[fidx].wf()
            &&& final(faces)@[fidx].direction == old(faces)@[fidx].direction
            &&& final(faces)@[fidx].size == old(faces)@[fidx].size
            &&& final(faces)@[fidx].origin == old(faces)@[fidx].origin
            &&& final(faces)@[fidx].grid() == grid_with_climbers(grid_from_tiles(void_grid(
                p.w as int, p.h as int), fd.tiles@), fd.climbers@)
            &&& final(climbers)@ == old(climbers)@ + climbers_of_face(*p, pi as int, fd)
            &&& final(pylons)@.len() == final(climbers)@.len()
            &&& final(pylons)@.len() == old(pylons)@.len() + fd.climbers@.len()
            &&& forall|k: int| 0 <= k < old(pylons)@.len() ==> final(pylons)@[k] == old(pylons)@[k]
            &&& forall|k: int|
                old(pylons)@.len() <= k < final(pylons)@.len() ==> !(#[trigger] final(pylons)@[k]).powered
            &&& final(pool)@.len() == old(pool)@.len() + fd.climbers@.len()
            &&& forall|k: int| 0 <= k < old(pool)@.len() ==> final(pool)@[k] == old(pool)@[k]
            &&& forall|k: int|
                old(pool)@.len() <= k < final(pool)@.len() ==> (#[trigger] final(pool)@[k])
                    < final(pylons)@.len()
            &&& forall|k: int|
                old(climbers)@.len() <= k < final(climbers)@.len() ==> spawned_climber_ok(
                    final(faces)@, pi as int + 1, #[trigger] final(climbers)@[k])
            &&& Level::claims_distinct_in(final(climbers)@)
            &&& Level::claims_covered_in(final(faces)@, final(climbers)@)
        }),
{
    let fd = &p.faces[fi];
    let di = dir_index_of(&fd.direction);
    let nfaces = faces.len();
    proof {
        assert(4 * (pi as int) + 4 <= nfaces as int);
        assert(face_data_in_bounds(p.faces@[fi as int], p.w as int, p.h as int));
    }
    let fidx = 4 * pi + di;
    let mut ti: usize = 0;
    while ti < fd.tiles.len()
        invariant
            pillar_data_wf(*p),
            fi < p.faces@.len(),
            *fd == p.faces@[fi as int],
            di == dir_index(fd.direction),
            fidx == 4 * (pi as int) + di,
            fidx < faces@.len(),
            0 <= ti <= fd.tiles@.len(),
            faces@.len() == old(faces)@.len(),
            forall|k: int|
                0 <= k < old(faces)@.len() && k != fidx ==> faces@[k] == old(faces)@[k],
            faces@[fidx as int].wf(),
            faces@[fidx as int].direction == old(faces)@[fidx as int].direction,
            faces@[fidx as int].size == old(faces)@[fidx as int].size,
            faces@[fidx as int].size == (FaceSize { w: p.w, h: p.h }),
            faces@[fidx as int].origin == old(faces)@[fidx as int].origin,
            faces@[fidx as int].grid() == grid_from_tiles(void_grid(p.w as int, p.h as int),
                fd.tiles@.take(ti as int)),
            pylons@ == old(pylons)@,
            climbers@ == old(climbers)@,
            pool@ == old(pool)@,
            Level::claims_covered_in(faces@, climbers@),
            forall|m: int|
                0 <= m < climbers@.len() ==> match Level::claim_of(#[trigger] climbers@[m]) {
                    Some(u) => u.face < faces@.len() && u.face != fidx,
                    None => true,
                },
        decreases fd.tiles@.len() - ti,
    {
        let ghost prev_faces = faces@;
        let t = &fd.tiles[ti];
        let tile = match t.kind {
            TileDataType::StaticRod => TileType::StaticRod(false),
            TileDataType::MovableRod => TileType::MovableRod(false),
        };
        proof {
            assert(fd.tiles@[ti as int].i < p.w && fd.tiles@[ti as int].j < p.h);
            lemma_grid_from_tiles_take(void_grid(p.w as int, p.h as int), fd.tiles@, ti as int);
        }
        faces[fidx].set_tile_at(TilePosition { i: t.i, j: t.j }, tile);
        proof {
            // no climber claims a tile of this face yet, so the write
            // disturbs no claimed tile
            assert forall|m: int|
                0 <= m < climbers@.len() implies match Level::claim_of(#[trigger] climbers@[m]) {
                Some(u) => faces@[u.face as int].tile_at(u.i as int, u.j as int).is_occupied()
                    || !faces@[u.face as int].ground(u.i as int, u.j as int),
                None => true,
            } by {
                match Level::claim_of(climbers@[m]) {
                    Some(u) => {
                        assert(faces@[u.face as int] == prev_faces[u.face as int]);
                    },
                    None => {},
                }
            }
        }
        ti = ti + 1;
    }
    proof {
        assert(fd.tiles@.take(fd.tiles@.len() as int) =~= fd.tiles@);
    }
    let ghost tg = faces@[fidx as int].grid();
    let mut k: usize = 0;
    while k < fd.climbers.len()
        invariant
            pillar_data_wf(*p),
            fi < p.faces@.len(),
            *fd == p.faces@[fi as int],
            di == dir_index(fd.direction),
            fidx == 4 * (pi as int) + di,
            fidx < faces@.len(),
            0 <= k <= fd.climbers@.len(),
            faces@.len() == old(faces)@.len(),
            forall|m: int|
                0 <= m < old(faces)@.len() && m != fidx ==> faces@[m] == old(faces)@[m],
            faces@[fidx as int].wf(),
            faces@[fidx as int].direction == old(faces)@[fidx as int].direction,
            faces@[fidx as int].direction == fd.direction,
            faces@[fidx as int].size == old(faces)@[fidx as int].size,
            faces@[fidx as int].size == (FaceSize { w: p.w, h: p.h }),
            faces@[fidx as int].origin == old(faces)@[fidx as int].origin,
            faces@[fidx as int].origin == origin_of(*p, fd.direction),
            tg == grid_from_tiles(void_grid(p.w as int, p.h as int), fd.tiles@),
            faces@[fidx as int].grid() == grid_with_climbers(tg, fd.climbers@.take(k as int)),
            climbers@ == old(climbers)@ + climbers_of_face(*p, pi as int, p.faces@[fi as int]).take(
                k as int),
            pylons@.len() == climbers@.len(),
            pylons@.len() == old(pylons)@.len() + k,
            forall|m: int| 0 <= m < old(pylons)@.len() ==> pylons@[m] == old(pylons)@[m],
            forall|m: int|
                old(pylons)@.len() <= m < pylons@.len() ==> !(#[trigger] pylons@[m]).powered,
            pool@.len() == old(pool)@.len() + k,
            forall|m: int| 0 <= m < old(pool)@.len() ==> pool@[m] == old(pool)@[m],
            forall|m: int|
                old(pool)@.len() <= m < pool@.len() ==> (#[trigger] pool@[m]) < pylons@.len(),
            forall|m: int|
                old(climbers)@.len() <= m < climbers@.len() ==> spawned_climber_ok(faces@,
                    pi as int + 1, #[trigger] climbers@[m]),
            Level::claims_distinct_in(climbers@),
            Level::claims_covered_in(faces@, climbers@),
            forall|m: int|
                0 <= m < old(climbers)@.len() ==> match Level::claim_of(#[trigger] climbers@[m]) {
                    Some(u) => u.face < faces@.len() && u.face != fidx,
                    None => true,
                },
        decreases fd.climbers@.len() - k,
    {
        let cd = &fd.climbers[k];
        let ghost prev_faces = faces@;
        proof {
            assert(fd.climbers@[k as int].tile_i < p.w && fd.climbers@[k as int].tile_j < p.h);
            lemma_grid_with_climbers_take(tg, fd.climbers@, k as int);
            faces@[fidx as int].lemma_grid_dims();
        }
        let cp = ClimberPosition { face: fidx, i: cd.tile_i, j: cd.tile_j };
        faces[fidx].set_occupied(&cp);
        let position = faces[fidx].climber_get_pos_from_tile(&cp);
        let new_climber = Climber {
            state: ClimberState::Waiting { on_tile: cp },
            current_pillar: pi,
            position,
        };
        climbers.push(new_climber);
        let id = pylons.len();
        pylons.push(Pylon { powered: false });
        pool.push(id);
        proof {
            let cof = climbers_of_face(*p, pi as int, p.faces@[fi as int]);
            assert(cof[k as int] == new_climber);
            assert(cof.take(k as int + 1) =~= cof.take(k as int).push(new_climber));
            assert(climbers@ =~= old(climbers)@ + cof.take(k as int + 1));
            assert(spawned_climber_ok(faces@, pi as int + 1, new_climber));
            assert forall|m: int|
                old(climbers)@.len() <= m < climbers@.len() implies spawned_climber_ok(faces@,
                pi as int + 1, #[trigger] climbers@[m]) by {
                if m < climbers@.len() - 1 {
                    // geometry of every face is unchanged by the
                    // occupancy rewrite
                    assert(spawned_climber_ok(prev_faces, pi as int + 1, climbers@[m]));
                }
            }
            // the new claim is fresh: earlier arrivals claim other
            // faces, this face's own spawns sit on distinct tiles
            let prev_climbers = old(climbers)@ + cof.take(k as int);
            assert(climbers@ =~= prev_climbers.push(new_climber));
            assert forall|m: int|
                old(climbers)@.len() as int <= m < prev_climbers.len() implies match Level::claim_of(
                #[trigger] prev_climbers[m]) {
                Some(u) => u.face == fidx as int && u.i < p.w && u.j < p.h && !(u.i == cp.i && u.j
                    == cp.j),
                None => true,
            } by {
                let mm = m - old(climbers)@.len();
                assert(prev_climbers[m] == cof[mm]);
                assert(fd.climbers@[mm].tile_i != fd.climbers@[k as int].tile_i
                    || fd.climbers@[mm].tile_j != fd.climbers@[k as int].tile_j);
            }
            lemma_spawn_claims_step(prev_faces, faces@, prev_climbers, new_climber,
                old(climbers)@.len() as int, fidx as int, cp);
        }
        k = k + 1;
    }
    proof {
        let cof = climbers_of_face(*p, pi as int, p.faces@[fi as int]);
        assert(cof.take(fd.climbers@.len() as int) =~= cof);
        assert(fd.climbers@.take(fd.climbers@.len() as int) =~= fd.climbers@);
    }
}

/// Builds one pillar: its four faces (in the fixed direction order, with
/// all-`Void` grids for directions the definition omits), its climbers
/// and its per-direction pools of fresh pylons, one per climber.
#[verifier::rlimit(100)]
fn spawn_pillar(
    p: &PillarData,
    pi: usize,
    faces: &mut Vec<Face>,
    pylons: &mut Vec<Pylon>,
    climbers: &mut Vec<Climber>,
) -> (pillar: Pillar)
    requires
        pillar_data_wf(*p),
        old(faces)@.len() == 4 * (pi as int),
        old(pylons)@.len() == old(climbers)@.len(),
        Level::claims_distinct_in(old(climbers)@),
        Level::claims_covered_in(old(faces)@, old(climbers)@),
        forall|k: int|
            0 <= k < old(climbers)@.len() ==> match Level::claim_of(#[trigger] old(climbers)@[k]) {
                Some(u) => u.face < old(faces)@.len(),
                None => true,
            },
    ensures
        final(faces)@.len() == 4 * (pi as int) + 4,
        forall|k: int| 0 <= k < 4 * (pi as int) ==> final(faces)@[k] == old(faces)@[k],
        forall|k: int|
            4 * (pi as int) <= k < 4 * (pi as int) + 4 ==> {
                let d = dir_of_index(k - 4 * (pi as int));
                &&& (#[trigger] final(faces)@[k]).wf()
                &&& final(faces)@[k].direction == d
                &&& final(faces)@[k].size == (FaceSize { w: p.w, h: p.h })
                &&& final(faces)@[k].origin == origin_of(*p, d)
                &&& final(faces)@[k].grid() == face_grid_from(p.faces@, p.w as int, p.h as int, d)
            },
        final(climbers)@ == old(climbers)@ + climbers_of_faces(*p, pi as int, p.faces@),
        final(pylons)@.len() == final(climbers)@.len(),
        forall|k: int| 0 <= k < old(pylons)@.len() ==> final(pylons)@[k] == old(pylons)@[k],
        forall|k: int|
            old(pylons)@.len() <= k < final(pylons)@.len() ==> !(#[trigger] final(pylons)@[k]).powered,
        forall|d: FaceDirection| #[trigger] pillar.unpowered_pylons.pool(d).len()
            == face_climbers_count(*p, d),
        pillar.unpowered_pylons.all_below(final(pylons)@.len() as int),
        pillar.unpowered_pylons.total() == sum_face_climbers(p.faces@),
        forall|k: int|
            old(climbers)@.len() <= k < final(climbers)@.len() ==> spawned_climber_ok(
                final(faces)@, pi as int + 1, #[trigger] final(climbers)@[k]),
        Level::claims_distinct_in(final(climbers)@),
        Level::claims_covered_in(final(faces)@, final(climbers)@),
        forall|k: int|
            0 <= k < final(climbers)@.len() ==> match Level::claim_of(
                #[trigger] final(climbers)@[k]) {
                Some(u) => u.face < final(faces)@.len(),
                None => true,
            },
    decreases 0int,
{
    faces.push(make_face(p, FaceDirection::West));
    faces.push(make_face(p, FaceDirection::North));
    faces.push(make_face(p, FaceDirection::East));
    faces.push(make_face(p, FaceDirection::South));
    proof {
        // the claims of earlier pillars sit on the untouched prefix
        assert forall|k: int|
            0 <= k < climbers@.len() implies match Level::claim_of(#[trigger] climbers@[k]) {
            Some(u) => faces@[u.face as int].tile_at(u.i as int, u.j as int).is_occupied()
                || !faces@[u.face as int].ground(u.i as int, u.j as int),
            None => true,
        } by {
            match Level::claim_of(climbers@[k]) {
                Some(u) => {
                    assert(faces@[u.face as int] == old(faces)@[u.face as int]);
                },
                None => {},
            }
        }
    }
    let mut pools = PylonPools {
        west: Vec::new(),
        north: Vec::new(),
        east: Vec::new(),
        south: Vec::new(),
    };
    let mut fi: usize = 0;
    while fi < p.faces.len()
        invariant
            pillar_data_wf(*p),
            0 <= fi <= p.faces@.len(),
            old(faces)@.len() == 4 * (pi as int),
            old(pylons)@.len() == old(climbers)@.len(),
            faces@.len() == 4 * (pi as int) + 4,
            forall|k: int| 0 <= k < 4 * (pi as int) ==> faces@[k] == old(faces)@[k],
            forall|k: int|
                4 * (pi as int) <= k < 4 * (pi as int) + 4 ==> {
                    let d = dir_of_index(k - 4 * (pi as int));
                    &&& (#[trigger] faces@[k]).wf()
                    &&& faces@[k].direction == d
                    &&& faces@[k].size == (FaceSize { w: p.w, h: p.h })
                    &&& faces@[k].origin == origin_of(*p, d)
                    &&& faces@[k].grid() == face_grid_from(p.faces@.take(fi as int), p.w as int,
                        p.h as int, d)
                },
            climbers@ == old(climbers)@ + climbers_of_faces(*p, pi as int, p.faces@.take(
                fi as int)),
            pylons@.len() == climbers@.len(),
            forall|k: int| 0 <= k < old(pylons)@.len() ==> pylons@[k] == old(pylons)@[k],
            forall|k: int|
                old(pylons)@.len() <= k < pylons@.len() ==> !(#[trigger] pylons@[k]).powered,
            forall|d: FaceDirection| #[trigger] pools.pool(d).len() == face_climbers_count_in(
                p.faces@.take(fi as int), d),
            pools.all_below(pylons@.len() as int),
            forall|k: int|
                old(climbers)@.len() <= k < climbers@.len() ==> spawned_climber_ok(faces@,
                    pi as int + 1, #[trigger] climbers@[k]),
            Level::claims_distinct_in(climbers@),
            Level::claims_covered_in(faces@, climbers@),
            forall|k: int|
                0 <= k < old(climbers)@.len() ==> match Level::claim_of(#[trigger] climbers@[k]) {
                    Some(u) => u.face < 4 * (pi as int),
                    None => true,
                },
            forall|k: int|
                old(climbers)@.len() <= k < climbers@.len() ==> match Level::claim_of(
                    #[trigger] climbers@[k]) {
                    Some(u) => exists|m: int|
                        0 <= m < fi && u.face == 4 * (pi as int) + dir_index((
                        #[trigger] p.faces@[m]).direction),
                    None => true,
                },
        decreases p.faces@.len() - fi,
    {
        let ghost pre_pools = pools;
        let ghost pre_pylons_len = pylons@.len();
        let ghost pre_faces = faces@;
        let ghost pre_climbers = climbers@;
        let di = dir_index_of(&p.faces[fi].direction);
        let nfaces = faces.len();
        proof {
            assert(4 * (pi as int) + 4 == nfaces as int);
        }
        let fidx = 4 * pi + di;
        proof {
            let fd = p.faces@[fi as int];
            // this face's direction was not among the earlier ones
            assert forall|a: int| 0 <= a < fi implies (#[trigger] p.faces@.take(
                fi as int)[a]).direction != fd.direction by {
                assert(p.faces@[a].direction != p.faces@[fi as int].direction);
            }
            lemma_find_face_absent(p.faces@.take(fi as int), fd.direction, fi as int);
            assert(p.faces@.take(fi as int).take(fi as int) =~= p.faces@.take(fi as int));
            assert(face_climbers_count_in(p.faces@.take(fi as int), fd.direction) == 0);
            assert(faces@[fidx as int].grid() == void_grid(p.w as int, p.h as int));
            // every existing claim sits on another face than this one
            assert forall|k: int|
                0 <= k < climbers@.len() implies match Level::claim_of(#[trigger] climbers@[k]) {
                Some(u) => u.face < faces@.len() && u.face != 4 * (pi as int) + dir_index(
                    fd.direction),
                None => true,
            } by {
                match Level::claim_of(climbers@[k]) {
                    Some(u) => {
                        if k >= old(climbers)@.len() {
                            let m = choose|m: int|
                                0 <= m < fi && u.face == 4 * (pi as int) + dir_index((
                                #[trigger] p.faces@[m]).direction);
                            assert(p.faces@[m].direction != p.faces@[fi as int].direction);
                            if dir_index(p.faces@[m].direction) == dir_index(fd.direction) {
                                lemma_dir_index_injective(p.faces@[m].direction, fd.direction);
                            }
                        }
                    },
                    None => {},
                }
            }
        }
        match &p.faces[fi].direction {
            FaceDirection::West => spawn_face_content(p, pi, fi, faces, pylons, climbers,
                &mut pools.west),
            FaceDirection::North => spawn_face_content(p, pi, fi, faces, pylons, climbers,
                &mut pools.north),
            FaceDirection::East => spawn_face_content(p, pi, fi, faces, pylons, climbers,
                &mut pools.east),
            FaceDirection::South => spawn_face_content(p, pi, fi, faces, pylons, climbers,
                &mut pools.south),
        }
        proof {
            let fd = p.faces@[fi as int];
            lemma_climbers_of_faces_take(*p, pi as int, p.faces@, fi as int);
            lemma_find_face_take(p.faces@, fd.direction, fi as int);
            assert(find_face(p.faces@.take(fi as int + 1), fd.direction) == Some(fd));
            assert(faces@[fidx as int].grid() == face_grid_from(p.faces@.take(fi as int + 1),
                p.w as int, p.h as int, fd.direction));
            assert forall|d: FaceDirection| true implies #[trigger] pools.pool(d).len()
                == face_climbers_count_in(p.faces@.take(fi as int + 1), d) by {
                lemma_find_face_take(p.faces@, d, fi as int);
                if d == fd.direction {
                    assert(face_climbers_count_in(p.faces@.take(fi as int + 1), d)
                        == fd.climbers@.len());
                    assert(pre_pools.pool(d).len() == 0);
                    assert(pools.pool(d).len() == pre_pools.pool(d).len() + fd.climbers@.len());
                } else {
                    assert(pools.pool(d) == pre_pools.pool(d));
                    assert(face_climbers_count_in(p.faces@.take(fi as int + 1), d)
                        == face_climbers_count_in(p.faces@.take(fi as int), d));
                }
            }
            assert forall|k: int|
                4 * (pi as int) <= k < 4 * (pi as int) + 4 && k != fidx implies (
            #[trigger] faces@[k]).grid() == face_grid_from(p.faces@.take(fi as int + 1),
                p.w as int, p.h as int, dir_of_index(k - 4 * (pi as int))) by {
                lemma_find_face_take(p.faces@, dir_of_index(k - 4 * (pi as int)), fi as int);
            }
            assert forall|k: int|
                old(climbers)@.len() <= k < climbers@.len() implies spawned_climber_ok(faces@,
                pi as int + 1, #[trigger] climbers@[k]) by {
                if k < pre_climbers.len() {
                    assert(climbers@[k] == pre_climbers[k]);
                    assert(spawned_climber_ok(pre_faces, pi as int + 1, pre_climbers[k]));
                }
            }
            assert forall|k: int|
                0 <= k < old(climbers)@.len() implies match Level::claim_of(
                #[trigger] climbers@[k]) {
                Some(u) => u.face < 4 * (pi as int),
                None => true,
            } by {
                assert(climbers@[k] == pre_climbers[k]);
            }
            assert forall|k: int|
                old(climbers)@.len() <= k < climbers@.len() implies match Level::claim_of(
                #[trigger] climbers@[k]) {
                Some(u) => exists|m: int|
                    0 <= m < fi + 1 && u.face == 4 * (pi as int) + dir_index((
                    #[trigger] p.faces@[m]).direction),
                None => true,
            } by {
                if k < pre_climbers.len() {
                    assert(climbers@[k] == pre_climbers[k]);
                    match Level::claim_of(pre_climbers[k]) {
                        Some(u) => {
                            let m = choose|m: int|
                                0 <= m < fi && u.face == 4 * (pi as int) + dir_index((
                                #[trigger] p.faces@[m]).direction);
                            assert(0 <= m < fi + 1 && u.face == 4 * (pi as int) + dir_index(
                                p.faces@[m].direction));
                        },
                        None => {},
                    }
                } else {
                    let cof = climbers_of_face(*p, pi as int, fd);
                    assert(climbers@[k] == cof[k - pre_climbers.len()]);
                    assert(Level::claim_of(climbers@[k])->Some_0.face as int == 4 * (pi as int)
                        + dir_index(p.faces@[fi as int].direction));
                }
            }
        }
        fi = fi + 1;
    }
    proof {
        assert(p.faces@.take(p.faces@.len() as int) =~= p.faces@);
        // the pool total counts every climber of this pillar
        lemma_pools_total_is_sum(*p, pools);
        assert forall|k: int|
            0 <= k < climbers@.len() implies match Level::claim_of(#[trigger] climbers@[k]) {
            Some(u) => u.face < faces@.len(),
            None => true,
        } by {
            match Level::claim_of(climbers@[k]) {
                Some(u) => {
                    if k >= old(climbers)@.len() {
                        let m = choose|m: int|
                            0 <= m < p.faces@.len() && u.face == 4 * (pi as int) + dir_index((
                            #[trigger] p.faces@[m]).direction);
                    }
                },
                None => {},
            }
        }
    }
    Pillar { unpowered_pylons: pools }
}

/// The per-direction pool sizes of one pillar sum to its climber count,
/// because each face definition has one direction and directions are
/// distinct.
proof fn lemma_pools_total_is_sum(p: PillarData, pools: PylonPools)
    requires
        pillar_data_wf(p),
        forall|d: FaceDirection| #[trigger] pools.pool(d).len() == face_climbers_count(p, d),
    ensures
        pools.total() == sum_face_climbers(p.faces@),
{
    lemma_counts_sum(p.faces@);
    assert(pools.pool(FaceDirection::West).len() == face_climbers_count_in(p.faces@,
        FaceDirection::West));
    assert(pools.pool(FaceDirection::North).len() == face_climbers_count_in(p.faces@,
        FaceDirection::North));
    assert(pools.pool(FaceDirection::East).len() == face_climbers_count_in(p.faces@,
        FaceDirection::East));
    assert(pools.pool(FaceDirection::South).len() == face_climbers_count_in(p.faces@,
        FaceDirection::South));
}

/// For face definitions with pairwise distinct directions, the four
/// per-direction climber counts sum to the total climber count.
proof fn lemma_counts_sum(fs: Seq<FaceData>)
    requires
        forall|a: int, b: int|
            0 <= a < b < fs.len() ==> (#[trigger] fs[a]).direction != (#[trigger] fs[b]).direction,
    ensures
        face_climbers_count_in(fs, FaceDirection::West) + face_climbers_count_in(fs,
            FaceDirection::North) + face_climbers_count_in(fs, FaceDirection::East)
            + face_climbers_count_in(fs, FaceDirection::South) == sum_face_climbers(fs),
    decreases fs.len(),
{
    if fs.len() > 0 {
        lemma_counts_sum(fs.drop_last());
        let last = fs.last();
        assert forall|d: FaceDirection| d != last.direction implies face_climbers_count_in(fs, d)
            == face_climbers_count_in(fs.drop_last(), d) by {}
        assert(face_climbers_count_in(fs, last.direction) == last.climbers@.len());
        assert(find_face(fs.drop_last(), last.direction) is None) by {
            assert forall|a: int| 0 <= a < fs.len() - 1 implies (#[trigger] fs[a]).direction
                != last.direction by {
                assert(fs[a].direction != fs[fs.len() - 1].direction);
            }
            assert(fs.drop_last() =~= fs.take(fs.len() - 1));
            lemma_find_face_absent(fs, last.direction, fs.len() - 1);
        }
    }
}

/// Builds the running level a definition describes: four faces per
/// pillar (in the fixed direction order west, north, east, south, with
/// all-`Void` grids for directions the definition omits), the climbers
/// waiting on their spawn tiles with those tiles marked occupied, one
/// unpowered pylon pooled per climber under its face's direction, one
/// movable rod per movable-rod cell, a zeroed win tracker, and the
/// `Playing` phase.
#[verifier::rlimit(100)]
pub fn spawn_level(data: &LevelData) -> (l: Level)
    requires
        level_data_wf(*data),
    ensures
        l.wf(),
        l.phase == GameState::Playing,
        l.completion.powered_pylons_count == 0,
        l.completion.pylons_count == sum_pillar_climbers(data.pillars@),
        l.pillars@.len() == data.pillars@.len(),
        l.faces@.len() == 4 * data.pillars@.len(),
        forall|k: int| 0 <= k < l.faces@.len() ==> built_face_full(data.pillars@, l.faces@, k),
        l.climbers@ == climbers_of_pillars(data.pillars@),
        l.pylons@.len() == sum_pillar_climbers(data.pillars@),
        forall|k: int| 0 <= k < l.pylons@.len() ==> !(#[trigger] l.pylons@[k]).powered,
        forall|k: int, d: FaceDirection|
            0 <= k < l.pillars@.len() ==> (#[trigger] l.pillars@[k].unpowered_pylons.pool(
                d,
            )).len() == face_climbers_count(data.pillars@[k], d),
        forall|r: int| 0 <= r < l.rods@.len() ==> scanned_rod_ok(l.faces@, #[trigger] l.rods@[r]),
        forall|f: int, x: int, y: int|
            0 <= f < l.faces@.len() && 0 <= x < l.faces@[f].size.w && 0 <= y < l.faces@[f].size.h
                && movable_cell(l.faces@, f, x, y) ==> has_rod_at(l.rods@, f, x, y),
        l.claims_distinct(),
        l.claims_covered(),
{
    let ghost ps = data.pillars@;
    let mut faces: Vec<Face> = Vec::new();
    let mut pillars: Vec<Pillar> = Vec::new();
    let mut pylons: Vec<Pylon> = Vec::new();
    let mut climbers: Vec<Climber> = Vec::new();
    let mut pi: usize = 0;
    while pi < data.pillars.len()
        invariant
            level_data_wf(*data),
            ps == data.pillars@,
            0 <= pi <= ps.len(),
            faces@.len() == 4 * (pi as int),
            pillars@.len() == pi,
            forall|k: int| 0 <= k < faces@.len() ==> built_face_full(ps, faces@, k),
            climbers@ == climbers_of_pillars(ps.take(pi as int)),
            pylons@.len() == climbers@.len(),
            forall|k: int| 0 <= k < pylons@.len() ==> !(#[trigger] pylons@[k]).powered,
            Level::pooled_pylons(pillars@) == pylons@.len(),
            forall|k: int, d: FaceDirection|
                0 <= k < pi ==> (#[trigger] pillars@[k].unpowered_pylons.pool(d)).len()
                    == face_climbers_count(ps[k], d),
            forall|k: int|
                0 <= k < pi ==> (#[trigger] pillars@[k]).unpowered_pylons.all_below(
                    pylons@.len() as int),
            spawned_climbers_ok(faces@, ps.len() as int, climbers@),
            Level::claims_distinct_in(climbers@),
            Level::claims_covered_in(faces@, climbers@),
        decreases ps.len() - pi,
    {
        let ghost faces0 = faces@;
        let ghost pylons0_len = pylons@.len();
        let p = &data.pillars[pi];
        proof {
            assert(pillar_data_wf(ps[pi as int]));
            // claims of already spawned climbers sit on built faces
            assert forall|k: int|
                0 <= k < climbers@.len() implies match Level::claim_of(#[trigger] climbers@[k]) {
                Some(u) => u.face < faces@.len(),
                None => true,
            } by {
                assert(spawned_climber_ok(faces@, ps.len() as int, climbers@[k]));
            }
        }
        let pillar = spawn_pillar(p, pi, &mut faces, &mut pylons, &mut climbers);
        proof {
            lemma_climbers_of_pillars_take(ps, pi as int);
            lemma_climbers_of_faces_len(ps[pi as int], pi as int, ps[pi as int].faces@);
            // the four new faces complete their pillar's block
            assert forall|k: int| 0 <= k < faces@.len() implies built_face_full(ps, faces@,
                k) by {
                if k < 4 * (pi as int) {
                    assert(faces@[k] == faces0[k]);
                    assert(built_face_full(ps, faces0, k));
                } else {
                    lemma_block_decomp(k, pi as int);
                }
            }
            // earlier climbers keep their invariant under the arena growth
            lemma_spawned_climbers_same_geometry(faces0, faces@, ps.len() as int,
                ps.len() as int, climbers_of_pillars(ps.take(pi as int)));
            assert forall|k: int| 0 <= k < climbers@.len() implies spawned_climber_ok(faces@,
                ps.len() as int, #[trigger] climbers@[k]) by {
                let older = climbers_of_pillars(ps.take(pi as int));
                if k < older.len() {
                    assert(climbers@[k] == older[k]);
                } else {
                    let fresh = climbers_of_faces(ps[pi as int], pi as int, ps[pi as int].faces@);
                    assert(climbers@[k] == fresh[k - older.len()]);
                    assert(spawned_climber_ok(faces@, pi as int + 1, fresh[k - older.len()]));
                }
            }
        }
        let ghost pillars0 = pillars@;
        pillars.push(pillar);
        proof {
            assert(pillars@.drop_last() =~= pillars0);
            assert(pillars@.last() == pillar);
        }
        pi = pi + 1;
    }
    proof {
        assert(ps.take(ps.len() as int) =~= ps);
        lemma_climbers_of_pillars_len(ps);
    }
    proof {
        assert(faces@.len() % 4 == 0) by (nonlinear_arith)
            requires faces@.len() == 4 * ps.len();
        assert forall|k: int| 0 <= k < faces@.len() implies (#[trigger] faces@[k]).wf() && faces@[k].direction
            == dir_of_index(k % 4) by {
            assert(built_face_full(ps, faces@, k));
        }
        assert forall|a: int, b: int|
            0 <= a < faces@.len() && 0 <= b < faces@.len() && a / 4 == b / 4 implies (
        #[trigger] faces@[a]).size == (#[trigger] faces@[b]).size by {
            assert(built_face_full(ps, faces@, a));
            assert(built_face_full(ps, faces@, b));
        }
    }
    let rods = scan_rods(&faces);
    let count = climbers.len();
    proof {
        assert(count as int == sum_pillar_climbers(ps));
        assert(count <= 255);
    }
    let completion = LevelCompletion { pylons_count: count as u8, powered_pylons_count: 0 };
    let l = Level { faces, pillars, rods, pylons, climbers, completion, phase: GameState::Playing };
    proof {
        assert forall|k: int| 0 <= k < l.faces@.len() implies (#[trigger] l.faces@[k]).wf() by {
            assert(built_face_full(ps, l.faces@, k));
        }
        assert(l.faces_wf());
        assert forall|k: int| 0 <= k < l.climbers@.len() implies l.climber_wf(
            #[trigger] l.climbers@[k],
        ) by {
            assert(spawned_climber_ok(l.faces@, ps.len() as int, l.climbers@[k]));
        }
        assert forall|k: int| 0 <= k < l.rods@.len() implies l.rod_wf(#[trigger] l.rods@[k]) by {
            let rod = l.rods@[k];
            assert(scanned_rod_ok(l.faces@, rod));
            lemma_opposite_index_props(rod.face as int);
        }
        assert forall|a: int, b: int|
            0 <= a < l.rods@.len() && 0 <= b < l.rods@.len() && a != b implies
            Level::rods_independent(#[trigger] l.rods@[a], #[trigger] l.rods@[b]) by {
            let ra = l.rods@[a];
            let rb = l.rods@[b];
            assert(scanned_rod_ok(l.faces@, ra));
            assert(scanned_rod_ok(l.faces@, rb));
            if ra.position == rb.position {
                lemma_opposite_index_props(ra.face as int);
                lemma_opposite_index_props(rb.face as int);
                // distinct scan cells, complementary mirrored cells and
                // the involution exclude every face collision
                assert(ra.face != rb.face);
                if ra.face == rb.opposite_face {
                    assert(l.faces@[ra.face as int].tile_at(ra.position.i as int,
                        ra.position.j as int) == TileType::Void);
                    assert(false);
                }
                if ra.opposite_face == rb.face {
                    assert(l.faces@[rb.face as int].tile_at(rb.position.i as int,
                        rb.position.j as int) == TileType::Void);
                    assert(false);
                }
                if ra.opposite_face == rb.opposite_face {
                    assert(ra.face == rb.face);
                    assert(false);
                }
            }
        }
        assert(l.completion.powered_pylons_count + Level::pooled_pylons(l.pillars@)
            == l.completion.pylons_count);
    }
    l
}

} // verus!
