//! The running level: the arena of faces, rods, climbers, pylons and the
//! win tracker, with the tick-driven transition logic.
//!
//! The simulation is single-threaded and tick-driven. Rod activations are
//! processed before climber advancement within a tick, so a rod removed
//! this tick is already reflected in the grid a climber queries the same
//! tick. Motion completion is reported by the presentation layer as a
//! boolean and polled here, never awaited.

use vstd::prelude::*;

verus! {

use crate::climber::{Climber, ClimberEvent, ClimberPosition, ClimberState};
use crate::data::{FaceDirection, LevelData};
use crate::face::{Face, Position};
use crate::pillar::Pillar;
use crate::rod::MovableRod;
use crate::{GameState, Pylon, TileType};

/// A logic-level invariant violation reported by the simulation.
#[derive(Clone, Copy, Debug, PartialEq, Eq, Structural)]
pub enum SimError {
    /// A climber reached the top of a pillar that has no unpowered pylon
    /// left: the level data supplied fewer pylons than climbers.
    PylonsExhausted,
}

/// Game-flow requests raised by the surrounding application.
#[derive(Clone, Copy, Debug, PartialEq, Eq, Structural)]
pub enum LevelEvent {
    Reload,
    LoadNext,
}

/// Process-wide win tracker of the active level: total pylons versus
/// powered pylons.
#[derive(Clone, Copy, Debug, PartialEq, Eq, Structural)]
pub struct LevelCompletion {
    pub pylons_count: u8,
    pub powered_pylons_count: u8,
}

impl LevelCompletion {
    /// The level is won exactly when every pylon is powered.
    pub open spec fn spec_is_won(&self) -> bool {
        self.powered_pylons_count >= self.pylons_count
    }

    /// Returns whether every pylon is powered.
    pub fn is_won(&self) -> (r: bool)
        ensures
            r == self.spec_is_won(),
    {
        self.powered_pylons_count >= self.pylons_count
    }
}

/// The display name of a running level, taken from its definition.
pub struct LevelName(pub String);

/// The rotation of levels the game cycles through.
pub struct GameLevels {
    pub current_level_idx: usize,
    pub levels: Vec<LevelData>,
}

impl GameLevels {
    /// Starts the rotation at its first level.
    pub fn new(levels: Vec<LevelData>) -> (r: GameLevels)
        requires
            levels@.len() > 0,
        ensures
            r.current_level_idx == 0,
            r.levels == levels,
    {
        GameLevels { current_level_idx: 0, levels }
    }

    /// Steps to the next level, wrapping around after the last.
    pub fn advance_level(&mut self)
        requires
            old(self).current_level_idx < old(self).levels@.len(),
        ensures
            final(self).levels == old(self).levels,
            final(self).current_level_idx == (old(self).current_level_idx + 1) as int % (old(
                self,
            ).levels@.len() as int),
            final(self).current_level_idx < final(self).levels@.len(),
    {
        let n = self.levels.len();
        self.current_level_idx = (self.current_level_idx + 1) % n;
    }

    /// The definition of the level the rotation currently points at.
    pub fn get_current_level_data(&self) -> (r: &LevelData)
        requires
            self.current_level_idx < self.levels@.len(),
        ensures
            *r == self.levels@[self.current_level_idx as int],
    {
        &self.levels[self.current_level_idx]
    }
}

/// A running level: arenas of faces, pillars, rods, pylons and climbers,
/// cross-referenced by index, plus the win tracker and the game phase.
pub struct Level {
    pub faces: Vec<Face>,
    pub pillars: Vec<Pillar>,
    pub rods: Vec<MovableRod>,
    pub pylons: Vec<Pylon>,
    pub climbers: Vec<Climber>,
    pub completion: LevelCompletion,
    pub phase: GameState,
}

impl Level {
    /// One movable rod's references and mirrored cells are consistent:
    /// the rod's side holds `MovableRod`, the opposite side holds `Void`
    /// at the same coordinate, on two distinct faces of equal size.
    pub open spec fn rod_wf(&self, r: MovableRod) -> bool {
        &&& r.face < self.faces@.len()
        &&& r.opposite_face < self.faces@.len()
        &&& r.face != r.opposite_face
        &&& self.faces@[r.face as int].size == self.faces@[r.opposite_face as int].size
        &&& self.faces@[r.face as int].spec_is_valid(r.position.i as int, r.position.j as int)
        &&& self.faces@[r.face as int].tile_at(r.position.i as int, r.position.j as int) matches
            crate::TileType::MovableRod(_)
        &&& self.faces@[r.opposite_face as int].tile_at(r.position.i as int, r.position.j as int)
            == crate::TileType::Void
    }

    /// Two distinct movable rods never share a mirrored cell: when their
    /// coordinates coincide, their face pairs are disjoint.
    pub open spec fn rods_independent(a: MovableRod, b: MovableRod) -> bool {
        a.position == b.position ==> a.face != b.face && a.face != b.opposite_face
            && a.opposite_face != b.face && a.opposite_face != b.opposite_face
    }

    /// One climber's cross-references and tracked tile are consistent.
    /// A tracked tile always lies inside its face's grid; while falling
    /// only the face reference remains.
    pub open spec fn climber_wf(&self, c: Climber) -> bool {
        &&& c.current_pillar < self.pillars@.len()
        &&& match c.state {
            ClimberState::Waiting { on_tile } => {
                &&& on_tile.face < self.faces@.len()
                &&& self.faces@[on_tile.face as int].spec_is_valid(on_tile.i as int,
                    on_tile.j as int)
                &&& c.position == self.faces@[on_tile.face as int].spec_pos_from_tile(
                    on_tile.i as int, on_tile.j as int)
            },
            ClimberState::Moving { to_tile } => {
                &&& to_tile.face < self.faces@.len()
                &&& self.faces@[to_tile.face as int].spec_is_valid(to_tile.i as int,
                    to_tile.j as int)
            },
            ClimberState::Falling { on_face } => {
                &&& on_face < self.faces@.len()
                &&& -3 * crate::face::MAX_WORLD_COORD <= c.position.x <= 3
                    * crate::face::MAX_WORLD_COORD
                &&& -3 * crate::face::MAX_WORLD_COORD <= c.position.y <= 3
                    * crate::face::MAX_WORLD_COORD
                &&& -3 * crate::face::MAX_WORLD_COORD <= c.position.z <= 3
                    * crate::face::MAX_WORLD_COORD
            },
            ClimberState::Saved => true,
            ClimberState::Dead => true,
        }
    }

    /// Number of unpowered pylons still pooled across all pillars.
    pub open spec fn pooled_pylons(pillars: Seq<Pillar>) -> int
        decreases pillars.len(),
    {
        if pillars.len() == 0 {
            0
        } else {
            Self::pooled_pylons(pillars.drop_last()) + pillars.last().unpowered_pylons.total()
        }
    }

    /// Every face's grid has its declared dimensions.
    pub open spec fn faces_wf(&self) -> bool {
        forall|k: int| 0 <= k < self.faces@.len() ==> (#[trigger] self.faces@[k]).wf()
    }

    /// Every rod's mirrored cells are complementary, and rods never
    /// share a mirrored cell.
    pub open spec fn rods_wf(&self) -> bool {
        &&& forall|k: int| 0 <= k < self.rods@.len() ==> self.rod_wf(#[trigger] self.rods@[k])
        &&& forall|a: int, b: int|
            0 <= a < self.rods@.len() && 0 <= b < self.rods@.len() && a != b
                ==> Self::rods_independent(#[trigger] self.rods@[a], #[trigger] self.rods@[b])
    }

    /// Every climber's references and tracked tile are consistent.
    pub open spec fn climbers_wf(&self) -> bool {
        forall|k: int|
            0 <= k < self.climbers@.len() ==> self.climber_wf(#[trigger] self.climbers@[k])
    }

    /// The tile a climber currently claims: the tile it rests on while
    /// waiting, or the tile it is relocating to while moving. Falling,
    /// saved and dead climbers claim no tile.
    pub open spec fn claim_of(c: Climber) -> Option<ClimberPosition> {
        match c.state {
            ClimberState::Waiting { on_tile } => Some(on_tile),
            ClimberState::Moving { to_tile } => Some(to_tile),
            ClimberState::Falling { on_face } => None,
            ClimberState::Saved => None,
            ClimberState::Dead => None,
        }
    }

    /// No two climbers of the list claim the same tile.
    pub open spec fn claims_distinct_in(cs: Seq<Climber>) -> bool {
        forall|a: int, b: int|
            0 <= a < cs.len() && 0 <= b < cs.len() && a != b ==> match (Self::claim_of(
                #[trigger] cs[a]), Self::claim_of(#[trigger] cs[b])) {
                (Some(t), Some(u)) => t != u,
                _ => true,
            }
    }

    /// Every tile claimed by a climber of the list is unavailable to the
    /// search policy on the given faces: it either carries the
    /// climber-occupancy flag or offers no ground at all.
    pub open spec fn claims_covered_in(faces: Seq<Face>, cs: Seq<Climber>) -> bool {
        forall|k: int|
            0 <= k < cs.len() ==> match Self::claim_of(#[trigger] cs[k]) {
                Some(t) => faces[t.face as int].tile_at(t.i as int, t.j as int).is_occupied()
                    || !faces[t.face as int].ground(t.i as int, t.j as int),
                None => true,
            }
    }

    /// A tile holds at most one climber: two distinct climbers never
    /// claim the same tile.
    pub open spec fn claims_distinct(&self) -> bool {
        Self::claims_distinct_in(self.climbers@)
    }

    /// Every claimed tile is unavailable to the search policy: it either
    /// carries the climber-occupancy flag or offers no ground at all
    /// (the rod beneath a waiting climber was toggled away).
    pub open spec fn claims_covered(&self) -> bool {
        Self::claims_covered_in(self.faces@, self.climbers@)
    }

    /// Pylon accounting: pooled indices are in range, the pylon count is
    /// the arena size, and every pylon is either still pooled or already
    /// counted as powered.
    pub open spec fn pylons_wf(&self) -> bool {
        &&& forall|k: int|
            0 <= k < self.pillars@.len() ==> (#[trigger] self.pillars@[k]).unpowered_pylons.all_below(
                self.pylons@.len() as int)
        &&& self.completion.pylons_count == self.pylons@.len()
        &&& self.completion.powered_pylons_count + Self::pooled_pylons(self.pillars@)
            == self.completion.pylons_count
    }

    /// The phase is coherent with the win tracker: the level is in the
    /// `Won` phase only when every pylon is powered.
    pub open spec fn phase_wf(&self) -> bool {
        self.phase == GameState::Won ==> self.completion.spec_is_won()
    }

    /// Well-formedness of the whole level. Established by level
    /// construction and preserved by every transition.
    pub open spec fn wf(&self) -> bool {
        &&& self.faces_wf()
        &&& self.rods_wf()
        &&& self.climbers_wf()
        &&& self.pylons_wf()
        &&& self.phase_wf()
    }

    /// The powered count never exceeds the pylon count: pooled pylons
    /// are never negative, and every powered pylon left some pool.
    pub proof fn lemma_powered_at_most_total(&self)
        requires
            self.wf(),
        ensures
            self.completion.powered_pylons_count <= self.completion.pylons_count,
    {
        Self::lemma_pooled_pylons_nonneg(self.pillars@);
    }

    /// The pooled-pylon count of any pillar list is non-negative.
    pub proof fn lemma_pooled_pylons_nonneg(pillars: Seq<Pillar>)
        ensures
            Self::pooled_pylons(pillars) >= 0,
        decreases pillars.len(),
    {
        if pillars.len() > 0 {
            Self::lemma_pooled_pylons_nonneg(pillars.drop_last());
        }
    }

    /// Replacing one pillar changes the pooled count by the difference
    /// of that pillar's pool totals.
    pub proof fn lemma_pooled_pylons_update(pillars: Seq<Pillar>, k: int, np: Pillar)
        requires
            0 <= k < pillars.len(),
        ensures
            Self::pooled_pylons(pillars.update(k, np)) == Self::pooled_pylons(pillars)
                - pillars[k].unpowered_pylons.total() + np.unpowered_pylons.total(),
        decreases pillars.len(),
    {
        if k == pillars.len() - 1 {
            assert(pillars.update(k, np).drop_last() =~= pillars.drop_last());
            assert(pillars.update(k, np).last() == np);
        } else {
            assert(pillars.update(k, np).drop_last() =~= pillars.drop_last().update(k, np));
            assert(pillars.update(k, np).last() == pillars.last());
            Self::lemma_pooled_pylons_update(pillars.drop_last(), k, np);
            assert(pillars.drop_last()[k] == pillars[k]);
        }
    }

    /// The pooled count covers each single pillar's pool total.
    pub proof fn lemma_pooled_pylons_at_least(pillars: Seq<Pillar>, k: int)
        requires
            0 <= k < pillars.len(),
        ensures
            Self::pooled_pylons(pillars) >= pillars[k].unpowered_pylons.total(),
        decreases pillars.len(),
    {
        if k == pillars.len() - 1 {
            Self::lemma_pooled_pylons_nonneg(pillars.drop_last());
        } else {
            Self::lemma_pooled_pylons_at_least(pillars.drop_last(), k);
            assert(pillars.drop_last()[k] == pillars[k]);
        }
    }

    /// Law: toggling a movable rod twice, with motion completion
    /// reported between the toggles, returns it to its original face and
    /// tile state.
    ///
    /// `cur` and `opp` are the grids of the rod's current and opposite
    /// face before the first toggle, with the rod's cell unoccupied. The
    /// grid updates and rod updates below are exactly those that
    /// [`Level::activate_rod`] and [`Level::rod_motion_completed`]
    /// ensure; composed twice they are the identity on both grids and on
    /// the rod.
    pub proof fn lemma_rod_toggle_round_trip(
        rod: MovableRod,
        cur: Seq<Seq<TileType>>,
        opp: Seq<Seq<TileType>>,
    )
        requires
            !rod.in_flight,
            0 <= rod.position.i < cur.len(),
            0 <= rod.position.j < cur[rod.position.i as int].len(),
            0 <= rod.position.i < opp.len(),
            0 <= rod.position.j < opp[rod.position.i as int].len(),
            cur[rod.position.i as int][rod.position.j as int] == TileType::MovableRod(false),
            opp[rod.position.i as int][rod.position.j as int] == TileType::Void,
        ensures
            ({
                let i = rod.position.i as int;
                let j = rod.position.j as int;
                // first toggle: the rod's side is cleared, the rod
                // reappears unoccupied on the opposite side
                let cur1 = crate::face::grid_set(cur, i, j, TileType::Void);
                let opp1 = crate::face::grid_set(opp, i, j, TileType::MovableRod(false));
                // second toggle, after completion, from the swapped sides
                &&& crate::face::grid_set(opp1, i, j, TileType::Void) == opp
                &&& crate::face::grid_set(cur1, i, j, TileType::MovableRod(false)) == cur
            }),
            ({
                let rod1 = MovableRod {
                    face: rod.opposite_face,
                    opposite_face: rod.face,
                    position: rod.position,
                    in_flight: true,
                };
                let rod1c = MovableRod { in_flight: false, ..rod1 };
                let rod2 = MovableRod {
                    face: rod1c.opposite_face,
                    opposite_face: rod1c.face,
                    position: rod1c.position,
                    in_flight: true,
                };
                MovableRod { in_flight: false, ..rod2 } == rod
            }),
    {
        let i = rod.position.i as int;
        let j = rod.position.j as int;
        let cur1 = crate::face::grid_set(cur, i, j, TileType::Void);
        let opp1 = crate::face::grid_set(opp, i, j, TileType::MovableRod(false));
        assert(opp1[i].update(j, TileType::Void) =~= opp[i]);
        assert(crate::face::grid_set(opp1, i, j, TileType::Void) =~~= opp);
        assert(cur1[i].update(j, TileType::MovableRod(false)) =~= cur[i]);
        assert(crate::face::grid_set(cur1, i, j, TileType::MovableRod(false)) =~~= cur);
    }

    /// Rewriting occupancy flags never disturbs a rod: when every cell
    /// of every face keeps its kind (and faces keep their sizes), the
    /// rod invariants carry over.
    proof fn lemma_rods_wf_same_kinds(&self, pre: Level)
        requires
            pre.faces_wf(),
            pre.rods_wf(),
            self.faces_wf(),
            self.rods@ == pre.rods@,
            self.faces@.len() == pre.faces@.len(),
            forall|k: int|
                0 <= k < pre.faces@.len() ==> (#[trigger] self.faces@[k]).size
                    == pre.faces@[k].size,
            forall|k: int, x: int, y: int|
                0 <= k < pre.faces@.len() && 0 <= x < pre.faces@[k].size.w && 0 <= y
                    < pre.faces@[k].size.h ==> (#[trigger] self.faces@[k].tile_at(x,
                    y)).same_kind(pre.faces@[k].tile_at(x, y)),
        ensures
            self.rods_wf(),
    {
        assert forall|k: int| 0 <= k < self.rods@.len() implies self.rod_wf(
            #[trigger] self.rods@[k],
        ) by {
            assert(pre.rod_wf(pre.rods@[k]));
            let r = self.rods@[k];
            let i = r.position.i as int;
            let j = r.position.j as int;
            assert(self.faces@[r.face as int].tile_at(i, j).same_kind(
                pre.faces@[r.face as int].tile_at(i, j)));
            assert(self.faces@[r.opposite_face as int].tile_at(i, j).same_kind(
                pre.faces@[r.opposite_face as int].tile_at(i, j)));
        }
        assert forall|a: int, b: int|
            0 <= a < self.rods@.len() && 0 <= b < self.rods@.len() && a != b implies
            Self::rods_independent(#[trigger] self.rods@[a], #[trigger] self.rods@[b]) by {
            assert(Self::rods_independent(pre.rods@[a], pre.rods@[b]));
        }
    }

    /// When the face geometry (direction, size, origin) and the
    /// pillar count are untouched, every climber but the one at `c`
    /// keeps its invariant.
    proof fn lemma_climbers_wf_same_geometry(&self, pre: Level, c: int)
        requires
            pre.climbers_wf(),
            self.climbers@.len() == pre.climbers@.len(),
            forall|k: int|
                0 <= k < pre.climbers@.len() && k != c ==> #[trigger] self.climbers@[k]
                    == pre.climbers@[k],
            self.faces@.len() == pre.faces@.len(),
            self.pillars@.len() == pre.pillars@.len(),
            forall|k: int|
                0 <= k < pre.faces@.len() ==> (#[trigger] self.faces@[k]).direction
                    == pre.faces@[k].direction && self.faces@[k].size == pre.faces@[k].size
                    && self.faces@[k].origin == pre.faces@[k].origin,
            0 <= c < self.climbers@.len() ==> self.climber_wf(self.climbers@[c]),
        ensures
            self.climbers_wf(),
    {
        assert forall|k: int| 0 <= k < self.climbers@.len() implies self.climber_wf(
            #[trigger] self.climbers@[k],
        ) by {
            if k != c {
                assert(pre.climber_wf(pre.climbers@[k]));
            }
        }
    }

    /// Activates a movable rod (spec of the toggle). If the rod's
    /// previous relocation is still in flight the activation is ignored,
    /// not queued. Otherwise, atomically: the rod's cell on its current
    /// face becomes `Void`, the mirrored cell on the opposite face
    /// becomes an unoccupied `MovableRod`, the rod's face references
    /// swap, and the rod is marked in flight.
    ///
    /// Returns whether the rod actually toggled.
    pub fn activate_rod(&mut self, rod_index: usize) -> (toggled: bool)
        requires
            old(self).wf(),
            rod_index < old(self).rods@.len(),
        ensures
            final(self).wf(),
            old(self).rods@[rod_index as int].in_flight ==> !toggled && *final(self) == *old(self),
            !old(self).rods@[rod_index as int].in_flight ==> toggled && {
                let rod = old(self).rods@[rod_index as int];
                let i = rod.position.i as int;
                let j = rod.position.j as int;
                &&& final(self).rods@ == old(self).rods@.update(rod_index as int, MovableRod {
                    face: rod.opposite_face,
                    opposite_face: rod.face,
                    position: rod.position,
                    in_flight: true,
                })
                &&& final(self).faces@.len() == old(self).faces@.len()
                &&& final(self).faces@[rod.face as int].grid() == crate::face::grid_set(
                    old(self).faces@[rod.face as int].grid(), i, j, crate::TileType::Void)
                &&& final(self).faces@[rod.opposite_face as int].grid() == crate::face::grid_set(
                    old(self).faces@[rod.opposite_face as int].grid(), i, j,
                    crate::TileType::MovableRod(false))
                &&& forall|k: int|
                    0 <= k < old(self).faces@.len() && k != rod.face && k != rod.opposite_face
                        ==> final(self).faces@[k] == old(self).faces@[k]
                &&& forall|k: int|
                    0 <= k < old(self).faces@.len() ==> (#[trigger] final(self).faces@[k]).direction
                        == old(self).faces@[k].direction && final(self).faces@[k].size
                        == old(self).faces@[k].size && final(self).faces@[k].origin
                        == old(self).faces@[k].origin
                &&& final(self).pillars@ == old(self).pillars@
                &&& final(self).pylons@ == old(self).pylons@
                &&& final(self).climbers@ == old(self).climbers@
                &&& final(self).completion == old(self).completion
                &&& final(self).phase == old(self).phase
            },
    {
        let rod: MovableRod = self.rods[rod_index];
        if rod.in_flight {
            return false;
        }
        self.faces[rod.face].remove_tile_at(rod.position);
        self.faces[rod.opposite_face].set_tile_at(rod.position, TileType::MovableRod(false));
        let mut updated = rod;
        updated.swap_face();
        updated.in_flight = true;
        self.rods.set(rod_index, updated);
        proof {
            self.lemma_activate_rod_preserves_wf(*old(self), rod_index as int);
        }
        true
    }

    /// Clears a rod's in-flight flag: the presentation layer reports
    /// that the cross-face relocation animation has fully completed.
    pub fn rod_motion_completed(&mut self, rod_index: usize)
        requires
            old(self).wf(),
            rod_index < old(self).rods@.len(),
        ensures
            final(self).wf(),
            final(self).rods@ == old(self).rods@.update(rod_index as int, MovableRod {
                in_flight: false,
                ..old(self).rods@[rod_index as int]
            }),
            final(self).faces@ == old(self).faces@,
            final(self).pillars@ == old(self).pillars@,
            final(self).pylons@ == old(self).pylons@,
            final(self).climbers@ == old(self).climbers@,
            final(self).completion == old(self).completion,
            final(self).phase == old(self).phase,
    {
        let mut updated: MovableRod = self.rods[rod_index];
        updated.in_flight = false;
        self.rods.set(rod_index, updated);
        proof {
            assert forall|k: int| 0 <= k < self.rods@.len() implies self.rod_wf(
                #[trigger] self.rods@[k],
            ) by {
                assert(old(self).rod_wf(old(self).rods@[k]));
            }
            assert forall|a: int, b: int|
                0 <= a < self.rods@.len() && 0 <= b < self.rods@.len() && a != b implies
                Self::rods_independent(#[trigger] self.rods@[a], #[trigger] self.rods@[b]) by {
                assert(Self::rods_independent(old(self).rods@[a], old(self).rods@[b]));
            }
        }
    }

    /// The exact effect of one climber tick: relates the level before and
    /// after [`Level::tick_climber`] on climber `c` with the motion report
    /// and the returned result. Deterministic: `pre`, `c` and
    /// `motion_complete` fix `post` and `r`.
    pub open spec fn tick_rel(
        pre: Level,
        post: Level,
        c: int,
        motion_complete: bool,
        r: Result<Option<ClimberEvent>, SimError>,
    ) -> bool {
        &&& post.wf()
        &&& post.climbers@.len() == pre.climbers@.len()
        &&& forall|k: int|
                0 <= k < pre.climbers@.len() && k != c ==> post.climbers@[k] == pre.climbers@[k]
        &&& post.rods@ == pre.rods@
        &&& post.faces@.len() == pre.faces@.len()
        &&& forall|k: int|
                0 <= k < pre.faces@.len() ==> (#[trigger] post.faces@[k]).direction
                == pre.faces@[k].direction && post.faces@[k].size == pre.faces@[k].size && post.faces@[k].origin == pre.faces@[k].origin
        &&& post.pylons@.len() == pre.pylons@.len()
        &&& post.completion.pylons_count == pre.completion.pylons_count
        &&& post.completion.powered_pylons_count >= pre.completion.powered_pylons_count
        &&& (pre.climbers@[c].state == ClimberState::Saved || pre.climbers@[c].state
            == ClimberState::Dead) ==> r == Ok::<Option<ClimberEvent>, SimError>(None) && post
            == pre
        &&& pre.climbers@[c].state matches ClimberState::Waiting { on_tile } ==> ({
                let oc = pre.climbers@[c];
                let face = pre.faces@[on_tile.face as int];
                &&& !face.ground(on_tile.i as int, on_tile.j as int) ==> {
                &&& r == Ok::<Option<ClimberEvent>, SimError>(None)
                &&& post.climbers@ == pre.climbers@.update(c, Climber {
                    state: ClimberState::Falling { on_face: on_tile.face },
                    ..oc
                })
                &&& post.faces@ == pre.faces@
                &&& post.pillars@ == pre.pillars@
                &&& post.pylons@ == pre.pylons@
                &&& post.completion == pre.completion
                &&& post.phase == pre.phase
                }
                &&& face.ground(on_tile.i as int, on_tile.j as int) ==> match face.next_candidate(
                on_tile.i as int,
                on_tile.j as int,
                ) {
                Some(n) => {
                    &&& r == Ok::<Option<ClimberEvent>, SimError>(None)
                    &&& post.climbers@ == pre.climbers@.update(c, Climber {
                    state: ClimberState::Moving {
                        to_tile: ClimberPosition {
                        face: on_tile.face,
                        i: n.0 as u16,
                        j: n.1 as u16,
                        },
                    },
                    ..oc
                    })
                    &&& post.faces@[on_tile.face as int].grid()
                    == crate::face::grid_set(crate::face::grid_set(face.grid(),
                    on_tile.i as int, on_tile.j as int, face.tile_at(on_tile.i as int,
                    on_tile.j as int).with_occupancy(false)), n.0, n.1, face.tile_at(n.0,
                    n.1).with_occupancy(true))
                    &&& forall|k: int|
                    0 <= k < pre.faces@.len() && k != on_tile.face ==> post.faces@[k] == pre.faces@[k]
                    &&& post.pillars@ == pre.pillars@
                    &&& post.pylons@ == pre.pylons@
                    &&& post.completion == pre.completion
                    &&& post.phase == pre.phase
                },
                None => r == Ok::<Option<ClimberEvent>, SimError>(None) && post == pre,
                }
            })
        &&& pre.climbers@[c].state matches ClimberState::Moving { to_tile } ==> ({
                let oc = pre.climbers@[c];
                let face = pre.faces@[to_tile.face as int];
                &&& !motion_complete ==> r == Ok::<Option<ClimberEvent>, SimError>(None) && post == pre
                &&& motion_complete && to_tile.j + 1 < face.size.h ==> {
                &&& r == Ok::<Option<ClimberEvent>, SimError>(None)
                &&& post.climbers@ == pre.climbers@.update(c, Climber {
                    state: ClimberState::Waiting { on_tile: to_tile },
                    current_pillar: oc.current_pillar,
                    position: face.spec_pos_from_tile(to_tile.i as int, to_tile.j as int),
                })
                &&& post.faces@ == pre.faces@
                &&& post.pillars@ == pre.pillars@
                &&& post.pylons@ == pre.pylons@
                &&& post.completion == pre.completion
                &&& post.phase == pre.phase
                }
                &&& motion_complete && to_tile.j + 1 >= face.size.h ==> ({
                let pillar = pre.pillars@[oc.current_pillar as int];
                match pillar.chosen_pool_dir(face.direction) {
                    None => r == Err::<Option<ClimberEvent>, SimError>(
                    SimError::PylonsExhausted,
                    ) && post == pre,
                    Some(d) => {
                    let id = pillar.unpowered_pylons.pool(d).last();
                    &&& r == Ok::<Option<ClimberEvent>, SimError>(Some(
                        ClimberEvent::ReachedTop,
                    ))
                    &&& post.climbers@ == pre.climbers@.update(c,
                        Climber { state: ClimberState::Saved, ..oc })
                    &&& post.faces@[to_tile.face as int].grid()
                        == crate::face::grid_set(face.grid(), to_tile.i as int,
                        to_tile.j as int, face.tile_at(to_tile.i as int,
                        to_tile.j as int).with_occupancy(false))
                    &&& forall|k: int|
                        0 <= k < pre.faces@.len() && k != to_tile.face ==> post.faces@[k] == pre.faces@[k]
                    &&& forall|k: int|
                        0 <= k < pre.pillars@.len() && k != oc.current_pillar
                        ==> post.pillars@[k] == pre.pillars@[k]
                    &&& post.pillars@[oc.current_pillar as int].unpowered_pylons.pool(
                        d,
                    ) == pillar.unpowered_pylons.pool(d).drop_last()
                    &&& forall|e: FaceDirection|
                        e != d ==> post.pillars@[oc.current_pillar as int].unpowered_pylons.pool(e)
                        == pillar.unpowered_pylons.pool(e)
                    &&& post.pylons@ == pre.pylons@.update(id as int, Pylon {
                        powered: true,
                    })
                    &&& post.completion.powered_pylons_count == pre.completion.powered_pylons_count + 1
                    &&& post.phase == if post.completion.spec_is_won() {
                        GameState::Won
                    } else {
                        pre.phase
                    }
                    },
                }
                })
            })
        &&& pre.climbers@[c].state matches ClimberState::Falling { on_face } ==> ({
                let oc = pre.climbers@[c];
                let face = pre.faces@[on_face as int];
                let npos = Position {
                x: oc.position.x,
                y: (oc.position.y - crate::face::FALL_STEP) as i64,
                z: oc.position.z,
                };
                let ci = crate::face::column_from_offset(face.spec_horizontal_offset(npos));
                let cj = crate::face::row_from_offset(npos.y - face.origin.y);
                &&& face.ground(ci, cj) ==> {
                &&& r == Ok::<Option<ClimberEvent>, SimError>(None)
                &&& post.climbers@ == pre.climbers@.update(c, Climber {
                    state: ClimberState::Waiting {
                    on_tile: ClimberPosition {
                        face: on_face,
                        i: ci as u16,
                        j: cj as u16,
                    },
                    },
                    current_pillar: oc.current_pillar,
                    position: face.spec_pos_from_tile(ci, cj),
                })
                &&& post.faces@[on_face as int].grid() == crate::face::grid_set(
                    face.grid(), ci, cj, face.tile_at(ci, cj).with_occupancy(true))
                &&& forall|k: int|
                    0 <= k < pre.faces@.len() && k != on_face ==> post.faces@[k]
                    == pre.faces@[k]
                &&& post.pillars@ == pre.pillars@
                &&& post.pylons@ == pre.pylons@
                &&& post.completion == pre.completion
                &&& post.phase == pre.phase
                }
                &&& !face.ground(ci, cj) && npos.y <= 0 ==> {
                &&& r == Ok::<Option<ClimberEvent>, SimError>(None)
                &&& post.climbers@ == pre.climbers@.update(c, Climber {
                    state: ClimberState::Dead,
                    current_pillar: oc.current_pillar,
                    position: npos,
                })
                &&& post.faces@ == pre.faces@
                &&& post.pillars@ == pre.pillars@
                &&& post.pylons@ == pre.pylons@
                &&& post.completion == pre.completion
                &&& post.phase == GameState::Lost
                }
                &&& !face.ground(ci, cj) && npos.y > 0 ==> {
                &&& r == Ok::<Option<ClimberEvent>, SimError>(None)
                &&& post.climbers@ == pre.climbers@.update(c, Climber {
                    state: ClimberState::Falling { on_face },
                    current_pillar: oc.current_pillar,
                    position: npos,
                })
                &&& post.faces@ == pre.faces@
                &&& post.pillars@ == pre.pillars@
                &&& post.pylons@ == pre.pylons@
                &&& post.completion == pre.completion
                &&& post.phase == pre.phase
                }
            })
    }

    /// Advances one climber by one simulation tick.
    ///
    /// `motion_complete` is the presentation layer's report on this
    /// climber's current relocation; it gates only the `Moving` state.
    /// The transitions, exactly:
    ///
    /// - `Waiting` with no ground under the tracked tile (the rod
    ///   beneath was toggled away) starts `Falling` on the same face —
    ///   never skipping directly to `Dead` or `Saved`.
    /// - `Waiting` with ground follows the search policy
    ///   [`Face::next_candidate`]: when a candidate exists the climber
    ///   frees its tile, occupies the candidate and starts `Moving`;
    ///   when none exists it stays put until the player creates a path.
    /// - `Moving` waits for `motion_complete`. A completed move onto the
    ///   top row frees the tile, powers a pylon of the climber's pillar
    ///   (preferring the pool of its face's direction), increments the
    ///   powered count, saves the climber and reports `ReachedTop`; the
    ///   phase becomes `Won` exactly when the powered count first
    ///   reaches the pylon count. A completed move below the top row
    ///   returns to `Waiting` on the target tile.
    /// - `Falling` drops by [`crate::face::FALL_STEP`], then re-lands on
    ///   the tile under the new position when that tile has ground, or
    ///   dies — and the level is lost — when the ground plane is
    ///   reached; otherwise it keeps falling.
    /// - `Saved` and `Dead` are terminal: nothing changes.
    ///
    /// Fails with `PylonsExhausted`, changing nothing, exactly when a
    /// climber finishes on a pillar with no unpowered pylon left
    /// (malformed level data: fewer pylons than climbers).
    #[verifier::rlimit(100)]
    pub fn tick_climber(&mut self, c: usize, motion_complete: bool) -> (r: Result<
        Option<ClimberEvent>,
        SimError,
    >)
        requires
            old(self).wf(),
            c < old(self).climbers@.len(),
        ensures
            Self::tick_rel(*old(self), *final(self), c as int, motion_complete, r),
    {
        let oc: Climber = self.climbers[c];
        proof {
            assert(old(self).climber_wf(old(self).climbers@[c as int]));
        }
        match oc.state {
            ClimberState::Saved => Ok(None),
            ClimberState::Dead => Ok(None),
            ClimberState::Waiting { on_tile } => {
                proof {
                    assert(old(self).faces@[on_tile.face as int].wf());
                }
                if !self.faces[on_tile.face].has_ground_on_tile(on_tile.i, on_tile.j) {
                    // the rod beneath was toggled away: start falling
                    let mut nc = oc;
                    nc.state = ClimberState::Falling { on_face: on_tile.face };
                    self.climbers.set(c, nc);
                    proof {
                        self.lemma_tick_unchanged_faces(*old(self), c as int);
                    }
                    Ok(None)
                } else {
                    match self.faces[on_tile.face].get_next_tile_with_ground(&on_tile) {
                        Some(n) => {
                            self.tick_advance(c, on_tile, n);
                            Ok(None)
                        },
                        None => Ok(None),
                    }
                }
            },
            ClimberState::Moving { to_tile } => {
                if !motion_complete {
                    return Ok(None);
                }
                proof {
                    assert(old(self).faces@[to_tile.face as int].wf());
                }
                let h = self.faces[to_tile.face].size.h;
                if to_tile.j + 1 >= h {
                    self.tick_reach_top(c, to_tile)
                } else {
                    // below the top: rest on the target tile
                    let pos = self.faces[to_tile.face].climber_get_pos_from_tile(&to_tile);
                    let mut nc = oc;
                    nc.state = ClimberState::Waiting { on_tile: to_tile };
                    nc.position = pos;
                    self.climbers.set(c, nc);
                    proof {
                        self.lemma_tick_unchanged_faces(*old(self), c as int);
                    }
                    Ok(None)
                }
            },
            ClimberState::Falling { on_face } => {
                proof {
                    assert(old(self).faces@[on_face as int].wf());
                }
                let mut npos = oc.position;
                npos.y = npos.y - crate::face::FALL_STEP;
                let (ci, cj) = self.faces[on_face].get_tile_coords_from_pos(npos);
                if self.faces[on_face].has_ground_on_tile(ci, cj) {
                    // re-land on the tile under the new position
                    self.tick_land(c, ClimberPosition { face: on_face, i: ci, j: cj });
                    Ok(None)
                } else if npos.y <= 0 {
                    // the ground plane is reached: the level is lost
                    let mut nc = oc;
                    nc.state = ClimberState::Dead;
                    nc.position = npos;
                    self.climbers.set(c, nc);
                    self.phase = GameState::Lost;
                    proof {
                        self.lemma_tick_unchanged_faces(*old(self), c as int);
                    }
                    Ok(None)
                } else {
                    // keep falling
                    let mut nc = oc;
                    nc.position = npos;
                    self.climbers.set(c, nc);
                    proof {
                        self.lemma_tick_unchanged_faces(*old(self), c as int);
                    }
                    Ok(None)
                }
            },
        }
    }

    /// The `Waiting` advance step: the climber at `c` frees its tile,
    /// occupies the candidate tile `n` and starts moving there.
    fn tick_advance(&mut self, c: usize, on_tile: ClimberPosition, n: ClimberPosition)
        requires
            old(self).wf(),
            c < old(self).climbers@.len(),
            old(self).climbers@[c as int].state == (ClimberState::Waiting { on_tile }),
            old(self).faces@[on_tile.face as int].ground(on_tile.i as int, on_tile.j as int),
            n.face == on_tile.face,
            old(self).faces@[on_tile.face as int].next_candidate(on_tile.i as int,
                on_tile.j as int) == Some((n.i as int, n.j as int)),
        ensures
            final(self).wf(),
            final(self).climbers@ == old(self).climbers@.update(c as int, Climber {
                state: ClimberState::Moving { to_tile: n },
                ..old(self).climbers@[c as int]
            }),
            final(self).rods@ == old(self).rods@,
            final(self).faces@.len() == old(self).faces@.len(),
            forall|k: int|
                0 <= k < old(self).faces@.len() ==> (#[trigger] final(self).faces@[k]).direction
                    == old(self).faces@[k].direction && final(self).faces@[k].size
                    == old(self).faces@[k].size && final(self).faces@[k].origin
                    == old(self).faces@[k].origin,
            final(self).faces@[on_tile.face as int].grid() == crate::face::grid_set(
                crate::face::grid_set(old(self).faces@[on_tile.face as int].grid(),
                on_tile.i as int, on_tile.j as int,
                old(self).faces@[on_tile.face as int].tile_at(on_tile.i as int,
                on_tile.j as int).with_occupancy(false)), n.i as int, n.j as int,
                old(self).faces@[on_tile.face as int].tile_at(n.i as int,
                n.j as int).with_occupancy(true)),
            forall|k: int|
                0 <= k < old(self).faces@.len() && k != on_tile.face ==> final(self).faces@[k]
                    == old(self).faces@[k],
            final(self).pillars@ == old(self).pillars@,
            final(self).pylons@ == old(self).pylons@,
            final(self).completion == old(self).completion,
            final(self).phase == old(self).phase,
    {
        proof {
            assert(old(self).climber_wf(old(self).climbers@[c as int]));
            assert(old(self).faces@[on_tile.face as int].wf());
        }
        let oc: Climber = self.climbers[c];
        self.faces[on_tile.face].set_free(&on_tile);
        self.faces[on_tile.face].set_occupied(&n);
        let mut nc = oc;
        nc.state = ClimberState::Moving { to_tile: n };
        self.climbers.set(c, nc);
        proof {
            let f = on_tile.face as int;
            let pre_face = old(self).faces@[f];
            let i = on_tile.i as int;
            let j = on_tile.j as int;
            let ni = n.i as int;
            let nj = n.j as int;
            pre_face.lemma_grid_dims();
            self.faces@[f].lemma_grid_dims();
            let g0 = pre_face.grid();
            let t1 = g0[i][j].with_occupancy(false);
            let g1 = crate::face::grid_set(g0, i, j, t1);
            assert(t1.same_kind(g0[i][j]));
            crate::face::lemma_grid_set_same_kind(g0, g1, i, j, t1);
            let t2 = g1[ni][nj].with_occupancy(true);
            assert(self.faces@[f].grid() == crate::face::grid_set(g1, ni, nj, t2));
            assert(t2.same_kind(g1[ni][nj]));
            crate::face::lemma_grid_set_same_kind(g1, self.faces@[f].grid(), ni, nj, t2);
            assert(g1[ni][nj] == g0[ni][nj]);
            assert(g0[ni][nj] == pre_face.tile_at(ni, nj));
            assert forall|x: int, y: int|
                0 <= x < pre_face.size.w && 0 <= y < pre_face.size.h implies (
            #[trigger] self.faces@[f].tile_at(x, y)).same_kind(pre_face.tile_at(x, y)) by {
                assert(g0[x].len() == pre_face.size.h);
                assert(g1[x][y].same_kind(g0[x][y]));
                assert(self.faces@[f].grid()[x][y].same_kind(g1[x][y]));
                assert(self.faces@[f].tile_at(x, y) == self.faces@[f].grid()[x][y]);
                assert(pre_face.tile_at(x, y) == g0[x][y]);
            }
            assert(self.climber_wf(self.climbers@[c as int]));
            self.lemma_tick_occupancy_update(*old(self), c as int, f);
        }
    }

    /// The `Moving` completion step onto the top row: frees the tile,
    /// powers a pylon of the climber's pillar, updates the win tracker
    /// and saves the climber, or reports pylon exhaustion untouched.
    fn tick_reach_top(&mut self, c: usize, to_tile: ClimberPosition) -> (r: Result<
        Option<ClimberEvent>,
        SimError,
    >)
        requires
            old(self).wf(),
            c < old(self).climbers@.len(),
            old(self).climbers@[c as int].state == (ClimberState::Moving { to_tile }),
            to_tile.j + 1 >= old(self).faces@[to_tile.face as int].size.h,
        ensures
            final(self).wf(),
            final(self).climbers@.len() == old(self).climbers@.len(),
            forall|k: int|
                0 <= k < old(self).climbers@.len() && k != c ==> final(self).climbers@[k]
                    == old(self).climbers@[k],
            final(self).rods@ == old(self).rods@,
            final(self).faces@.len() == old(self).faces@.len(),
            forall|k: int|
                0 <= k < old(self).faces@.len() ==> (#[trigger] final(self).faces@[k]).direction
                    == old(self).faces@[k].direction && final(self).faces@[k].size
                    == old(self).faces@[k].size && final(self).faces@[k].origin
                    == old(self).faces@[k].origin,
            final(self).pylons@.len() == old(self).pylons@.len(),
            final(self).completion.pylons_count == old(self).completion.pylons_count,
            final(self).completion.powered_pylons_count >= old(
                self,
            ).completion.powered_pylons_count,
            ({
                let oc = old(self).climbers@[c as int];
                let face = old(self).faces@[to_tile.face as int];
                let pillar = old(self).pillars@[oc.current_pillar as int];
                match pillar.chosen_pool_dir(face.direction) {
                    None => r == Err::<Option<ClimberEvent>, SimError>(SimError::PylonsExhausted)
                        && *final(self) == *old(self),
                    Some(d) => {
                        let id = pillar.unpowered_pylons.pool(d).last();
                        &&& r == Ok::<Option<ClimberEvent>, SimError>(Some(
                            ClimberEvent::ReachedTop,
                        ))
                        &&& final(self).climbers@ == old(self).climbers@.update(c as int, Climber {
                            state: ClimberState::Saved,
                            ..oc
                        })
                        &&& final(self).faces@[to_tile.face as int].grid()
                            == crate::face::grid_set(face.grid(), to_tile.i as int,
                            to_tile.j as int, face.tile_at(to_tile.i as int,
                            to_tile.j as int).with_occupancy(false))
                        &&& forall|k: int|
                            0 <= k < old(self).faces@.len() && k != to_tile.face ==> final(self).faces@[k] == old(self).faces@[k]
                        &&& forall|k: int|
                            0 <= k < old(self).pillars@.len() && k != oc.current_pillar
                                ==> final(self).pillars@[k] == old(self).pillars@[k]
                        &&& final(self).pillars@[oc.current_pillar as int].unpowered_pylons.pool(d)
                            == pillar.unpowered_pylons.pool(d).drop_last()
                        &&& forall|e: FaceDirection|
                            e != d ==> final(self).pillars@[oc.current_pillar as int].unpowered_pylons.pool(e)
                                == pillar.unpowered_pylons.pool(e)
                        &&& final(self).pylons@ == old(self).pylons@.update(id as int, Pylon {
                            powered: true,
                        })
                        &&& final(self).completion.powered_pylons_count == old(
                            self,
                        ).completion.powered_pylons_count + 1
                        &&& final(self).phase == if final(self).completion.spec_is_won() {
                            GameState::Won
                        } else {
                            old(self).phase
                        }
                    },
                }
            }),
    {
        proof {
            assert(old(self).climber_wf(old(self).climbers@[c as int]));
            assert(old(self).faces@[to_tile.face as int].wf());
        }
        let oc: Climber = self.climbers[c];
        let dir = self.get_face_direction(to_tile.face);
        let p = oc.current_pillar;
        if !self.pillars[p].has_any_pylon() {
            return Err(SimError::PylonsExhausted);
        }
        let picked = self.pillars[p].get_pylon_from_face(&dir);
        let id: usize = if let Some(pid) = picked {
            pid
        } else {
            proof {
                let pil0 = old(self).pillars@[p as int];
                let pilm = self.pillars@[p as int];
                assert(pilm.unpowered_pylons.pool(FaceDirection::East)
                    == pil0.unpowered_pylons.pool(FaceDirection::East));
                assert(pilm.unpowered_pylons.pool(FaceDirection::West)
                    == pil0.unpowered_pylons.pool(FaceDirection::West));
                assert(pilm.unpowered_pylons.pool(FaceDirection::South)
                    == pil0.unpowered_pylons.pool(FaceDirection::South));
                assert(pilm.unpowered_pylons.pool(FaceDirection::North)
                    == pil0.unpowered_pylons.pool(FaceDirection::North));
                assert(pilm.unpowered_pylons.total() == pil0.unpowered_pylons.total());
            }
            match self.pillars[p].pop_first_available_pylon() {
                Some(pid) => pid,
                None => {
                    // a pool was non-empty, so the scan cannot come back
                    // empty-handed
                    proof {
                        assert(false);
                    }
                    0
                },
            }
        };
        proof {
            let pil0 = old(self).pillars@[p as int];
            let pil1 = self.pillars@[p as int];
            let n = old(self).pylons@.len() as int;
            assert(pil0.unpowered_pylons.all_below(n));
            let dface = old(self).faces@[to_tile.face as int].direction;
            if pil0.unpowered_pylons.pool(dface).len() > 0 {
                assert(Pillar::popped_one(pil0, pil1, dface));
                assert(pil0.chosen_pool_dir(dface) == Some(dface));
                Pillar::lemma_popped_one(pil0, pil1, dface, n);
            } else if pil0.unpowered_pylons.east@.len() > 0 {
                assert(Pillar::popped_one(pil0, pil1, FaceDirection::East));
                assert(pil0.chosen_pool_dir(dface) == Some(FaceDirection::East));
                Pillar::lemma_popped_one(pil0, pil1, FaceDirection::East, n);
            } else if pil0.unpowered_pylons.west@.len() > 0 {
                assert(Pillar::popped_one(pil0, pil1, FaceDirection::West));
                assert(pil0.chosen_pool_dir(dface) == Some(FaceDirection::West));
                Pillar::lemma_popped_one(pil0, pil1, FaceDirection::West, n);
            } else if pil0.unpowered_pylons.south@.len() > 0 {
                assert(Pillar::popped_one(pil0, pil1, FaceDirection::South));
                assert(pil0.chosen_pool_dir(dface) == Some(FaceDirection::South));
                Pillar::lemma_popped_one(pil0, pil1, FaceDirection::South, n);
            } else if pil0.unpowered_pylons.north@.len() > 0 {
                assert(Pillar::popped_one(pil0, pil1, FaceDirection::North));
                assert(pil0.chosen_pool_dir(dface) == Some(FaceDirection::North));
                Pillar::lemma_popped_one(pil0, pil1, FaceDirection::North, n);
            } else {
                assert(false);
            }
            assert(id < self.pylons@.len());
            Self::lemma_pooled_pylons_at_least(old(self).pillars@, p as int);
            Self::lemma_pooled_pylons_nonneg(old(self).pillars@);
        }
        self.faces[to_tile.face].set_free(&to_tile);
        self.pylons.set(id, Pylon { powered: true });
        self.completion.powered_pylons_count = self.completion.powered_pylons_count + 1;
        if self.completion.is_won() {
            self.phase = GameState::Won;
        }
        let mut nc = oc;
        nc.state = ClimberState::Saved;
        self.climbers.set(c, nc);
        proof {
            let f = to_tile.face as int;
            let pre_face = old(self).faces@[f];
            pre_face.lemma_grid_dims();
            self.faces@[f].lemma_grid_dims();
            let g0 = pre_face.grid();
            let i = to_tile.i as int;
            let j = to_tile.j as int;
            let t1 = g0[i][j].with_occupancy(false);
            assert(t1.same_kind(g0[i][j]));
            crate::face::lemma_grid_set_same_kind(g0, self.faces@[f].grid(), i, j, t1);
            assert forall|x: int, y: int|
                0 <= x < pre_face.size.w && 0 <= y < pre_face.size.h implies (
            #[trigger] self.faces@[f].tile_at(x, y)).same_kind(pre_face.tile_at(x, y)) by {
                assert(g0[x].len() == pre_face.size.h);
                assert(self.faces@[f].grid()[x][y].same_kind(g0[x][y]));
                assert(self.faces@[f].tile_at(x, y) == self.faces@[f].grid()[x][y]);
                assert(pre_face.tile_at(x, y) == g0[x][y]);
            }
            assert(self.climber_wf(self.climbers@[c as int]));
            self.lemma_tick_saved(*old(self), c as int, f, p as int);
        }
        Ok(Some(ClimberEvent::ReachedTop))
    }

    /// The `Falling` landing step: the climber at `c` occupies the tile
    /// it landed on, snaps to its anchor and waits there.
    fn tick_land(&mut self, c: usize, landed: ClimberPosition)
        requires
            old(self).wf(),
            c < old(self).climbers@.len(),
            old(self).climbers@[c as int].state == (ClimberState::Falling {
                on_face: landed.face,
            }),
            old(self).faces@[landed.face as int].ground(landed.i as int, landed.j as int),
        ensures
            final(self).wf(),
            final(self).climbers@ == old(self).climbers@.update(c as int, Climber {
                state: ClimberState::Waiting { on_tile: landed },
                current_pillar: old(self).climbers@[c as int].current_pillar,
                position: old(self).faces@[landed.face as int].spec_pos_from_tile(
                    landed.i as int, landed.j as int),
            }),
            final(self).rods@ == old(self).rods@,
            final(self).faces@.len() == old(self).faces@.len(),
            forall|k: int|
                0 <= k < old(self).faces@.len() ==> (#[trigger] final(self).faces@[k]).direction
                    == old(self).faces@[k].direction && final(self).faces@[k].size
                    == old(self).faces@[k].size && final(self).faces@[k].origin
                    == old(self).faces@[k].origin,
            final(self).faces@[landed.face as int].grid() == crate::face::grid_set(
                old(self).faces@[landed.face as int].grid(), landed.i as int, landed.j as int,
                old(self).faces@[landed.face as int].tile_at(landed.i as int,
                landed.j as int).with_occupancy(true)),
            forall|k: int|
                0 <= k < old(self).faces@.len() && k != landed.face ==> final(self).faces@[k]
                    == old(self).faces@[k],
            final(self).pillars@ == old(self).pillars@,
            final(self).pylons@ == old(self).pylons@,
            final(self).completion == old(self).completion,
            final(self).phase == old(self).phase,
    {
        proof {
            assert(old(self).climber_wf(old(self).climbers@[c as int]));
            assert(old(self).faces@[landed.face as int].wf());
        }
        let oc: Climber = self.climbers[c];
        self.faces[landed.face].set_occupied(&landed);
        let pos = self.faces[landed.face].climber_get_pos_from_tile(&landed);
        let mut nc = oc;
        nc.state = ClimberState::Waiting { on_tile: landed };
        nc.position = pos;
        self.climbers.set(c, nc);
        proof {
            let f = landed.face as int;
            let pre_face = old(self).faces@[f];
            pre_face.lemma_grid_dims();
            self.faces@[f].lemma_grid_dims();
            let g0 = pre_face.grid();
            let i = landed.i as int;
            let j = landed.j as int;
            let t1 = g0[i][j].with_occupancy(true);
            assert(t1.same_kind(g0[i][j]));
            crate::face::lemma_grid_set_same_kind(g0, self.faces@[f].grid(), i, j, t1);
            assert forall|x: int, y: int|
                0 <= x < pre_face.size.w && 0 <= y < pre_face.size.h implies (
            #[trigger] self.faces@[f].tile_at(x, y)).same_kind(pre_face.tile_at(x, y)) by {
                assert(g0[x].len() == pre_face.size.h);
                assert(self.faces@[f].grid()[x][y].same_kind(g0[x][y]));
                assert(self.faces@[f].tile_at(x, y) == self.faces@[f].grid()[x][y]);
                assert(pre_face.tile_at(x, y) == g0[x][y]);
            }
            assert(self.climber_wf(self.climbers@[c as int]));
            self.lemma_tick_occupancy_update(*old(self), c as int, f);
        }
    }

    /// Law: a climber whose tracked tile has lost its support starts
    /// falling on its own face on the next tick — it never skips
    /// directly to `Dead` or `Saved`.
    pub proof fn lemma_lost_support_starts_falling(
        pre: Level,
        post: Level,
        c: int,
        motion_complete: bool,
        r: Result<Option<ClimberEvent>, SimError>,
    )
        requires
            Self::tick_rel(pre, post, c, motion_complete, r),
            0 <= c < pre.climbers@.len(),
            pre.climbers@[c].state is Waiting,
            !pre.faces@[pre.climbers@[c].state->Waiting_on_tile.face as int].ground(
                pre.climbers@[c].state->Waiting_on_tile.i as int,
                pre.climbers@[c].state->Waiting_on_tile.j as int,
            ),
        ensures
            post.climbers@[c].state == (ClimberState::Falling {
                on_face: pre.climbers@[c].state->Waiting_on_tile.face,
            }),
            !(post.climbers@[c].state is Dead),
            !(post.climbers@[c].state is Saved),
    {
    }

    /// Law: the level transitions to `Won` exactly on the tick where
    /// the powered count first reaches the pylon count. While playing, a
    /// tick ends in the `Won` phase precisely when it powers the final
    /// pylon, which is also exactly when it reports `ReachedTop` with
    /// every pylon now powered. The playing premise is the whole story:
    /// by [`Level::phase_wf`], a well-formed level is in the `Won` phase
    /// only with every pylon already powered.
    pub proof fn lemma_won_exactly_at_full_power(
        pre: Level,
        post: Level,
        c: int,
        motion_complete: bool,
        r: Result<Option<ClimberEvent>, SimError>,
    )
        requires
            pre.wf(),
            Self::tick_rel(pre, post, c, motion_complete, r),
            0 <= c < pre.climbers@.len(),
            pre.phase == GameState::Playing,
        ensures
            post.phase == GameState::Won <==> r == Ok::<Option<ClimberEvent>, SimError>(Some(
                ClimberEvent::ReachedTop,
            )) && post.completion.powered_pylons_count == post.completion.pylons_count,
    {
        post.lemma_powered_at_most_total();
        match pre.climbers@[c].state {
            ClimberState::Moving { to_tile } => {
                let oc = pre.climbers@[c];
                let face = pre.faces@[to_tile.face as int];
                if motion_complete && to_tile.j + 1 >= face.size.h {
                    let pillar = pre.pillars@[oc.current_pillar as int];
                    match pillar.chosen_pool_dir(face.direction) {
                        None => {},
                        Some(d) => {
                            assert(Self::pooled_pylons(pre.pillars@) >= 0) by {
                                Self::lemma_pooled_pylons_nonneg(pre.pillars@);
                            }
                        },
                    }
                }
            },
            _ => {},
        }
    }

    /// Law: a tile holds at most one climber. When no two climbers claim
    /// the same tile and every claimed tile is unavailable to the search
    /// policy (occupied, or without ground), one tick keeps both:
    /// occupancy is set on arrival and cleared on departure, and the
    /// search policy only hands out tiles with free ground. Level
    /// construction establishes both properties (see
    /// [`crate::spawn::spawn_level`]), and rod toggles keep them (see
    /// [`Level::lemma_claims_after_rod_toggle`]). The one transition the
    /// grid model does not guard is a fall that lands on a tile already
    /// holding a climber — landing tests ground only, as specified — so
    /// that input is left out below.
    pub proof fn lemma_at_most_one_climber_per_tile(
        pre: Level,
        post: Level,
        c: int,
        motion_complete: bool,
        r: Result<Option<ClimberEvent>, SimError>,
    )
        requires
            pre.wf(),
            0 <= c < pre.climbers@.len(),
            Self::tick_rel(pre, post, c, motion_complete, r),
            pre.claims_distinct(),
            pre.claims_covered(),
            pre.climbers@[c].state matches ClimberState::Falling { on_face } ==> ({
                let oc = pre.climbers@[c];
                let face = pre.faces@[on_face as int];
                let npos = Position {
                    x: oc.position.x,
                    y: (oc.position.y - crate::face::FALL_STEP) as i64,
                    z: oc.position.z,
                };
                let ci = crate::face::column_from_offset(face.spec_horizontal_offset(npos));
                let cj = crate::face::row_from_offset(npos.y - face.origin.y);
                face.ground(ci, cj) ==> !face.tile_at(ci, cj).is_occupied()
            }),
        ensures
            post.claims_distinct(),
            post.claims_covered(),
    {
        assert(pre.climber_wf(pre.climbers@[c]));
        match pre.climbers@[c].state {
            ClimberState::Saved => {},
            ClimberState::Dead => {},
            ClimberState::Waiting { on_tile } => {
                let fc = on_tile.face as int;
                let face = pre.faces@[fc];
                let ti = on_tile.i as int;
                let tj = on_tile.j as int;
                if !face.ground(ti, tj) {
                    // the climber starts falling: its claim disappears,
                    // no tile changes
                    Self::lemma_claims_after_release(pre, post, c);
                } else {
                    match face.next_candidate(ti, tj) {
                        Some(n) => {
                            Self::lemma_claims_after_advance(pre, post, c, on_tile, n);
                        },
                        None => {},
                    }
                }
            },
            ClimberState::Moving { to_tile } => {
                let face = pre.faces@[to_tile.face as int];
                if motion_complete && to_tile.j + 1 >= face.size.h {
                    let pillar = pre.pillars@[pre.climbers@[c].current_pillar as int];
                    match pillar.chosen_pool_dir(face.direction) {
                        None => {},
                        Some(d) => {
                            Self::lemma_claims_after_top(pre, post, c, to_tile);
                        },
                    }
                } else {
                    // not complete, or resting on the target: the claim
                    // stays the same tile, no tile changes
                }
            },
            ClimberState::Falling { on_face } => {
                let oc = pre.climbers@[c];
                let face = pre.faces@[on_face as int];
                let npos = Position {
                    x: oc.position.x,
                    y: (oc.position.y - crate::face::FALL_STEP) as i64,
                    z: oc.position.z,
                };
                let ci = crate::face::column_from_offset(face.spec_horizontal_offset(npos));
                let cj = crate::face::row_from_offset(npos.y - face.origin.y);
                if face.ground(ci, cj) {
                    Self::lemma_claims_after_landing(pre, post, c, on_face, ci, cj);
                } else {
                    // dying or falling on: the climber claims nothing,
                    // no tile changes
                }
            },
        }
    }

    /// Claims stay distinct and covered when climber `c` gives its claim
    /// up and no tile changes.
    proof fn lemma_claims_after_release(pre: Level, post: Level, c: int)
        requires
            pre.claims_distinct(),
            pre.claims_covered(),
            0 <= c < pre.climbers@.len(),
            post.climbers@.len() == pre.climbers@.len(),
            forall|k: int|
                0 <= k < pre.climbers@.len() && k != c ==> post.climbers@[k] == pre.climbers@[k],
            Self::claim_of(post.climbers@[c]) is None,
            post.faces@ == pre.faces@,
        ensures
            post.claims_distinct(),
            post.claims_covered(),
    {
    }

    /// Claims stay distinct and covered when climber `c` moves off tile
    /// `t` onto the free-ground candidate `n` of its face: `t` loses its
    /// flag (nobody else claims it), `n` gains it.
    proof fn lemma_claims_after_advance(
        pre: Level,
        post: Level,
        c: int,
        on_tile: ClimberPosition,
        n: (int, int),
    )
        requires
            pre.wf(),
            post.wf(),
            pre.claims_distinct(),
            pre.claims_covered(),
            0 <= c < pre.climbers@.len(),
            pre.climbers@[c].state == (ClimberState::Waiting { on_tile }),
            on_tile.face < pre.faces@.len(),
            pre.faces@[on_tile.face as int].spec_is_valid(on_tile.i as int, on_tile.j as int),
            pre.faces@[on_tile.face as int].next_candidate(on_tile.i as int, on_tile.j as int)
                == Some(n),
            post.climbers@.len() == pre.climbers@.len(),
            forall|k: int|
                0 <= k < pre.climbers@.len() && k != c ==> post.climbers@[k] == pre.climbers@[k],
            Self::claim_of(post.climbers@[c]) == Some(ClimberPosition {
                face: on_tile.face,
                i: n.0 as u16,
                j: n.1 as u16,
            }),
            post.faces@.len() == pre.faces@.len(),
            forall|k: int|
                0 <= k < pre.faces@.len() && k != on_tile.face ==> post.faces@[k]
                    == pre.faces@[k],
            post.faces@[on_tile.face as int].size == pre.faces@[on_tile.face as int].size,
            post.faces@[on_tile.face as int].grid() == crate::face::grid_set(
                crate::face::grid_set(pre.faces@[on_tile.face as int].grid(), on_tile.i as int,
                on_tile.j as int, pre.faces@[on_tile.face as int].tile_at(on_tile.i as int,
                on_tile.j as int).with_occupancy(false)), n.0, n.1,
                pre.faces@[on_tile.face as int].tile_at(n.0, n.1).with_occupancy(true)),
        ensures
            post.claims_distinct(),
            post.claims_covered(),
    {
        let fc = on_tile.face as int;
        let face = pre.faces@[fc];
        let pface = post.faces@[fc];
        let ti = on_tile.i as int;
        let tj = on_tile.j as int;
        let ni = n.0;
        let nj = n.1;
        let nc = ClimberPosition { face: on_tile.face, i: ni as u16, j: nj as u16 };
        assert(face.free_ground(ni, nj));
        assert(nj == tj + 1);
        face.lemma_grid_dims();
        pface.lemma_grid_dims();
        let g0 = face.grid();
        let g1 = crate::face::grid_set(g0, ti, tj, face.tile_at(ti, tj).with_occupancy(false));
        assert(g1.len() == g0.len());
        assert(g1[ni] == g0[ni]);
        // the candidate cell is marked in the post grid
        assert(pface.grid()[ni] == g1[ni].update(nj, face.tile_at(ni, nj).with_occupancy(true)));
        assert(pface.tile_at(ni, nj) == face.tile_at(ni, nj).with_occupancy(true));
        assert(pface.tile_at(ni, nj).is_occupied());
        // a cell neither freed nor marked is unchanged
        assert forall|x: int, y: int|
            0 <= x < face.size.w && 0 <= y < face.size.h && !(x == ti && y == tj) && !(x == ni
                && y == nj) implies #[trigger] pface.tile_at(x, y) == face.tile_at(x, y) by {
            assert(g1[x].len() == g0[x].len());
            if x == ti {
                assert(g1[x] == g0[x].update(tj, face.tile_at(ti, tj).with_occupancy(false)));
                assert(g1[x][y] == g0[x][y]);
            } else {
                assert(g1[x] == g0[x]);
            }
            if x == ni {
                assert(pface.grid()[x] == g1[x].update(nj, face.tile_at(ni,
                    nj).with_occupancy(true)));
                assert(pface.grid()[x][y] == g1[x][y]);
            } else {
                assert(pface.grid()[x] == g1[x]);
            }
        }
        // no other climber claims the candidate: a claimed tile is
        // occupied or without ground, the candidate is neither
        assert forall|o: int|
            0 <= o < pre.climbers@.len() && o != c implies match Self::claim_of(
            #[trigger] pre.climbers@[o]) {
            Some(u) => u != nc && u != on_tile,
            None => true,
        } by {
            assert(pre.climber_wf(pre.climbers@[o]));
            match Self::claim_of(pre.climbers@[o]) {
                Some(u) => {
                    if u == nc {
                        assert(face.tile_at(ni, nj).is_occupied() || !face.ground(ni, nj));
                        assert(false);
                    }
                },
                None => {},
            }
        }
        assert forall|a: int, b: int|
            0 <= a < post.climbers@.len() && 0 <= b < post.climbers@.len() && a != b implies match (
        Self::claim_of(#[trigger] post.climbers@[a]), Self::claim_of(
            #[trigger] post.climbers@[b])) {
            (Some(t), Some(u)) => t != u,
            _ => true,
        } by {
            if a != c && b != c {
                assert(post.climbers@[a] == pre.climbers@[a]);
                assert(post.climbers@[b] == pre.climbers@[b]);
            }
        }
        assert forall|k: int|
            0 <= k < post.climbers@.len() implies match Self::claim_of(
            #[trigger] post.climbers@[k]) {
            Some(t) => post.faces@[t.face as int].tile_at(t.i as int, t.j as int).is_occupied()
                || !post.faces@[t.face as int].ground(t.i as int, t.j as int),
            None => true,
        } by {
            if k == c {
                assert(Self::claim_of(post.climbers@[k]) == Some(nc));
            } else {
                assert(post.climbers@[k] == pre.climbers@[k]);
                assert(pre.climber_wf(pre.climbers@[k]));
                match Self::claim_of(pre.climbers@[k]) {
                    Some(u) => {
                        if u.face == on_tile.face {
                            assert(u != on_tile && u != nc);
                            assert(!(u.i as int == ti && u.j as int == tj));
                            assert(!(u.i as int == ni && u.j as int == nj));
                            assert(pface.tile_at(u.i as int, u.j as int) == face.tile_at(
                                u.i as int, u.j as int));
                        } else {
                            assert(post.faces@[u.face as int] == pre.faces@[u.face as int]);
                        }
                    },
                    None => {},
                }
            }
        }
    }

    /// Claims stay distinct and covered when climber `c` finishes on
    /// tile `t`: its claim disappears and only `t` — which nobody else
    /// claims — loses its flag.
    proof fn lemma_claims_after_top(pre: Level, post: Level, c: int, to_tile: ClimberPosition)
        requires
            pre.wf(),
            post.wf(),
            pre.claims_distinct(),
            pre.claims_covered(),
            0 <= c < pre.climbers@.len(),
            pre.climbers@[c].state == (ClimberState::Moving { to_tile }),
            to_tile.face < pre.faces@.len(),
            pre.faces@[to_tile.face as int].spec_is_valid(to_tile.i as int, to_tile.j as int),
            post.climbers@.len() == pre.climbers@.len(),
            forall|k: int|
                0 <= k < pre.climbers@.len() && k != c ==> post.climbers@[k] == pre.climbers@[k],
            Self::claim_of(post.climbers@[c]) is None,
            post.faces@.len() == pre.faces@.len(),
            forall|k: int|
                0 <= k < pre.faces@.len() && k != to_tile.face ==> post.faces@[k]
                    == pre.faces@[k],
            post.faces@[to_tile.face as int].size == pre.faces@[to_tile.face as int].size,
            post.faces@[to_tile.face as int].grid() == crate::face::grid_set(
                pre.faces@[to_tile.face as int].grid(), to_tile.i as int, to_tile.j as int,
                pre.faces@[to_tile.face as int].tile_at(to_tile.i as int,
                to_tile.j as int).with_occupancy(false)),
        ensures
            post.claims_distinct(),
            post.claims_covered(),
    {
        let fc = to_tile.face as int;
        let face = pre.faces@[fc];
        let pface = post.faces@[fc];
        let ti = to_tile.i as int;
        let tj = to_tile.j as int;
        face.lemma_grid_dims();
        pface.lemma_grid_dims();
        let g0 = face.grid();
        assert forall|x: int, y: int|
            0 <= x < face.size.w && 0 <= y < face.size.h && !(x == ti && y == tj) implies
            #[trigger] pface.tile_at(x, y) == face.tile_at(x, y) by {
            if x == ti {
                assert(pface.grid()[x] == g0[x].update(tj, face.tile_at(ti,
                    tj).with_occupancy(false)));
                assert(pface.grid()[x][y] == g0[x][y]);
            } else {
                assert(pface.grid()[x] == g0[x]);
            }
        }
        assert forall|k: int|
            0 <= k < post.climbers@.len() implies match Self::claim_of(
            #[trigger] post.climbers@[k]) {
            Some(t) => post.faces@[t.face as int].tile_at(t.i as int, t.j as int).is_occupied()
                || !post.faces@[t.face as int].ground(t.i as int, t.j as int),
            None => true,
        } by {
            if k != c {
                assert(post.climbers@[k] == pre.climbers@[k]);
                assert(pre.climber_wf(pre.climbers@[k]));
                match Self::claim_of(pre.climbers@[k]) {
                    Some(u) => {
                        if u.face == to_tile.face {
                            assert(u != to_tile);
                            assert(!(u.i as int == ti && u.j as int == tj));
                            assert(pface.tile_at(u.i as int, u.j as int) == face.tile_at(
                                u.i as int, u.j as int));
                        } else {
                            assert(post.faces@[u.face as int] == pre.faces@[u.face as int]);
                        }
                    },
                    None => {},
                }
            }
        }
        assert forall|a: int, b: int|
            0 <= a < post.climbers@.len() && 0 <= b < post.climbers@.len() && a != b implies match (
        Self::claim_of(#[trigger] post.climbers@[a]), Self::claim_of(
            #[trigger] post.climbers@[b])) {
            (Some(t), Some(u)) => t != u,
            _ => true,
        } by {
            if a != c && b != c {
                assert(post.climbers@[a] == pre.climbers@[a]);
                assert(post.climbers@[b] == pre.climbers@[b]);
            }
        }
    }

    /// Claims stay distinct and covered when climber `c` lands on a
    /// free cell `(ci, cj)` of its face: the cell gains the flag, and by
    /// the freeness premise nobody else claims it.
    proof fn lemma_claims_after_landing(
        pre: Level,
        post: Level,
        c: int,
        on_face: usize,
        ci: int,
        cj: int,
    )
        requires
            pre.wf(),
            post.wf(),
            pre.claims_distinct(),
            pre.claims_covered(),
            0 <= c < pre.climbers@.len(),
            Self::claim_of(pre.climbers@[c]) is None,
            on_face < pre.faces@.len(),
            pre.faces@[on_face as int].ground(ci, cj),
            !pre.faces@[on_face as int].tile_at(ci, cj).is_occupied(),
            post.climbers@.len() == pre.climbers@.len(),
            forall|k: int|
                0 <= k < pre.climbers@.len() && k != c ==> post.climbers@[k] == pre.climbers@[k],
            Self::claim_of(post.climbers@[c]) == Some(ClimberPosition {
                face: on_face,
                i: ci as u16,
                j: cj as u16,
            }),
            post.faces@.len() == pre.faces@.len(),
            forall|k: int|
                0 <= k < pre.faces@.len() && k != on_face ==> post.faces@[k] == pre.faces@[k],
            post.faces@[on_face as int].size == pre.faces@[on_face as int].size,
            post.faces@[on_face as int].grid() == crate::face::grid_set(
                pre.faces@[on_face as int].grid(), ci, cj, pre.faces@[on_face as int].tile_at(ci,
                cj).with_occupancy(true)),
        ensures
            post.claims_distinct(),
            post.claims_covered(),
    {
        let fc = on_face as int;
        let face = pre.faces@[fc];
        let pface = post.faces@[fc];
        let lc = ClimberPosition { face: on_face, i: ci as u16, j: cj as u16 };
        face.lemma_grid_dims();
        pface.lemma_grid_dims();
        let g0 = face.grid();
        assert(pface.grid()[ci] == g0[ci].update(cj, face.tile_at(ci, cj).with_occupancy(true)));
        assert(pface.tile_at(ci, cj) == face.tile_at(ci, cj).with_occupancy(true));
        assert(pface.tile_at(ci, cj).is_occupied());
        assert forall|x: int, y: int|
            0 <= x < face.size.w && 0 <= y < face.size.h && !(x == ci && y == cj) implies
            #[trigger] pface.tile_at(x, y) == face.tile_at(x, y) by {
            if x == ci {
                assert(pface.grid()[x][y] == g0[x][y]);
            } else {
                assert(pface.grid()[x] == g0[x]);
            }
        }
        // nobody else claims the landing cell: it has unoccupied ground
        assert forall|o: int|
            0 <= o < pre.climbers@.len() && o != c implies match Self::claim_of(
            #[trigger] pre.climbers@[o]) {
            Some(u) => u != lc,
            None => true,
        } by {
            assert(pre.climber_wf(pre.climbers@[o]));
            match Self::claim_of(pre.climbers@[o]) {
                Some(u) => {
                    if u == lc {
                        assert(face.tile_at(ci, cj).is_occupied() || !face.ground(ci, cj));
                        assert(false);
                    }
                },
                None => {},
            }
        }
        assert forall|a: int, b: int|
            0 <= a < post.climbers@.len() && 0 <= b < post.climbers@.len() && a != b implies match (
        Self::claim_of(#[trigger] post.climbers@[a]), Self::claim_of(
            #[trigger] post.climbers@[b])) {
            (Some(t), Some(u)) => t != u,
            _ => true,
        } by {
            if a != c && b != c {
                assert(post.climbers@[a] == pre.climbers@[a]);
                assert(post.climbers@[b] == pre.climbers@[b]);
            }
        }
        assert forall|k: int|
            0 <= k < post.climbers@.len() implies match Self::claim_of(
            #[trigger] post.climbers@[k]) {
            Some(t) => post.faces@[t.face as int].tile_at(t.i as int, t.j as int).is_occupied()
                || !post.faces@[t.face as int].ground(t.i as int, t.j as int),
            None => true,
        } by {
            if k == c {
                assert(Self::claim_of(post.climbers@[k]) == Some(lc));
            } else {
                assert(post.climbers@[k] == pre.climbers@[k]);
                assert(pre.climber_wf(pre.climbers@[k]));
                match Self::claim_of(pre.climbers@[k]) {
                    Some(u) => {
                        if u.face == on_face {
                            assert(u != lc);
                            assert(!(u.i as int == ci && u.j as int == cj));
                            assert(pface.tile_at(u.i as int, u.j as int) == face.tile_at(
                                u.i as int, u.j as int));
                        } else {
                            assert(post.faces@[u.face as int] == pre.faces@[u.face as int]);
                        }
                    },
                    None => {},
                }
            }
        }
    }

    /// Law: rod toggles keep a tile to at most one climber. A toggle
    /// changes no climber, so claims stay pairwise distinct; and claimed
    /// tiles stay unavailable to the search, because the rod's own cell
    /// becomes `Void` (no ground) while the mirrored cell gains an
    /// unoccupied rod — which is harmless unless a climber still claims
    /// that mirrored cell. A rod toggled back beneath a climber that
    /// still waits on its lost tile would re-create ground there without
    /// the occupancy flag; that input is left out below.
    pub proof fn lemma_claims_after_rod_toggle(pre: Level, post: Level, rod: MovableRod)
        requires
            pre.wf(),
            post.wf(),
            pre.claims_distinct(),
            pre.claims_covered(),
            rod.face < pre.faces@.len(),
            rod.opposite_face < pre.faces@.len(),
            rod.face != rod.opposite_face,
            pre.faces@[rod.face as int].spec_is_valid(rod.position.i as int, rod.position.j as int),
            pre.faces@[rod.opposite_face as int].size == pre.faces@[rod.face as int].size,
            post.climbers@ == pre.climbers@,
            post.faces@.len() == pre.faces@.len(),
            forall|k: int|
                0 <= k < pre.faces@.len() && k != rod.face && k != rod.opposite_face
                    ==> post.faces@[k] == pre.faces@[k],
            post.faces@[rod.face as int].size == pre.faces@[rod.face as int].size,
            post.faces@[rod.opposite_face as int].size == pre.faces@[rod.opposite_face as int].size,
            post.faces@[rod.face as int].grid() == crate::face::grid_set(
                pre.faces@[rod.face as int].grid(), rod.position.i as int, rod.position.j as int,
                TileType::Void),
            post.faces@[rod.opposite_face as int].grid() == crate::face::grid_set(
                pre.faces@[rod.opposite_face as int].grid(), rod.position.i as int,
                rod.position.j as int, TileType::MovableRod(false)),
            forall|k: int|
                0 <= k < pre.climbers@.len() ==> match Self::claim_of(#[trigger] pre.climbers@[k]) {
                    Some(u) => !(u.face == rod.opposite_face && u.i == rod.position.i && u.j
                        == rod.position.j),
                    None => true,
                },
        ensures
            post.claims_distinct(),
            post.claims_covered(),
    {
        let rf = rod.face as int;
        let ro = rod.opposite_face as int;
        let i = rod.position.i as int;
        let j = rod.position.j as int;
        let facef = pre.faces@[rf];
        let faceo = pre.faces@[ro];
        let pfacef = post.faces@[rf];
        let pfaceo = post.faces@[ro];
        assert(facef.wf());
        assert(faceo.wf());
        assert(pfacef.wf());
        assert(pfaceo.wf());
        facef.lemma_grid_dims();
        faceo.lemma_grid_dims();
        pfacef.lemma_grid_dims();
        pfaceo.lemma_grid_dims();
        assert(pfacef.grid()[i] == facef.grid()[i].update(j, TileType::Void));
        assert(pfacef.grid()[i][j] == TileType::Void);
        assert(pfacef.tile_at(i, j) == TileType::Void);
        assert forall|x: int, y: int|
            0 <= x < facef.size.w && 0 <= y < facef.size.h && !(x == i && y == j) implies
            #[trigger] pfacef.tile_at(x, y) == facef.tile_at(x, y) by {
            if x == i {
                assert(pfacef.grid()[x][y] == facef.grid()[x][y]);
            } else {
                assert(pfacef.grid()[x] == facef.grid()[x]);
            }
        }
        assert forall|x: int, y: int|
            0 <= x < faceo.size.w && 0 <= y < faceo.size.h && !(x == i && y == j) implies
            #[trigger] pfaceo.tile_at(x, y) == faceo.tile_at(x, y) by {
            if x == i {
                assert(pfaceo.grid()[x][y] == faceo.grid()[x][y]);
            } else {
                assert(pfaceo.grid()[x] == faceo.grid()[x]);
            }
        }
        assert forall|k: int|
            0 <= k < post.climbers@.len() implies match Self::claim_of(
            #[trigger] post.climbers@[k]) {
            Some(u) => post.faces@[u.face as int].tile_at(u.i as int, u.j as int).is_occupied()
                || !post.faces@[u.face as int].ground(u.i as int, u.j as int),
            None => true,
        } by {
            assert(post.climbers@[k] == pre.climbers@[k]);
            assert(pre.climber_wf(pre.climbers@[k]));
            match Self::claim_of(pre.climbers@[k]) {
                Some(u) => {
                    if u.face as int == rf {
                        if u.i as int == i && u.j as int == j {
                            assert(!pfacef.ground(i, j));
                        } else {
                            assert(pfacef.tile_at(u.i as int, u.j as int) == facef.tile_at(
                                u.i as int, u.j as int));
                        }
                    } else if u.face as int == ro {
                        assert(!(u.i == rod.position.i && u.j == rod.position.j));
                        assert(pfaceo.tile_at(u.i as int, u.j as int) == faceo.tile_at(u.i as int,
                            u.j as int));
                    } else {
                        assert(post.faces@[u.face as int] == pre.faces@[u.face as int]);
                    }
                },
                None => {},
            }
        }
    }

    /// The reached-top events among a tick round's per-climber results,
    /// in climber order.
    pub open spec fn collect_events(rs: Seq<Option<ClimberEvent>>) -> Seq<ClimberEvent>
        decreases rs.len(),
    {
        if rs.len() == 0 {
            Seq::empty()
        } else {
            let rest = Self::collect_events(rs.drop_last());
            match rs.last() {
                Some(e) => rest.push(e),
                None => rest,
            }
        }
    }

    /// One whole tick round: starting from `pre`, climbers `0, 1, ...`
    /// tick in index order, each step related to the next intermediate
    /// level by [`Level::tick_rel`], ending in `post`. Since `tick_rel`
    /// is deterministic, `pre` and `motions` fix `post` and the results.
    pub open spec fn chained_ticks(
        pre: Level,
        post: Level,
        motions: Seq<bool>,
        mids: Seq<Level>,
        rs: Seq<Option<ClimberEvent>>,
    ) -> bool {
        &&& mids.len() == pre.climbers@.len() + 1
        &&& rs.len() == pre.climbers@.len()
        &&& mids[0] == pre
        &&& mids[mids.len() - 1] == post
        &&& forall|k: int|
            0 <= k < rs.len() ==> Self::tick_rel(mids[k], mids[k + 1], k, motions[k], Ok(
                #[trigger] rs[k]))
    }

    /// A tick round stopped by pylon exhaustion at climber `k`: the
    /// climbers before `k` have ticked, each step related to the next
    /// intermediate level by [`Level::tick_rel`], and the failing tick
    /// changes nothing, so it relates the stopped level to itself.
    pub open spec fn chained_ticks_stopped(
        pre: Level,
        post: Level,
        motions: Seq<bool>,
        mids: Seq<Level>,
        rs: Seq<Option<ClimberEvent>>,
        k: int,
        e: SimError,
    ) -> bool {
        &&& 0 <= k < pre.climbers@.len()
        &&& mids.len() == k + 1
        &&& rs.len() == k
        &&& mids[0] == pre
        &&& mids[k] == post
        &&& forall|m: int|
            0 <= m < k ==> Self::tick_rel(mids[m], mids[m + 1], m, motions[m], Ok(
                #[trigger] rs[m]))
        &&& Self::tick_rel(post, post, k, motions[k], Err(e))
    }

    /// A tick that fails leaves the level untouched: the only failing
    /// branch of [`Level::tick_rel`] reports pylon exhaustion before
    /// any change, so the relation also holds from the post level to
    /// itself.
    pub proof fn lemma_tick_rel_err_unchanged(
        pre: Level,
        post: Level,
        c: int,
        motion_complete: bool,
        e: SimError,
    )
        requires
            Self::tick_rel(pre, post, c, motion_complete, Err(e)),
        ensures
            post == pre,
            Self::tick_rel(post, post, c, motion_complete, Err(e)),
    {
        match pre.climbers@[c].state {
            ClimberState::Waiting { on_tile } => {
                assert(false);
            },
            ClimberState::Moving { to_tile } => {
                let face = pre.faces@[to_tile.face as int];
                assert(motion_complete && to_tile.j + 1 >= face.size.h);
            },
            ClimberState::Falling { on_face } => {
                assert(false);
            },
            ClimberState::Saved => {
                assert(false);
            },
            ClimberState::Dead => {
                assert(false);
            },
        }
    }

    /// Advances every climber by one simulation tick, in index order.
    ///
    /// `motion_complete[k]` is the presentation layer's report on
    /// climber `k`'s current relocation. Returns the `ReachedTop` events
    /// of the climbers that finished this tick: the powered-pylon count
    /// grows by exactly one per event and never otherwise, so it is
    /// monotonically non-decreasing. Terminal climbers (`Saved`, `Dead`)
    /// are never ticked into another state.
    ///
    /// Stops at the first climber that finds its pillar out of pylons
    /// (see [`Level::tick_climber`]); climbers before it have ticked.
    pub fn update_climbers(&mut self, motion_complete: &Vec<bool>) -> (r: Result<
        Vec<ClimberEvent>,
        SimError,
    >)
        requires
            old(self).wf(),
            motion_complete@.len() == old(self).climbers@.len(),
        ensures
            final(self).wf(),
            final(self).climbers@.len() == old(self).climbers@.len(),
            final(self).rods@ == old(self).rods@,
            final(self).faces@.len() == old(self).faces@.len(),
            forall|k: int|
                0 <= k < old(self).faces@.len() ==> (#[trigger] final(self).faces@[k]).direction
                    == old(self).faces@[k].direction && final(self).faces@[k].size == old(
                    self,
                ).faces@[k].size && final(self).faces@[k].origin == old(self).faces@[k].origin,
            final(self).pylons@.len() == old(self).pylons@.len(),
            final(self).completion.pylons_count == old(self).completion.pylons_count,
            final(self).completion.powered_pylons_count >= old(
                self,
            ).completion.powered_pylons_count,
            forall|k: int|
                0 <= k < old(self).climbers@.len() && old(self).climbers@[k].state
                    == ClimberState::Saved ==> final(self).climbers@[k].state
                    == ClimberState::Saved,
            forall|k: int|
                0 <= k < old(self).climbers@.len() && old(self).climbers@[k].state
                    == ClimberState::Dead ==> final(self).climbers@[k].state == ClimberState::Dead,
            r matches Ok(ev) ==> final(self).completion.powered_pylons_count == old(
                self,
            ).completion.powered_pylons_count + ev@.len() && forall|k: int|
                0 <= k < ev@.len() ==> ev@[k] == ClimberEvent::ReachedTop,
            r matches Ok(ev) ==> exists|mids: Seq<Level>, rs: Seq<Option<ClimberEvent>>|
                Self::chained_ticks(*old(self), *final(self), motion_complete@, mids, rs) && ev@
                    == Self::collect_events(rs),
            r matches Err(e) ==> exists|mids: Seq<Level>, rs: Seq<Option<ClimberEvent>>, k: int|
                Self::chained_ticks_stopped(*old(self), *final(self), motion_complete@, mids, rs,
                    k, e),
    {
        let mut events: Vec<ClimberEvent> = Vec::new();
        let ghost mut mids: Seq<Level> = seq![*old(self)];
        let ghost mut rs: Seq<Option<ClimberEvent>> = Seq::empty();
        let mut i: usize = 0;
        while i < self.climbers.len()
            invariant
                self.wf(),
                old(self).wf(),
                0 <= i <= self.climbers@.len(),
                mids.len() == i + 1,
                rs.len() == i as int,
                mids[0] == *old(self),
                mids[mids.len() - 1] == *self,
                forall|k: int|
                    0 <= k < i ==> Self::tick_rel(mids[k], mids[k + 1], k, motion_complete@[k], Ok(
                        #[trigger] rs[k])),
                events@ == Self::collect_events(rs),
                motion_complete@.len() == old(self).climbers@.len(),
                self.climbers@.len() == old(self).climbers@.len(),
                self.rods@ == old(self).rods@,
                self.faces@.len() == old(self).faces@.len(),
                forall|k: int|
                    0 <= k < old(self).faces@.len() ==> (#[trigger] self.faces@[k]).direction
                        == old(self).faces@[k].direction && self.faces@[k].size
                        == old(self).faces@[k].size && self.faces@[k].origin
                        == old(self).faces@[k].origin,
                self.pylons@.len() == old(self).pylons@.len(),
                self.completion.pylons_count == old(self).completion.pylons_count,
                self.completion.powered_pylons_count == old(self).completion.powered_pylons_count
                    + events@.len(),
                forall|k: int| 0 <= k < events@.len() ==> events@[k] == ClimberEvent::ReachedTop,
                forall|k: int|
                    0 <= k < old(self).climbers@.len() && old(self).climbers@[k].state
                        == ClimberState::Saved ==> (#[trigger] self.climbers@[k]).state
                        == ClimberState::Saved,
                forall|k: int|
                    0 <= k < old(self).climbers@.len() && old(self).climbers@[k].state
                        == ClimberState::Dead ==> (#[trigger] self.climbers@[k]).state
                        == ClimberState::Dead,
            decreases self.climbers@.len() - i,
        {
            let done = motion_complete[i];
            let ghost rs0 = rs;
            match self.tick_climber(i, done) {
                Ok(Some(ev)) => {
                    events.push(ev);
                    proof {
                        rs = rs.push(Some(ev));
                        assert(rs.drop_last() =~= rs0);
                    }
                },
                Ok(None) => {
                    proof {
                        rs = rs.push(None);
                        assert(rs.drop_last() =~= rs0);
                    }
                },
                Err(e) => {
                    proof {
                        Self::lemma_tick_rel_err_unchanged(mids[i as int], *self, i as int, done,
                            e);
                        assert(Self::chained_ticks_stopped(*old(self), *self, motion_complete@,
                            mids, rs, i as int, e));
                    }
                    return Err(e);
                },
            }
            proof {
                mids = mids.push(*self);
            }
            i = i + 1;
        }
        proof {
            assert(Self::chained_ticks(*old(self), *self, motion_complete@, mids, rs));
        }
        Ok(events)
    }

    /// Returns the compass direction of the face at `face_index`.
    pub fn get_face_direction(&self, face_index: usize) -> (r: FaceDirection)
        requires
            face_index < self.faces@.len(),
        ensures
            r == self.faces@[face_index as int].direction,
    {
        self.faces[face_index].direction
    }

    /// Re-establishes the level invariant after a tick branch that only
    /// rewrote the climber at `c`, leaving every arena but the climbers
    /// and the phase untouched.
    proof fn lemma_tick_unchanged_faces(&self, pre: Level, c: int)
        requires
            pre.wf(),
            0 <= c < pre.climbers@.len(),
            self.faces@ == pre.faces@,
            self.rods@ == pre.rods@,
            self.pillars@ == pre.pillars@,
            self.pylons@ == pre.pylons@,
            self.completion == pre.completion,
            self.climbers@.len() == pre.climbers@.len(),
            forall|k: int|
                0 <= k < pre.climbers@.len() && k != c ==> #[trigger] self.climbers@[k]
                    == pre.climbers@[k],
            self.climber_wf(self.climbers@[c]),
            self.phase == pre.phase || self.phase == GameState::Lost,
        ensures
            self.wf(),
    {
        self.lemma_rods_wf_same_kinds(pre);
        self.lemma_climbers_wf_same_geometry(pre, c);
    }

    /// Re-establishes the level invariant after a tick branch that
    /// rewrote the climber at `c` and only occupancy flags on face `f`.
    proof fn lemma_tick_occupancy_update(&self, pre: Level, c: int, f: int)
        requires
            pre.wf(),
            0 <= c < pre.climbers@.len(),
            0 <= f < pre.faces@.len(),
            self.faces@.len() == pre.faces@.len(),
            forall|k: int|
                0 <= k < pre.faces@.len() && k != f ==> #[trigger] self.faces@[k]
                    == pre.faces@[k],
            self.faces@[f].wf(),
            self.faces@[f].direction == pre.faces@[f].direction,
            self.faces@[f].size == pre.faces@[f].size,
            self.faces@[f].origin == pre.faces@[f].origin,
            forall|x: int, y: int|
                0 <= x < pre.faces@[f].size.w && 0 <= y < pre.faces@[f].size.h ==> (
                #[trigger] self.faces@[f].tile_at(x, y)).same_kind(pre.faces@[f].tile_at(x, y)),
            self.rods@ == pre.rods@,
            self.pillars@ == pre.pillars@,
            self.pylons@ == pre.pylons@,
            self.completion == pre.completion,
            self.climbers@.len() == pre.climbers@.len(),
            forall|k: int|
                0 <= k < pre.climbers@.len() && k != c ==> #[trigger] self.climbers@[k]
                    == pre.climbers@[k],
            self.climber_wf(self.climbers@[c]),
            self.phase == pre.phase,
        ensures
            self.wf(),
    {
        assert forall|k: int, x: int, y: int|
            0 <= k < pre.faces@.len() && 0 <= x < pre.faces@[k].size.w && 0 <= y
                < pre.faces@[k].size.h implies (#[trigger] self.faces@[k].tile_at(x,
            y)).same_kind(pre.faces@[k].tile_at(x, y)) by {
            if k != f {
                assert(self.faces@[k] == pre.faces@[k]);
            }
        }
        self.lemma_rods_wf_same_kinds(pre);
        self.lemma_climbers_wf_same_geometry(pre, c);
    }

    /// Re-establishes the level invariant after the saved-climber
    /// branch: occupancy cleared on face `f`, one pylon popped from
    /// pillar `p` and powered, the powered count incremented, the phase
    /// possibly advanced to `Won`, the climber at `c` saved.
    proof fn lemma_tick_saved(&self, pre: Level, c: int, f: int, p: int)
        requires
            pre.wf(),
            0 <= c < pre.climbers@.len(),
            0 <= f < pre.faces@.len(),
            0 <= p < pre.pillars@.len(),
            self.faces@.len() == pre.faces@.len(),
            forall|k: int|
                0 <= k < pre.faces@.len() && k != f ==> #[trigger] self.faces@[k]
                    == pre.faces@[k],
            self.faces@[f].wf(),
            self.faces@[f].direction == pre.faces@[f].direction,
            self.faces@[f].size == pre.faces@[f].size,
            self.faces@[f].origin == pre.faces@[f].origin,
            forall|x: int, y: int|
                0 <= x < pre.faces@[f].size.w && 0 <= y < pre.faces@[f].size.h ==> (
                #[trigger] self.faces@[f].tile_at(x, y)).same_kind(pre.faces@[f].tile_at(x, y)),
            self.rods@ == pre.rods@,
            self.pillars@.len() == pre.pillars@.len(),
            forall|k: int|
                0 <= k < pre.pillars@.len() && k != p ==> #[trigger] self.pillars@[k]
                    == pre.pillars@[k],
            self.pillars@[p].unpowered_pylons.all_below(pre.pylons@.len() as int),
            self.pillars@[p].unpowered_pylons.total()
                == pre.pillars@[p].unpowered_pylons.total() - 1,
            self.pylons@.len() == pre.pylons@.len(),
            self.completion.pylons_count == pre.completion.pylons_count,
            self.completion.powered_pylons_count == pre.completion.powered_pylons_count + 1,
            self.phase == GameState::Won ==> self.completion.spec_is_won(),
            self.climbers@.len() == pre.climbers@.len(),
            forall|k: int|
                0 <= k < pre.climbers@.len() && k != c ==> #[trigger] self.climbers@[k]
                    == pre.climbers@[k],
            self.climber_wf(self.climbers@[c]),
        ensures
            self.wf(),
    {
        assert forall|k: int, x: int, y: int|
            0 <= k < pre.faces@.len() && 0 <= x < pre.faces@[k].size.w && 0 <= y
                < pre.faces@[k].size.h implies (#[trigger] self.faces@[k].tile_at(x,
            y)).same_kind(pre.faces@[k].tile_at(x, y)) by {
            if k != f {
                assert(self.faces@[k] == pre.faces@[k]);
            }
        }
        self.lemma_rods_wf_same_kinds(pre);
        self.lemma_climbers_wf_same_geometry(pre, c);
        assert(self.pillars@ =~= pre.pillars@.update(p, self.pillars@[p]));
        Self::lemma_pooled_pylons_update(pre.pillars@, p, self.pillars@[p]);
        assert forall|k: int|
            0 <= k < self.pillars@.len() implies (#[trigger] self.pillars@[k]).unpowered_pylons.all_below(
            self.pylons@.len() as int,
        ) by {
            if k != p {
                assert(self.pillars@[k] == pre.pillars@[k]);
            }
        }
    }

    /// Toggling a rod preserves every part of the level invariant: the
    /// toggled rod's mirrored cells swap roles, every other rod's cells
    /// are untouched because rods never share a mirrored cell, and no
    /// face geometry, climber, pool or counter changes.
    proof fn lemma_activate_rod_preserves_wf(&self, pre: Level, r: int)
        requires
            pre.wf(),
            0 <= r < pre.rods@.len(),
            !pre.rods@[r].in_flight,
            self.rods@ == pre.rods@.update(r, MovableRod {
                face: pre.rods@[r].opposite_face,
                opposite_face: pre.rods@[r].face,
                position: pre.rods@[r].position,
                in_flight: true,
            }),
            self.faces@.len() == pre.faces@.len(),
            self.faces@[pre.rods@[r].face as int].grid() == crate::face::grid_set(
                pre.faces@[pre.rods@[r].face as int].grid(), pre.rods@[r].position.i as int,
                pre.rods@[r].position.j as int, crate::TileType::Void),
            self.faces@[pre.rods@[r].opposite_face as int].grid() == crate::face::grid_set(
                pre.faces@[pre.rods@[r].opposite_face as int].grid(),
                pre.rods@[r].position.i as int, pre.rods@[r].position.j as int,
                crate::TileType::MovableRod(false)),
            forall|k: int|
                0 <= k < pre.faces@.len() && k != pre.rods@[r].face && k != pre.rods@[
                    r
                ].opposite_face ==> self.faces@[k] == pre.faces@[k],
            forall|k: int|
                0 <= k < pre.faces@.len() ==> (#[trigger] self.faces@[k]).wf()
                    && self.faces@[k].direction == pre.faces@[k].direction && self.faces@[k].size
                    == pre.faces@[k].size && self.faces@[k].origin == pre.faces@[k].origin,
            self.pillars@ == pre.pillars@,
            self.pylons@ == pre.pylons@,
            self.climbers@ == pre.climbers@,
            self.completion == pre.completion,
            self.phase == pre.phase,
        ensures
            self.wf(),
    {
        let rod = pre.rods@[r];
        let i = rod.position.i as int;
        let j = rod.position.j as int;
        assert(pre.rod_wf(rod));
        let rf = rod.face as int;
        let ro = rod.opposite_face as int;
        assert forall|k: int| 0 <= k < self.rods@.len() implies self.rod_wf(
            #[trigger] self.rods@[k],
        ) by {
            assert(pre.rod_wf(pre.rods@[k]));
            let rk = self.rods@[k];
            if k == r {
                assert(self.faces@[ro].grid() == crate::face::grid_set(pre.faces@[ro].grid(), i, j,
                    crate::TileType::MovableRod(false)));
                assert(pre.faces@[ro].wf());
                assert(pre.faces@[ro].grid().len() == pre.faces@[ro].tiles@.len());
                assert(self.faces@[ro].grid()[i] == pre.faces@[ro].grid()[i].update(j,
                    crate::TileType::MovableRod(false)));
                assert(self.faces@[ro].tile_at(i, j) == self.faces@[ro].grid()[i][j]);
                assert(self.faces@[ro].tile_at(i, j) == crate::TileType::MovableRod(false));
                assert(self.faces@[rf].tile_at(i, j) == self.faces@[rf].grid()[i][j]);
                assert(self.faces@[rf].tile_at(i, j) == crate::TileType::Void);
                assert(self.rod_wf(rk));
            } else {
                let prk = pre.rods@[k];
                assert(rk == prk);
                assert(Self::rods_independent(prk, rod));
                let ki = prk.position.i as int;
                let kj = prk.position.j as int;
                let kf = prk.face as int;
                let ko = prk.opposite_face as int;
                assert(pre.faces@[kf].wf());
                assert(pre.faces@[ko].wf());
                assert forall|m: int| (m == kf || m == ko) implies #[trigger] self.faces@[m].tile_at(
                    ki,
                    kj,
                ) == pre.faces@[m].tile_at(ki, kj) by {
                    if m == rf || m == ro {
                        // same mirrored face as the toggled rod, so the
                        // coordinates must differ
                        assert(prk.position != rod.position);
                        assert(ki != i || kj != j);
                        assert(self.faces@[m].grid()[ki] == (if ki == i {
                            pre.faces@[m].grid()[ki].update(j, self.faces@[m].grid()[i][j])
                        } else {
                            pre.faces@[m].grid()[ki]
                        }));
                        assert(self.faces@[m].grid()[ki][kj] == pre.faces@[m].grid()[ki][kj]);
                        assert(self.faces@[m].tile_at(ki, kj) == self.faces@[m].grid()[ki][kj]);
                        assert(pre.faces@[m].tile_at(ki, kj) == pre.faces@[m].grid()[ki][kj]);
                    } else {
                        assert(self.faces@[m] == pre.faces@[m]);
                    }
                }
                assert(self.rod_wf(rk));
            }
        }
        assert forall|a: int, b: int|
            0 <= a < self.rods@.len() && 0 <= b < self.rods@.len() && a != b implies
            Self::rods_independent(#[trigger] self.rods@[a], #[trigger] self.rods@[b]) by {
            assert(Self::rods_independent(pre.rods@[a], pre.rods@[b]));
        }
        assert forall|k: int| 0 <= k < self.climbers@.len() implies self.climber_wf(
            #[trigger] self.climbers@[k],
        ) by {
            assert(pre.climber_wf(pre.climbers@[k]));
        }
    }
}

} // verus!
