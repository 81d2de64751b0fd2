//! Pillars and their pools of not-yet-powered pylons.
//!
//! Each pillar keeps, per compass direction, a pool of unpowered pylons
//! (anonymous slots, stored as indices into the level's pylon arena).
//! Pylons are consumed as climbers are saved and never re-added.

use vstd::prelude::*;

verus! {

use crate::data::FaceDirection;

/// Per-direction pools of unpowered pylons of one pillar.
#[derive(Clone, Debug)]
pub struct PylonPools {
    pub west: Vec<usize>,
    pub north: Vec<usize>,
    pub east: Vec<usize>,
    pub south: Vec<usize>,
}

impl PylonPools {
    /// The pool serving the given face direction.
    pub open spec fn pool(&self, dir: FaceDirection) -> Seq<usize> {
        match dir {
            FaceDirection::West => self.west@,
            FaceDirection::North => self.north@,
            FaceDirection::East => self.east@,
            FaceDirection::South => self.south@,
        }
    }

    /// Total number of pylons still pooled.
    pub open spec fn total(&self) -> int {
        self.west@.len() + self.north@.len() + self.east@.len() + self.south@.len() as int
    }

    /// Every pooled pylon index is below `n`.
    pub open spec fn all_below(&self, n: int) -> bool {
        &&& forall|k: int| 0 <= k < self.west@.len() ==> (#[trigger] self.west@[k]) < n
        &&& forall|k: int| 0 <= k < self.north@.len() ==> (#[trigger] self.north@[k]) < n
        &&& forall|k: int| 0 <= k < self.east@.len() ==> (#[trigger] self.east@[k]) < n
        &&& forall|k: int| 0 <= k < self.south@.len() ==> (#[trigger] self.south@[k]) < n
    }
}

/// Per-face data a pillar tracks besides its pylon pools.
#[derive(Clone, Copy, Debug, PartialEq, Eq, Structural)]
pub struct PillarFace {}

/// A pillar: the owner of four faces and of the per-direction pools of
/// unpowered pylons awarded to climbers that finish climbing.
#[derive(Clone, Debug)]
pub struct Pillar {
    pub unpowered_pylons: PylonPools,
}

impl Pillar {
    /// The pool a saved climber's pylon is taken from: the pool of the
    /// climber's own face direction when it still holds a pylon, else
    /// the first non-empty pool in the fixed priority order east, west,
    /// south, north; `None` when every pool is empty.
    pub open spec fn chosen_pool_dir(&self, dir: FaceDirection) -> Option<FaceDirection> {
        if self.unpowered_pylons.pool(dir).len() > 0 {
            Some(dir)
        } else if self.unpowered_pylons.east@.len() > 0 {
            Some(FaceDirection::East)
        } else if self.unpowered_pylons.west@.len() > 0 {
            Some(FaceDirection::West)
        } else if self.unpowered_pylons.south@.len() > 0 {
            Some(FaceDirection::South)
        } else if self.unpowered_pylons.north@.len() > 0 {
            Some(FaceDirection::North)
        } else {
            None
        }
    }

    /// `post` is `pre` after exactly the last pylon of the pool under
    /// `d` was taken.
    pub open spec fn popped_one(pre: Pillar, post: Pillar, d: FaceDirection) -> bool {
        &&& pre.unpowered_pylons.pool(d).len() > 0
        &&& post.unpowered_pylons.pool(d) == pre.unpowered_pylons.pool(d).drop_last()
        &&& forall|e: FaceDirection|
            e != d ==> #[trigger] post.unpowered_pylons.pool(e) == pre.unpowered_pylons.pool(e)
    }

    /// Taking one pooled pylon lowers the pool total by one, keeps every
    /// pooled index below any bound the old pools obeyed, and hands out
    /// an index below that bound.
    pub proof fn lemma_popped_one(pre: Pillar, post: Pillar, d: FaceDirection, n: int)
        requires
            Self::popped_one(pre, post, d),
            pre.unpowered_pylons.all_below(n),
        ensures
            post.unpowered_pylons.total() == pre.unpowered_pylons.total() - 1,
            post.unpowered_pylons.all_below(n),
            pre.unpowered_pylons.pool(d).last() < n,
    {
        assert(post.unpowered_pylons.pool(FaceDirection::West)
            == pre.unpowered_pylons.pool(FaceDirection::West) || d == FaceDirection::West);
        assert(post.unpowered_pylons.pool(FaceDirection::North)
            == pre.unpowered_pylons.pool(FaceDirection::North) || d == FaceDirection::North);
        assert(post.unpowered_pylons.pool(FaceDirection::East)
            == pre.unpowered_pylons.pool(FaceDirection::East) || d == FaceDirection::East);
        assert(post.unpowered_pylons.pool(FaceDirection::South)
            == pre.unpowered_pylons.pool(FaceDirection::South) || d == FaceDirection::South);
        match d {
            FaceDirection::West => {
                assert(pre.unpowered_pylons.pool(d).last() == pre.unpowered_pylons.west@.last());
            },
            FaceDirection::North => {
                assert(pre.unpowered_pylons.pool(d).last() == pre.unpowered_pylons.north@.last());
            },
            FaceDirection::East => {
                assert(pre.unpowered_pylons.pool(d).last() == pre.unpowered_pylons.east@.last());
            },
            FaceDirection::South => {
                assert(pre.unpowered_pylons.pool(d).last() == pre.unpowered_pylons.south@.last());
            },
        }
    }

    /// Returns whether any unpowered pylon remains pooled.
    pub fn has_any_pylon(&self) -> (r: bool)
        ensures
            r == (self.unpowered_pylons.total() > 0),
    {
        self.unpowered_pylons.east.len() > 0 || self.unpowered_pylons.west.len() > 0
            || self.unpowered_pylons.south.len() > 0 || self.unpowered_pylons.north.len() > 0
    }

    /// Takes an unpowered pylon pooled under the given direction, if any
    /// remains there. The last pooled pylon of that direction leaves;
    /// every other pool is untouched.
    pub fn get_pylon_from_face(&mut self, dir: &FaceDirection) -> (r: Option<usize>)
        ensures
            forall|d: FaceDirection|
                d != *dir ==> #[trigger] final(self).unpowered_pylons.pool(d)
                    == old(self).unpowered_pylons.pool(d),
            old(self).unpowered_pylons.pool(*dir).len() == 0 ==> r is None
                && final(self).unpowered_pylons.pool(*dir)
                == old(self).unpowered_pylons.pool(*dir),
            old(self).unpowered_pylons.pool(*dir).len() > 0 ==> {
                &&& r == Some(old(self).unpowered_pylons.pool(*dir).last())
                &&& final(self).unpowered_pylons.pool(*dir)
                    == old(self).unpowered_pylons.pool(*dir).drop_last()
            },
    {
        match dir {
            FaceDirection::West => self.unpowered_pylons.west.pop(),
            FaceDirection::North => self.unpowered_pylons.north.pop(),
            FaceDirection::East => self.unpowered_pylons.east.pop(),
            FaceDirection::South => self.unpowered_pylons.south.pop(),
        }
    }

    /// Takes an unpowered pylon from any direction, scanning the pools
    /// in the fixed priority order east, west, south, north. Returns
    /// `None` only when the pillar has no unpowered pylon left.
    pub fn pop_first_available_pylon(&mut self) -> (r: Option<usize>)
        ensures
            old(self).unpowered_pylons.total() == 0 ==> r is None
                && final(self).unpowered_pylons.east@ == old(self).unpowered_pylons.east@
                && final(self).unpowered_pylons.west@ == old(self).unpowered_pylons.west@
                && final(self).unpowered_pylons.south@ == old(self).unpowered_pylons.south@
                && final(self).unpowered_pylons.north@ == old(self).unpowered_pylons.north@,
            old(self).unpowered_pylons.east@.len() > 0 ==> {
                &&& r == Some(old(self).unpowered_pylons.east@.last())
                &&& final(self).unpowered_pylons.east@
                    == old(self).unpowered_pylons.east@.drop_last()
                &&& final(self).unpowered_pylons.west == old(self).unpowered_pylons.west
                &&& final(self).unpowered_pylons.south == old(self).unpowered_pylons.south
                &&& final(self).unpowered_pylons.north == old(self).unpowered_pylons.north
            },
            old(self).unpowered_pylons.east@.len() == 0 && old(self).unpowered_pylons.west@.len()
                > 0 ==> {
                &&& r == Some(old(self).unpowered_pylons.west@.last())
                &&& final(self).unpowered_pylons.west@
                    == old(self).unpowered_pylons.west@.drop_last()
                &&& final(self).unpowered_pylons.east == old(self).unpowered_pylons.east
                &&& final(self).unpowered_pylons.south == old(self).unpowered_pylons.south
                &&& final(self).unpowered_pylons.north == old(self).unpowered_pylons.north
            },
            old(self).unpowered_pylons.east@.len() == 0 && old(self).unpowered_pylons.west@.len()
                == 0 && old(self).unpowered_pylons.south@.len() > 0 ==> {
                &&& r == Some(old(self).unpowered_pylons.south@.last())
                &&& final(self).unpowered_pylons.south@
                    == old(self).unpowered_pylons.south@.drop_last()
                &&& final(self).unpowered_pylons.east == old(self).unpowered_pylons.east
                &&& final(self).unpowered_pylons.west == old(self).unpowered_pylons.west
                &&& final(self).unpowered_pylons.north == old(self).unpowered_pylons.north
            },
            old(self).unpowered_pylons.east@.len() == 0 && old(self).unpowered_pylons.west@.len()
                == 0 && old(self).unpowered_pylons.south@.len() == 0
                && old(self).unpowered_pylons.north@.len() > 0 ==> {
                &&& r == Some(old(self).unpowered_pylons.north@.last())
                &&& final(self).unpowered_pylons.north@
                    == old(self).unpowered_pylons.north@.drop_last()
                &&& final(self).unpowered_pylons.east == old(self).unpowered_pylons.east
                &&& final(self).unpowered_pylons.west == old(self).unpowered_pylons.west
                &&& final(self).unpowered_pylons.south == old(self).unpowered_pylons.south
            },
    {
        if self.unpowered_pylons.east.len() > 0 {
            self.unpowered_pylons.east.pop()
        } else if self.unpowered_pylons.west.len() > 0 {
            self.unpowered_pylons.west.pop()
        } else if self.unpowered_pylons.south.len() > 0 {
            self.unpowered_pylons.south.pop()
        } else if self.unpowered_pylons.north.len() > 0 {
            self.unpowered_pylons.north.pop()
        } else {
            None
        }
    }
}

} // verus!
