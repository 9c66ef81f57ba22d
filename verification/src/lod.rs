//! Levels of detail a chunk can be generated at.

use vstd::prelude::*;

verus! {

#[derive(Clone, Copy, Debug, PartialEq, Eq, PartialOrd, Ord, Hash, Structural)]
pub enum Lod {
    /// Every voxel.
    Full,
    /// One material per brick cell.
    Cell,
    /// One material per 2 m node.
    Node2,
    /// One material per 8 m node.
    Node8,
}

impl Lod {
    /// 0 for the finest, rising as detail falls.
    pub open spec fn level(self) -> int {
        match self {
            Lod::Full => 0,
            Lod::Cell => 1,
            Lod::Node2 => 2,
            Lod::Node8 => 3,
        }
    }

    pub fn rank(self) -> (r: u8)
        ensures
            r == self.level(),
            r < 4,
    {
        match self {
            Lod::Full => 0,
            Lod::Cell => 1,
            Lod::Node2 => 2,
            Lod::Node8 => 3,
        }
    }

    /// The coarser of two levels.
    pub fn coarser(self, o: Lod) -> (r: Lod)
        ensures
            r == if o.level() > self.level() {
                o
            } else {
                self
            },
            r == self || r == o,
            self is Node8 || o is Node8 ==> r is Node8,
            r is Full <==> self is Full && o is Full,
    {
        if o.rank() > self.rank() {
            o
        } else {
            self
        }
    }
}

/// Detail falls from full through cells and nodes of two metres to nodes of
/// eight, and no two levels are the same.
pub proof fn levels_fall_in_order(a: Lod, b: Lod)
    ensures
        a.level() == b.level() <==> a == b,
        a is Full ==> a.level() <= b.level(),
        a is Node8 ==> b.level() <= a.level(),
        a is Cell && b is Node2 ==> a.level() < b.level(),
        0 <= a.level() <= 3,
{
}

} // verus!
