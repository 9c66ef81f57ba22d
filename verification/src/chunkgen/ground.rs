//! What each brick cell of a chunk at full detail is, top-down through the
//! tree: an 8 m node wholly in the open, or wholly below the loose surface
//! layer and inside one stratum, is one thing; otherwise its 2 m children are
//! tried, then brick cells, and only cells straddling the surface or a layer
//! boundary are filled voxel by voxel.

use crate::brick::Brick;
use crate::ivec::IVec3;
use crate::key::Key;
use crate::material::MaterialId;
use crate::strata::LayerRef;
use crate::tree::node::{node_cell, Cell};
use crate::tree::{fits, kept_states, ChunkTree};
use vstd::prelude::*;

verus! {

/// Per-chunk samples on the brick grid.
#[derive(Debug)]
pub struct Ground {
    /// Highest surface of each brick column with its cover, `x + z*64`.
    pub over: Vec<Key>,
    /// Top of guaranteed rock of each brick column: lowest surface less soil.
    pub rock: Vec<Key>,
    /// 2 m under that. Layer boundaries below are invisible until someone
    /// digs, and kept at brick-cell resolution until then.
    pub buried: Vec<Key>,
    /// Elevation of each plane between brick cells.
    pub planes: Vec<Key>,
    /// Strata at the bottom of each brick cell, `x + z*64 + y*4096`.
    pub bottoms: Vec<LayerRef>,
    /// Strata just under its top.
    pub tops: Vec<LayerRef>,
    pub sea: Key,
}

/// What a brick cell is.
#[derive(Clone, Copy, Debug, PartialEq, Eq, Structural)]
pub enum Content {
    Air,
    Water,
    Rock(MaterialId),
    /// One material, that at its centre.
    Buried,
    /// Filled voxel by voxel.
    Voxels,
}

/// Place of a brick column.
pub open spec fn col(x: int, z: int) -> int {
    x + z * 64
}

/// Place of a brick cell.
pub open spec fn slot(c: IVec3) -> int {
    c.x + c.z * 64 + c.y * 4096
}

pub fn index(c: IVec3) -> (i: usize)
    requires
        c.within(64),
    ensures
        i == slot(c),
        i < 262144,
{
    (c.x + c.z * 64 + c.y * 4096) as usize
}

/// The lowest corner of the node of edge `n` that holds cell `c`.
pub open spec fn node_min(c: IVec3, n: int) -> IVec3 {
    IVec3 {
        x: (c.x as int / n * n) as i32,
        y: (c.y as int / n * n) as i32,
        z: (c.z as int / n * n) as i32,
    }
}

/// Cell `c` lies in the node of edge `n` at `min`.
pub open spec fn in_cube(c: IVec3, min: IVec3, n: int) -> bool {
    &&& min.x <= c.x < min.x + n
    &&& min.y <= c.y < min.y + n
    &&& min.z <= c.z < min.z + n
}

/// A node's edge, and a corner that a node of that edge can have.
pub open spec fn is_node(min: IVec3, n: int) -> bool {
    &&& n == 1 || n == 4 || n == 16
    &&& min.within(64)
    &&& min.x as int % n == 0 && min.y as int % n == 0 && min.z as int % n == 0
}

impl Ground {
    pub open spec fn wf(&self) -> bool {
        &&& self.over@.len() == 4096
        &&& self.rock@.len() == 4096
        &&& self.buried@.len() == 4096
        &&& self.planes@.len() == 65
        &&& self.bottoms@.len() == 262144
        &&& self.tops@.len() == 262144
    }

    pub open spec fn bottom(&self, x: int, y: int, z: int) -> LayerRef {
        self.bottoms@[x + z * 64 + y * 4096]
    }

    pub open spec fn top(&self, x: int, y: int, z: int) -> LayerRef {
        self.tops@[x + z * 64 + y * 4096]
    }

    /// A node lies over the ground and its cover.
    pub open spec fn above(&self, min: IVec3, n: int) -> bool {
        forall|x: int, z: int|
            min.x <= x < min.x + n && min.z <= z < min.z + n ==> #[trigger] self.over@[col(x, z)]
                <= self.planes@[min.y as int]
    }

    /// A node lies in rock.
    pub open spec fn below(&self, min: IVec3, n: int) -> bool {
        forall|x: int, z: int|
            min.x <= x < min.x + n && min.z <= z < min.z + n ==> self.planes@[min.y + n]
                <= #[trigger] self.rock@[col(x, z)]
    }

    /// A sampled column of a node: both its ends are in stratum `first`.
    pub open spec fn in_stratum(&self, min: IVec3, n: int, dx: int, dz: int, first: LayerRef) -> bool {
        &&& self.bottom(min.x + dx, min.y as int, min.z + dz) == first
        &&& self.top(min.x + dx, min.y + n - 1, min.z + dz) == first
    }

    /// One stratum throughout a node, in its sampled columns: the first, the
    /// middle and the last each way.
    pub open spec fn one_stratum(&self, min: IVec3, n: int) -> bool {
        let first = self.bottom(min.x as int, min.y as int, min.z as int);
        let (a, b) = (n / 2, n - 1);
        &&& self.in_stratum(min, n, 0, 0, first)
        &&& self.in_stratum(min, n, a, 0, first)
        &&& self.in_stratum(min, n, b, 0, first)
        &&& self.in_stratum(min, n, 0, a, first)
        &&& self.in_stratum(min, n, a, a, first)
        &&& self.in_stratum(min, n, b, a, first)
        &&& self.in_stratum(min, n, 0, b, first)
        &&& self.in_stratum(min, n, a, b, first)
        &&& self.in_stratum(min, n, b, b, first)
    }

    /// What a node is, if it is one thing.
    pub open spec fn whole(&self, min: IVec3, n: int) -> Option<Content> {
        if self.above(min, n) && self.planes@[min.y + n] <= self.sea {
            Some(Content::Water)
        } else if self.above(min, n) && self.planes@[min.y as int] >= self.sea {
            Some(Content::Air)
        } else if self.below(min, n) && self.one_stratum(min, n) {
            Some(
                Content::Rock(self.bottom(min.x as int, min.y as int, min.z as int).material),
            )
        } else if n == 1 && self.planes@[min.y + 1] <= self.buried@[col(
            min.x as int,
            min.z as int,
        )] {
            Some(Content::Buried)
        } else if n == 1 {
            Some(Content::Voxels)
        } else {
            None
        }
    }

    /// What cell `c` is, when its nodes are tried from edge `n` down.
    pub open spec fn planned(&self, c: IVec3, n: int) -> Content
        decreases n,
    {
        match self.whole(node_min(c, n), n) {
            Some(k) => k,
            None => if n <= 1 {
                Content::Voxels
            } else {
                self.planned(c, n / 4)
            },
        }
    }

    /// Highest ground with its cover, and lowest top of rock, over `n` by `n`
    /// brick columns.
    pub fn region(&self, x0: i32, z0: i32, n: i32) -> (r: (Key, Key))
        requires
            self.wf(),
            0 <= x0,
            0 <= z0,
            0 < n,
            x0 + n <= 64,
            z0 + n <= 64,
        ensures
            forall|x: int, z: int|
                x0 <= x < x0 + n && z0 <= z < z0 + n ==> #[trigger] self.over@[col(x, z)] <= r.0,
            exists|x: int, z: int|
                x0 <= x < x0 + n && z0 <= z < z0 + n && #[trigger] self.over@[col(x, z)] == r.0,
            forall|x: int, z: int|
                x0 <= x < x0 + n && z0 <= z < z0 + n ==> r.1 <= #[trigger] self.rock@[col(x, z)],
            exists|x: int, z: int|
                x0 <= x < x0 + n && z0 <= z < z0 + n && r.1 == #[trigger] self.rock@[col(x, z)],
    {
        let first: usize = (x0 + z0 * 64) as usize;
        assert(first == col(x0 as int, z0 as int));
        let mut hi: Key = self.over[first];
        let mut lo: Key = self.rock[first];
        let ghost (mut hx, mut hz, mut lx, mut lz) = (x0 as int, z0 as int, x0 as int, z0 as int);
        let mut z: i32 = z0;
        while z < z0 + n
            invariant
                self.wf(),
                0 <= x0 && 0 <= z0 && 0 < n && x0 + n <= 64 && z0 + n <= 64,
                z0 <= z <= z0 + n,
                x0 <= hx < x0 + n && z0 <= hz < z0 + n && x0 <= lx < x0 + n && z0 <= lz < z0 + n,
                hi == self.over@[col(hx, hz)],
                lo == self.rock@[col(lx, lz)],
                forall|a: int, b: int|
                    x0 <= a < x0 + n && z0 <= b < z ==> #[trigger] self.over@[col(a, b)] <= hi,
                forall|a: int, b: int|
                    x0 <= a < x0 + n && z0 <= b < z ==> lo <= #[trigger] self.rock@[col(a, b)],
            decreases z0 + n - z,
        {
            let mut x: i32 = x0;
            while x < x0 + n
                invariant
                    self.wf(),
                    0 <= x0 && 0 <= z0 && 0 < n && x0 + n <= 64 && z0 + n <= 64,
                    z0 <= z < z0 + n,
                    x0 <= x <= x0 + n,
                    x0 <= hx < x0 + n && z0 <= hz < z0 + n && x0 <= lx < x0 + n && z0 <= lz < z0 + n,
                    hi == self.over@[col(hx, hz)],
                    lo == self.rock@[col(lx, lz)],
                    forall|a: int, b: int|
                        x0 <= a < x0 + n && z0 <= b < z ==> #[trigger] self.over@[col(a, b)] <= hi,
                    forall|a: int, b: int|
                        x0 <= a < x0 + n && z0 <= b < z ==> lo <= #[trigger] self.rock@[col(a, b)],
                    forall|a: int|
                        x0 <= a < x ==> #[trigger] self.over@[col(a, z as int)] <= hi,
                    forall|a: int|
                        x0 <= a < x ==> lo <= #[trigger] self.rock@[col(a, z as int)],
                decreases x0 + n - x,
            {
                let i: usize = (x + z * 64) as usize;
                assert(i == col(x as int, z as int));
                if self.over[i] > hi {
                    hi = self.over[i];
                    proof {
                        hx = x as int;
                        hz = z as int;
                    }
                }
                if self.rock[i] < lo {
                    lo = self.rock[i];
                    proof {
                        lx = x as int;
                        lz = z as int;
                    }
                }
                x += 1;
            }
            z += 1;
        }
        assert(self.over@[col(hx, hz)] == hi);
        assert(self.rock@[col(lx, lz)] == lo);
        (hi, lo)
    }

    fn stratum_at(&self, min: IVec3, n: i32, dx: i32, dz: i32, first: LayerRef) -> (b: bool)
        requires
            self.wf(),
            is_node(min, n as int),
            0 <= dx < n,
            0 <= dz < n,
        ensures
            b == self.in_stratum(min, n as int, dx as int, dz as int, first),
    {
        let i: usize = (min.x + dx + (min.z + dz) * 64 + min.y * 4096) as usize;
        let j: usize = (min.x + dx + (min.z + dz) * 64 + (min.y + n - 1) * 4096) as usize;
        self.bottoms[i] == first && self.tops[j] == first
    }

    /// One stratum throughout a node in every sampled column?
    pub fn strata_uniform(&self, min: IVec3, n: i32) -> (r: Option<MaterialId>)
        requires
            self.wf(),
            is_node(min, n as int),
        ensures
            r == (if self.one_stratum(min, n as int) {
                Some(self.bottom(min.x as int, min.y as int, min.z as int).material)
            } else {
                None
            }),
    {
        let first: LayerRef = self.bottoms[index(min)];
        let (a, b): (i32, i32) = (n / 2, n - 1);
        let same: bool = self.stratum_at(min, n, 0, 0, first) && self.stratum_at(min, n, a, 0, first)
            && self.stratum_at(min, n, b, 0, first) && self.stratum_at(min, n, 0, a, first)
            && self.stratum_at(min, n, a, a, first) && self.stratum_at(min, n, b, a, first)
            && self.stratum_at(min, n, 0, b, first) && self.stratum_at(min, n, a, b, first)
            && self.stratum_at(min, n, b, b, first);
        if same {
            Some(first.material)
        } else {
            None
        }
    }

    /// What a node is, or `None` to try its children.
    pub fn judge(&self, min: IVec3, n: i32) -> (r: Option<Content>)
        requires
            self.wf(),
            is_node(min, n as int),
        ensures
            r == self.whole(min, n as int),
    {
        let (hi, rock): (Key, Key) = self.region(min.x, min.z, n);
        let y0: Key = self.planes[min.y as usize];
        let y1: Key = self.planes[(min.y + n) as usize];
        proof {
            assert(self.above(min, n as int) == (y0 >= hi));
            assert(self.below(min, n as int) == (y1 <= rock));
        }
        if y0 >= hi {
            if y1 <= self.sea {
                return Some(Content::Water);
            }
            if y0 >= self.sea {
                return Some(Content::Air);
            }
        }
        if y1 <= rock {
            if let Some(m) = self.strata_uniform(min, n) {
                return Some(Content::Rock(m));
            }
        }
        if n == 1 {
            let i: usize = (min.x + min.z * 64) as usize;
            if y1 <= self.buried[i] {
                return Some(Content::Buried);
            }
            return Some(Content::Voxels);
        }
        None
    }
}

proof fn lemma_slot(a: IVec3, b: IVec3)
    requires
        a.within(64),
        b.within(64),
        slot(a) == slot(b),
    ensures
        a == b,
{
}

/// Fills a node of edge `n`.
pub fn fill(out: &mut Vec<Content>, min: IVec3, n: i32, k: Content)
    requires
        old(out)@.len() == 262144,
        is_node(min, n as int),
    ensures
        final(out)@.len() == 262144,
        forall|c: IVec3|
            c.within(64) ==> #[trigger] final(out)@[slot(c)] == if in_cube(c, min, n as int) {
                k
            } else {
                old(out)@[slot(c)]
            },
{
    let mut y: i32 = min.y;
    while y < min.y + n
        invariant
            out@.len() == 262144,
            is_node(min, n as int),
            min.y <= y <= min.y + n,
            forall|c: IVec3|
                c.within(64) ==> #[trigger] out@[slot(c)] == if in_cube(c, min, n as int) && c.y
                    < y {
                    k
                } else {
                    old(out)@[slot(c)]
                },
        decreases min.y + n - y,
    {
        let mut z: i32 = min.z;
        while z < min.z + n
            invariant
                out@.len() == 262144,
                is_node(min, n as int),
                min.y <= y < min.y + n,
                min.z <= z <= min.z + n,
                forall|c: IVec3|
                    c.within(64) ==> #[trigger] out@[slot(c)] == if in_cube(c, min, n as int) && (
                    c.y < y || c.y == y && c.z < z) {
                        k
                    } else {
                        old(out)@[slot(c)]
                    },
            decreases min.z + n - z,
        {
            let mut x: i32 = min.x;
            while x < min.x + n
                invariant
                    out@.len() == 262144,
                    is_node(min, n as int),
                    min.y <= y < min.y + n,
                    min.z <= z < min.z + n,
                    min.x <= x <= min.x + n,
                    forall|c: IVec3|
                        c.within(64) ==> #[trigger] out@[slot(c)] == if in_cube(c, min, n as int)
                            && (c.y < y || c.y == y && (c.z < z || c.z == z && c.x < x)) {
                            k
                        } else {
                            old(out)@[slot(c)]
                        },
                decreases min.x + n - x,
            {
                let at: IVec3 = IVec3 { x, y, z };
                let i: usize = index(at);
                let ghost before = out@;
                out.set(i, k);
                proof {
                    assert forall|c: IVec3| c.within(64) implies #[trigger] out@[slot(c)] == (if c
                        == at {
                        k
                    } else {
                        before[slot(c)]
                    }) by {
                        if slot(c) == slot(at) {
                            lemma_slot(c, at);
                        }
                    }
                }
                x += 1;
            }
            z += 1;
        }
        y += 1;
    }
}

/// Which of a node's 64 children of edge `k` holds cell `c`.
spec fn child_of(c: IVec3, min: IVec3, k: int) -> int {
    (c.x - min.x) / k + (c.z - min.z) / k * 4 + (c.y - min.y) / k * 16
}

#[verifier::rlimit(40)]
proof fn lemma_child(c: IVec3, min: IVec3, n: int, i: int, child: IVec3)
    requires
        c.within(64),
        n == 4 && is_node(min, 4) || n == 16 && is_node(min, 16) || n == 64 && min == (IVec3 {
            x: 0,
            y: 0,
            z: 0,
        }),
        0 <= i < 64,
        child.x == min.x + i % 4 * (n / 4),
        child.y == min.y + i / 16 * (n / 4),
        child.z == min.z + i / 4 % 4 * (n / 4),
    ensures
        is_node(child, n / 4),
        in_cube(c, child, n / 4) <==> in_cube(c, min, n) && child_of(c, min, n / 4) == i,
        in_cube(c, min, n) ==> 0 <= child_of(c, min, n / 4) < 64,
{
    let k = n / 4;
    lemma_axis(c.x as int, min.x as int, k, i % 4);
    lemma_axis(c.y as int, min.y as int, k, i / 16);
    lemma_axis(c.z as int, min.z as int, k, i / 4 % 4);
    let (qx, qy, qz) = ((c.x - min.x) / k, (c.y - min.y) / k, (c.z - min.z) / k);
    if in_cube(c, min, n) {
        lemma_digits(qx, qz, qy, i);
    }
    assert(4 * k == n);
    assert(child_of(c, min, k) == qx + qz * 4 + qy * 16);
}

proof fn lemma_digits(a: int, b: int, d: int, i: int)
    requires
        0 <= a < 4,
        0 <= b < 4,
        0 <= d < 4,
    ensures
        0 <= a + b * 4 + d * 16 < 64,
        a + b * 4 + d * 16 == i <==> 0 <= i < 64 && a == i % 4 && b == i / 4 % 4 && d == i / 16,
{
}

/// Along one axis: which quarter of a node holds `c`.
proof fn lemma_axis(c: int, min: int, k: int, q: int)
    requires
        k == 1 || k == 4 || k == 16,
        0 <= min,
        min + 4 * k <= 64,
        min % (4 * k) == 0,
        0 <= q < 4,
    ensures
        (min + q * k) % k == 0,
        0 <= min + q * k <= 64 - k,
        min + q * k <= c < min + q * k + k <==> min <= c < min + 4 * k && (c - min) / k == q,
        min <= c < min + 4 * k ==> 0 <= (c - min) / k < 4,
{
    if k == 1 {
    } else if k == 4 {
        assert(min % 16 == 0);
    } else {
        assert(min % 64 == 0);
    }
}

/// Along one axis: the corner of the node that holds `c`.
proof fn lemma_corner(c: int, n: int)
    requires
        n == 1 || n == 4 || n == 16,
        0 <= c < 64,
    ensures
        0 <= c / n * n <= c < c / n * n + n <= 64,
        (c / n * n) % n == 0,
        forall|m: int| 0 <= m && #[trigger] (m % n) == 0 && m <= c < m + n ==> m == c / n * n,
{
    if n == 1 {
    } else if n == 4 {
        assert(c / n * n == c / 4 * 4);
    } else {
        assert(c / n * n == c / 16 * 16);
    }
}

proof fn lemma_holds(c: IVec3, n: int)
    requires
        n == 1 || n == 4 || n == 16,
        c.within(64),
    ensures
        in_cube(c, node_min(c, n), n),
        is_node(node_min(c, n), n),
        node_min(c, n).y + n <= 64,
{
    lemma_corner(c.x as int, n);
    lemma_corner(c.y as int, n);
    lemma_corner(c.z as int, n);
}

proof fn lemma_node_min(c: IVec3, min: IVec3, n: int)
    requires
        is_node(min, n),
        c.within(64),
        in_cube(c, min, n),
    ensures
        node_min(c, n) == min,
{
    lemma_corner(c.x as int, n);
    lemma_corner(c.y as int, n);
    lemma_corner(c.z as int, n);
    assert(min.x as int % n == 0 && min.y as int % n == 0 && min.z as int % n == 0);
}

/// Plans the cells of a node of edge `n`.
pub fn plan_node(g: &Ground, out: &mut Vec<Content>, min: IVec3, n: i32)
    requires
        g.wf(),
        old(out)@.len() == 262144,
        is_node(min, n as int),
    ensures
        final(out)@.len() == 262144,
        forall|c: IVec3|
            c.within(64) ==> #[trigger] final(out)@[slot(c)] == if in_cube(c, min, n as int) {
                g.planned(c, n as int)
            } else {
                old(out)@[slot(c)]
            },
    decreases n,
{
    if let Some(k) = g.judge(min, n) {
        fill(out, min, n, k);
        proof {
            assert forall|c: IVec3| c.within(64) && in_cube(c, min, n as int) implies g.planned(
                c,
                n as int,
            ) == k by {
                lemma_node_min(c, min, n as int);
            }
        }
        return;
    }
    let k: i32 = n / 4;
    let mut i: i32 = 0;
    while i < 64
        invariant
            0 <= i <= 64,
            g.wf(),
            is_node(min, n as int),
            n == 4 || n == 16,
            k == n / 4,
            g.whole(min, n as int) is None,
            out@.len() == 262144,
            forall|c: IVec3|
                c.within(64) ==> #[trigger] out@[slot(c)] == if in_cube(c, min, n as int)
                    && child_of(c, min, k as int) < i {
                    g.planned(c, n as int)
                } else {
                    old(out)@[slot(c)]
                },
        decreases 64 - i,
    {
        let child: IVec3 = IVec3 {
            x: min.x + i % 4 * k,
            y: min.y + i / 16 * k,
            z: min.z + i / 4 % 4 * k,
        };
        let ghost before = out@;
        proof {
            lemma_child(min, min, n as int, i as int, child);
        }
        plan_node(g, out, child, k);
        proof {
            assert forall|c: IVec3| c.within(64) implies #[trigger] out@[slot(c)] == (if in_cube(
                c,
                min,
                n as int,
            ) && child_of(c, min, k as int) < i + 1 {
                g.planned(c, n as int)
            } else {
                old(out)@[slot(c)]
            }) by {
                lemma_child(c, min, n as int, i as int, child);
                if in_cube(c, min, n as int) {
                    lemma_node_min(c, min, n as int);
                    assert(g.planned(c, n as int) == g.planned(c, k as int));
                }
            }
        }
        i += 1;
    }
    proof {
        assert forall|c: IVec3| c.within(64) && in_cube(c, min, n as int) implies child_of(
            c,
            min,
            k as int,
        ) < 64 by {
            lemma_child(c, min, n as int, 0, min);
        }
    }
}

/// Plans every cell of a chunk, `x + z*64 + y*4096`.
pub fn plan_chunk(g: &Ground) -> (out: Vec<Content>)
    requires
        g.wf(),
    ensures
        out@.len() == 262144,
        forall|c: IVec3| c.within(64) ==> #[trigger] out@[slot(c)] == g.planned(c, 16),
{
    let mut out: Vec<Content> = Vec::new();
    let mut j: usize = 0;
    while j < 262144
        invariant
            j <= 262144,
            out@.len() == j,
        decreases 262144 - j,
    {
        out.push(Content::Air);
        j += 1;
    }
    let zero: IVec3 = IVec3 { x: 0, y: 0, z: 0 };
    let mut i: i32 = 0;
    while i < 64
        invariant
            0 <= i <= 64,
            g.wf(),
            zero == (IVec3 { x: 0, y: 0, z: 0 }),
            out@.len() == 262144,
            forall|c: IVec3|
                c.within(64) && child_of(c, zero, 16) < i ==> #[trigger] out@[slot(c)] == g.planned(
                    c,
                    16,
                ),
        decreases 64 - i,
    {
        let child: IVec3 = IVec3 { x: i % 4 * 16, y: i / 16 * 16, z: i / 4 % 4 * 16 };
        let ghost before = out@;
        proof {
            lemma_child(zero, zero, 64, i as int, child);
        }
        plan_node(g, &mut out, child, 16);
        proof {
            assert forall|c: IVec3| c.within(64) && child_of(c, zero, 16) < i + 1 implies #[trigger] out@[slot(
                c,
            )] == g.planned(c, 16) by {
                lemma_child(c, zero, 64, i as int, child);
                assert(before[slot(c)] == before[slot(c)]);
            }
        }
        i += 1;
    }
    proof {
        assert forall|c: IVec3| c.within(64) implies #[trigger] out@[slot(c)] == g.planned(
            c,
            16,
        ) by {
            assert(child_of(c, zero, 16) < 64);
        }
    }
    out
}

/// Planes rise, and no rock stands over the ground it belongs to.
pub open spec fn upright(g: Ground) -> bool {
    &&& g.wf()
    &&& forall|i: int, j: int| 0 <= i < j < 65 ==> #[trigger] g.planes@[i] < #[trigger] g.planes@[j]
    &&& forall|i: int| 0 <= i < 4096 ==> #[trigger] g.rock@[i] <= g.over@[i]
}

/// A cell planned as air or water lies over the ground of its column; water
/// lies wholly under the sea's surface and air wholly over it.
pub proof fn open_cells_lie_over_the_ground(g: Ground, c: IVec3, n: int)
    requires
        upright(g),
        c.within(64),
        n == 1 || n == 4 || n == 16,
    ensures
        g.planned(c, n) is Water ==> g.over@[col(c.x as int, c.z as int)] <= g.planes@[c.y as int]
            && g.planes@[c.y + 1] <= g.sea,
        g.planned(c, n) is Air ==> g.over@[col(c.x as int, c.z as int)] <= g.planes@[c.y as int]
            && g.sea <= g.planes@[c.y as int],
    decreases n,
{
    let min = node_min(c, n);
    lemma_holds(c, n);
    if g.whole(min, n) is None {
        if n > 1 {
            open_cells_lie_over_the_ground(g, c, n / 4);
        }
    } else {
        assert(in_cube(c, min, n));
        assert(0 <= col(c.x as int, c.z as int) < 4096);
        if g.above(min, n) {
            assert(g.over@[col(c.x as int, c.z as int)] <= g.planes@[min.y as int]);
            assert(g.planes@[min.y as int] <= g.planes@[c.y as int]);
            assert(g.planes@[c.y + 1] <= g.planes@[min.y + n]);
        }
    }
}

/// A cell wholly under its column's rock is never planned as air or water.
pub proof fn rock_is_not_hollow(g: Ground, c: IVec3, n: int)
    requires
        upright(g),
        c.within(64),
        n == 1 || n == 4 || n == 16,
        g.planes@[c.y + 1] <= g.rock@[col(c.x as int, c.z as int)],
    ensures
        !(g.planned(c, n) is Air),
        !(g.planned(c, n) is Water),
{
    open_cells_lie_over_the_ground(g, c, n);
    assert(0 <= col(c.x as int, c.z as int) < 4096);
    assert(g.planes@[c.y as int] < g.planes@[c.y + 1]);
}

/// Bricks, no two for one cell.
pub open spec fn apart(bricks: Seq<(IVec3, Brick)>) -> bool {
    &&& forall|i: int| 0 <= i < bricks.len() ==> (#[trigger] bricks[i]).0.within(64) && bricks[i].1.wf()
    &&& forall|i: int, j: int|
        0 <= i < j < bricks.len() ==> (#[trigger] bricks[i]).0 != (#[trigger] bricks[j]).0
}

/// Some brick is for cell `c`.
pub open spec fn has_brick(bricks: Seq<(IVec3, Brick)>, c: IVec3) -> bool {
    exists|i: int| 0 <= i < bricks.len() && (#[trigger] bricks[i]).0 == c
}

/// Turns a dense chunk into a tree: a material per brick cell, 0 for air,
/// `x + z*64 + y*4096`, and bricks over them.
pub fn from_dense(id: u64, cells: &Vec<u16>, bricks: Vec<(IVec3, Brick)>) -> (t: ChunkTree)
    requires
        cells@.len() == 262144,
        apart(bricks@),
    ensures
        t.wf(),
        t.number() == id,
        forall|c: IVec3|
            c.within(64) && !has_brick(bricks@, c) ==> #[trigger] t.cell_of(c) == node_cell(
                MaterialId(cells@[slot(c)]),
            ),
        forall|i: int|
            0 <= i < bricks@.len() ==> t.cell_voxels((#[trigger] bricks@[i]).0)
                == bricks@[i].1.voxels() && fits(
                t.cell_of(bricks@[i].0),
                bricks@[i].1.voxels(),
                bricks@[i].1.stateful(),
            ) && t.cell_states(bricks@[i].0) == kept_states(
                bricks@[i].1.voxels(),
                bricks@[i].1.states(),
            ),
{
    let mut t = ChunkTree::new(id);
    let mut i: usize = 0;
    while i < 262144
        invariant
            i <= 262144,
            cells@.len() == 262144,
            t.wf(),
            t.number() == id,
            forall|c: IVec3|
                c.within(64) ==> #[trigger] t.cell_of(c) == if slot(c) < i {
                    node_cell(MaterialId(cells@[slot(c)]))
                } else {
                    Cell::Empty
                },
        decreases 262144 - i,
    {
        let c: IVec3 = IVec3 { x: (i % 64) as i32, y: (i / 4096) as i32, z: (i / 64 % 64) as i32 };
        proof {
            assert(c.within(64) && slot(c) == i);
            assert forall|d: IVec3| d.within(64) && slot(d) == i implies d == c by {
                lemma_slot(c, d);
            }
        }
        if cells[i] != 0 {
            t.set_cell(c, Cell::Uniform(MaterialId(cells[i])));
        }
        i += 1;
    }
    let ghost all = bricks@;
    let mut left = bricks;
    proof {
        assert forall|c: IVec3| c.within(64) && !has_brick(all, c) implies #[trigger] t.cell_of(c)
            == node_cell(MaterialId(cells@[slot(c)])) by {
            assert(slot(c) < 262144);
        }
    }
    while left.len() > 0
        invariant
            t.wf(),
            t.number() == id,
            apart(all),
            left@.len() <= all.len(),
            left@ =~= all.take(left@.len() as int),
            forall|c: IVec3|
                c.within(64) && !has_brick(all, c) ==> #[trigger] t.cell_of(c) == node_cell(
                    MaterialId(cells@[slot(c)]),
                ),
            forall|j: int|
                left@.len() <= j < all.len() ==> t.cell_voxels((#[trigger] all[j]).0)
                    == all[j].1.voxels() && fits(
                    t.cell_of(all[j].0),
                    all[j].1.voxels(),
                    all[j].1.stateful(),
                ) && t.cell_states(all[j].0) == kept_states(all[j].1.voxels(), all[j].1.states()),
        decreases left@.len(),
    {
        let ghost n = left@.len() as int;
        let ghost before = t;
        if let Some((c, brick)) = left.pop() {
            assert(all[n - 1] == (c, brick));
            t.set_brick(c, brick);
            proof {
                assert forall|j: int| n - 1 <= j < all.len() implies t.cell_voxels(
                    (#[trigger] all[j]).0,
                ) == all[j].1.voxels() && fits(
                    t.cell_of(all[j].0),
                    all[j].1.voxels(),
                    all[j].1.stateful(),
                ) && t.cell_states(all[j].0) == kept_states(
                    all[j].1.voxels(),
                    all[j].1.states(),
                ) by {
                    if j > n - 1 {
                        assert(all[n - 1].0 != all[j].0);
                        assert(t.cell_of(all[j].0) == before.cell_of(all[j].0));
                    }
                }
                assert forall|d: IVec3| d.within(64) && !has_brick(all, d) implies #[trigger] t.cell_of(
                    d,
                ) == node_cell(MaterialId(cells@[slot(d)])) by {
                    assert(all[n - 1].0 == c);
                    assert(before.cell_of(d) == before.cell_of(d));
                }
            }
        }
    }
    t
}

/// A cell is planned by its own column: over the ground it is water wholly
/// under the sea and air wholly over it, and under the rock with nothing
/// buried it is one rock, or is filled voxel by voxel where the rocks meet.
pub proof fn cells_are_planned_by_their_column(g: Ground, c: IVec3)
    requires
        upright(g),
        c.within(64),
    ensures
        g.over@[col(c.x as int, c.z as int)] <= g.planes@[c.y as int] && g.planes@[c.y + 1]
            <= g.sea ==> g.planned(c, 1) is Water,
        g.over@[col(c.x as int, c.z as int)] <= g.planes@[c.y as int] && g.sea
            <= g.planes@[c.y as int] ==> g.planned(c, 1) is Air,
        g.planes@[c.y + 1] <= g.rock@[col(c.x as int, c.z as int)] ==> {
            let (low, high) = (
                g.bottom(c.x as int, c.y as int, c.z as int),
                g.top(c.x as int, c.y as int, c.z as int),
            );
            &&& low == high ==> g.planned(c, 1) == Content::Rock(low.material)
            &&& low != high && g.planes@[c.y + 1] <= g.buried@[col(c.x as int, c.z as int)]
                ==> g.planned(c, 1) is Buried
            &&& low != high && g.planes@[c.y + 1] > g.buried@[col(c.x as int, c.z as int)]
                ==> g.planned(c, 1) is Voxels
        },
        g.planes@[c.y as int] < g.over@[col(c.x as int, c.z as int)] && g.planes@[c.y + 1]
            > g.rock@[col(c.x as int, c.z as int)] && g.planes@[c.y + 1] > g.buried@[col(
            c.x as int,
            c.z as int,
        )] ==> g.planned(c, 1) is Voxels,
{
    assert(node_min(c, 1) == c);
    assert(g.over@[col(c.x as int, c.z as int)] >= g.rock@[col(c.x as int, c.z as int)]) by {
        assert(0 <= col(c.x as int, c.z as int) < 4096);
    }
    if g.below(c, 1) {
        assert(g.planes@[c.y + 1] <= g.rock@[col(c.x as int, c.z as int)]);
    }
    if g.above(c, 1) {
        assert(g.over@[col(c.x as int, c.z as int)] <= g.planes@[c.y as int]);
    }
}

} // verus!
