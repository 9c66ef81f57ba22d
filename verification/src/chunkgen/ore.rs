//! Ore bodies placed by the geology they belong to: coal seams in shale, iron
//! in sandstone, copper near the granite contact, rare gold in the basement.
//! One candidate per 16 m cell, flattened along bedding.

use crate::brick::palette::has_room;
use crate::brick::vindex;
use crate::ivec::IVec3;
use crate::material::{air, ids, MaterialId};
use crate::noise::{hash3, hash_unit24, point_hash, rotate, turned};
use crate::tree::node::Cell;
use crate::tree::{brick_part, cell_part, ChunkTree};
use vstd::prelude::*;

verus! {

/// What a host rock may hold.
#[derive(Clone, Copy, Debug, PartialEq, Eq, Structural)]
pub struct Ore {
    pub material: MaterialId,
    /// Half width of a body, in fifths of a voxel.
    pub fifths: i32,
}

/// The ore of a host rock, and the largest draw that places a body.
pub open spec fn hosted(host: MaterialId) -> Option<(Ore, int)> {
    match host.0 {
        ids::SHALE => Some((Ore { material: MaterialId(ids::COAL_ORE), fifths: 200 }, 7549747)),
        ids::SANDSTONE => Some((Ore { material: MaterialId(ids::IRON_ORE), fifths: 144 }, 2516582)),
        ids::GRANITE => Some((Ore { material: MaterialId(ids::COPPER_ORE), fifths: 120 }, 2013265)),
        ids::GNEISS => Some((Ore { material: MaterialId(ids::GOLD_ORE), fifths: 64 }, 503316)),
        _ => None,
    }
}

pub open spec fn ore_hash(c: IVec3, seed: u64) -> u64 {
    point_hash(c.x, c.y, c.z, seed ^ 0x04e5)
}

/// Draw of an ore cell after turning its hash by `k` bits.
pub open spec fn ore_draw(c: IVec3, seed: u64, k: u64) -> int {
    turned(ore_hash(c, seed), k) as int / 0x100_0000_0000
}

/// The middle voxel of the body in ore cell `c`.
pub open spec fn body_centre(c: IVec3, seed: u64) -> IVec3 {
    IVec3 {
        x: (c.x * 256 + ore_hash(c, seed) as int / 0x100_0000_0000 / 0x1_0000) as i32,
        y: (c.y * 256 + ore_draw(c, seed, 17) / 0x1_0000) as i32,
        z: (c.z * 256 + ore_draw(c, seed, 34) / 0x1_0000) as i32,
    }
}

/// Where the body in ore cell `c` lies.
pub fn ore_centre(c: IVec3, seed: u64) -> (v: IVec3)
    requires
        -0x80_0000 <= c.x < 0x80_0000,
        -0x80_0000 <= c.y < 0x80_0000,
        -0x80_0000 <= c.z < 0x80_0000,
    ensures
        v == body_centre(c, seed),
        c.x * 256 <= v.x < c.x * 256 + 256,
        c.y * 256 <= v.y < c.y * 256 + 256,
        c.z * 256 <= v.z < c.z * 256 + 256,
{
    let h: u64 = hash3(c.x, c.y, c.z, seed ^ 0x04e5);
    IVec3 {
        x: c.x * 256 + (hash_unit24(h) / 0x1_0000) as i32,
        y: c.y * 256 + (hash_unit24(rotate(h, 17)) / 0x1_0000) as i32,
        z: c.z * 256 + (hash_unit24(rotate(h, 34)) / 0x1_0000) as i32,
    }
}

/// The body in ore cell `c`, if any, when the rock at its middle is `host`.
pub fn ore_in(c: IVec3, seed: u64, host: MaterialId) -> (r: Option<Ore>)
    ensures
        r == match hosted(host) {
            Some((ore, most)) => if ore_draw(c, seed, 51) <= most {
                Some(ore)
            } else {
                None
            },
            None => None,
        },
{
    let (ore, most): (Ore, u32) = match host.0 {
        ids::SHALE => (Ore { material: MaterialId(ids::COAL_ORE), fifths: 200 }, 7549747),
        ids::SANDSTONE => (Ore { material: MaterialId(ids::IRON_ORE), fifths: 144 }, 2516582),
        ids::GRANITE => (Ore { material: MaterialId(ids::COPPER_ORE), fifths: 120 }, 2013265),
        ids::GNEISS => (Ore { material: MaterialId(ids::GOLD_ORE), fifths: 64 }, 503316),
        _ => {
            return None;
        },
    };
    let h: u64 = hash3(c.x, c.y, c.z, seed ^ 0x04e5);
    if hash_unit24(rotate(h, 51)) > most {
        return None;
    }
    Some(ore)
}

/// The ore cells whose bodies may reach into the chunk at `origin`, both ends
/// included. None lies below the world.
pub fn ore_cells(origin: IVec3) -> (r: (IVec3, IVec3))
    requires
        -0x2000_0000 <= origin.x <= 0x2000_0000,
        -0x2000_0000 <= origin.y <= 0x2000_0000,
        -0x2000_0000 <= origin.z <= 0x2000_0000,
    ensures
        r.0.x == (origin.x - 64) / 256,
        r.0.y == (if (origin.y - 64) / 256 > 0 {
            (origin.y - 64) / 256
        } else {
            0
        }),
        r.0.z == (origin.z - 64) / 256,
        r.1.x == (origin.x + 576) / 256,
        r.1.y == (origin.y + 576) / 256,
        r.1.z == (origin.z + 576) / 256,
{
    let lo: IVec3 = origin.minus(IVec3::splat(64)).div(256);
    let hi: IVec3 = origin.plus(IVec3::splat(576)).div(256);
    (IVec3 { x: lo.x, y: if lo.y > 0 { lo.y } else { 0 }, z: lo.z }, hi)
}

/// A voxel `d` away from the middle of a body is in it. Seams are three times
/// wider than they are thick.
pub open spec fn in_body(dx: int, dy: int, dz: int, fifths: int) -> bool {
    25 * (dx * dx + 9 * (dy * dy) + dz * dz) <= fifths * fifths
}

/// Chunk-local voxel `v` is in the body about `centre`.
pub open spec fn body_holds(v: IVec3, origin: IVec3, centre: IVec3, ore: Ore) -> bool {
    in_body(
        v.x + origin.x - centre.x,
        v.y + origin.y - centre.y,
        v.z + origin.z - centre.z,
        ore.fifths as int,
    )
}

proof fn lemma_reach(dx: int, dy: int, dz: int, fifths: int)
    requires
        in_body(dx, dy, dz, fifths),
        fifths >= 0,
    ensures
        -(fifths / 5) <= dx <= fifths / 5,
        -(fifths / 15) <= dy <= fifths / 15,
        -(fifths / 5) <= dz <= fifths / 5,
{
    assert(0 <= dx * dx && 0 <= dy * dy && 0 <= dz * dz) by (nonlinear_arith);
    lemma_side(5 * dx, fifths);
    lemma_side(15 * dy, fifths);
    lemma_side(5 * dz, fifths);
    assert((5 * dx) * (5 * dx) == 25 * (dx * dx)) by (nonlinear_arith);
    assert((15 * dy) * (15 * dy) == 225 * (dy * dy)) by (nonlinear_arith);
    assert((5 * dz) * (5 * dz) == 25 * (dz * dz)) by (nonlinear_arith);
}

proof fn lemma_side(a: int, b: int)
    requires
        b >= 0,
    ensures
        a * a <= b * b ==> -b <= a <= b,
{
    if a > b {
        assert(a * a > b * b) by (nonlinear_arith)
            requires
                a > b >= 0,
        ;
    }
    if a < -b {
        assert(a * a > b * b) by (nonlinear_arith)
            requires
                a < -b,
                b >= 0,
        ;
    }
}

/// A body to stamp into the chunk at `origin`.
#[derive(Clone, Copy, Debug)]
pub struct Body {
    pub origin: IVec3,
    pub centre: IVec3,
    pub host: MaterialId,
    pub ore: Ore,
}

impl Body {
    /// Small enough for its squares to fit, and in reach of machine numbers.
    pub open spec fn sane(self) -> bool {
        &&& 0 <= self.ore.fifths <= 1000
        &&& -0x2000_0000 <= self.origin.x <= 0x2000_0000
        &&& -0x2000_0000 <= self.origin.y <= 0x2000_0000
        &&& -0x2000_0000 <= self.origin.z <= 0x2000_0000
        &&& -0x4000_0000 <= self.centre.x <= 0x4000_0000
        &&& -0x4000_0000 <= self.centre.y <= 0x4000_0000
        &&& -0x4000_0000 <= self.centre.z <= 0x4000_0000
    }

    pub open spec fn holds(self, v: IVec3) -> bool {
        body_holds(v, self.origin, self.centre, self.ore)
    }

    fn covers(&self, v: IVec3) -> (b: bool)
        requires
            self.sane(),
            v.within(512),
            -1000 <= v.x + self.origin.x - self.centre.x <= 1000,
            -1000 <= v.y + self.origin.y - self.centre.y <= 1000,
            -1000 <= v.z + self.origin.z - self.centre.z <= 1000,
        ensures
            b == self.holds(v),
    {
        let dx: i32 = v.x + self.origin.x - self.centre.x;
        let dy: i32 = v.y + self.origin.y - self.centre.y;
        let dz: i32 = v.z + self.origin.z - self.centre.z;
        let f: i32 = self.ore.fifths;
        proof {
            assert(0 <= dx * dx <= 1000000) by (nonlinear_arith)
                requires
                    -1000 <= dx <= 1000,
            ;
            assert(0 <= dy * dy <= 1000000) by (nonlinear_arith)
                requires
                    -1000 <= dy <= 1000,
            ;
            assert(0 <= dz * dz <= 1000000) by (nonlinear_arith)
                requires
                    -1000 <= dz <= 1000,
            ;
            assert(0 <= f * f <= 1000000) by (nonlinear_arith)
                requires
                    0 <= f <= 1000,
            ;
        }
        25 * (dx * dx + 9 * (dy * dy) + dz * dz) <= f * f
    }
}

/// Every brick of the tree has room for one more material.
pub open spec fn roomy(tree: ChunkTree, m: MaterialId) -> bool {
    forall|d: IVec3| d.within(64) ==> has_room(#[trigger] tree.cell_voxels(d), m)
}

/// Between `lo` and `hi` the body's voxels of the host rock became ore, and
/// nothing else changed.
pub open spec fn stamped(
    before: ChunkTree,
    after: ChunkTree,
    body: Body,
    lo: IVec3,
    hi: IVec3,
) -> bool {
    forall|v: IVec3|
        v.within(512) ==> #[trigger] after.voxel_of(v) == if v.between(lo, hi) && body.holds(v)
            && before.voxel_of(v) == body.host {
            body.ore.material
        } else {
            before.voxel_of(v)
        }
}

proof fn lemma_still_roomy(before: ChunkTree, after: ChunkTree, v: IVec3, m: MaterialId)
    requires
        before.wf(),
        roomy(before, m),
        v.within(512),
        after.cell_voxels(cell_part(v)) == before.cell_voxels(cell_part(v)).update(
            vindex(brick_part(v)),
            m,
        ),
        forall|d: IVec3|
            d.within(64) && d != cell_part(v) ==> after.cell_of(d) == #[trigger] before.cell_of(d)
                && after.cell_voxels(d) == before.cell_voxels(d),
    ensures
        roomy(after, m),
{
    assert forall|d: IVec3| d.within(64) implies has_room(#[trigger] after.cell_voxels(d), m) by {
        let b = before.cell_voxels(d);
        assert(has_room(b, m));
        if d == cell_part(v) {
            before.lemma_cells();
            assert(b.len() == 512);
            let at = vindex(brick_part(v));
            assert(0 <= at < 512);
            assert(after.cell_voxels(d)[at] == m);
        } else {
            assert(after.cell_of(d) == before.cell_of(d));
        }
    }
}

fn stamp_row(tree: &mut ChunkTree, body: &Body, lo: IVec3, hi: IVec3, y: i32, z: i32)
    requires
        old(tree).wf(),
        body.sane(),
        roomy(*old(tree), body.ore.material),
        lo.within(512),
        hi.within(512),
        lo.x <= hi.x,
        lo.y <= y <= hi.y,
        lo.z <= z <= hi.z,
        -1000 <= lo.x + body.origin.x - body.centre.x,
        hi.x + body.origin.x - body.centre.x <= 1000,
        -1000 <= lo.y + body.origin.y - body.centre.y,
        hi.y + body.origin.y - body.centre.y <= 1000,
        -1000 <= lo.z + body.origin.z - body.centre.z,
        hi.z + body.origin.z - body.centre.z <= 1000,
    ensures
        final(tree).wf(),
        roomy(*final(tree), body.ore.material),
        stamped(
            *old(tree),
            *final(tree),
            *body,
            IVec3 { x: lo.x, y, z },
            IVec3 { x: hi.x, y, z },
        ),
        final(tree).number() == old(tree).number(),
        old(tree).tidy() ==> final(tree).tidy(),
{
    let mut x: i32 = lo.x;
    while x <= hi.x
        invariant
            lo.x <= x <= hi.x + 1,
            lo.within(512),
            hi.within(512),
            lo.y <= y <= hi.y,
            lo.z <= z <= hi.z,
            body.sane(),
            -1000 <= lo.x + body.origin.x - body.centre.x,
            hi.x + body.origin.x - body.centre.x <= 1000,
            -1000 <= lo.y + body.origin.y - body.centre.y,
            hi.y + body.origin.y - body.centre.y <= 1000,
            -1000 <= lo.z + body.origin.z - body.centre.z,
            hi.z + body.origin.z - body.centre.z <= 1000,
            tree.wf(),
            roomy(*tree, body.ore.material),
            tree.number() == old(tree).number(),
            old(tree).tidy() ==> tree.tidy(),
            stamped(
                *old(tree),
                *tree,
                *body,
                IVec3 { x: lo.x, y, z },
                IVec3 { x: (x - 1) as i32, y, z },
            ),
        decreases hi.x - x + 1,
    {
        let v: IVec3 = IVec3 { x, y, z };
        let ghost before = *tree;
        if body.covers(v) && tree.voxel(v) == body.host {
            proof {
                assert(cell_part(v).within(64));
                assert(has_room(tree.cell_voxels(cell_part(v)), body.ore.material));
            }
            tree.set_voxel(v, body.ore.material);
            proof {
                lemma_still_roomy(before, *tree, v, body.ore.material);
                if before.tidy() {
                    assert forall|b: IVec3| b.within(64) implies #[trigger] tree.cell_of(b)
                        != Cell::Uniform(air()) by {
                        assert(before.cell_of(b) != Cell::Uniform(air()));
                    }
                }
            }
        }
        proof {
            assert forall|u: IVec3| u.within(512) implies #[trigger] tree.voxel_of(u)
                == if u.between(IVec3 { x: lo.x, y, z }, v) && body.holds(u) && old(tree).voxel_of(u)
                == body.host {
                body.ore.material
            } else {
                old(tree).voxel_of(u)
            } by {
                assert(before.voxel_of(u) == before.voxel_of(u));
                if u != v {
                    assert(tree.voxel_of(u) == before.voxel_of(u));
                }
            }
        }
        x += 1;
    }
}

fn stamp_layer(tree: &mut ChunkTree, body: &Body, lo: IVec3, hi: IVec3, z: i32)
    requires
        old(tree).wf(),
        body.sane(),
        roomy(*old(tree), body.ore.material),
        lo.within(512),
        hi.within(512),
        lo.x <= hi.x,
        lo.y <= hi.y,
        lo.z <= z <= hi.z,
        -1000 <= lo.x + body.origin.x - body.centre.x,
        hi.x + body.origin.x - body.centre.x <= 1000,
        -1000 <= lo.y + body.origin.y - body.centre.y,
        hi.y + body.origin.y - body.centre.y <= 1000,
        -1000 <= lo.z + body.origin.z - body.centre.z,
        hi.z + body.origin.z - body.centre.z <= 1000,
    ensures
        final(tree).wf(),
        roomy(*final(tree), body.ore.material),
        stamped(
            *old(tree),
            *final(tree),
            *body,
            IVec3 { x: lo.x, y: lo.y, z },
            IVec3 { x: hi.x, y: hi.y, z },
        ),
        final(tree).number() == old(tree).number(),
        old(tree).tidy() ==> final(tree).tidy(),
{
    let mut y: i32 = lo.y;
    while y <= hi.y
        invariant
            lo.y <= y <= hi.y + 1,
            lo.x <= hi.x,
            lo.within(512),
            hi.within(512),
            lo.z <= z <= hi.z,
            body.sane(),
            -1000 <= lo.x + body.origin.x - body.centre.x,
            hi.x + body.origin.x - body.centre.x <= 1000,
            -1000 <= lo.y + body.origin.y - body.centre.y,
            hi.y + body.origin.y - body.centre.y <= 1000,
            -1000 <= lo.z + body.origin.z - body.centre.z,
            hi.z + body.origin.z - body.centre.z <= 1000,
            tree.wf(),
            roomy(*tree, body.ore.material),
            tree.number() == old(tree).number(),
            old(tree).tidy() ==> tree.tidy(),
            stamped(
                *old(tree),
                *tree,
                *body,
                IVec3 { x: lo.x, y: lo.y, z },
                IVec3 { x: hi.x, y: (y - 1) as i32, z },
            ),
        decreases hi.y - y + 1,
    {
        let ghost before = *tree;
        stamp_row(tree, body, lo, hi, y, z);
        proof {
            assert forall|u: IVec3| u.within(512) implies #[trigger] tree.voxel_of(u)
                == if u.between(IVec3 { x: lo.x, y: lo.y, z }, IVec3 { x: hi.x, y, z })
                && body.holds(u) && old(tree).voxel_of(u) == body.host {
                body.ore.material
            } else {
                old(tree).voxel_of(u)
            } by {
                assert(before.voxel_of(u) == before.voxel_of(u));
            }
        }
        y += 1;
    }
}

/// Turns the host rock in a body to its ore.
pub fn stamp_blob(tree: &mut ChunkTree, body: &Body)
    requires
        old(tree).wf(),
        body.sane(),
        roomy(*old(tree), body.ore.material),
    ensures
        final(tree).wf(),
        roomy(*final(tree), body.ore.material),
        forall|v: IVec3|
            v.within(512) ==> #[trigger] final(tree).voxel_of(v) == if body.holds(v) && old(
                tree,
            ).voxel_of(v) == body.host {
                body.ore.material
            } else {
                old(tree).voxel_of(v)
            },
        final(tree).number() == old(tree).number(),
        old(tree).tidy() ==> final(tree).tidy(),
{
    let rx: i32 = body.ore.fifths / 5;
    let ry: i32 = body.ore.fifths / 15;
    let r: IVec3 = IVec3 { x: rx, y: ry, z: rx };
    let lo: IVec3 = body.centre.minus(r).minus(body.origin).max(IVec3::splat(0));
    let hi: IVec3 = body.centre.plus(r).minus(body.origin).min(IVec3::splat(511));
    proof {
        assert forall|v: IVec3| v.within(512) && body.holds(v) implies #[trigger] v.between(
            lo,
            hi,
        ) by {
            lemma_reach(
                v.x + body.origin.x - body.centre.x,
                v.y + body.origin.y - body.centre.y,
                v.z + body.origin.z - body.centre.z,
                body.ore.fifths as int,
            );
        }
    }
    if !lo.all_le(hi) {
        assert forall|v: IVec3| v.within(512) implies !(#[trigger] body.holds(v)) by {
            if body.holds(v) {
                assert(v.between(lo, hi));
            }
        }
        return;
    }
    let mut z: i32 = lo.z;
    while z <= hi.z
        invariant
            lo.z <= z <= hi.z + 1,
            lo.x <= hi.x,
            lo.y <= hi.y,
            lo.within(512),
            hi.within(512),
            body.sane(),
            -1000 <= lo.x + body.origin.x - body.centre.x,
            hi.x + body.origin.x - body.centre.x <= 1000,
            -1000 <= lo.y + body.origin.y - body.centre.y,
            hi.y + body.origin.y - body.centre.y <= 1000,
            -1000 <= lo.z + body.origin.z - body.centre.z,
            hi.z + body.origin.z - body.centre.z <= 1000,
            tree.wf(),
            roomy(*tree, body.ore.material),
            tree.number() == old(tree).number(),
            old(tree).tidy() ==> tree.tidy(),
            stamped(
                *old(tree),
                *tree,
                *body,
                lo,
                IVec3 { x: hi.x, y: hi.y, z: (z - 1) as i32 },
            ),
        decreases hi.z - z + 1,
    {
        let ghost before = *tree;
        stamp_layer(tree, body, lo, hi, z);
        proof {
            assert forall|u: IVec3| u.within(512) implies #[trigger] tree.voxel_of(u)
                == if u.between(lo, IVec3 { x: hi.x, y: hi.y, z }) && body.holds(u) && old(
                tree,
            ).voxel_of(u) == body.host {
                body.ore.material
            } else {
                old(tree).voxel_of(u)
            } by {
                assert(before.voxel_of(u) == before.voxel_of(u));
            }
        }
        z += 1;
    }
    assert forall|v: IVec3| v.within(512) implies #[trigger] tree.voxel_of(v) == if body.holds(v)
        && old(tree).voxel_of(v) == body.host {
        body.ore.material
    } else {
        old(tree).voxel_of(v)
    } by {
        if body.holds(v) {
            assert(v.between(lo, hi));
        }
    }
}

/// Every ore replaces the rock that hosts it, and no ore hosts another: a
/// second body stamped over the first leaves it.
pub proof fn ores_are_final(host: MaterialId)
    ensures
        hosted(host) matches Some((ore, most)) ==> hosted(ore.material) is None && ore.material
            != host,
{
}

/// Chunks agree on the bodies that cross their seams: every ore cell at or
/// above the world's floor whose body holds a voxel of a chunk is among those
/// the chunk looks at.
pub proof fn bodies_are_found(c: IVec3, seed: u64, host: MaterialId, origin: IVec3, v: IVec3)
    requires
        -0x80_0000 <= c.x < 0x80_0000,
        0 <= c.y <= 0x40_0000,
        -0x80_0000 <= c.z < 0x80_0000,
        v.within(512),
        hosted(host) matches Some((ore, most)) && body_holds(
            v,
            origin,
            body_centre(c, seed),
            ore,
        ),
    ensures
        (origin.x - 64) / 256 <= c.x <= (origin.x + 576) / 256,
        (origin.y - 64) / 256 <= c.y <= (origin.y + 576) / 256,
        (origin.z - 64) / 256 <= c.z <= (origin.z + 576) / 256,
{
    let (ore, most) = hosted(host)->Some_0;
    let b = body_centre(c, seed);
    lemma_reach(
        v.x + origin.x - b.x,
        v.y + origin.y - b.y,
        v.z + origin.z - b.z,
        ore.fifths as int,
    );
    let h = ore_hash(c, seed);
    assert(0 <= h as int / 0x100_0000_0000 / 0x1_0000 < 256);
    assert(0 <= ore_draw(c, seed, 17) / 0x1_0000 < 256);
    assert(0 <= ore_draw(c, seed, 34) / 0x1_0000 < 256);
}

/// Every ore has its rock and its share: coal in 0.45 of the cells whose middle
/// is shale, iron in 0.15 of sandstone, copper in 0.12 of granite, gold in
/// 0.03 of gneiss, in bodies of 40, 28.8, 24 and 12.8 voxels; other rock has
/// none.
pub proof fn ores_have_their_host(host: MaterialId)
    ensures
        hosted(host) is Some <==> host.0 == 5 || host.0 == 4 || host.0 == 1 || host.0 == 47,
        host.0 == 5 ==> hosted(host) == Some(
            (Ore { material: MaterialId(28), fifths: 200 }, 7549747int),
        ),
        host.0 == 4 ==> hosted(host) == Some(
            (Ore { material: MaterialId(29), fifths: 144 }, 2516582int),
        ),
        host.0 == 1 ==> hosted(host) == Some(
            (Ore { material: MaterialId(30), fifths: 120 }, 2013265int),
        ),
        host.0 == 47 ==> hosted(host) == Some(
            (Ore { material: MaterialId(31), fifths: 64 }, 503316int),
        ),
{
}

/// A body is as wide as its ore says and a third as thick: from its middle it
/// reaches so far along x and z, a third of it up and down, and no farther.
pub proof fn bodies_are_flat(n: int, fifths: int)
    requires
        0 <= fifths,
        0 <= n,
    ensures
        in_body(n, 0, 0, fifths) <==> 5 * n <= fifths,
        in_body(0, 0, n, fifths) <==> 5 * n <= fifths,
        in_body(0, n, 0, fifths) <==> 15 * n <= fifths,
        in_body(-n, 0, 0, fifths) <==> in_body(n, 0, 0, fifths),
        in_body(0, -n, 0, fifths) <==> in_body(0, n, 0, fifths),
        in_body(0, 0, -n, fifths) <==> in_body(0, 0, n, fifths),
{
    lemma_side(5 * n, fifths);
    lemma_side(15 * n, fifths);
    assert((5 * n) * (5 * n) == 25 * (n * n)) by (nonlinear_arith);
    assert((15 * n) * (15 * n) == 225 * (n * n)) by (nonlinear_arith);
    assert((-n) * (-n) == n * n) by (nonlinear_arith);
    if 5 * n <= fifths {
        assert((5 * n) * (5 * n) <= fifths * fifths) by (nonlinear_arith)
            requires
                0 <= 5 * n <= fifths,
        ;
    }
    if 15 * n <= fifths {
        assert((15 * n) * (15 * n) <= fifths * fifths) by (nonlinear_arith)
            requires
                0 <= 15 * n <= fifths,
        ;
    }
}

/// A body's middle lies in its own cell of 256 voxels, wherever the draws put
/// it.
pub proof fn bodies_lie_in_their_cell(c: IVec3, seed: u64)
    requires
        -0x80_0000 <= c.x < 0x80_0000,
        -0x80_0000 <= c.y < 0x80_0000,
        -0x80_0000 <= c.z < 0x80_0000,
    ensures
        body_centre(c, seed).x as int / 256 == c.x,
        body_centre(c, seed).y as int / 256 == c.y,
        body_centre(c, seed).z as int / 256 == c.z,
{
}

} // verus!
