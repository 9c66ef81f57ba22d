//! Where the player arrives, and what falls on them.

use crate::amplify::SNOWLINE_M;
use crate::ivec::IVec3;
use crate::key::Key;
use crate::world::VoxelWorld;
use vstd::prelude::*;

verus! {

/// 0.32 of the way from cold to warm: snow falls below.
pub const SNOW_TEMP: Key = 0x3ea3_d70a;

/// Square `(i, k)` lies on the ring `ring` squares out from `(c, c)`.
pub open spec fn on_ring(c: int, ring: int, i: int, k: int) -> bool {
    &&& c - ring <= i <= c + ring
    &&& c - ring <= k <= c + ring
    &&& i == c - ring || i == c + ring || k == c - ring || k == c + ring
}

/// Where in the search's order `(i, k)` comes.
pub open spec fn rank(c: int, ring: int, i: int, k: int) -> int {
    (k - (c - ring)) * (2 * ring + 1) + (i - (c - ring))
}

/// The squares of a ring, row by row.
pub fn ring_cells(c: i32, ring: i32) -> (r: Vec<(i32, i32)>)
    requires
        0 <= ring <= 0x1000,
        -0x4000_0000 <= c <= 0x4000_0000,
    ensures
        forall|n: int| 0 <= n < r@.len() ==> on_ring(
            c as int,
            ring as int,
            (#[trigger] r@[n]).0 as int,
            r@[n].1 as int,
        ),
        forall|i: i32, k: i32|
            on_ring(c as int, ring as int, i as int, k as int) ==> #[trigger] r@.contains((i, k)),
        forall|m: int, n: int|
            0 <= m < n < r@.len() ==> rank(
                c as int,
                ring as int,
                (#[trigger] r@[m]).0 as int,
                r@[m].1 as int,
            ) < rank(c as int, ring as int, (#[trigger] r@[n]).0 as int, r@[n].1 as int),
{
    let mut r: Vec<(i32, i32)> = Vec::new();
    let mut k: i32 = c - ring;
    while k <= c + ring
        invariant
            0 <= ring <= 0x1000,
            -0x4000_0000 <= c <= 0x4000_0000,
            c - ring <= k <= c + ring + 1,
            forall|n: int| 0 <= n < r@.len() ==> on_ring(
                c as int,
                ring as int,
                (#[trigger] r@[n]).0 as int,
                r@[n].1 as int,
            ) && r@[n].1 < k,
            forall|a: i32, b: i32|
                on_ring(c as int, ring as int, a as int, b as int) && b < k
                    ==> #[trigger] r@.contains((a, b)),
            forall|m: int, n: int|
                0 <= m < n < r@.len() ==> rank(
                    c as int,
                    ring as int,
                    (#[trigger] r@[m]).0 as int,
                    r@[m].1 as int,
                ) < rank(c as int, ring as int, (#[trigger] r@[n]).0 as int, r@[n].1 as int),
        decreases c + ring + 1 - k,
    {
        let mut i: i32 = c - ring;
        while i <= c + ring
            invariant
                0 <= ring <= 0x1000,
                -0x4000_0000 <= c <= 0x4000_0000,
                c - ring <= k <= c + ring,
                c - ring <= i <= c + ring + 1,
                forall|n: int| 0 <= n < r@.len() ==> on_ring(
                    c as int,
                    ring as int,
                    (#[trigger] r@[n]).0 as int,
                    r@[n].1 as int,
                ) && (r@[n].1 < k || r@[n].1 == k && r@[n].0 < i),
                forall|a: i32, b: i32|
                    on_ring(c as int, ring as int, a as int, b as int) && (b < k || b == k && a < i)
                        ==> #[trigger] r@.contains((a, b)),
                forall|m: int, n: int|
                    0 <= m < n < r@.len() ==> rank(
                        c as int,
                        ring as int,
                        (#[trigger] r@[m]).0 as int,
                        r@[m].1 as int,
                    ) < rank(c as int, ring as int, (#[trigger] r@[n]).0 as int, r@[n].1 as int),
            decreases c + ring + 1 - i,
        {
            let ghost was = r@;
            if i == c - ring || i == c + ring || k == c - ring || k == c + ring {
                r.push((i, k));
                proof {
                    assert(r@[was.len() as int] == (i, k));
                    assert forall|a: i32, b: i32| #[trigger] was.contains((a, b)) implies r@.contains(
                        (a, b),
                    ) by {
                        let n = choose|n: int| 0 <= n < was.len() && was[n] == (a, b);
                        assert(r@[n] == (a, b));
                    }
                    assert forall|a: i32, b: i32|
                        on_ring(c as int, ring as int, a as int, b as int) && (b < k || b == k && a
                            < i + 1) implies #[trigger] r@.contains((a, b)) by {
                        if b < k || a < i {
                            assert(was.contains((a, b)));
                        }
                    }
                    assert forall|m: int| 0 <= m < was.len() implies rank(
                        c as int,
                        ring as int,
                        (#[trigger] r@[m]).0 as int,
                        r@[m].1 as int,
                    ) < rank(c as int, ring as int, i as int, k as int) by {
                        let (a, b) = was[m];
                        lemma_rank(c as int, ring as int, a as int, b as int, i as int, k as int);
                    }
                }
            }
            i += 1;
        }
        k += 1;
    }
    r
}

proof fn lemma_rank(c: int, ring: int, a: int, b: int, i: int, k: int)
    requires
        0 <= ring,
        c - ring <= a <= c + ring,
        c - ring <= i <= c + ring,
        b < k || b == k && a < i,
    ensures
        rank(c, ring, a, b) < rank(c, ring, i, k),
{
    let w = 2 * ring + 1;
    if b < k {
        let (p, q) = (b - (c - ring), k - (c - ring));
        assert(p * w + w <= q * w) by (nonlinear_arith)
            requires
                p + 1 <= q,
                w >= 1,
        ;
    }
}

/// Every square within `n` of the middle lies on exactly one ring.
pub proof fn rings_cover_the_map(c: int, i: int, k: int, a: int, b: int)
    requires
        a >= 0,
        b >= 0,
        on_ring(c, a, i, k),
        on_ring(c, b, i, k),
    ensures
        a == b,
{
}

/// The voxel `n` brick cells over the eye.
pub open spec fn over_eye(eye: IVec3, n: int) -> IVec3 {
    IVec3 { x: eye.x, y: (eye.y + n * 8) as i32, z: eye.z }
}

/// Something solid stands over the eye, within 47 brick cells.
pub open spec fn roofed(w: VoxelWorld, eye: IVec3) -> bool {
    exists|n: int| 1 <= n < 48 && (#[trigger] w.voxel_of(over_eye(eye, n))).solid()
}

/// Nothing falls under a roof.
pub fn covered(w: &VoxelWorld, eye: IVec3) -> (b: bool)
    requires
        w.wf(),
        -0x4000_0000 <= eye.y <= 0x4000_0000,
    ensures
        b == roofed(*w, eye),
{
    let mut n: i32 = 1;
    while n < 48
        invariant
            1 <= n <= 48,
            w.wf(),
            -0x4000_0000 <= eye.y <= 0x4000_0000,
            forall|m: int| 1 <= m < n ==> !(#[trigger] w.voxel_of(over_eye(eye, m))).solid(),
        decreases 48 - n,
    {
        let at: IVec3 = IVec3 { x: eye.x, y: eye.y + n * 8, z: eye.z };
        assert(at == over_eye(eye, n as int));
        if w.voxel(at).is_solid() {
            return true;
        }
        n += 1;
    }
    false
}

/// What falls from the sky.
#[derive(Clone, Copy, Debug, PartialEq, Eq, Structural)]
pub struct Falling {
    pub rain: bool,
    pub snow: bool,
    /// The ground gets wet.
    pub wet: bool,
}

/// Cold by the climate, or high up.
pub open spec fn freezes(temp: Key, y: Key) -> bool {
    temp < SNOW_TEMP || y > SNOWLINE_M
}

/// Rain, or snow where it is cold; neither under a roof.
pub fn falling(temp: Key, y: Key, roof: bool) -> (f: Falling)
    ensures
        f == (Falling {
            rain: !freezes(temp, y) && !roof,
            snow: freezes(temp, y) && !roof,
            wet: !freezes(temp, y),
        }),
        f.snow <==> !roof && (temp < 0x3ea3_d70a || y > 0x43c3_0000),
        f.rain <==> !roof && temp >= 0x3ea3_d70a && y <= 0x43c3_0000,
        f.wet <==> temp >= 0x3ea3_d70a && y <= 0x43c3_0000,
{
    let cold: bool = temp < SNOW_TEMP || y > SNOWLINE_M;
    Falling { rain: !cold && !roof, snow: cold && !roof, wet: !cold }
}

/// It snows below 0.32 of warmth, and above 390 m whatever the warmth.
pub proof fn it_snows_where_it_is_cold(temp: Key, y: Key)
    ensures
        freezes(temp, y) <==> temp < 0x3ea3_d70a || y > 0x43c3_0000,
{
}

/// A roof is something solid straight over the eye, a whole number of brick
/// cells up: at least one, and at most 47, so 23.5 m.
pub proof fn roofs_are_straight_overhead(w: VoxelWorld, eye: IVec3, n: int)
    requires
        -0x4000_0000 <= eye.y <= 0x4000_0000,
    ensures
        1 <= n <= 47 && w.voxel_of(
            IVec3 { x: eye.x, y: (eye.y + 8 * n) as i32, z: eye.z },
        ).solid() ==> roofed(w, eye),
        (forall|y: i32|
            eye.y < y <= eye.y + 376 ==> !(#[trigger] w.voxel_of(
                IVec3 { x: eye.x, y, z: eye.z },
            )).solid()) ==> !roofed(w, eye),
{
    if 1 <= n <= 47 {
        assert(over_eye(eye, n) == (IVec3 { x: eye.x, y: (eye.y + 8 * n) as i32, z: eye.z }));
    }
    if forall|y: i32|
        eye.y < y <= eye.y + 376 ==> !(#[trigger] w.voxel_of(
            IVec3 { x: eye.x, y, z: eye.z },
        )).solid() {
        assert forall|m: int| 1 <= m < 48 implies !(#[trigger] w.voxel_of(over_eye(eye, m))).solid() by {
            let y = (eye.y + 8 * m) as i32;
            assert(over_eye(eye, m) == (IVec3 { x: eye.x, y, z: eye.z }));
            assert(eye.y < y <= eye.y + 376);
        }
    }
}

/// A ring of radius zero is its middle, and any other holds the squares whose
/// greater distance along an axis is the radius.
pub proof fn rings_go_by_the_greater_distance(c: int, ring: int, i: int, k: int)
    requires
        ring >= 0,
    ensures
        ({
            let (a, b) = (if i < c {
                c - i
            } else {
                i - c
            }, if k < c {
                c - k
            } else {
                k - c
            });
            on_ring(c, ring, i, k) <==> (if a > b {
                a
            } else {
                b
            }) == ring
        }),
{
}

} // verus!
