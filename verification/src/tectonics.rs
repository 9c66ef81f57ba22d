//! Kinematic plates: a handful, each with a seeded place and velocity. Where
//! two meet, the relative motion picks the landform: a ridged range if they
//! collide, a rift if they pull apart, a scarp if they slide.

use crate::key::{Key, K_0_18};
use crate::noise::{hash3, hash_unit24, point_hash, rotate, turned};
use vstd::prelude::*;

verus! {

/// A plate of the grid: which square it belongs to, where in it, its heading
/// and its speed, each a 24-bit draw.
#[derive(Clone, Copy, Debug, PartialEq, Eq, Structural)]
pub struct Plate {
    pub gx: i32,
    pub gz: i32,
    pub x: u32,
    pub z: u32,
    pub heading: u32,
    pub speed: u32,
}

/// The plate of square (gx, gz).
pub open spec fn is_plate(p: Plate, gx: int, gz: int, seed: u64) -> bool {
    let h = point_hash(gx as i32, gz as i32, 0, seed ^ 0x71a7_e011);
    &&& p.gx == gx && p.gz == gz
    &&& p.x == h as int / 0x100_0000_0000
    &&& p.z == turned(h, 21) as int / 0x100_0000_0000
    &&& p.heading == turned(h, 40) as int / 0x100_0000_0000
    &&& p.speed == turned(h, 11) as int / 0x100_0000_0000
}

fn plate_at(gx: i32, gz: i32, seed: u64) -> (p: Plate)
    ensures
        is_plate(p, gx as int, gz as int, seed),
{
    let h: u64 = hash3(gx, gz, 0, seed ^ 0x71a7_e011);
    Plate {
        gx,
        gz,
        x: hash_unit24(h),
        z: hash_unit24(rotate(h, 21)),
        heading: hash_unit24(rotate(h, 40)),
        speed: hash_unit24(rotate(h, 11)),
    }
}

/// The plates of the nine squares about (cx, cz), row by row.
pub fn plates_near(cx: i32, cz: i32, seed: u64) -> (r: Vec<Plate>)
    requires
        i32::MIN < cx < i32::MAX,
        i32::MIN < cz < i32::MAX,
    ensures
        r@.len() == 9,
        forall|i: int| 0 <= i < 9 ==> is_plate(#[trigger] r@[i], cx - 1 + i % 3, cz - 1 + i / 3, seed),
{
    let mut r: Vec<Plate> = Vec::new();
    let mut i: i32 = 0;
    while i < 9
        invariant
            0 <= i <= 9,
            i32::MIN < cx < i32::MAX,
            i32::MIN < cz < i32::MAX,
            r@.len() == i,
            forall|j: int|
                0 <= j < i ==> is_plate(#[trigger] r@[j], cx - 1 + j % 3, cz - 1 + j / 3, seed),
        decreases 9 - i,
    {
        let (dx, dz): (i32, i32) = (i % 3 - 1, i / 3 - 1);
        r.push(plate_at(cx + dx, cz + dz, seed));
        i += 1;
    }
    r
}

/// `a` is the first of the nearest.
pub open spec fn nearest(d: Seq<Key>, a: int) -> bool {
    &&& 0 <= a < d.len()
    &&& forall|j: int| 0 <= j < d.len() ==> d[a] <= #[trigger] d[j]
    &&& forall|j: int| 0 <= j < a ==> d[a] < #[trigger] d[j]
}

/// `b` is the first of the nearest but `a`.
pub open spec fn runner_up(d: Seq<Key>, a: int, b: int) -> bool {
    &&& 0 <= b < d.len() && b != a
    &&& forall|j: int| 0 <= j < d.len() && j != a ==> d[b] <= #[trigger] d[j]
    &&& forall|j: int| 0 <= j < b && j != a ==> d[b] < #[trigger] d[j]
}

/// The nearest two of at least two distances.
pub fn nearest_two(d: &Vec<Key>) -> (r: (usize, usize))
    requires
        d@.len() >= 2,
    ensures
        nearest(d@, r.0 as int),
        runner_up(d@, r.0 as int, r.1 as int),
{
    let (mut a, mut b): (usize, usize) = if d[1] < d[0] {
        (1, 0)
    } else {
        (0, 1)
    };
    let mut i: usize = 2;
    while i < d.len()
        invariant
            2 <= i <= d@.len(),
            nearest(d@.take(i as int), a as int),
            runner_up(d@.take(i as int), a as int, b as int),
        decreases d@.len() - i,
    {
        let ghost was = d@.take(i as int);
        let ghost now = d@.take(i + 1);
        assert(now =~= was.push(d@[i as int]));
        assert(forall|j: int| 0 <= j < i ==> #[trigger] now[j] == was[j]);
        if d[i] < d[a] {
            b = a;
            a = i;
        } else if d[i] < d[b] {
            b = i;
        }
        i += 1;
    }
    assert(d@.take(d@.len() as int) =~= d@);
    (a, b)
}

/// What rises where two plates meet.
#[derive(Clone, Copy, Debug, PartialEq, Eq, Structural)]
pub enum Landform {
    Range,
    Rift,
    Scarp,
}

/// The landform for how fast two plates close in, -1 to 1.
pub fn landform(convergence: Key) -> (l: Landform)
    ensures
        l == if convergence > K_0_18 {
            Landform::Range
        } else if convergence < -K_0_18 {
            Landform::Rift
        } else {
            Landform::Scarp
        },
        l is Range <==> convergence > 0x3e38_51ec,
        l is Rift <==> convergence < -0x3e38_51ec,
{
    if convergence > K_0_18 {
        Landform::Range
    } else if convergence < -K_0_18 {
        Landform::Rift
    } else {
        Landform::Scarp
    }
}

/// A plate lies in its own square, and its place, heading and speed are the
/// top bits of one hash, turned by 21, 40 and 11.
pub proof fn plates_lie_in_their_square(p: Plate, gx: i32, gz: i32, seed: u64)
    requires
        is_plate(p, gx as int, gz as int, seed),
    ensures
        p.gx == gx && p.gz == gz,
        p.x < 0x100_0000 && p.z < 0x100_0000 && p.heading < 0x100_0000 && p.speed < 0x100_0000,
        ({
            let h = point_hash(gx, gz, 0, seed ^ 0x71a7_e011);
            &&& 0 <= h - p.x * 0x100_0000_0000 < 0x100_0000_0000
            &&& 0 <= turned(h, 21) - p.z * 0x100_0000_0000 < 0x100_0000_0000
            &&& 0 <= turned(h, 40) - p.heading * 0x100_0000_0000 < 0x100_0000_0000
            &&& 0 <= turned(h, 11) - p.speed * 0x100_0000_0000 < 0x100_0000_0000
        }),
{
}

} // verus!
