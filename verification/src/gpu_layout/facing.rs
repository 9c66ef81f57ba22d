//! Which way a node's surface faces: away from where its mass lies.

use crate::ivec::IVec3;
use crate::tree::path::{child_coord, coord, lemma_coord};
use vstd::prelude::*;

verus! {

/// Covered voxels of the first `n` children, each weighed by twice its offset
/// from the node's middle along one axis, with the sign turned: solid mass
/// sits opposite the surface normal.
pub open spec fn lean(children: Seq<(u32, u32)>, axis: int, n: int) -> int
    decreases n,
{
    if n <= 0 {
        0
    } else {
        lean(children, axis, n - 1) + (3 - 2 * along(
            coord(children[n - 1].0 as int),
            axis,
        )) * children[n - 1].1
    }
}

pub open spec fn along(v: IVec3, axis: int) -> int {
    if axis == 0 {
        v.x as int
    } else if axis == 1 {
        v.y as int
    } else {
        v.z as int
    }
}

fn weighed(c: i32, cover: u32) -> (w: i64)
    requires
        0 <= c < 4,
    ensures
        w == (3 - 2 * c) * cover,
        -0x3_0000_0000 <= w <= 0x3_0000_0000,
{
    let k: i64 = 3 - 2 * c as i64;
    let n: i64 = cover as i64;
    assert(-0x3_0000_0000 <= k * n <= 0x3_0000_0000) by (nonlinear_arith)
        requires
            -3 <= k <= 3,
            0 <= n <= 0xffff_ffff,
    ;
    k * n
}

/// The direction that a node faces, not normalised; zero where its mass is
/// balanced.
pub fn gradient(children: &Vec<(u32, u32)>) -> (g: (i64, i64, i64))
    requires
        children@.len() <= 64,
        forall|k: int| 0 <= k < children@.len() ==> (#[trigger] children@[k]).0 < 64,
    ensures
        g.0 == lean(children@, 0, children@.len() as int),
        g.1 == lean(children@, 1, children@.len() as int),
        g.2 == lean(children@, 2, children@.len() as int),
{
    let mut g: (i64, i64, i64) = (0, 0, 0);
    let mut k: usize = 0;
    while k < children.len()
        invariant
            k <= children@.len() <= 64,
            forall|j: int| 0 <= j < children@.len() ==> (#[trigger] children@[j]).0 < 64,
            g.0 == lean(children@, 0, k as int),
            g.1 == lean(children@, 1, k as int),
            g.2 == lean(children@, 2, k as int),
            -0x3_0000_0000 * k <= g.0 <= 0x3_0000_0000 * k,
            -0x3_0000_0000 * k <= g.1 <= 0x3_0000_0000 * k,
            -0x3_0000_0000 * k <= g.2 <= 0x3_0000_0000 * k,
        decreases children@.len() - k,
    {
        let (i, cover): (u32, u32) = children[k];
        proof {
            lemma_coord(i as int);
        }
        let c: IVec3 = child_coord(i);
        g = (g.0 + weighed(c.x, cover), g.1 + weighed(c.y, cover), g.2 + weighed(c.z, cover));
        k += 1;
    }
    g
}

/// A node faces away from its mass: where all that is covered lies in the low
/// half along an axis it leans up that axis, in the high half down it.
pub proof fn nodes_face_away_from_their_mass(children: Seq<(u32, u32)>, axis: int, n: int)
    requires
        0 < n <= children.len(),
        0 <= axis < 3,
        forall|k: int| 0 <= k < n ==> (#[trigger] children[k]).1 > 0 && children[k].0 < 64,
    ensures
        (forall|k: int|
            0 <= k < n ==> along(coord((#[trigger] children[k]).0 as int), axis) < 2) ==> lean(
            children,
            axis,
            n,
        ) > 0,
        (forall|k: int|
            0 <= k < n ==> along(coord((#[trigger] children[k]).0 as int), axis) >= 2) ==> lean(
            children,
            axis,
            n,
        ) < 0,
    decreases n,
{
    let c = children[n - 1];
    let a = along(coord(c.0 as int), axis);
    assert(a < 2 ==> (3 - 2 * a) * c.1 >= c.1) by (nonlinear_arith)
        requires
            c.1 > 0,
    ;
    assert(a >= 2 ==> (3 - 2 * a) * c.1 <= -c.1) by (nonlinear_arith)
        requires
            c.1 > 0,
    ;
    assert(lean(children, axis, n) == lean(children, axis, n - 1) + (3 - 2 * a) * c.1);
    assert(lean(children, axis, 0) == 0);
    if n > 1 {
        nodes_face_away_from_their_mass(children, axis, n - 1);
    }
}

/// A child weighs by its distance from the middle: one at the edge three times
/// as much as one beside it, and as much as its mirror image the other way.
pub proof fn children_weigh_by_distance(i: u32, cover: u32, axis: int)
    requires
        i < 64,
        0 <= axis < 3,
    ensures
        ({
            let a = along(coord(i as int), axis);
            let w = lean(seq![(i, cover)], axis, 1);
            &&& a == 0 ==> w == 3 * cover
            &&& a == 1 ==> w == cover
            &&& a == 2 ==> w == -cover
            &&& a == 3 ==> w == -3 * cover
        }),
        axis == 0 ==> along(coord(i as int), axis) == i as int % 4,
        axis == 1 ==> along(coord(i as int), axis) == i as int / 16,
        axis == 2 ==> along(coord(i as int), axis) == i as int / 4 % 4,
{
    let s = seq![(i, cover)];
    assert(lean(s, axis, 0) == 0);
    assert(s[0] == (i, cover));
    let a = along(coord(i as int), axis);
    assert(lean(s, axis, 1) == (3 - 2 * a) * cover);
    assert((3 - 2 * a) * cover == 3 * cover - 2 * (a * cover)) by (nonlinear_arith);
    assert(0 <= a < 4);
    assert(a == 0 ==> a * cover == 0) by (nonlinear_arith);
    assert(a == 1 ==> a * cover == cover) by (nonlinear_arith);
    assert(a == 2 ==> a * cover == 2 * cover) by (nonlinear_arith);
    assert(a == 3 ==> a * cover == 3 * cover) by (nonlinear_arith);
}

} // verus!
