//! Child indices and the path from a chunk's root to one of its brick cells.

use crate::ivec::IVec3;
use vstd::prelude::*;

verus! {

/// Index of the child at `(x, y, z)` of a 4^3 node.
pub open spec fn cindex(x: int, y: int, z: int) -> int {
    x + z * 4 + y * 16
}

/// Child of the root on the way to brick cell `b`.
pub open spec fn top(b: IVec3) -> int {
    cindex(b.x as int / 16, b.y as int / 16, b.z as int / 16)
}

/// Child of the 8 m node on the way to brick cell `b`.
pub open spec fn mid(b: IVec3) -> int {
    cindex(b.x as int / 4 % 4, b.y as int / 4 % 4, b.z as int / 4 % 4)
}

/// Child of the 2 m node that is brick cell `b`.
pub open spec fn low(b: IVec3) -> int {
    cindex(b.x as int % 4, b.y as int % 4, b.z as int % 4)
}

/// Children are numbered within a node.
pub open spec fn children(a: int, m: int, c: int) -> bool {
    0 <= a < 64 && 0 <= m < 64 && 0 <= c < 64
}

/// Coordinate of child `i`.
pub open spec fn coord(i: int) -> IVec3 {
    IVec3 { x: (i % 4) as i32, y: (i / 16 % 4) as i32, z: (i / 4 % 4) as i32 }
}

/// The brick cell at the end of a path.
pub open spec fn cell_coord(a: int, m: int, c: int) -> IVec3 {
    IVec3 {
        x: (coord(a).x * 16 + coord(m).x * 4 + coord(c).x) as i32,
        y: (coord(a).y * 16 + coord(m).y * 4 + coord(c).y) as i32,
        z: (coord(a).z * 16 + coord(m).z * 4 + coord(c).z) as i32,
    }
}

#[inline]
pub fn child_index(c: IVec3) -> (i: u32)
    requires
        c.within(4),
    ensures
        i == cindex(c.x as int, c.y as int, c.z as int),
        i < 64,
{
    (c.x + c.z * 4 + c.y * 16) as u32
}

#[inline]
pub fn child_coord(i: u32) -> (c: IVec3)
    requires
        i < 64,
    ensures
        c == coord(i as int),
        c.within(4),
{
    IVec3 { x: (i % 4) as i32, y: (i / 16 % 4) as i32, z: (i / 4 % 4) as i32 }
}

/// Brick cell coordinate in `0..64` split into its three child indices.
#[inline]
pub fn path(b: IVec3) -> (r: (u32, u32, u32))
    requires
        b.within(64),
    ensures
        r.0 == top(b),
        r.1 == mid(b),
        r.2 == low(b),
        r.0 < 64,
        r.1 < 64,
        r.2 < 64,
{
    (child_index(b.div(16)), child_index(b.div(4).rem(4)), child_index(b.rem(4)))
}

/// Child indices and coordinates match one to one.
pub proof fn lemma_coord(i: int)
    requires
        0 <= i < 64,
    ensures
        coord(i).within(4),
        cindex(coord(i).x as int, coord(i).y as int, coord(i).z as int) == i,
{
}

pub proof fn lemma_cindex(x: int, y: int, z: int)
    requires
        0 <= x < 4,
        0 <= y < 4,
        0 <= z < 4,
    ensures
        0 <= cindex(x, y, z) < 64,
        coord(cindex(x, y, z)) == (IVec3 { x: x as i32, y: y as i32, z: z as i32 }),
{
    let i = cindex(x, y, z);
    assert(i / 4 == z + 4 * y);
    assert(i / 16 == y);
}

/// Paths and brick cells match one to one.
pub proof fn lemma_path(b: IVec3)
    requires
        b.within(64),
    ensures
        children(top(b), mid(b), low(b)),
        cell_coord(top(b), mid(b), low(b)) == b,
{
    lemma_cindex(b.x as int / 16, b.y as int / 16, b.z as int / 16);
    lemma_cindex(b.x as int / 4 % 4, b.y as int / 4 % 4, b.z as int / 4 % 4);
    lemma_cindex(b.x as int % 4, b.y as int % 4, b.z as int % 4);
    lemma_digits(b.x as int);
    lemma_digits(b.y as int);
    lemma_digits(b.z as int);
}

proof fn lemma_digits(n: int)
    ensures
        n / 16 * 16 + n / 4 % 4 * 4 + n % 4 == n,
{
    assert(n / 16 == n / 4 / 4);
}

proof fn lemma_undigits(a: int, m: int, c: int)
    requires
        0 <= a < 4,
        0 <= m < 4,
        0 <= c < 4,
    ensures
        (a * 16 + m * 4 + c) / 16 == a,
        (a * 16 + m * 4 + c) / 4 % 4 == m,
        (a * 16 + m * 4 + c) % 4 == c,
        0 <= a * 16 + m * 4 + c < 64,
{
    let n = a * 16 + m * 4 + c;
    assert(n / 4 == a * 4 + m);
}

pub proof fn lemma_unpath(a: int, m: int, c: int)
    requires
        children(a, m, c),
    ensures
        cell_coord(a, m, c).within(64),
        top(cell_coord(a, m, c)) == a,
        mid(cell_coord(a, m, c)) == m,
        low(cell_coord(a, m, c)) == c,
{
    lemma_coord(a);
    lemma_coord(m);
    lemma_coord(c);
    lemma_undigits(coord(a).x as int, coord(m).x as int, coord(c).x as int);
    lemma_undigits(coord(a).y as int, coord(m).y as int, coord(c).y as int);
    lemma_undigits(coord(a).z as int, coord(m).z as int, coord(c).z as int);
}

/// Children are numbered along x first, then z, then y, and a path names the
/// 8 m node, the 2 m node in it and the cell in that: 16, 4 and 1 cells to a
/// step.
pub proof fn paths_go_from_coarse_to_fine(b: IVec3)
    requires
        b.within(64),
    ensures
        top(b) % 4 == b.x as int / 16 && top(b) / 4 % 4 == b.z as int / 16 && top(b) / 16
            == b.y as int / 16,
        mid(b) % 4 == b.x as int % 16 / 4 && mid(b) / 4 % 4 == b.z as int % 16 / 4 && mid(b) / 16
            == b.y as int % 16 / 4,
        low(b) % 4 == b.x as int % 4 && low(b) / 4 % 4 == b.z as int % 4 && low(b) / 16
            == b.y as int % 4,
{
    lemma_cindex(b.x as int / 16, b.y as int / 16, b.z as int / 16);
    lemma_cindex(b.x as int / 4 % 4, b.y as int / 4 % 4, b.z as int / 4 % 4);
    lemma_cindex(b.x as int % 4, b.y as int % 4, b.z as int % 4);
    lemma_quarter(b.x as int);
    lemma_quarter(b.y as int);
    lemma_quarter(b.z as int);
}

proof fn lemma_quarter(a: int)
    requires
        0 <= a < 64,
    ensures
        a / 4 % 4 == a % 16 / 4,
        0 <= a / 16 < 4,
{
}

} // verus!
