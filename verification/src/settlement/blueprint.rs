//! Blueprints: what a building is made of, part by part, in building order.
//!
//! Parts are boxes, gable prisms, roof slabs, windowed wall layers and stacks
//! of floors. A later part overrides an earlier one, so rooms, windows and
//! doorways are carved out of the walls that came before them. Across the
//! ground a part is measured in centimetres from the low corner of the
//! footprint; in height from one of a few levels of the site.

use crate::material::{ids, MaterialId};
use crate::rand::{draw, pick, step, Rand};
use crate::settlement::FacadeStyle;
use vstd::prelude::*;

verus! {

/// What a part is made of, by the part it plays.
#[derive(Clone, Copy, Debug, PartialEq, Eq, Structural)]
pub enum Role {
    Wall,
    Frame,
    Roof,
    Foundation,
    Chimney,
    Air,
    Boards,
    Glass,
    Sash,
    Stone,
    Iron,
    Steel,
    Concrete,
    Glow,
}

/// Where a height is measured from.
#[derive(Clone, Copy, Debug, PartialEq, Eq, Structural)]
pub enum Level {
    /// The lowest ground under the building.
    Ground,
    /// The ground floor.
    Floor,
    /// The ridge of the roof.
    Ridge,
    /// Where the roof ends over the walls.
    Eave,
    /// The top of the wall under the roof.
    Gable,
}

/// A distance across the ground: centimetres, and the site's jitter one way
/// (1), the other (-1) or not at all.
#[derive(Clone, Copy, Debug, PartialEq, Eq, Structural)]
pub struct Across {
    pub cm: i32,
    pub jitter: i32,
}

#[derive(Clone, Copy, Debug, PartialEq, Eq, Structural)]
pub struct Height {
    pub from: Level,
    pub cm: i32,
}

#[derive(Clone, Copy, Debug, PartialEq, Eq, Structural)]
pub struct Corner {
    pub x: Across,
    pub y: Height,
    pub z: Across,
}

#[derive(Clone, Copy, Debug, PartialEq, Eq, Structural)]
pub enum Form {
    Box,
    /// Everything under a gable; the ridge runs along x or along z.
    Prism { ridge_x: bool },
    /// The surface of a gable, so many centimetres thick.
    Slab { ridge_x: bool, thick: i32 },
    /// A windowed wall layer: the axis it faces along (0: x, 2: z) and which
    /// way, and the height of a storey.
    Facade { face: u32, outward: bool, style: FacadeStyle, storey: i32 },
    /// Floor slabs every storey, with lights picked by number.
    Floors { storey: i32, thick: i32, lit: u32 },
}

#[derive(Clone, Copy, Debug, PartialEq, Eq, Structural)]
pub struct Part {
    pub form: Form,
    pub lo: Corner,
    pub hi: Corner,
    pub role: Role,
}

pub open spec fn corner(x: int, from: Level, y: int, z: int) -> Corner {
    Corner {
        x: Across { cm: x as i32, jitter: 0 },
        y: Height { from, cm: y as i32 },
        z: Across { cm: z as i32, jitter: 0 },
    }
}

fn corner_at(x: i32, from: Level, y: i32, z: i32) -> (c: Corner)
    ensures
        c == corner(x as int, from, y as int, z as int),
{
    Corner {
        x: Across { cm: x, jitter: 0 },
        y: Height { from, cm: y },
        z: Across { cm: z, jitter: 0 },
    }
}

/// A corner whose place along one axis is jittered.
pub open spec fn loose_corner(
    x: int,
    jx: int,
    from: Level,
    y: int,
    z: int,
    jz: int,
) -> Corner {
    Corner {
        x: Across { cm: x as i32, jitter: jx as i32 },
        y: Height { from, cm: y as i32 },
        z: Across { cm: z as i32, jitter: jz as i32 },
    }
}

fn loose_corner_at(x: i32, jx: i32, from: Level, y: i32, z: i32, jz: i32) -> (c: Corner)
    ensures
        c == loose_corner(x as int, jx as int, from, y as int, z as int, jz as int),
{
    Corner {
        x: Across { cm: x, jitter: jx },
        y: Height { from, cm: y },
        z: Across { cm: z, jitter: jz },
    }
}

pub open spec fn part(form: Form, lo: Corner, hi: Corner, role: Role) -> Part {
    Part { form, lo, hi, role }
}

fn part_of(form: Form, lo: Corner, hi: Corner, role: Role) -> (p: Part)
    ensures
        p == part(form, lo, hi, role),
{
    Part { form, lo, hi, role }
}

/// The parts of `f(0)`, `f(1)` and so on up to `n`, one after the other.
pub open spec fn chain(f: spec_fn(int) -> Seq<Part>, n: int) -> Seq<Part>
    decreases n,
{
    if n <= 0 {
        Seq::empty()
    } else {
        chain(f, n - 1) + f(n - 1)
    }
}

/// Foundation down into the slope.
pub open spec fn foundation(w: int, d: int) -> Seq<Part> {
    seq![
        part(
            Form::Box,
            corner(-12, Level::Ground, -150, -12),
            corner(w + 12, Level::Floor, 0, d + 12),
            Role::Foundation,
        ),
    ]
}

fn put_foundation(w: i32, d: i32, out: &mut Vec<Part>)
    requires
        -0x3000_0000 <= w <= 0x3000_0000,
        -0x3000_0000 <= d <= 0x3000_0000,
    ensures
        final(out)@ == old(out)@ + foundation(w as int, d as int),
{
    out.push(
        part_of(
            Form::Box,
            corner_at(-12, Level::Ground, -150, -12),
            corner_at(w + 12, Level::Floor, 0, d + 12),
            Role::Foundation,
        ),
    );
    assert(out@ =~= old(out)@ + foundation(w as int, d as int));
}

/// Walls to the eaves.
pub open spec fn shell(w: int, d: int, top: int) -> Seq<Part> {
    seq![
        part(Form::Box, corner(0, Level::Floor, 0, 0), corner(w, Level::Floor, top, d), Role::Wall),
    ]
}

fn put_shell(w: i32, d: i32, top: i32, out: &mut Vec<Part>)
    requires
        -0x3000_0000 <= w <= 0x3000_0000,
        -0x3000_0000 <= d <= 0x3000_0000,
        -0x3000_0000 <= top <= 0x3000_0000,
    ensures
        final(out)@ == old(out)@ + shell(w as int, d as int, top as int),
{
    out.push(
        part_of(
            Form::Box,
            corner_at(0, Level::Floor, 0, 0),
            corner_at(w, Level::Floor, top, d),
            Role::Wall,
        ),
    );
    assert(out@ =~= old(out)@ + shell(w as int, d as int, top as int));
}

/// A storey hollowed out, with its floorboards.
pub open spec fn room(w: int, d: int, y: int) -> Seq<Part> {
    seq![
        part(
            Form::Box,
            corner(25, Level::Floor, y + 25, 25),
            corner(w - 25, Level::Floor, y + 300, d - 25),
            Role::Air,
        ),
        part(
            Form::Box,
            corner(25, Level::Floor, y, 25),
            corner(w - 25, Level::Floor, y + 25, d - 25),
            Role::Boards,
        ),
    ]
}

fn put_room(w: i32, d: i32, y: i32, out: &mut Vec<Part>)
    requires
        -0x3000_0000 <= w <= 0x3000_0000,
        -0x3000_0000 <= d <= 0x3000_0000,
        -0x3000_0000 <= y <= 0x3000_0000,
    ensures
        final(out)@ == old(out)@ + room(w as int, d as int, y as int),
{
    out.push(
        part_of(
            Form::Box,
            corner_at(25, Level::Floor, y + 25, 25),
            corner_at(w - 25, Level::Floor, y + 300, d - 25),
            Role::Air,
        ),
    );
    out.push(
        part_of(
            Form::Box,
            corner_at(25, Level::Floor, y, 25),
            corner_at(w - 25, Level::Floor, y + 25, d - 25),
            Role::Boards,
        ),
    );
    assert(out@ =~= old(out)@ + room(w as int, d as int, y as int));
}

/// Corner posts.
pub open spec fn posts(w: int, d: int, top: int) -> Seq<Part> {
    seq![
        part(
            Form::Box,
            corner(-4, Level::Floor, 0, -4),
            corner(29, Level::Floor, top, 29),
            Role::Frame,
        ),
        part(
            Form::Box,
            corner(w - 29, Level::Floor, 0, -4),
            corner(w + 4, Level::Floor, top, 29),
            Role::Frame,
        ),
        part(
            Form::Box,
            corner(-4, Level::Floor, 0, d - 29),
            corner(29, Level::Floor, top, d + 4),
            Role::Frame,
        ),
        part(
            Form::Box,
            corner(w - 29, Level::Floor, 0, d - 29),
            corner(w + 4, Level::Floor, top, d + 4),
            Role::Frame,
        ),
    ]
}

fn put_posts(w: i32, d: i32, top: i32, out: &mut Vec<Part>)
    requires
        -0x3000_0000 <= w <= 0x3000_0000,
        -0x3000_0000 <= d <= 0x3000_0000,
        -0x3000_0000 <= top <= 0x3000_0000,
    ensures
        final(out)@ == old(out)@ + posts(w as int, d as int, top as int),
{
    out.push(
        part_of(
            Form::Box,
            corner_at(-4, Level::Floor, 0, -4),
            corner_at(29, Level::Floor, top, 29),
            Role::Frame,
        ),
    );
    out.push(
        part_of(
            Form::Box,
            corner_at(w - 29, Level::Floor, 0, -4),
            corner_at(w + 4, Level::Floor, top, 29),
            Role::Frame,
        ),
    );
    out.push(
        part_of(
            Form::Box,
            corner_at(-4, Level::Floor, 0, d - 29),
            corner_at(29, Level::Floor, top, d + 4),
            Role::Frame,
        ),
    );
    out.push(
        part_of(
            Form::Box,
            corner_at(w - 29, Level::Floor, 0, d - 29),
            corner_at(w + 4, Level::Floor, top, d + 4),
            Role::Frame,
        ),
    );
    assert(out@ =~= old(out)@ + posts(w as int, d as int, top as int));
}

/// A rail round the walls.
pub open spec fn rail(w: int, d: int, y: int) -> Seq<Part> {
    seq![
        part(
            Form::Box,
            corner(-4, Level::Floor, y - 12, -4),
            corner(w + 4, Level::Floor, y + 12, d + 4),
            Role::Frame,
        ),
    ]
}

fn put_rail(w: i32, d: i32, y: i32, out: &mut Vec<Part>)
    requires
        -0x3000_0000 <= w <= 0x3000_0000,
        -0x3000_0000 <= d <= 0x3000_0000,
        -0x3000_0000 <= y <= 0x3000_0000,
    ensures
        final(out)@ == old(out)@ + rail(w as int, d as int, y as int),
{
    out.push(
        part_of(
            Form::Box,
            corner_at(-4, Level::Floor, y - 12, -4),
            corner_at(w + 4, Level::Floor, y + 12, d + 4),
            Role::Frame,
        ),
    );
    assert(out@ =~= old(out)@ + rail(w as int, d as int, y as int));
}

/// Studs in the two walls along x.
pub open spec fn stud_pair_x(d: int, top: int, x: int) -> Seq<Part> {
    seq![
        part(
            Form::Box,
            corner(x, Level::Floor, 0, -4),
            corner(x + 20, Level::Floor, top, 21),
            Role::Frame,
        ),
        part(
            Form::Box,
            corner(x, Level::Floor, 0, d - 21),
            corner(x + 20, Level::Floor, top, d + 4),
            Role::Frame,
        ),
    ]
}

fn put_stud_pair_x(d: i32, top: i32, x: i32, out: &mut Vec<Part>)
    requires
        -0x3000_0000 <= d <= 0x3000_0000,
        -0x3000_0000 <= top <= 0x3000_0000,
        -0x3000_0000 <= x <= 0x3000_0000,
    ensures
        final(out)@ == old(out)@ + stud_pair_x(d as int, top as int, x as int),
{
    out.push(
        part_of(
            Form::Box,
            corner_at(x, Level::Floor, 0, -4),
            corner_at(x + 20, Level::Floor, top, 21),
            Role::Frame,
        ),
    );
    out.push(
        part_of(
            Form::Box,
            corner_at(x, Level::Floor, 0, d - 21),
            corner_at(x + 20, Level::Floor, top, d + 4),
            Role::Frame,
        ),
    );
    assert(out@ =~= old(out)@ + stud_pair_x(d as int, top as int, x as int));
}

/// Studs in the two walls along z.
pub open spec fn stud_pair_z(w: int, top: int, z: int) -> Seq<Part> {
    seq![
        part(
            Form::Box,
            corner(-4, Level::Floor, 0, z),
            corner(21, Level::Floor, top, z + 20),
            Role::Frame,
        ),
        part(
            Form::Box,
            corner(w - 21, Level::Floor, 0, z),
            corner(w + 4, Level::Floor, top, z + 20),
            Role::Frame,
        ),
    ]
}

fn put_stud_pair_z(w: i32, top: i32, z: i32, out: &mut Vec<Part>)
    requires
        -0x3000_0000 <= w <= 0x3000_0000,
        -0x3000_0000 <= top <= 0x3000_0000,
        -0x3000_0000 <= z <= 0x3000_0000,
    ensures
        final(out)@ == old(out)@ + stud_pair_z(w as int, top as int, z as int),
{
    out.push(
        part_of(
            Form::Box,
            corner_at(-4, Level::Floor, 0, z),
            corner_at(21, Level::Floor, top, z + 20),
            Role::Frame,
        ),
    );
    out.push(
        part_of(
            Form::Box,
            corner_at(w - 21, Level::Floor, 0, z),
            corner_at(w + 4, Level::Floor, top, z + 20),
            Role::Frame,
        ),
    );
    assert(out@ =~= old(out)@ + stud_pair_z(w as int, top as int, z as int));
}

/// A window in a wall along x: opening, pane, mullion, transom and sill.
pub open spec fn window_x(s: int, f: int, y: int) -> Seq<Part> {
    seq![
        part(
            Form::Box,
            corner(s, Level::Floor, y + 90, f - 10),
            corner(s + 75, Level::Floor, y + 210, f + 35),
            Role::Air,
        ),
        part(
            Form::Box,
            corner(s, Level::Floor, y + 90, f + 9),
            corner(s + 75, Level::Floor, y + 210, f + 16),
            Role::Glass,
        ),
        part(
            Form::Box,
            corner(s + 34, Level::Floor, y + 90, f + 6),
            corner(s + 41, Level::Floor, y + 210, f + 19),
            Role::Sash,
        ),
        part(
            Form::Box,
            corner(s, Level::Floor, y + 162, f + 6),
            corner(s + 75, Level::Floor, y + 169, f + 19),
            Role::Sash,
        ),
        part(
            Form::Box,
            corner(s - 6, Level::Floor, y + 80, f - 12),
            corner(s + 81, Level::Floor, y + 90, f + 37),
            Role::Stone,
        ),
    ]
}

fn put_window_x(s: i32, f: i32, y: i32, out: &mut Vec<Part>)
    requires
        -0x3000_0000 <= s <= 0x3000_0000,
        -0x3000_0000 <= f <= 0x3000_0000,
        -0x3000_0000 <= y <= 0x3000_0000,
    ensures
        final(out)@ == old(out)@ + window_x(s as int, f as int, y as int),
{
    out.push(
        part_of(
            Form::Box,
            corner_at(s, Level::Floor, y + 90, f - 10),
            corner_at(s + 75, Level::Floor, y + 210, f + 35),
            Role::Air,
        ),
    );
    out.push(
        part_of(
            Form::Box,
            corner_at(s, Level::Floor, y + 90, f + 9),
            corner_at(s + 75, Level::Floor, y + 210, f + 16),
            Role::Glass,
        ),
    );
    out.push(
        part_of(
            Form::Box,
            corner_at(s + 34, Level::Floor, y + 90, f + 6),
            corner_at(s + 41, Level::Floor, y + 210, f + 19),
            Role::Sash,
        ),
    );
    out.push(
        part_of(
            Form::Box,
            corner_at(s, Level::Floor, y + 162, f + 6),
            corner_at(s + 75, Level::Floor, y + 169, f + 19),
            Role::Sash,
        ),
    );
    out.push(
        part_of(
            Form::Box,
            corner_at(s - 6, Level::Floor, y + 80, f - 12),
            corner_at(s + 81, Level::Floor, y + 90, f + 37),
            Role::Stone,
        ),
    );
    assert(out@ =~= old(out)@ + window_x(s as int, f as int, y as int));
}

/// A window in a wall along z: opening, pane, mullion, transom and sill.
pub open spec fn window_z(s: int, f: int, y: int) -> Seq<Part> {
    seq![
        part(
            Form::Box,
            corner(f - 10, Level::Floor, y + 90, s),
            corner(f + 35, Level::Floor, y + 210, s + 75),
            Role::Air,
        ),
        part(
            Form::Box,
            corner(f + 9, Level::Floor, y + 90, s),
            corner(f + 16, Level::Floor, y + 210, s + 75),
            Role::Glass,
        ),
        part(
            Form::Box,
            corner(f + 6, Level::Floor, y + 90, s + 34),
            corner(f + 19, Level::Floor, y + 210, s + 41),
            Role::Sash,
        ),
        part(
            Form::Box,
            corner(f + 6, Level::Floor, y + 162, s),
            corner(f + 19, Level::Floor, y + 169, s + 75),
            Role::Sash,
        ),
        part(
            Form::Box,
            corner(f - 12, Level::Floor, y + 80, s - 6),
            corner(f + 37, Level::Floor, y + 90, s + 81),
            Role::Stone,
        ),
    ]
}

fn put_window_z(s: i32, f: i32, y: i32, out: &mut Vec<Part>)
    requires
        -0x3000_0000 <= s <= 0x3000_0000,
        -0x3000_0000 <= f <= 0x3000_0000,
        -0x3000_0000 <= y <= 0x3000_0000,
    ensures
        final(out)@ == old(out)@ + window_z(s as int, f as int, y as int),
{
    out.push(
        part_of(
            Form::Box,
            corner_at(f - 10, Level::Floor, y + 90, s),
            corner_at(f + 35, Level::Floor, y + 210, s + 75),
            Role::Air,
        ),
    );
    out.push(
        part_of(
            Form::Box,
            corner_at(f + 9, Level::Floor, y + 90, s),
            corner_at(f + 16, Level::Floor, y + 210, s + 75),
            Role::Glass,
        ),
    );
    out.push(
        part_of(
            Form::Box,
            corner_at(f + 6, Level::Floor, y + 90, s + 34),
            corner_at(f + 19, Level::Floor, y + 210, s + 41),
            Role::Sash,
        ),
    );
    out.push(
        part_of(
            Form::Box,
            corner_at(f + 6, Level::Floor, y + 162, s),
            corner_at(f + 19, Level::Floor, y + 169, s + 75),
            Role::Sash,
        ),
    );
    out.push(
        part_of(
            Form::Box,
            corner_at(f - 12, Level::Floor, y + 80, s - 6),
            corner_at(f + 37, Level::Floor, y + 90, s + 81),
            Role::Stone,
        ),
    );
    assert(out@ =~= old(out)@ + window_z(s as int, f as int, y as int));
}

/// A small lantern: glowing glass in an iron frame, its base at `(x, y, z)`.
pub open spec fn lantern(x: int, y: int, z: int) -> Seq<Part> {
    seq![
        part(
            Form::Box,
            corner(x - 14, Level::Floor, y, z - 14),
            corner(x + 14, Level::Floor, y + 30, z + 14),
            Role::Iron,
        ),
        part(
            Form::Box,
            corner(x - 10, Level::Floor, y + 4, z - 15),
            corner(x + 10, Level::Floor, y + 26, z + 15),
            Role::Glow,
        ),
        part(
            Form::Box,
            corner(x - 15, Level::Floor, y + 4, z - 10),
            corner(x + 15, Level::Floor, y + 26, z + 10),
            Role::Glow,
        ),
    ]
}

fn put_lantern(x: i32, y: i32, z: i32, out: &mut Vec<Part>)
    requires
        -0x3000_0000 <= x <= 0x3000_0000,
        -0x3000_0000 <= y <= 0x3000_0000,
        -0x3000_0000 <= z <= 0x3000_0000,
    ensures
        final(out)@ == old(out)@ + lantern(x as int, y as int, z as int),
{
    out.push(
        part_of(
            Form::Box,
            corner_at(x - 14, Level::Floor, y, z - 14),
            corner_at(x + 14, Level::Floor, y + 30, z + 14),
            Role::Iron,
        ),
    );
    out.push(
        part_of(
            Form::Box,
            corner_at(x - 10, Level::Floor, y + 4, z - 15),
            corner_at(x + 10, Level::Floor, y + 26, z + 15),
            Role::Glow,
        ),
    );
    out.push(
        part_of(
            Form::Box,
            corner_at(x - 15, Level::Floor, y + 4, z - 10),
            corner_at(x + 15, Level::Floor, y + 26, z + 10),
            Role::Glow,
        ),
    );
    assert(out@ =~= old(out)@ + lantern(x as int, y as int, z as int));
}

/// A doorway and the slab under it.
pub open spec fn doorway(x0: int, x1: int, z0: int, z1: int) -> Seq<Part> {
    seq![
        part(
            Form::Box,
            corner(x0, Level::Floor, 25, z0),
            corner(x1, Level::Floor, 230, z1),
            Role::Air,
        ),
        part(
            Form::Box,
            corner(x0 - 6, Level::Floor, 25, z0 - 6),
            corner(x1 + 6, Level::Floor, 31, z1 + 6),
            Role::Stone,
        ),
    ]
}

fn put_doorway(x0: i32, x1: i32, z0: i32, z1: i32, out: &mut Vec<Part>)
    requires
        -0x3000_0000 <= x0 <= 0x3000_0000,
        -0x3000_0000 <= x1 <= 0x3000_0000,
        -0x3000_0000 <= z0 <= 0x3000_0000,
        -0x3000_0000 <= z1 <= 0x3000_0000,
    ensures
        final(out)@ == old(out)@ + doorway(x0 as int, x1 as int, z0 as int, z1 as int),
{
    out.push(
        part_of(
            Form::Box,
            corner_at(x0, Level::Floor, 25, z0),
            corner_at(x1, Level::Floor, 230, z1),
            Role::Air,
        ),
    );
    out.push(
        part_of(
            Form::Box,
            corner_at(x0 - 6, Level::Floor, 25, z0 - 6),
            corner_at(x1 + 6, Level::Floor, 31, z1 + 6),
            Role::Stone,
        ),
    );
    assert(out@ =~= old(out)@ + doorway(x0 as int, x1 as int, z0 as int, z1 as int));
}

/// A step in front of the door down to the ground.
pub open spec fn doorstep(x0: int, x1: int, z0: int, z1: int) -> Seq<Part> {
    seq![
        part(
            Form::Box,
            corner(x0, Level::Ground, -50, z0),
            corner(x1, Level::Floor, 0, z1),
            Role::Stone,
        ),
    ]
}

fn put_doorstep(x0: i32, x1: i32, z0: i32, z1: i32, out: &mut Vec<Part>)
    requires
        -0x3000_0000 <= x0 <= 0x3000_0000,
        -0x3000_0000 <= x1 <= 0x3000_0000,
        -0x3000_0000 <= z0 <= 0x3000_0000,
        -0x3000_0000 <= z1 <= 0x3000_0000,
    ensures
        final(out)@ == old(out)@ + doorstep(x0 as int, x1 as int, z0 as int, z1 as int),
{
    out.push(
        part_of(
            Form::Box,
            corner_at(x0, Level::Ground, -50, z0),
            corner_at(x1, Level::Floor, 0, z1),
            Role::Stone,
        ),
    );
    assert(out@ =~= old(out)@ + doorstep(x0 as int, x1 as int, z0 as int, z1 as int));
}

/// The gable walls, the attic hollow, and the covering over every wall.
pub open spec fn gable(w: int, d: int, top: int, ridge_x: bool, thick: int) -> Seq<Part> {
    seq![
        part(
            Form::Prism { ridge_x },
            corner(0, Level::Floor, top, 0),
            corner(w, Level::Gable, 0, d),
            Role::Wall,
        ),
        part(
            Form::Prism { ridge_x },
            corner(25, Level::Floor, top, 25),
            corner(w - 25, Level::Gable, -25, d - 25),
            Role::Air,
        ),
        part(
            Form::Slab { ridge_x, thick: thick as i32 },
            corner(-45, Level::Eave, 0, -45),
            corner(w + 45, Level::Ridge, 0, d + 45),
            Role::Roof,
        ),
    ]
}

fn put_gable(w: i32, d: i32, top: i32, ridge_x: bool, thick: i32, out: &mut Vec<Part>)
    requires
        -0x3000_0000 <= w <= 0x3000_0000,
        -0x3000_0000 <= d <= 0x3000_0000,
        -0x3000_0000 <= top <= 0x3000_0000,
        -0x3000_0000 <= thick <= 0x3000_0000,
    ensures
        final(out)@ == old(out)@ + gable(w as int, d as int, top as int, ridge_x, thick as int),
{
    out.push(
        part_of(
            Form::Prism { ridge_x },
            corner_at(0, Level::Floor, top, 0),
            corner_at(w, Level::Gable, 0, d),
            Role::Wall,
        ),
    );
    out.push(
        part_of(
            Form::Prism { ridge_x },
            corner_at(25, Level::Floor, top, 25),
            corner_at(w - 25, Level::Gable, -25, d - 25),
            Role::Air,
        ),
    );
    out.push(
        part_of(
            Form::Slab { ridge_x, thick: thick as i32 },
            corner_at(-45, Level::Eave, 0, -45),
            corner_at(w + 45, Level::Ridge, 0, d + 45),
            Role::Roof,
        ),
    );
    assert(out@ =~= old(out)@ + gable(w as int, d as int, top as int, ridge_x, thick as int));
}

/// Ridge board along x.
pub open spec fn ridge_board_x(w: int, d: int) -> Seq<Part> {
    seq![
        part(
            Form::Box,
            corner(-45, Level::Ridge, -10, d / 2 - 12),
            corner(w + 45, Level::Ridge, 6, d / 2 + 12),
            Role::Frame,
        ),
    ]
}

fn put_ridge_board_x(w: i32, d: i32, out: &mut Vec<Part>)
    requires
        0 <= w <= 0x3000_0000,
        0 <= d <= 0x3000_0000,
    ensures
        final(out)@ == old(out)@ + ridge_board_x(w as int, d as int),
{
    out.push(
        part_of(
            Form::Box,
            corner_at(-45, Level::Ridge, -10, d / 2 - 12),
            corner_at(w + 45, Level::Ridge, 6, d / 2 + 12),
            Role::Frame,
        ),
    );
    assert(out@ =~= old(out)@ + ridge_board_x(w as int, d as int));
}

/// Ridge board along z.
pub open spec fn ridge_board_z(w: int, d: int) -> Seq<Part> {
    seq![
        part(
            Form::Box,
            corner(w / 2 - 12, Level::Ridge, -10, -45),
            corner(w / 2 + 12, Level::Ridge, 6, d + 45),
            Role::Frame,
        ),
    ]
}

fn put_ridge_board_z(w: i32, d: i32, out: &mut Vec<Part>)
    requires
        0 <= w <= 0x3000_0000,
        0 <= d <= 0x3000_0000,
    ensures
        final(out)@ == old(out)@ + ridge_board_z(w as int, d as int),
{
    out.push(
        part_of(
            Form::Box,
            corner_at(w / 2 - 12, Level::Ridge, -10, -45),
            corner_at(w / 2 + 12, Level::Ridge, 6, d + 45),
            Role::Frame,
        ),
    );
    assert(out@ =~= old(out)@ + ridge_board_z(w as int, d as int));
}

/// A chimney through the roof, its cap and flue; jittered along one axis.
pub open spec fn chimney(x: int, jx: int, z: int, jz: int) -> Seq<Part> {
    seq![
        part(
            Form::Box,
            loose_corner(x - 40, jx, Level::Floor, 0, z - 40, jz),
            loose_corner(x + 40, jx, Level::Ridge, 120, z + 40, jz),
            Role::Chimney,
        ),
        part(
            Form::Box,
            loose_corner(x - 50, jx, Level::Ridge, 120, z - 50, jz),
            loose_corner(x + 50, jx, Level::Ridge, 135, z + 50, jz),
            Role::Stone,
        ),
        part(
            Form::Box,
            loose_corner(x - 20, jx, Level::Ridge, 40, z - 20, jz),
            loose_corner(x + 20, jx, Level::Ridge, 140, z + 20, jz),
            Role::Air,
        ),
    ]
}

fn put_chimney(x: i32, jx: i32, z: i32, jz: i32, out: &mut Vec<Part>)
    requires
        -0x3000_0000 <= x <= 0x3000_0000,
        -0x3000_0000 <= jx <= 0x3000_0000,
        -0x3000_0000 <= z <= 0x3000_0000,
        -0x3000_0000 <= jz <= 0x3000_0000,
    ensures
        final(out)@ == old(out)@ + chimney(x as int, jx as int, z as int, jz as int),
{
    out.push(
        part_of(
            Form::Box,
            loose_corner_at(x - 40, jx, Level::Floor, 0, z - 40, jz),
            loose_corner_at(x + 40, jx, Level::Ridge, 120, z + 40, jz),
            Role::Chimney,
        ),
    );
    out.push(
        part_of(
            Form::Box,
            loose_corner_at(x - 50, jx, Level::Ridge, 120, z - 50, jz),
            loose_corner_at(x + 50, jx, Level::Ridge, 135, z + 50, jz),
            Role::Stone,
        ),
    );
    out.push(
        part_of(
            Form::Box,
            loose_corner_at(x - 20, jx, Level::Ridge, 40, z - 20, jz),
            loose_corner_at(x + 20, jx, Level::Ridge, 140, z + 20, jz),
            Role::Air,
        ),
    );
    assert(out@ =~= old(out)@ + chimney(x as int, jx as int, z as int, jz as int));
}

/// What a town building stands on.
pub open spec fn base(w: int, d: int) -> Seq<Part> {
    seq![
        part(
            Form::Box,
            corner(-20, Level::Ground, -250, -20),
            corner(w + 20, Level::Floor, 0, d + 20),
            Role::Concrete,
        ),
    ]
}

fn put_base(w: i32, d: i32, out: &mut Vec<Part>)
    requires
        -0x3000_0000 <= w <= 0x3000_0000,
        -0x3000_0000 <= d <= 0x3000_0000,
    ensures
        final(out)@ == old(out)@ + base(w as int, d as int),
{
    out.push(
        part_of(
            Form::Box,
            corner_at(-20, Level::Ground, -250, -20),
            corner_at(w + 20, Level::Floor, 0, d + 20),
            Role::Concrete,
        ),
    );
    assert(out@ =~= old(out)@ + base(w as int, d as int));
}

/// Shell, hollow, floors and roof slab of the storeys from `y` to `top`.
pub open spec fn block_core(
    x0: int,
    x1: int,
    z0: int,
    z1: int,
    y: int,
    top: int,
    storey: int,
    lit: u32,
    wall: Role,
) -> Seq<Part> {
    seq![
        part(Form::Box, corner(x0, Level::Floor, y, z0), corner(x1, Level::Floor, top, z1), wall),
        part(
            Form::Box,
            corner(x0 + 50, Level::Floor, y + 50, z0 + 50),
            corner(x1 - 50, Level::Floor, top, z1 - 50),
            Role::Air,
        ),
        part(
            Form::Floors { storey: storey as i32, thick: 50, lit },
            corner(x0 + 50, Level::Floor, y, z0 + 50),
            corner(x1 - 50, Level::Floor, top, z1 - 50),
            Role::Concrete,
        ),
        part(
            Form::Box,
            corner(x0, Level::Floor, top - 50, z0),
            corner(x1, Level::Floor, top, z1),
            Role::Concrete,
        ),
    ]
}

fn put_block_core(
    x0: i32,
    x1: i32,
    z0: i32,
    z1: i32,
    y: i32,
    top: i32,
    storey: i32,
    lit: u32,
    wall: Role,
    out: &mut Vec<Part>,
)
    requires
        -0x3000_0000 <= x0 <= 0x3000_0000,
        -0x3000_0000 <= x1 <= 0x3000_0000,
        -0x3000_0000 <= z0 <= 0x3000_0000,
        -0x3000_0000 <= z1 <= 0x3000_0000,
        -0x3000_0000 <= y <= 0x3000_0000,
        -0x3000_0000 <= top <= 0x3000_0000,
        -0x3000_0000 <= storey <= 0x3000_0000,
    ensures
        final(out)@ == old(out)@ + block_core(
            x0 as int,
            x1 as int,
            z0 as int,
            z1 as int,
            y as int,
            top as int,
            storey as int,
            lit,
            wall,
        ),
{
    out.push(
        part_of(
            Form::Box,
            corner_at(x0, Level::Floor, y, z0),
            corner_at(x1, Level::Floor, top, z1),
            wall,
        ),
    );
    out.push(
        part_of(
            Form::Box,
            corner_at(x0 + 50, Level::Floor, y + 50, z0 + 50),
            corner_at(x1 - 50, Level::Floor, top, z1 - 50),
            Role::Air,
        ),
    );
    out.push(
        part_of(
            Form::Floors { storey: storey as i32, thick: 50, lit },
            corner_at(x0 + 50, Level::Floor, y, z0 + 50),
            corner_at(x1 - 50, Level::Floor, top, z1 - 50),
            Role::Concrete,
        ),
    );
    out.push(
        part_of(
            Form::Box,
            corner_at(x0, Level::Floor, top - 50, z0),
            corner_at(x1, Level::Floor, top, z1),
            Role::Concrete,
        ),
    );
    assert(
        out@ =~= old(out)@ + block_core(
            x0 as int,
            x1 as int,
            z0 as int,
            z1 as int,
            y as int,
            top as int,
            storey as int,
            lit,
            wall,
        )
    );
}

/// Windowed layers on the four sides.
pub open spec fn facades(
    x0: int,
    x1: int,
    z0: int,
    z1: int,
    y: int,
    top: int,
    storey: int,
    style: FacadeStyle,
    wall: Role,
) -> Seq<Part> {
    seq![
        part(
            Form::Facade { face: 0, outward: false, style, storey: storey as i32 },
            corner(x0, Level::Floor, y, z0),
            corner(x0 + 50, Level::Floor, top, z1),
            wall,
        ),
        part(
            Form::Facade { face: 0, outward: true, style, storey: storey as i32 },
            corner(x1 - 50, Level::Floor, y, z0),
            corner(x1, Level::Floor, top, z1),
            wall,
        ),
        part(
            Form::Facade { face: 2, outward: false, style, storey: storey as i32 },
            corner(x0, Level::Floor, y, z0),
            corner(x1, Level::Floor, top, z0 + 50),
            wall,
        ),
        part(
            Form::Facade { face: 2, outward: true, style, storey: storey as i32 },
            corner(x0, Level::Floor, y, z1 - 50),
            corner(x1, Level::Floor, top, z1),
            wall,
        ),
    ]
}

fn put_facades(
    x0: i32,
    x1: i32,
    z0: i32,
    z1: i32,
    y: i32,
    top: i32,
    storey: i32,
    style: FacadeStyle,
    wall: Role,
    out: &mut Vec<Part>,
)
    requires
        -0x3000_0000 <= x0 <= 0x3000_0000,
        -0x3000_0000 <= x1 <= 0x3000_0000,
        -0x3000_0000 <= z0 <= 0x3000_0000,
        -0x3000_0000 <= z1 <= 0x3000_0000,
        -0x3000_0000 <= y <= 0x3000_0000,
        -0x3000_0000 <= top <= 0x3000_0000,
        -0x3000_0000 <= storey <= 0x3000_0000,
    ensures
        final(out)@ == old(out)@ + facades(
            x0 as int,
            x1 as int,
            z0 as int,
            z1 as int,
            y as int,
            top as int,
            storey as int,
            style,
            wall,
        ),
{
    out.push(
        part_of(
            Form::Facade { face: 0, outward: false, style, storey: storey as i32 },
            corner_at(x0, Level::Floor, y, z0),
            corner_at(x0 + 50, Level::Floor, top, z1),
            wall,
        ),
    );
    out.push(
        part_of(
            Form::Facade { face: 0, outward: true, style, storey: storey as i32 },
            corner_at(x1 - 50, Level::Floor, y, z0),
            corner_at(x1, Level::Floor, top, z1),
            wall,
        ),
    );
    out.push(
        part_of(
            Form::Facade { face: 2, outward: false, style, storey: storey as i32 },
            corner_at(x0, Level::Floor, y, z0),
            corner_at(x1, Level::Floor, top, z0 + 50),
            wall,
        ),
    );
    out.push(
        part_of(
            Form::Facade { face: 2, outward: true, style, storey: storey as i32 },
            corner_at(x0, Level::Floor, y, z1 - 50),
            corner_at(x1, Level::Floor, top, z1),
            wall,
        ),
    );
    assert(
        out@ =~= old(out)@ + facades(
            x0 as int,
            x1 as int,
            z0 as int,
            z1 as int,
            y as int,
            top as int,
            storey as int,
            style,
            wall,
        )
    );
}

/// A parapet round a roof.
pub open spec fn parapet(x0: int, x1: int, z0: int, z1: int, top: int, wall: Role) -> Seq<Part> {
    seq![
        part(
            Form::Box,
            corner(x0, Level::Floor, top, z0),
            corner(x1, Level::Floor, top + 110, z1),
            wall,
        ),
        part(
            Form::Box,
            corner(x0 + 30, Level::Floor, top, z0 + 30),
            corner(x1 - 30, Level::Floor, top + 110, z1 - 30),
            Role::Air,
        ),
    ]
}

fn put_parapet(x0: i32, x1: i32, z0: i32, z1: i32, top: i32, wall: Role, out: &mut Vec<Part>)
    requires
        -0x3000_0000 <= x0 <= 0x3000_0000,
        -0x3000_0000 <= x1 <= 0x3000_0000,
        -0x3000_0000 <= z0 <= 0x3000_0000,
        -0x3000_0000 <= z1 <= 0x3000_0000,
        -0x3000_0000 <= top <= 0x3000_0000,
    ensures
        final(out)@ == old(out)@ + parapet(
            x0 as int,
            x1 as int,
            z0 as int,
            z1 as int,
            top as int,
            wall,
        ),
{
    out.push(
        part_of(
            Form::Box,
            corner_at(x0, Level::Floor, top, z0),
            corner_at(x1, Level::Floor, top + 110, z1),
            wall,
        ),
    );
    out.push(
        part_of(
            Form::Box,
            corner_at(x0 + 30, Level::Floor, top, z0 + 30),
            corner_at(x1 - 30, Level::Floor, top + 110, z1 - 30),
            Role::Air,
        ),
    );
    assert(
        out@ =~= old(out)@ + parapet(x0 as int, x1 as int, z0 as int, z1 as int, top as int, wall)
    );
}

/// Plant on a tower, and a mast with a light.
pub open spec fn mast(cx: int, cz: int, top: int) -> Seq<Part> {
    seq![
        part(
            Form::Box,
            corner(cx - 300, Level::Floor, top, cz - 200),
            corner(cx + 300, Level::Floor, top + 250, cz + 200),
            Role::Steel,
        ),
        part(
            Form::Box,
            corner(cx - 15, Level::Floor, top, cz - 15),
            corner(cx + 15, Level::Floor, top + 1200, cz + 15),
            Role::Steel,
        ),
        part(
            Form::Box,
            corner(cx - 12, Level::Floor, top + 1200, cz - 12),
            corner(cx + 12, Level::Floor, top + 1220, cz + 12),
            Role::Glow,
        ),
    ]
}

fn put_mast(cx: i32, cz: i32, top: i32, out: &mut Vec<Part>)
    requires
        -0x3000_0000 <= cx <= 0x3000_0000,
        -0x3000_0000 <= cz <= 0x3000_0000,
        -0x3000_0000 <= top <= 0x3000_0000,
    ensures
        final(out)@ == old(out)@ + mast(cx as int, cz as int, top as int),
{
    out.push(
        part_of(
            Form::Box,
            corner_at(cx - 300, Level::Floor, top, cz - 200),
            corner_at(cx + 300, Level::Floor, top + 250, cz + 200),
            Role::Steel,
        ),
    );
    out.push(
        part_of(
            Form::Box,
            corner_at(cx - 15, Level::Floor, top, cz - 15),
            corner_at(cx + 15, Level::Floor, top + 1200, cz + 15),
            Role::Steel,
        ),
    );
    out.push(
        part_of(
            Form::Box,
            corner_at(cx - 12, Level::Floor, top + 1200, cz - 12),
            corner_at(cx + 12, Level::Floor, top + 1220, cz + 12),
            Role::Glow,
        ),
    );
    assert(out@ =~= old(out)@ + mast(cx as int, cz as int, top as int));
}

/// A cornice under the parapet.
pub open spec fn cornice(w: int, d: int, top: int) -> Seq<Part> {
    seq![
        part(
            Form::Box,
            corner(-25, Level::Floor, top - 40, -25),
            corner(w + 25, Level::Floor, top - 10, d + 25),
            Role::Stone,
        ),
    ]
}

fn put_cornice(w: i32, d: i32, top: i32, out: &mut Vec<Part>)
    requires
        -0x3000_0000 <= w <= 0x3000_0000,
        -0x3000_0000 <= d <= 0x3000_0000,
        -0x3000_0000 <= top <= 0x3000_0000,
    ensures
        final(out)@ == old(out)@ + cornice(w as int, d as int, top as int),
{
    out.push(
        part_of(
            Form::Box,
            corner_at(-25, Level::Floor, top - 40, -25),
            corner_at(w + 25, Level::Floor, top - 10, d + 25),
            Role::Stone,
        ),
    );
    assert(out@ =~= old(out)@ + cornice(w as int, d as int, top as int));
}

/// Plant on a roof, its half width the jitter.
pub open spec fn plant(cx: int, cz: int, top: int) -> Seq<Part> {
    seq![
        part(
            Form::Box,
            loose_corner(cx, -1, Level::Floor, top, cz, -1),
            loose_corner(cx, 1, Level::Floor, top + 200, cz, 1),
            Role::Steel,
        ),
    ]
}

fn put_plant(cx: i32, cz: i32, top: i32, out: &mut Vec<Part>)
    requires
        -0x3000_0000 <= cx <= 0x3000_0000,
        -0x3000_0000 <= cz <= 0x3000_0000,
        -0x3000_0000 <= top <= 0x3000_0000,
    ensures
        final(out)@ == old(out)@ + plant(cx as int, cz as int, top as int),
{
    out.push(
        part_of(
            Form::Box,
            loose_corner_at(cx, -1, Level::Floor, top, cz, -1),
            loose_corner_at(cx, 1, Level::Floor, top + 200, cz, 1),
            Role::Steel,
        ),
    );
    assert(out@ =~= old(out)@ + plant(cx as int, cz as int, top as int));
}

/// A way in, and its slab.
pub open spec fn entrance(x0: int, x1: int, z0: int, z1: int) -> Seq<Part> {
    seq![
        part(
            Form::Box,
            corner(x0, Level::Floor, 0, z0),
            corner(x1, Level::Floor, 300, z1),
            Role::Air,
        ),
        part(
            Form::Box,
            corner(x0, Level::Floor, 0, z0),
            corner(x1, Level::Floor, 50, z1),
            Role::Concrete,
        ),
    ]
}

fn put_entrance(x0: i32, x1: i32, z0: i32, z1: i32, out: &mut Vec<Part>)
    requires
        -0x3000_0000 <= x0 <= 0x3000_0000,
        -0x3000_0000 <= x1 <= 0x3000_0000,
        -0x3000_0000 <= z0 <= 0x3000_0000,
        -0x3000_0000 <= z1 <= 0x3000_0000,
    ensures
        final(out)@ == old(out)@ + entrance(x0 as int, x1 as int, z0 as int, z1 as int),
{
    out.push(
        part_of(
            Form::Box,
            corner_at(x0, Level::Floor, 0, z0),
            corner_at(x1, Level::Floor, 300, z1),
            Role::Air,
        ),
    );
    out.push(
        part_of(
            Form::Box,
            corner_at(x0, Level::Floor, 0, z0),
            corner_at(x1, Level::Floor, 50, z1),
            Role::Concrete,
        ),
    );
    assert(out@ =~= old(out)@ + entrance(x0 as int, x1 as int, z0 as int, z1 as int));
}

/// How a house is built.
#[derive(Clone, Copy, Debug, PartialEq, Eq, Structural)]
pub enum Style {
    Timber,
    Stone,
    Brick,
    Thatch,
}

/// Which way a building faces: the wall its door is in.
#[derive(Clone, Copy, Debug, PartialEq, Eq, Structural)]
pub enum Facing {
    NegX,
    PosX,
    NegZ,
    PosZ,
}

/// A house to build: footprint in centimetres, storeys, and its chimney.
#[derive(Clone, Copy, Debug)]
pub struct House {
    pub w: i32,
    pub d: i32,
    pub facing: Facing,
    pub style: Style,
    pub storeys: i32,
    pub chimney: bool,
}

/// Studs or bays that fit: one every `pitch` from `first`, while one at `s`
/// leaves `s + clear` short of `len`.
pub open spec fn fitting(len: int, first: int, pitch: int, clear: int) -> int {
    if first + clear >= len {
        0
    } else {
        (len - clear - 1 - first) / pitch + 1
    }
}

fn fit(len: i32, first: i32, pitch: i32, clear: i32) -> (n: i32)
    requires
        0 <= len <= 0x2000_0000,
        0 <= first <= 1000,
        0 < pitch <= 1000,
        0 <= clear <= 1000,
    ensures
        n == fitting(len as int, first as int, pitch as int, clear as int),
        0 <= n <= 0x2000_0000,
        forall|k: int| 0 <= k < n ==> #[trigger] (first + k * pitch) + clear < len,
        first + n * pitch + clear >= len,
{
    if first + clear >= len {
        return 0;
    }
    let room: i32 = len - clear - 1 - first;
    let n: i32 = room / pitch + 1;
    proof {
        let (r, p) = (room as int, pitch as int);
        vstd::arithmetic::div_mod::lemma_fundamental_div_mod(r, p);
        let q = r / p;
        assert(0 <= q <= r) by (nonlinear_arith)
            requires
                r == p * q + r % p,
                0 <= r % p < p,
                0 <= r,
                p > 0,
        ;
        assert forall|k: int| 0 <= k < n implies #[trigger] (first + k * pitch) + clear < len by {
            assert(k * p <= q * p) by (nonlinear_arith)
                requires
                    k <= q,
                    p > 0,
            ;
            assert(q * p == p * q) by (nonlinear_arith);
        }
        assert((q + 1) * p == p * q + p) by (nonlinear_arith);
    }
    n
}

pub open spec fn ridge_along_x(w: int, d: int) -> bool {
    w >= d
}

/// Windows of one wall along x, a bay every two metres.
pub open spec fn wall_x(len: int, f: int, y: int) -> Seq<Part> {
    chain(|k: int| window_x(100 + k * 200, f, y), fitting(len, 100, 200, 100))
}

/// Windows of one wall along z, a bay every two metres.
pub open spec fn wall_z(len: int, f: int, y: int) -> Seq<Part> {
    chain(|k: int| window_z(100 + k * 200, f, y), fitting(len, 100, 200, 100))
}

/// Windows of one storey, wall by wall.
pub open spec fn storey_windows(w: int, d: int, y: int) -> Seq<Part> {
    wall_x(w, 0, y) + wall_x(w, d - 25, y) + wall_z(d, 0, y) + wall_z(d, w - 25, y)
}

/// The doorway's footprint.
pub open spec fn door(w: int, d: int, facing: Facing) -> (int, int, int, int) {
    match facing {
        Facing::NegZ => (w / 2 - 50, w / 2 + 50, -20, 45),
        Facing::PosZ => (w / 2 - 50, w / 2 + 50, d - 45, d + 20),
        Facing::NegX => (-20, 45, d / 2 - 50, d / 2 + 50),
        Facing::PosX => (w - 45, w + 20, d / 2 - 50, d / 2 + 50),
    }
}

/// The lantern by the door.
pub open spec fn door_lamp(w: int, d: int, facing: Facing) -> Seq<Part> {
    match facing {
        Facing::NegZ => lantern(w / 2 + 80, 200, -25),
        Facing::PosZ => lantern(w / 2 + 80, 200, d),
        Facing::NegX => lantern(-25, 200, d / 2 + 80),
        Facing::PosX => lantern(w, 200, d / 2 + 80),
    }
}

/// The step before the door.
pub open spec fn door_step(w: int, d: int, facing: Facing) -> Seq<Part> {
    let (x0, x1, z0, z1) = door(w, d, facing);
    match facing {
        Facing::NegZ => doorstep(x0 - 20, x1 + 20, -100, 0),
        Facing::PosZ => doorstep(x0 - 20, x1 + 20, d, d + 100),
        Facing::NegX => doorstep(-100, 0, z0 - 20, z1 + 20),
        Facing::PosX => doorstep(w, w + 100, z0 - 20, z1 + 20),
    }
}

/// Door, lantern and step.
pub open spec fn way_in(w: int, d: int, facing: Facing) -> Seq<Part> {
    let (x0, x1, z0, z1) = door(w, d, facing);
    doorway(x0, x1, z0, z1) + door_lamp(w, d, facing) + door_step(w, d, facing)
}

/// Posts, rails and studs.
pub open spec fn framing(h: House) -> Seq<Part> {
    let top = h.storeys * 300;
    let rails = if h.style == Style::Timber || h.style == Style::Brick {
        chain(|k: int| rail(h.w as int, h.d as int, k * 300), h.storeys + 1)
    } else {
        Seq::empty()
    };
    let studs = if h.style == Style::Timber {
        chain(
            |k: int| stud_pair_x(h.d as int, top, 150 + k * 150),
            fitting(h.w as int, 150, 150, 100),
        ) + chain(
            |k: int| stud_pair_z(h.w as int, top, 150 + k * 150),
            fitting(h.d as int, 150, 150, 100),
        )
    } else {
        Seq::empty()
    };
    posts(h.w as int, h.d as int, top) + rails + studs
}

/// Roof and ridge board.
pub open spec fn roof(h: House) -> Seq<Part> {
    let (w, d) = (h.w as int, h.d as int);
    let thick = if h.style == Style::Thatch {
        45int
    } else {
        28
    };
    gable(w, d, h.storeys * 300, ridge_along_x(w, d), thick) + if ridge_along_x(w, d) {
        ridge_board_x(w, d)
    } else {
        ridge_board_z(w, d)
    }
}

/// The chimney, near one end of the ridge.
pub open spec fn stack(h: House) -> Seq<Part> {
    let (w, d) = (h.w as int, h.d as int);
    if !h.chimney {
        Seq::empty()
    } else if ridge_along_x(w, d) {
        chimney(80, 0, d / 2, 1)
    } else {
        chimney(w / 2, 1, 80, 0)
    }
}

/// A house, part by part: foundation, walls, rooms, frame, windows, the way
/// in, roof, chimney, and a lantern hung in each room.
pub open spec fn house_parts(h: House) -> Seq<Part> {
    let (w, d) = (h.w as int, h.d as int);
    foundation(w, d) + shell(w, d, h.storeys * 300) + chain(
        |s: int| room(w, d, s * 300),
        h.storeys as int,
    ) + framing(h) + chain(|s: int| storey_windows(w, d, s * 300), h.storeys as int) + way_in(
        w,
        d,
        h.facing,
    ) + roof(h) + stack(h) + chain(
        |s: int| lantern(w / 2, (s + 1) * 300 - 55, d / 2),
        h.storeys as int,
    )
}

fn put_wall_x(len: i32, f: i32, y: i32, out: &mut Vec<Part>)
    requires
        0 <= len <= 0x2000_0000,
        -0x2000_0000 <= f <= 0x2000_0000,
        0 <= y <= 0x2000_0000,
    ensures
        final(out)@ == old(out)@ + wall_x(len as int, f as int, y as int),
{
    let n: i32 = fit(len, 100, 200, 100);
    let ghost g = |k: int| window_x(100 + k * 200, f as int, y as int);
    let mut k: i32 = 0;
    assert(out@ =~= old(out)@ + chain(g, 0));
    while k < n
        invariant
            0 <= k <= n,
            0 <= len <= 0x2000_0000,
            -0x2000_0000 <= f <= 0x2000_0000,
            0 <= y <= 0x2000_0000,
            forall|j: int| 0 <= j < n ==> #[trigger] (100 + j * 200) + 100 < len,
            g == (|k: int| window_x(100 + k * 200, f as int, y as int)),
            out@ == old(out)@ + chain(g, k as int),
        decreases n - k,
    {
        let ghost before = out@;
        assert((100 + k * 200) + 100 < len);
        put_window_x(100 + k * 200, f, y, out);
        k += 1;
        assert(out@ =~= old(out)@ + chain(g, k as int)) by {
            assert(g(k - 1) == window_x(100 + (k - 1) * 200, f as int, y as int));
        }
    }
}

fn put_wall_z(len: i32, f: i32, y: i32, out: &mut Vec<Part>)
    requires
        0 <= len <= 0x2000_0000,
        -0x2000_0000 <= f <= 0x2000_0000,
        0 <= y <= 0x2000_0000,
    ensures
        final(out)@ == old(out)@ + wall_z(len as int, f as int, y as int),
{
    let n: i32 = fit(len, 100, 200, 100);
    let ghost g = |k: int| window_z(100 + k * 200, f as int, y as int);
    let mut k: i32 = 0;
    assert(out@ =~= old(out)@ + chain(g, 0));
    while k < n
        invariant
            0 <= k <= n,
            0 <= len <= 0x2000_0000,
            -0x2000_0000 <= f <= 0x2000_0000,
            0 <= y <= 0x2000_0000,
            forall|j: int| 0 <= j < n ==> #[trigger] (100 + j * 200) + 100 < len,
            g == (|k: int| window_z(100 + k * 200, f as int, y as int)),
            out@ == old(out)@ + chain(g, k as int),
        decreases n - k,
    {
        let ghost before = out@;
        assert((100 + k * 200) + 100 < len);
        put_window_z(100 + k * 200, f, y, out);
        k += 1;
        assert(out@ =~= old(out)@ + chain(g, k as int)) by {
            assert(g(k - 1) == window_z(100 + (k - 1) * 200, f as int, y as int));
        }
    }
}

fn put_storey_windows(w: i32, d: i32, y: i32, out: &mut Vec<Part>)
    requires
        0 <= w <= 0x2000_0000,
        0 <= d <= 0x2000_0000,
        0 <= y <= 0x2000_0000,
    ensures
        final(out)@ == old(out)@ + storey_windows(w as int, d as int, y as int),
{
    put_wall_x(w, 0, y, out);
    put_wall_x(w, d - 25, y, out);
    put_wall_z(d, 0, y, out);
    put_wall_z(d, w - 25, y, out);
    assert(out@ =~= old(out)@ + storey_windows(w as int, d as int, y as int));
}

fn put_framing(h: &House, out: &mut Vec<Part>)
    requires
        0 <= h.w <= 0x2000_0000,
        0 <= h.d <= 0x2000_0000,
        0 <= h.storeys <= 1_000_000,
    ensures
        final(out)@ == old(out)@ + framing(*h),
{
    let top: i32 = h.storeys * 300;
    let (w, d): (i32, i32) = (h.w, h.d);
    put_posts(w, d, top, out);
    let ghost start = out@;
    let ghost gr = |k: int| rail(h.w as int, h.d as int, k * 300);
    let railed: bool = h.style == Style::Timber || h.style == Style::Brick;
    if railed {
        let mut k: i32 = 0;
        assert(out@ =~= start + chain(gr, 0));
        while k < h.storeys + 1
            invariant
                0 <= k <= h.storeys + 1,
                0 <= h.storeys <= 1_000_000,
                w == h.w,
                d == h.d,
                0 <= w <= 0x2000_0000,
                0 <= d <= 0x2000_0000,
                gr == (|k: int| rail(h.w as int, h.d as int, k * 300)),
                out@ == start + chain(gr, k as int),
            decreases h.storeys + 1 - k,
        {
            put_rail(w, d, k * 300, out);
            k += 1;
            assert(out@ =~= start + chain(gr, k as int)) by {
                assert(gr(k - 1) == rail(w as int, d as int, (k - 1) * 300));
            }
        }
    }
    let ghost mid = out@;
    let ghost gx = |k: int| stud_pair_x(h.d as int, h.storeys * 300, 150 + k * 150);
    let ghost gz = |k: int| stud_pair_z(h.w as int, h.storeys * 300, 150 + k * 150);
    if h.style == Style::Timber {
        let n: i32 = fit(w, 150, 150, 100);
        let mut k: i32 = 0;
        assert(out@ =~= mid + chain(gx, 0));
        while k < n
            invariant
                0 <= k <= n,
                top == h.storeys * 300,
                0 <= top <= 0x2000_0000,
                d == h.d,
                0 <= w <= 0x2000_0000,
                0 <= d <= 0x2000_0000,
                forall|j: int| 0 <= j < n ==> #[trigger] (150 + j * 150) + 100 < w,
                gx == (|k: int| stud_pair_x(h.d as int, h.storeys * 300, 150 + k * 150)),
                out@ == mid + chain(gx, k as int),
            decreases n - k,
        {
            assert((150 + k * 150) + 100 < w);
            put_stud_pair_x(d, top, 150 + k * 150, out);
            k += 1;
            assert(out@ =~= mid + chain(gx, k as int)) by {
                assert(gx(k - 1) == stud_pair_x(d as int, top as int, 150 + (k - 1) * 150));
            }
        }
        let ghost half = out@;
        let n2: i32 = fit(d, 150, 150, 100);
        let mut k: i32 = 0;
        assert(out@ =~= half + chain(gz, 0));
        while k < n2
            invariant
                0 <= k <= n2,
                top == h.storeys * 300,
                0 <= top <= 0x2000_0000,
                w == h.w,
                0 <= w <= 0x2000_0000,
                0 <= d <= 0x2000_0000,
                forall|j: int| 0 <= j < n2 ==> #[trigger] (150 + j * 150) + 100 < d,
                gz == (|k: int| stud_pair_z(h.w as int, h.storeys * 300, 150 + k * 150)),
                out@ == half + chain(gz, k as int),
            decreases n2 - k,
        {
            assert((150 + k * 150) + 100 < d);
            put_stud_pair_z(w, top, 150 + k * 150, out);
            k += 1;
            assert(out@ =~= half + chain(gz, k as int)) by {
                assert(gz(k - 1) == stud_pair_z(w as int, top as int, 150 + (k - 1) * 150));
            }
        }
    }
    assert(out@ =~= old(out)@ + framing(*h));
}

fn put_way_in(w: i32, d: i32, facing: Facing, out: &mut Vec<Part>)
    requires
        0 <= w <= 0x2000_0000,
        0 <= d <= 0x2000_0000,
    ensures
        final(out)@ == old(out)@ + way_in(w as int, d as int, facing),
{
    let (x0, x1, z0, z1): (i32, i32, i32, i32) = match facing {
        Facing::NegZ => (w / 2 - 50, w / 2 + 50, -20, 45),
        Facing::PosZ => (w / 2 - 50, w / 2 + 50, d - 45, d + 20),
        Facing::NegX => (-20, 45, d / 2 - 50, d / 2 + 50),
        Facing::PosX => (w - 45, w + 20, d / 2 - 50, d / 2 + 50),
    };
    put_doorway(x0, x1, z0, z1, out);
    match facing {
        Facing::NegZ => put_lantern(w / 2 + 80, 200, -25, out),
        Facing::PosZ => put_lantern(w / 2 + 80, 200, d, out),
        Facing::NegX => put_lantern(-25, 200, d / 2 + 80, out),
        Facing::PosX => put_lantern(w, 200, d / 2 + 80, out),
    }
    match facing {
        Facing::NegZ => put_doorstep(x0 - 20, x1 + 20, -100, 0, out),
        Facing::PosZ => put_doorstep(x0 - 20, x1 + 20, d, d + 100, out),
        Facing::NegX => put_doorstep(-100, 0, z0 - 20, z1 + 20, out),
        Facing::PosX => put_doorstep(w, w + 100, z0 - 20, z1 + 20, out),
    }
    assert(out@ =~= old(out)@ + way_in(w as int, d as int, facing));
}

fn put_roof(h: &House, out: &mut Vec<Part>)
    requires
        0 <= h.w <= 0x2000_0000,
        0 <= h.d <= 0x2000_0000,
        0 <= h.storeys <= 1_000_000,
    ensures
        final(out)@ == old(out)@ + roof(*h),
{
    let thick: i32 = if h.style == Style::Thatch {
        45
    } else {
        28
    };
    put_gable(h.w, h.d, h.storeys * 300, h.w >= h.d, thick, out);
    if h.w >= h.d {
        put_ridge_board_x(h.w, h.d, out);
    } else {
        put_ridge_board_z(h.w, h.d, out);
    }
    assert(out@ =~= old(out)@ + roof(*h));
}

fn put_stack(h: &House, out: &mut Vec<Part>)
    requires
        0 <= h.w <= 0x2000_0000,
        0 <= h.d <= 0x2000_0000,
    ensures
        final(out)@ == old(out)@ + stack(*h),
{
    if h.chimney {
        if h.w >= h.d {
            put_chimney(80, 0, h.d / 2, 1, out);
        } else {
            put_chimney(h.w / 2, 1, 80, 0, out);
        }
    }
    assert(out@ =~= old(out)@ + stack(*h));
}

/// A house, part by part.
pub fn house(h: &House) -> (out: Vec<Part>)
    requires
        0 <= h.w <= 0x2000_0000,
        0 <= h.d <= 0x2000_0000,
        0 <= h.storeys <= 1_000_000,
    ensures
        out@ == house_parts(*h),
{
    let mut out: Vec<Part> = Vec::new();
    let (w, d): (i32, i32) = (h.w, h.d);
    put_foundation(w, d, &mut out);
    put_shell(w, d, h.storeys * 300, &mut out);
    let ghost a = out@;
    let ghost gr = |s: int| room(h.w as int, h.d as int, s * 300);
    let mut s: i32 = 0;
    assert(out@ =~= a + chain(gr, 0));
    while s < h.storeys
        invariant
            0 <= s <= h.storeys <= 1_000_000,
            w == h.w,
            d == h.d,
            0 <= w <= 0x2000_0000,
            0 <= d <= 0x2000_0000,
            gr == (|s: int| room(h.w as int, h.d as int, s * 300)),
            out@ == a + chain(gr, s as int),
        decreases h.storeys - s,
    {
        put_room(w, d, s * 300, &mut out);
        s += 1;
        assert(out@ =~= a + chain(gr, s as int)) by {
            assert(gr(s - 1) == room(w as int, d as int, (s - 1) * 300));
        }
    }
    let ghost b = out@;
    put_framing(h, &mut out);
    let ghost c = out@;
    let ghost gw = |s: int| storey_windows(h.w as int, h.d as int, s * 300);
    let mut s: i32 = 0;
    assert(out@ =~= c + chain(gw, 0));
    while s < h.storeys
        invariant
            0 <= s <= h.storeys <= 1_000_000,
            w == h.w,
            d == h.d,
            0 <= w <= 0x2000_0000,
            0 <= d <= 0x2000_0000,
            gw == (|s: int| storey_windows(h.w as int, h.d as int, s * 300)),
            out@ == c + chain(gw, s as int),
        decreases h.storeys - s,
    {
        put_storey_windows(w, d, s * 300, &mut out);
        s += 1;
        assert(out@ =~= c + chain(gw, s as int)) by {
            assert(gw(s - 1) == storey_windows(w as int, d as int, (s - 1) * 300));
        }
    }
    let ghost e = out@;
    put_way_in(w, d, h.facing, &mut out);
    put_roof(h, &mut out);
    put_stack(h, &mut out);
    let ghost f = out@;
    let ghost gl = |s: int| lantern(h.w as int / 2, (s + 1) * 300 - 55, h.d as int / 2);
    let mut s: i32 = 0;
    assert(out@ =~= f + chain(gl, 0));
    while s < h.storeys
        invariant
            0 <= s <= h.storeys <= 1_000_000,
            w == h.w,
            d == h.d,
            0 <= w <= 0x2000_0000,
            0 <= d <= 0x2000_0000,
            gl == (|s: int| lantern(h.w as int / 2, (s + 1) * 300 - 55, h.d as int / 2)),
            out@ == f + chain(gl, s as int),
        decreases h.storeys - s,
    {
        put_lantern(w / 2, (s + 1) * 300 - 55, d / 2, &mut out);
        s += 1;
        assert(out@ =~= f + chain(gl, s as int)) by {
            assert(gl(s - 1) == lantern(w as int / 2, s * 300 - 55, d as int / 2));
        }
    }
    proof {
        let (x, z) = (h.w as int, h.d as int);
        assert(out@ =~= house_parts(*h));
    }
    out
}

/// How many storeys a house of a style may have.
pub open spec fn storey_range(style: Style) -> (int, int) {
    match style {
        Style::Brick => (2, 3),
        Style::Stone | Style::Timber => (1, 2),
        Style::Thatch => (1, 1),
    }
}

/// Draws the storeys of a house; a thatched cottage draws nothing.
pub fn draw_storeys(style: Style, rng: &mut Rand) -> (n: i32)
    ensures
        style == Style::Thatch ==> n == 1 && final(rng).0 == old(rng).0,
        style != Style::Thatch ==> final(rng).0 == step(old(rng).0) && n == storey_range(style).0
            + pick(draw(step(old(rng).0)), 2),
        storey_range(style).0 <= n <= storey_range(style).1,
        style is Brick ==> 0x1_0000_0000_0000 * (n - 2) <= 2 * draw(step(old(rng).0)) * 0x100_0001
            && 2 * draw(step(old(rng).0)) * 0xff_ffff < 0x1_0000_0000_0000 * (n - 1),
        style is Stone || style is Timber ==> 0x1_0000_0000_0000 * (n - 1) <= 2 * draw(
            step(old(rng).0),
        ) * 0x100_0001 && 2 * draw(step(old(rng).0)) * 0xff_ffff < 0x1_0000_0000_0000 * n,
{
    proof {
        crate::rand::picks_are_in_proportion(draw(step(rng.0)), 2);
    }
    match style {
        Style::Brick => rng.whole(2, 3),
        Style::Stone => rng.whole(1, 2),
        Style::Timber => rng.whole(1, 2),
        Style::Thatch => 1,
    }
}

/// Style of a village house, by a draw from `0..=9`.
pub open spec fn village_style(n: int) -> Style {
    if n <= 3 {
        Style::Timber
    } else if n <= 5 {
        Style::Stone
    } else if n <= 7 {
        Style::Brick
    } else {
        Style::Thatch
    }
}

pub fn draw_style(rng: &mut Rand) -> (s: Style)
    ensures
        final(rng).0 == step(old(rng).0),
        s == village_style(pick(draw(step(old(rng).0)), 10)),
        s is Timber ==> 10 * draw(step(old(rng).0)) * 0xff_ffff < 0x4_0000_0000_0000,
        !(s is Timber) ==> 0x4_0000_0000_0000 <= 10 * draw(step(old(rng).0)) * 0x100_0001,
        s is Thatch ==> 0x8_0000_0000_0000 <= 10 * draw(step(old(rng).0)) * 0x100_0001,
        !(s is Thatch) ==> 10 * draw(step(old(rng).0)) * 0xff_ffff < 0x8_0000_0000_0000,
        s is Brick ==> 0x6_0000_0000_0000 <= 10 * draw(step(old(rng).0)) * 0x100_0001,
        s is Stone ==> 10 * draw(step(old(rng).0)) * 0xff_ffff < 0x6_0000_0000_0000,
{
    proof {
        crate::rand::picks_are_in_proportion(draw(step(rng.0)), 10);
    }
    let n: i32 = rng.whole(0, 9);
    if n <= 3 {
        Style::Timber
    } else if n <= 5 {
        Style::Stone
    } else if n <= 7 {
        Style::Brick
    } else {
        Style::Thatch
    }
}

/// The wall toward the street of a house `away` from it (its sign along the
/// axis across the street), on a street along x or along z.
pub fn facing_street(along_x: bool, away_positive: bool) -> (f: Facing)
    ensures
        f == if along_x {
            if away_positive {
                Facing::NegZ
            } else {
                Facing::PosZ
            }
        } else if away_positive {
            Facing::NegX
        } else {
            Facing::PosX
        },
        forall|w: int, d: int|
            w >= 100 && d >= 100 ==> {
                let (x0, x1, z0, z1) = #[trigger] door(w, d, f);
                &&& along_x && away_positive ==> z0 < 0 && 0 < x0 + x1
                &&& along_x && !away_positive ==> d < z1 && 0 < x0 + x1
                &&& !along_x && away_positive ==> x0 < 0 && 0 < z0 + z1
                &&& !along_x && !away_positive ==> w < x1 && 0 < z0 + z1
            },
{
    if along_x {
        if away_positive {
            Facing::NegZ
        } else {
            Facing::PosZ
        }
    } else if away_positive {
        Facing::NegX
    } else {
        Facing::PosX
    }
}

/// Materials that the table of this world may or may not have of its own.
#[derive(Clone, Copy, Debug, PartialEq, Eq, Structural)]
pub struct Palette {
    pub dark_planks: MaterialId,
    pub red_brick: MaterialId,
    pub thatch: MaterialId,
    pub concrete: MaterialId,
}

/// What a part of a house of a style is made of.
pub open spec fn house_material(style: Style, role: Role, p: Palette) -> MaterialId {
    match role {
        Role::Wall => match style {
            Style::Timber => MaterialId(ids::WHITEWASH),
            Style::Stone => MaterialId(ids::COBBLESTONE),
            Style::Brick => p.red_brick,
            Style::Thatch => MaterialId(ids::PLANKS),
        },
        Role::Frame => match style {
            Style::Timber => p.dark_planks,
            Style::Stone | Style::Brick => MaterialId(ids::STONE_BRICK),
            Style::Thatch => MaterialId(ids::OAK_LOG),
        },
        Role::Roof => match style {
            Style::Timber | Style::Brick => MaterialId(ids::ROOF_TILE),
            Style::Stone => MaterialId(ids::SLATE),
            Style::Thatch => p.thatch,
        },
        Role::Foundation => match style {
            Style::Timber | Style::Thatch => MaterialId(ids::COBBLESTONE),
            Style::Stone | Style::Brick => MaterialId(ids::STONE_BRICK),
        },
        Role::Chimney => match style {
            Style::Brick => p.red_brick,
            _ => MaterialId(ids::COBBLESTONE),
        },
        _ => plain_material(role, p),
    }
}

/// What the parts that every style shares are made of.
pub open spec fn plain_material(role: Role, p: Palette) -> MaterialId {
    match role {
        Role::Boards => MaterialId(ids::PLANKS),
        Role::Glass => MaterialId(ids::GLASS),
        Role::Sash => p.dark_planks,
        Role::Stone => MaterialId(ids::STONE_BRICK),
        Role::Iron => MaterialId(ids::IRON),
        Role::Steel => MaterialId(ids::STEEL),
        Role::Concrete => p.concrete,
        Role::Glow => MaterialId(ids::GLOWSTONE),
        _ => MaterialId(ids::AIR),
    }
}

fn plain_material_of(role: Role, p: &Palette) -> (m: MaterialId)
    ensures
        m == plain_material(role, *p),
{
    match role {
        Role::Boards => MaterialId(ids::PLANKS),
        Role::Glass => MaterialId(ids::GLASS),
        Role::Sash => p.dark_planks,
        Role::Stone => MaterialId(ids::STONE_BRICK),
        Role::Iron => MaterialId(ids::IRON),
        Role::Steel => MaterialId(ids::STEEL),
        Role::Concrete => p.concrete,
        Role::Glow => MaterialId(ids::GLOWSTONE),
        _ => MaterialId(ids::AIR),
    }
}

pub fn house_material_of(style: Style, role: Role, p: &Palette) -> (m: MaterialId)
    ensures
        m == house_material(style, role, *p),
{
    match role {
        Role::Wall => match style {
            Style::Timber => MaterialId(ids::WHITEWASH),
            Style::Stone => MaterialId(ids::COBBLESTONE),
            Style::Brick => p.red_brick,
            Style::Thatch => MaterialId(ids::PLANKS),
        },
        Role::Frame => match style {
            Style::Timber => p.dark_planks,
            Style::Stone | Style::Brick => MaterialId(ids::STONE_BRICK),
            Style::Thatch => MaterialId(ids::OAK_LOG),
        },
        Role::Roof => match style {
            Style::Timber | Style::Brick => MaterialId(ids::ROOF_TILE),
            Style::Stone => MaterialId(ids::SLATE),
            Style::Thatch => p.thatch,
        },
        Role::Foundation => match style {
            Style::Timber | Style::Thatch => MaterialId(ids::COBBLESTONE),
            Style::Stone | Style::Brick => MaterialId(ids::STONE_BRICK),
        },
        Role::Chimney => match style {
            Style::Brick => p.red_brick,
            _ => MaterialId(ids::COBBLESTONE),
        },
        _ => plain_material_of(role, p),
    }
}

/// What stands on a town lot.
#[derive(Clone, Copy, Debug, PartialEq, Eq, Structural)]
pub enum Kind {
    Tower,
    Apartments,
    Offices,
}

/// A town building: lot in centimetres, floors, the entrance's wall, the
/// number that picks its lights, and how far a tower is set back.
#[derive(Clone, Copy, Debug)]
pub struct Building {
    pub w: i32,
    pub d: i32,
    pub kind: Kind,
    pub floors: i32,
    pub street: Facing,
    pub lit: u32,
    pub inset: i32,
}

/// Height of a storey of a kind of building.
pub open spec fn storey_cm(kind: Kind) -> int {
    match kind {
        Kind::Apartments => 300,
        _ => 350,
    }
}

/// Window pattern of a kind of building.
pub open spec fn facade_style(kind: Kind) -> FacadeStyle {
    match kind {
        Kind::Tower => FacadeStyle::Curtain,
        Kind::Apartments => FacadeStyle::Punched,
        Kind::Offices => FacadeStyle::Ribbon,
    }
}

/// Floors a kind of building may have.
pub open spec fn floor_range(kind: Kind) -> (int, int) {
    match kind {
        Kind::Tower => (10, 20),
        Kind::Apartments => (4, 7),
        Kind::Offices => (3, 6),
    }
}

pub fn draw_floors(kind: Kind, rng: &mut Rand) -> (n: i32)
    ensures
        final(rng).0 == step(old(rng).0),
        n == floor_range(kind).0 + pick(
            draw(step(old(rng).0)),
            floor_range(kind).1 - floor_range(kind).0 + 1,
        ),
        floor_range(kind).0 <= n <= floor_range(kind).1,
        kind is Tower ==> 0x1_0000_0000_0000 * (n - 10) <= 11 * draw(step(old(rng).0)) * 0x100_0001
            && 11 * draw(step(old(rng).0)) * 0xff_ffff < 0x1_0000_0000_0000 * (n - 9),
        kind is Apartments ==> 0x1_0000_0000_0000 * (n - 4) <= 4 * draw(step(old(rng).0))
            * 0x100_0001 && 4 * draw(step(old(rng).0)) * 0xff_ffff < 0x1_0000_0000_0000 * (n - 3),
        kind is Offices ==> 0x1_0000_0000_0000 * (n - 3) <= 4 * draw(step(old(rng).0)) * 0x100_0001
            && 4 * draw(step(old(rng).0)) * 0xff_ffff < 0x1_0000_0000_0000 * (n - 2),
{
    proof {
        crate::rand::picks_are_in_proportion(draw(step(rng.0)), 11);
        crate::rand::picks_are_in_proportion(draw(step(rng.0)), 4);
    }
    match kind {
        Kind::Tower => rng.whole(10, 20),
        Kind::Apartments => rng.whole(4, 7),
        Kind::Offices => rng.whole(3, 6),
    }
}

/// What the walls of a kind of building are made of.
pub open spec fn building_wall(kind: Kind, p: Palette) -> MaterialId {
    match kind {
        Kind::Tower => MaterialId(ids::STEEL),
        Kind::Apartments => p.red_brick,
        Kind::Offices => p.concrete,
    }
}

pub fn building_material_of(kind: Kind, role: Role, p: &Palette) -> (m: MaterialId)
    ensures
        m == if role == Role::Wall {
            building_wall(kind, *p)
        } else {
            plain_material(role, *p)
        },
{
    if role == Role::Wall {
        match kind {
            Kind::Tower => MaterialId(ids::STEEL),
            Kind::Apartments => p.red_brick,
            Kind::Offices => p.concrete,
        }
    } else {
        plain_material_of(role, p)
    }
}

/// Storeys of a building: shell, hollow, floors, roof, windowed walls.
pub open spec fn block(
    x0: int,
    x1: int,
    z0: int,
    z1: int,
    y: int,
    top: int,
    storey: int,
    lit: u32,
    wall: Role,
    style: FacadeStyle,
) -> Seq<Part> {
    block_core(x0, x1, z0, z1, y, top, storey, lit, wall) + facades(
        x0,
        x1,
        z0,
        z1,
        y,
        top,
        storey,
        style,
        wall,
    )
}

/// The number after `n`.
pub open spec fn after(n: u32) -> u32 {
    n.wrapping_add(1)
}

/// The body of a building: a tower rises from a podium of three storeys of
/// shops, set back from its edge, with plant and a mast on top; others are one
/// block with plant on the roof, apartments with a cornice.
pub open spec fn body(b: Building) -> Seq<Part> {
    let (w, d, f) = (b.w as int, b.d as int, storey_cm(b.kind));
    if b.kind == Kind::Tower {
        let i = b.inset as int;
        let low = 3 * f;
        let top = low + b.floors * f;
        block(0, w, 0, d, 0, low, f, after(b.lit), Role::Concrete, FacadeStyle::Ribbon) + block(
            i,
            w - i,
            i,
            d - i,
            low,
            top,
            f,
            after(after(b.lit)),
            Role::Wall,
            FacadeStyle::Curtain,
        ) + parapet(0, w, 0, d, low, Role::Concrete) + parapet(
            i,
            w - i,
            i,
            d - i,
            top,
            Role::Wall,
        ) + mast(w / 2, d / 2, top)
    } else {
        let top = b.floors * f;
        block(0, w, 0, d, 0, top, f, after(b.lit), Role::Wall, facade_style(b.kind)) + parapet(
            0,
            w,
            0,
            d,
            top,
            Role::Wall,
        ) + (if b.kind == Kind::Apartments {
            cornice(w, d, top)
        } else {
            Seq::empty()
        }) + plant(w / 2, d / 2, top)
    }
}

/// The entrance on the street side.
pub open spec fn street_door(w: int, d: int, street: Facing) -> Seq<Part> {
    match street {
        Facing::PosX => entrance(w - 50, w + 50, d / 2 - 150, d / 2 + 150),
        Facing::NegX => entrance(-50, 50, d / 2 - 150, d / 2 + 150),
        Facing::PosZ => entrance(w / 2 - 150, w / 2 + 150, d - 50, d + 50),
        Facing::NegZ => entrance(w / 2 - 150, w / 2 + 150, -50, 50),
    }
}

/// A town building, part by part: what it stands on, its body, shopfronts on
/// the ground floor of apartments, and the entrance.
pub open spec fn building_parts(b: Building) -> Seq<Part> {
    let (w, d, f) = (b.w as int, b.d as int, storey_cm(b.kind));
    base(w, d) + body(b) + (if b.kind == Kind::Apartments {
        facades(0, w, 0, d, 0, f, f, FacadeStyle::Shopfront, Role::Wall)
    } else {
        Seq::empty()
    }) + street_door(w, d, b.street)
}

fn put_block(
    x0: i32,
    x1: i32,
    z0: i32,
    z1: i32,
    y: i32,
    top: i32,
    storey: i32,
    lit: u32,
    wall: Role,
    style: FacadeStyle,
    out: &mut Vec<Part>,
)
    requires
        -0x2000_0000 <= x0 <= 0x2000_0000,
        -0x2000_0000 <= x1 <= 0x2000_0000,
        -0x2000_0000 <= z0 <= 0x2000_0000,
        -0x2000_0000 <= z1 <= 0x2000_0000,
        0 <= y <= 0x2000_0000,
        0 <= top <= 0x2000_0000,
        0 <= storey <= 0x2000_0000,
    ensures
        final(out)@ == old(out)@ + block(
            x0 as int,
            x1 as int,
            z0 as int,
            z1 as int,
            y as int,
            top as int,
            storey as int,
            lit,
            wall,
            style,
        ),
{
    put_block_core(x0, x1, z0, z1, y, top, storey, lit, wall, out);
    put_facades(x0, x1, z0, z1, y, top, storey, style, wall, out);
    assert(out@ =~= old(out)@ + block(
        x0 as int,
        x1 as int,
        z0 as int,
        z1 as int,
        y as int,
        top as int,
        storey as int,
        lit,
        wall,
        style,
    ));
}

fn put_body(b: &Building, out: &mut Vec<Part>)
    requires
        0 <= b.w <= 0x2000_0000,
        0 <= b.d <= 0x2000_0000,
        0 <= b.floors <= 1_000_000,
        0 <= b.inset <= 0x1000_0000,
    ensures
        final(out)@ == old(out)@ + body(*b),
{
    let (w, d): (i32, i32) = (b.w, b.d);
    let lit: u32 = b.lit.wrapping_add(1);
    match b.kind {
        Kind::Tower => {
            let i: i32 = b.inset;
            let low: i32 = 1050;
            let top: i32 = low + b.floors * 350;
            put_block(0, w, 0, d, 0, low, 350, lit, Role::Concrete, FacadeStyle::Ribbon, out);
            put_block(
                i,
                w - i,
                i,
                d - i,
                low,
                top,
                350,
                lit.wrapping_add(1),
                Role::Wall,
                FacadeStyle::Curtain,
                out,
            );
            put_parapet(0, w, 0, d, low, Role::Concrete, out);
            put_parapet(i, w - i, i, d - i, top, Role::Wall, out);
            put_mast(w / 2, d / 2, top, out);
        },
        Kind::Apartments => {
            let top: i32 = b.floors * 300;
            put_block(0, w, 0, d, 0, top, 300, lit, Role::Wall, FacadeStyle::Punched, out);
            put_parapet(0, w, 0, d, top, Role::Wall, out);
            put_cornice(w, d, top, out);
            put_plant(w / 2, d / 2, top, out);
        },
        Kind::Offices => {
            let top: i32 = b.floors * 350;
            put_block(0, w, 0, d, 0, top, 350, lit, Role::Wall, FacadeStyle::Ribbon, out);
            put_parapet(0, w, 0, d, top, Role::Wall, out);
            put_plant(w / 2, d / 2, top, out);
        },
    }
    assert(out@ =~= old(out)@ + body(*b));
}

/// A town building, part by part.
pub fn building(b: &Building) -> (out: Vec<Part>)
    requires
        0 <= b.w <= 0x2000_0000,
        0 <= b.d <= 0x2000_0000,
        0 <= b.floors <= 1_000_000,
        0 <= b.inset <= 0x1000_0000,
    ensures
        out@ == building_parts(*b),
{
    let mut out: Vec<Part> = Vec::new();
    let (w, d): (i32, i32) = (b.w, b.d);
    put_base(w, d, &mut out);
    put_body(b, &mut out);
    if b.kind == Kind::Apartments {
        put_facades(0, w, 0, d, 0, 300, 300, FacadeStyle::Shopfront, Role::Wall, &mut out);
    }
    match b.street {
        Facing::PosX => put_entrance(w - 50, w + 50, d / 2 - 150, d / 2 + 150, &mut out),
        Facing::NegX => put_entrance(-50, 50, d / 2 - 150, d / 2 + 150, &mut out),
        Facing::PosZ => put_entrance(w / 2 - 150, w / 2 + 150, d - 50, d + 50, &mut out),
        Facing::NegZ => put_entrance(w / 2 - 150, w / 2 + 150, -50, 50, &mut out),
    }
    assert(out@ =~= building_parts(*b));
    out
}

/// The last word on a doorway is that it is open: of the parts of the way in
/// only the slab underfoot comes after the opening is carved, and it ends six
/// centimetres above the opening's sill.
pub proof fn doorways_are_carved_last(w: int, d: int, facing: Facing)
    requires
        0 <= w <= 0x2000_0000,
        0 <= d <= 0x2000_0000,
    ensures
        ({
            let (x0, x1, z0, z1) = door(w, d, facing);
            let parts = way_in(w, d, facing);
            &&& parts[0] == part(
                Form::Box,
                corner(x0, Level::Floor, 25, z0),
                corner(x1, Level::Floor, 230, z1),
                Role::Air,
            )
            &&& parts[1].hi.y == (Height { from: Level::Floor, cm: 31 })
            &&& forall|k: int|
                2 <= k < parts.len() ==> beside_door(#[trigger] parts[k], x0, x1, z0, z1)
        }),
{
    let parts = way_in(w, d, facing);
    let (x0, x1, z0, z1) = door(w, d, facing);
    let lamp = door_lamp(w, d, facing);
    let steps = door_step(w, d, facing);
    assert forall|k: int| 2 <= k < parts.len() implies beside_door(
        #[trigger] parts[k],
        x0,
        x1,
        z0,
        z1,
    ) by {
        if k < 5 {
            assert(parts[k] == lamp[k - 2]);
        } else {
            assert(k == 5);
            assert(parts[k] == steps[0]);
        }
    }
}

/// A part that leaves the inside of a doorway alone: it lies beside it, or no
/// higher than the floor.
pub open spec fn beside_door(p: Part, x0: int, x1: int, z0: int, z1: int) -> bool {
    ||| p.lo.x.cm >= x1 || p.hi.x.cm <= x0 || p.lo.z.cm >= z1 || p.hi.z.cm <= z0
    ||| p.hi.y == (Height { from: Level::Floor, cm: 0 })
}

/// Every room is hollow: the walls come first, each storey is carved out of
/// them afterwards, and its boards lie under the space.
pub proof fn rooms_are_carved(h: House, s: int)
    requires
        0 <= h.w <= 0x2000_0000,
        0 <= h.d <= 0x2000_0000,
        0 <= s < h.storeys <= 1_000_000,
    ensures
        house_parts(h)[1].role == Role::Wall,
        house_parts(h)[2 + 2 * s] == part(
            Form::Box,
            corner(25, Level::Floor, s * 300 + 25, 25),
            corner(h.w - 25, Level::Floor, s * 300 + 300, h.d - 25),
            Role::Air,
        ),
        house_parts(h)[3 + 2 * s].role == Role::Boards,
        house_parts(h)[3 + 2 * s].hi.y == house_parts(h)[2 + 2 * s].lo.y,
{
    let (w, d) = (h.w as int, h.d as int);
    let f = |s: int| room(w, d, s * 300);
    let head = foundation(w, d) + shell(w, d, h.storeys * 300);
    let rooms = chain(f, h.storeys as int);
    lemma_rooms(w, d, h.storeys as int, s);
    let all = house_parts(h);
    assert(rooms.len() == 2 * h.storeys);
    assert(all[1] == head[1]);
    assert(all[2 + 2 * s] == rooms[2 * s]);
    assert(all[3 + 2 * s] == rooms[2 * s + 1]);
}

proof fn lemma_rooms(w: int, d: int, n: int, s: int)
    requires
        0 <= s < n,
    ensures
        ({
            let rooms = chain(|s: int| room(w, d, s * 300), n);
            &&& rooms.len() == 2 * n
            &&& rooms[2 * s] == room(w, d, s * 300)[0]
            &&& rooms[2 * s + 1] == room(w, d, s * 300)[1]
        }),
    decreases n,
{
    let f = |s: int| room(w, d, s * 300);
    let rest = chain(f, n - 1);
    assert(chain(f, n) == rest + f(n - 1));
    lemma_rooms_len(w, d, n - 1);
    if s < n - 1 {
        lemma_rooms(w, d, n - 1, s);
    }
}

proof fn lemma_rooms_len(w: int, d: int, n: int)
    requires
        0 <= n,
    ensures
        chain(|s: int| room(w, d, s * 300), n).len() == 2 * n,
    decreases n,
{
    if n > 0 {
        lemma_rooms_len(w, d, n - 1);
    }
}

/// Sizes that parts are measured in, in centimetres.
pub open spec fn sized(w: int, d: int, top: int) -> bool {
    0 <= w <= 0x1000_0000 && 0 <= d <= 0x1000_0000 && -0x1000_0000 <= top <= 0x1000_0000
}

/// A box with square corners, all of it measured from the ground floor.
pub open spec fn plain_box(p: Part) -> bool {
    &&& p.form is Box
    &&& p.lo.x.jitter == 0 && p.lo.z.jitter == 0 && p.hi.x.jitter == 0 && p.hi.z.jitter == 0
    &&& p.lo.y.from is Floor && p.hi.y.from is Floor
}

/// How far a part reaches along x, up and along z.
pub open spec fn size(p: Part) -> (int, int, int) {
    (p.hi.x.cm - p.lo.x.cm, p.hi.y.cm - p.lo.y.cm, p.hi.z.cm - p.lo.z.cm)
}

/// The foundation carries the walls with twelve centimetres to spare on every
/// side and goes a metre and a half into the ground; the walls stand on it,
/// and rooms are hollow but for 25 cm of wall, with boards as thick below.
pub proof fn walls_stand_on_their_foundation(w: int, d: int, top: int)
    requires
        sized(w, d, top),
    ensures
        ({
            let (f, s) = (foundation(w, d)[0], shell(w, d, top)[0]);
            &&& foundation(w, d).len() == 1 && shell(w, d, top).len() == 1
            &&& f.form is Box && f.role is Foundation && plain_box(s) && s.role is Wall
            &&& f.hi.y == s.lo.y && s.lo.y.cm == 0 && s.hi.y.cm == top
            &&& f.lo.y.from is Ground && f.lo.y.cm == -150
            &&& s.lo.x.cm == 0 && s.lo.z.cm == 0 && s.hi.x.cm == w && s.hi.z.cm == d
            &&& s.lo.x.cm - f.lo.x.cm == 12 && f.hi.x.cm - s.hi.x.cm == 12
            &&& s.lo.z.cm - f.lo.z.cm == 12 && f.hi.z.cm - s.hi.z.cm == 12
        }),
        ({
            let (air, boards) = (room(w, d, top)[0], room(w, d, top)[1]);
            &&& room(w, d, top).len() == 2 && plain_box(air) && plain_box(boards)
            &&& air.role is Air && boards.role is Boards
            &&& size(air) == (w - 50, 275int, d - 50) && size(boards) == (w - 50, 25int, d - 50)
            &&& air.lo.x.cm == 25 && air.lo.z.cm == 25 && boards.lo.x.cm == 25 && boards.lo.z.cm
                == 25
            &&& boards.lo.y.cm == top && air.lo.y.cm == boards.hi.y.cm
        }),
{
}

/// A post of 33 cm stands at each corner of the house, four centimetres out of
/// both walls, over the whole height; a rail runs round at its height, as far
/// out, 24 cm high.
pub proof fn frames_hold_the_corners(w: int, d: int, top: int)
    requires
        sized(w, d, top),
    ensures
        posts(w, d, top).len() == 4,
        forall|i: int|
            0 <= i < 4 ==> plain_box(#[trigger] posts(w, d, top)[i]) && posts(w, d, top)[i].role
                is Frame && size(posts(w, d, top)[i]) == (33int, top, 33int) && posts(
                w,
                d,
                top,
            )[i].lo.y.cm == 0 && (posts(w, d, top)[i].lo.x.cm == -4 || posts(w, d, top)[i].hi.x.cm
                == w + 4) && (posts(w, d, top)[i].lo.z.cm == -4 || posts(w, d, top)[i].hi.z.cm == d
                + 4),
        posts(w, d, top)[0].lo.x.cm == -4 && posts(w, d, top)[0].lo.z.cm == -4,
        posts(w, d, top)[1].hi.x.cm == w + 4 && posts(w, d, top)[1].lo.z.cm == -4,
        posts(w, d, top)[2].lo.x.cm == -4 && posts(w, d, top)[2].hi.z.cm == d + 4,
        posts(w, d, top)[3].hi.x.cm == w + 4 && posts(w, d, top)[3].hi.z.cm == d + 4,
        ({
            let r = rail(w, d, top)[0];
            &&& rail(w, d, top).len() == 1 && plain_box(r) && r.role is Frame
            &&& size(r) == (w + 8, 24int, d + 8) && r.lo.y.cm + r.hi.y.cm == 2 * top && r.lo.x.cm
                == -4 && r.lo.z.cm == -4
        }),
{
}

/// Studs stand in pairs, one in each of two walls that face each other, 20 cm
/// wide, four centimetres out of the wall and 25 cm through, and to the top.
pub proof fn studs_stand_in_both_walls(len: int, top: int, s: int)
    requires
        sized(len, len, top),
        0 <= s <= 0x1000_0000,
    ensures
        ({
            let (near, far) = (stud_pair_x(len, top, s)[0], stud_pair_x(len, top, s)[1]);
            &&& stud_pair_x(len, top, s).len() == 2
            &&& plain_box(near) && plain_box(far) && near.role is Frame && far.role is Frame
            &&& size(near) == (20int, top, 25int) && size(far) == size(near)
            &&& near.lo.x.cm == s && far.lo.x.cm == s && near.lo.y.cm == 0 && far.lo.y.cm == 0
            &&& near.lo.z.cm == -4 && far.hi.z.cm == len + 4
        }),
        ({
            let (near, far) = (stud_pair_z(len, top, s)[0], stud_pair_z(len, top, s)[1]);
            &&& stud_pair_z(len, top, s).len() == 2
            &&& plain_box(near) && plain_box(far) && near.role is Frame && far.role is Frame
            &&& size(near) == (25int, top, 20int) && size(far) == size(near)
            &&& near.lo.z.cm == s && far.lo.z.cm == s && near.lo.y.cm == 0 && far.lo.y.cm == 0
            &&& near.lo.x.cm == -4 && far.hi.x.cm == len + 4
        }),
{
}

/// The part across the diagonal: x for z.
pub open spec fn crossed(p: Part) -> Part {
    Part {
        lo: Corner { x: p.lo.z, y: p.lo.y, z: p.lo.x },
        hi: Corner { x: p.hi.z, y: p.hi.y, z: p.hi.x },
        ..p
    }
}

/// A window opens the wall of 25 cm right through, 75 cm wide and from 90 to
/// 210 cm over its floor. The pane fills the opening within the wall, the
/// mullion parts it down the middle, the transom crosses it, and the sill lies
/// right under it, wider on both sides.
pub proof fn windows_open_their_wall(s: int, f: int, y: int)
    requires
        sized(s, f, y),
    ensures
        ({
            let p = window_x(s, f, y);
            let (open, pane, mullion, transom, sill) = (p[0], p[1], p[2], p[3], p[4]);
            &&& p.len() == 5
            &&& forall|i: int| 0 <= i < 5 ==> plain_box(#[trigger] p[i])
            &&& open.role is Air && pane.role is Glass && mullion.role is Sash && transom.role
                is Sash && sill.role is Stone
            &&& open.lo.x.cm == s && open.lo.y.cm == y + 90
            &&& size(open) == (75int, 120int, 45int) && open.lo.z.cm == f - 10
            &&& pane.lo.x == open.lo.x && pane.hi.x == open.hi.x && pane.lo.y == open.lo.y
                && pane.hi.y == open.hi.y
            &&& pane.hi.z.cm - pane.lo.z.cm == 7 && pane.lo.z.cm + pane.hi.z.cm == 2 * f + 25
            &&& mullion.lo.y == open.lo.y && mullion.hi.y == open.hi.y
            &&& mullion.hi.x.cm - mullion.lo.x.cm == 7 && mullion.lo.x.cm + mullion.hi.x.cm
                == open.lo.x.cm + open.hi.x.cm
            &&& transom.lo.x == open.lo.x && transom.hi.x == open.hi.x && transom.hi.y.cm
                - transom.lo.y.cm == 7 && transom.lo.y.cm - open.lo.y.cm == 72
            &&& mullion.lo.z == transom.lo.z && mullion.hi.z == transom.hi.z && pane.lo.z.cm
                - mullion.lo.z.cm == 3 && mullion.hi.z.cm - pane.hi.z.cm == 3
            &&& sill.hi.y == open.lo.y && sill.hi.y.cm - sill.lo.y.cm == 10
            &&& open.lo.x.cm - sill.lo.x.cm == 6 && sill.hi.x.cm - open.hi.x.cm == 6
            &&& open.lo.z.cm - sill.lo.z.cm == 2 && sill.hi.z.cm - open.hi.z.cm == 2
        }),
        window_z(s, f, y).len() == 5,
        forall|i: int| 0 <= i < 5 ==> #[trigger] window_z(s, f, y)[i] == crossed(
            window_x(s, f, y)[i],
        ),
{
}

/// A lantern is the same as one on a post: 28 cm of iron, 30 cm high, with
/// glowing glass a centimetre proud on its four sides.
pub proof fn house_lanterns_glow(x: int, y: int, z: int)
    requires
        sized(x, z, y),
    ensures
        ({
            let p = lantern(x, y, z);
            &&& p.len() == 3
            &&& forall|i: int|
                0 <= i < 3 ==> plain_box(#[trigger] p[i]) && p[i].lo.x.cm + p[i].hi.x.cm == 2 * x
                    && p[i].lo.z.cm + p[i].hi.z.cm == 2 * z
            &&& p[0].role is Iron && p[1].role is Glow && p[2].role is Glow
            &&& size(p[0]) == (28int, 30int, 28int) && p[0].lo.y.cm == y
            &&& size(p[1]) == (20int, 22int, 30int) && p[1].lo.y.cm == y + 4
            &&& size(p[2]) == (30int, 22int, 20int) && p[2].lo.y.cm == y + 4
        }),
{
}

/// A door is a metre wide in the middle of the wall that the house faces, and
/// goes 20 cm out of it and 20 cm past its 25 cm.
pub proof fn doors_are_in_their_wall(w: int, d: int, facing: Facing)
    requires
        sized(w, d, 0),
    ensures
        ({
            let (x0, x1, z0, z1) = door(w, d, facing);
            &&& facing is NegZ || facing is PosZ ==> x1 - x0 == 100 && z1 - z0 == 65 && 0 <= w - (x0
                + x1) <= 1
            &&& facing is NegX || facing is PosX ==> z1 - z0 == 100 && x1 - x0 == 65 && 0 <= d - (z0
                + z1) <= 1
            &&& facing is NegZ ==> z0 == -20
            &&& facing is PosZ ==> z1 == d + 20
            &&& facing is NegX ==> x0 == -20
            &&& facing is PosX ==> x1 == w + 20
        }),
{
}

/// The way in opens the door from 25 to 230 cm, over a slab six centimetres
/// thick that reaches as far beyond it; a lantern hangs two metres up, 80 cm
/// beside its middle, and a step a metre deep leads from the wall down into
/// the ground, 20 cm wider on both sides.
pub proof fn doors_have_a_step_and_a_lamp(w: int, d: int, facing: Facing)
    requires
        sized(w, d, 0),
    ensures
        ({
            let (x0, x1, z0, z1) = door(w, d, facing);
            let p = way_in(w, d, facing);
            let (open, slab, lamp, step) = (p[0], p[1], p[2], p[5]);
            &&& p.len() == 6
            &&& plain_box(open) && open.role is Air && open.lo.y.cm == 25 && open.hi.y.cm == 230
            &&& open.lo.x.cm == x0 && open.hi.x.cm == x1 && open.lo.z.cm == z0 && open.hi.z.cm == z1
            &&& plain_box(slab) && slab.role is Stone && slab.lo.y == open.lo.y
            &&& size(slab) == (x1 - x0 + 12, 6int, z1 - z0 + 12) && slab.lo.x.cm == x0 - 6
                && slab.lo.z.cm == z0 - 6
            &&& lamp.role is Iron && p[3].role is Glow && p[4].role is Glow && lamp.lo.y.cm == 200
            &&& step.form is Box && step.role is Stone && step.lo.y.from is Ground && step.lo.y.cm
                == -50 && step.hi.y.from is Floor && step.hi.y.cm == 0
            &&& facing is NegZ ==> step.hi.z.cm == 0 && step.lo.z.cm == -100 && step.lo.x.cm == x0
                - 20 && step.hi.x.cm == x1 + 20
            &&& facing is PosZ ==> step.lo.z.cm == d && step.hi.z.cm == d + 100 && step.lo.x.cm
                == x0 - 20 && step.hi.x.cm == x1 + 20
            &&& facing is NegX ==> step.hi.x.cm == 0 && step.lo.x.cm == -100 && step.lo.z.cm == z0
                - 20 && step.hi.z.cm == z1 + 20
            &&& facing is PosX ==> step.lo.x.cm == w && step.hi.x.cm == w + 100 && step.lo.z.cm
                == z0 - 20 && step.hi.z.cm == z1 + 20
            &&& facing is NegZ ==> lamp.lo.x.cm + lamp.hi.x.cm == x0 + x1 + 160 && lamp.lo.z.cm
                + lamp.hi.z.cm == -50
            &&& facing is PosZ ==> lamp.lo.x.cm + lamp.hi.x.cm == x0 + x1 + 160 && lamp.lo.z.cm
                + lamp.hi.z.cm == 2 * d
            &&& facing is NegX ==> lamp.lo.z.cm + lamp.hi.z.cm == z0 + z1 + 160 && lamp.lo.x.cm
                + lamp.hi.x.cm == -50
            &&& facing is PosX ==> lamp.lo.z.cm + lamp.hi.z.cm == z0 + z1 + 160 && lamp.lo.x.cm
                + lamp.hi.x.cm == 2 * w
        }),
{
    let p = way_in(w, d, facing);
    let (lamp, step) = (door_lamp(w, d, facing), door_step(w, d, facing));
    assert(p[2] == lamp[0] && p[3] == lamp[1] && p[4] == lamp[2] && p[5] == step[0]);
}

/// The gable stands on the walls, hollow but for 25 cm, and the roof covers it
/// with 45 cm of eaves on every side. The ridge runs along the longer side,
/// and its board along the whole of it. Thatch is thicker than tiles.
pub proof fn roofs_cover_their_house(h: House)
    requires
        sized(h.w as int, h.d as int, 0),
        0 <= h.storeys <= 1000,
    ensures
        ({
            let p = roof(h);
            let (wall, attic, cover, board) = (p[0], p[1], p[2], p[3]);
            let along_x = h.w >= h.d;
            &&& p.len() == 4
            &&& wall.form == (Form::Prism { ridge_x: along_x }) && attic.form == wall.form
            &&& wall.role is Wall && attic.role is Air && cover.role is Roof && board.role is Frame
            &&& wall.lo.y == (Height { from: Level::Floor, cm: (h.storeys * 300) as i32 })
                && attic.lo.y == wall.lo.y
            &&& wall.hi.y == (Height { from: Level::Gable, cm: 0 }) && attic.hi.y == (Height {
                from: Level::Gable,
                cm: -25i32,
            })
            &&& size(wall).0 == h.w && size(wall).2 == h.d && wall.lo.x.cm == 0 && wall.lo.z.cm == 0
            &&& size(attic).0 == h.w - 50 && size(attic).2 == h.d - 50 && attic.lo.x.cm == 25
                && attic.lo.z.cm == 25
            &&& cover.form == (Form::Slab {
                ridge_x: along_x,
                thick: if h.style is Thatch {
                    45
                } else {
                    28
                },
            })
            &&& size(cover).0 == h.w + 90 && size(cover).2 == h.d + 90 && cover.lo.x.cm == -45
                && cover.lo.z.cm == -45
            &&& cover.lo.y == (Height { from: Level::Eave, cm: 0 }) && cover.hi.y == (Height {
                from: Level::Ridge,
                cm: 0,
            })
            &&& board.form is Box && board.lo.y.from is Ridge && board.hi.y.from is Ridge
                && board.lo.y.cm == -10 && board.hi.y.cm == 6
            &&& along_x ==> board.lo.x == cover.lo.x && board.hi.x == cover.hi.x && size(board).2
                == 24 && 0 <= h.d - (board.lo.z.cm + board.hi.z.cm) <= 1
            &&& !along_x ==> board.lo.z == cover.lo.z && board.hi.z == cover.hi.z && size(board).0
                == 24 && 0 <= h.w - (board.lo.x.cm + board.hi.x.cm) <= 1
        }),
{
}

/// A chimney stands 80 cm from one end of the ridge, jittered across it. It is
/// 80 cm square from the floor to 120 cm over the ridge, under a cap a metre
/// square; the flue opens both. A house without one has no part for it.
pub proof fn chimneys_rise_over_the_ridge(h: House)
    requires
        sized(h.w as int, h.d as int, 0),
    ensures
        !h.chimney ==> stack(h).len() == 0,
        h.chimney ==> ({
            let p = stack(h);
            let (shaft, cap, flue) = (p[0], p[1], p[2]);
            &&& p.len() == 3
            &&& shaft.role is Chimney && cap.role is Stone && flue.role is Air
            &&& shaft.lo.y == (Height { from: Level::Floor, cm: 0 }) && shaft.hi.y == (Height {
                from: Level::Ridge,
                cm: 120,
            }) && cap.lo.y == shaft.hi.y
            &&& cap.hi.y.from is Ridge && cap.hi.y.cm - cap.lo.y.cm == 15
            &&& flue.lo.y == (Height { from: Level::Ridge, cm: 40 }) && flue.hi.y.from is Ridge
                && flue.hi.y.cm > cap.hi.y.cm && flue.hi.y.cm == 140
            &&& size(shaft).0 == 80 && size(shaft).2 == 80 && size(cap).0 == 100 && size(cap).2
                == 100 && size(flue).0 == 40 && size(flue).2 == 40
            &&& forall|i: int|
                0 <= i < 3 ==> (#[trigger] p[i]).form is Box && (h.w >= h.d ==> p[i].lo.x.cm
                    + p[i].hi.x.cm == 160 && 0 <= h.d - (p[i].lo.z.cm + p[i].hi.z.cm) <= 1
                    && p[i].lo.x.jitter == 0 && p[i].hi.x.jitter == 0 && p[i].lo.z.jitter == 1
                    && p[i].hi.z.jitter == 1) && (h.w < h.d ==> p[i].lo.z.cm + p[i].hi.z.cm == 160
                    && 0 <= h.w - (p[i].lo.x.cm + p[i].hi.x.cm) <= 1 && p[i].lo.z.jitter == 0
                    && p[i].hi.z.jitter == 0 && p[i].lo.x.jitter == 1 && p[i].hi.x.jitter == 1)
        }),
{
}

/// Of ten village houses four are timbered and two each of stone, brick and
/// thatch. Brick houses have two or three storeys, thatched ones a single one,
/// the others one or two.
pub proof fn styles_have_their_share(n: int, style: Style)
    requires
        0 <= n <= 9,
    ensures
        village_style(n) is Timber <==> n < 4,
        village_style(n) is Stone <==> n == 4 || n == 5,
        village_style(n) is Brick <==> n == 6 || n == 7,
        village_style(n) is Thatch <==> n == 8 || n == 9,
        storey_range(style).0 == 2 <==> style is Brick,
        storey_range(style).0 >= 1,
        storey_range(style).1 - storey_range(style).0 == 1 <==> !(style is Thatch),
        style is Thatch ==> storey_range(style) == (1int, 1int),
        storey_range(style).0 <= 2,
{
}

/// What each style's walls, frame, roof, foundation and chimney are made of.
pub proof fn styles_have_their_materials(p: Palette)
    ensures
        house_material(Style::Timber, Role::Wall, p).0 == 40,
        house_material(Style::Stone, Role::Wall, p).0 == 26,
        house_material(Style::Brick, Role::Wall, p) == p.red_brick,
        house_material(Style::Thatch, Role::Wall, p).0 == 21,
        house_material(Style::Timber, Role::Frame, p) == p.dark_planks,
        house_material(Style::Stone, Role::Frame, p).0 == 27,
        house_material(Style::Brick, Role::Frame, p).0 == 27,
        house_material(Style::Thatch, Role::Frame, p).0 == 19,
        house_material(Style::Timber, Role::Roof, p).0 == 39,
        house_material(Style::Brick, Role::Roof, p).0 == 39,
        house_material(Style::Stone, Role::Roof, p).0 == 7,
        house_material(Style::Thatch, Role::Roof, p) == p.thatch,
        house_material(Style::Timber, Role::Foundation, p).0 == 26,
        house_material(Style::Thatch, Role::Foundation, p).0 == 26,
        house_material(Style::Stone, Role::Foundation, p).0 == 27,
        house_material(Style::Brick, Role::Foundation, p).0 == 27,
        house_material(Style::Brick, Role::Chimney, p) == p.red_brick,
        forall|s: Style|
            !(s is Brick) ==> (#[trigger] house_material(s, Role::Chimney, p)).0 == 26,
{
}

/// The parts that are alike in every house and every building: boards of
/// planks, panes of glass, sashes of dark planks, iron, steel, concrete and
/// lantern glass; what is carved is air.
pub proof fn shared_parts_have_their_materials(style: Style, kind: Kind, p: Palette)
    ensures
        house_material(style, Role::Boards, p).0 == 21,
        house_material(style, Role::Glass, p).0 == 18,
        house_material(style, Role::Sash, p) == p.dark_planks,
        house_material(style, Role::Stone, p).0 == 27,
        house_material(style, Role::Iron, p).0 == 34,
        house_material(style, Role::Steel, p).0 == 42,
        house_material(style, Role::Concrete, p) == p.concrete,
        house_material(style, Role::Glow, p).0 == 33,
        house_material(style, Role::Air, p).0 == 0,
        forall|r: Role|
            !(r is Wall || r is Frame || r is Roof || r is Foundation || r is Chimney)
                ==> #[trigger] plain_material(r, p) == house_material(style, r, p),
        building_wall(Kind::Tower, p).0 == 42,
        building_wall(Kind::Apartments, p) == p.red_brick,
        building_wall(Kind::Offices, p) == p.concrete,
{
}

/// Towers have 10 to 20 floors, apartments 4 to 7 and offices 3 to 6; storeys
/// are 3 m high in apartments and 3.5 m elsewhere, where all else is glass
/// curtains or ribbons.
pub proof fn kinds_have_their_floors(kind: Kind)
    ensures
        kind is Tower ==> floor_range(kind) == (10int, 20int) && facade_style(kind) is Curtain,
        kind is Apartments ==> floor_range(kind) == (4int, 7int) && facade_style(kind) is Punched,
        kind is Offices ==> floor_range(kind) == (3int, 6int) && facade_style(kind) is Ribbon,
        2 * storey_cm(kind) == if kind is Apartments {
            600int
        } else {
            700
        },
{
}

/// Bays and studs fit as long as the wall leaves them clear: the last that is
/// counted does, and one more would not.
pub proof fn as_many_as_fit(len: int, first: int, pitch: int, clear: int)
    requires
        pitch > 0,
    ensures
        ({
            let n = fitting(len, first, pitch, clear);
            &&& n >= 0
            &&& n > 0 ==> first + (n - 1) * pitch + clear < len
            &&& first + n * pitch + clear >= len
        }),
{
    if first + clear < len {
        let r = len - clear - 1 - first;
        let q = r / pitch;
        vstd::arithmetic::div_mod::lemma_fundamental_div_mod(r, pitch);
        assert(q * pitch == pitch * q) by (nonlinear_arith);
        assert((q + 1) * pitch == pitch * q + pitch) by (nonlinear_arith);
        assert(q >= 0) by (nonlinear_arith)
            requires
                r == pitch * q + r % pitch,
                r >= 0,
                r % pitch < pitch,
                pitch > 0,
        ;
    }
}

/// A town building stands on concrete 20 cm wider than its lot on every side
/// and two and a half metres deep. Its storeys are a shell with walls of half
/// a metre, hollow from half a metre up, floored with slabs as thick, and
/// closed by one at the top.
pub proof fn blocks_are_floored_shells(
    x0: int,
    x1: int,
    z0: int,
    z1: int,
    y: int,
    top: int,
    storey: int,
    lit: u32,
    wall: Role,
)
    requires
        sized(x0, x1, y),
        sized(z0, z1, top),
        sized(0, 0, storey),
    ensures
        ({
            let b = base(x1, z1)[0];
            &&& base(x1, z1).len() == 1 && b.form is Box && b.role is Concrete
            &&& b.lo.y == (Height { from: Level::Ground, cm: -250i32 }) && b.hi.y == (Height {
                from: Level::Floor,
                cm: 0,
            })
            &&& b.lo.x.cm == -20 && b.lo.z.cm == -20 && size(b).0 == x1 + 40 && size(b).2 == z1 + 40
        }),
        ({
            let p = block_core(x0, x1, z0, z1, y, top, storey, lit, wall);
            let (shell, hollow, floors, lid) = (p[0], p[1], p[2], p[3]);
            &&& p.len() == 4
            &&& plain_box(shell) && plain_box(hollow) && plain_box(lid)
            &&& shell.role == wall && hollow.role is Air && floors.role is Concrete && lid.role
                is Concrete
            &&& size(shell) == (x1 - x0, top - y, z1 - z0) && shell.lo.x.cm == x0 && shell.lo.y.cm
                == y && shell.lo.z.cm == z0
            &&& hollow.lo.x.cm - shell.lo.x.cm == 50 && shell.hi.x.cm - hollow.hi.x.cm == 50
            &&& hollow.lo.z.cm - shell.lo.z.cm == 50 && shell.hi.z.cm - hollow.hi.z.cm == 50
            &&& hollow.lo.y.cm - shell.lo.y.cm == 50 && hollow.hi.y == shell.hi.y
            &&& floors.form == (Form::Floors { storey: storey as i32, thick: 50, lit })
            &&& floors.lo.x == hollow.lo.x && floors.lo.z == hollow.lo.z && floors.hi == hollow.hi
                && floors.lo.y == shell.lo.y
            &&& lid.hi == shell.hi && lid.lo.x == shell.lo.x && lid.lo.z == shell.lo.z
                && lid.hi.y.cm - lid.lo.y.cm == 50
        }),
{
}

/// A building has a windowed layer of half a metre on each of its four sides,
/// over its whole height, each facing out.
pub proof fn facades_face_out(
    x0: int,
    x1: int,
    z0: int,
    z1: int,
    y: int,
    top: int,
    storey: int,
    style: FacadeStyle,
    wall: Role,
)
    requires
        sized(x0, x1, y),
        sized(z0, z1, top),
        sized(0, 0, storey),
    ensures
        ({
            let p = facades(x0, x1, z0, z1, y, top, storey, style, wall);
            &&& p.len() == 4
            &&& forall|i: int|
                0 <= i < 4 ==> (#[trigger] p[i]).role == wall && p[i].lo.y.cm == y && p[i].hi.y.cm
                    == top && p[i].lo.y.from is Floor && p[i].hi.y.from is Floor && p[i].form
                    == (Form::Facade {
                    face: if i < 2 {
                        0
                    } else {
                        2
                    },
                    outward: i % 2 == 1,
                    style,
                    storey: storey as i32,
                })
            &&& p[0].lo.x.cm == x0 && size(p[0]) == (50int, top - y, z1 - z0) && p[0].lo.z.cm == z0
            &&& p[1].hi.x.cm == x1 && size(p[1]) == (50int, top - y, z1 - z0) && p[1].lo.z.cm == z0
            &&& p[2].lo.z.cm == z0 && size(p[2]) == (x1 - x0, top - y, 50int) && p[2].lo.x.cm == x0
            &&& p[3].hi.z.cm == z1 && size(p[3]) == (x1 - x0, top - y, 50int) && p[3].lo.x.cm == x0
        }),
{
}

/// A roof has a parapet 110 cm high and 30 cm thick; a cornice reaches 25 cm
/// out just under the roof's edge; plant stands on it two metres high, and on
/// a tower two and a half, with a mast of twelve metres that ends in a light.
pub proof fn roofs_are_finished(x0: int, x1: int, z0: int, z1: int, top: int, wall: Role)
    requires
        sized(x0, x1, top),
        sized(z0, z1, 0),
    ensures
        ({
            let (rim, gap) = (parapet(x0, x1, z0, z1, top, wall)[0], parapet(
                x0,
                x1,
                z0,
                z1,
                top,
                wall,
            )[1]);
            &&& parapet(x0, x1, z0, z1, top, wall).len() == 2 && plain_box(rim) && plain_box(gap)
            &&& rim.role == wall && gap.role is Air && rim.lo.y == gap.lo.y && rim.hi.y == gap.hi.y
            &&& rim.lo.y.cm == top && size(rim) == (x1 - x0, 110int, z1 - z0) && rim.lo.x.cm == x0
                && rim.lo.z.cm == z0
            &&& size(gap) == (x1 - x0 - 60, 110int, z1 - z0 - 60) && gap.lo.x.cm - x0 == 30
                && gap.lo.z.cm - z0 == 30
        }),
        ({
            let c = cornice(x1, z1, top)[0];
            &&& cornice(x1, z1, top).len() == 1 && plain_box(c) && c.role is Stone
            &&& size(c) == (x1 + 50, 30int, z1 + 50) && c.lo.x.cm == -25 && c.lo.z.cm == -25 && top
                - c.hi.y.cm == 10
        }),
        ({
            let b = plant(x0, z0, top)[0];
            &&& plant(x0, z0, top).len() == 1 && b.form is Box && b.role is Steel
            &&& size(b) == (0int, 200int, 0int) && b.lo.x.cm == x0 && b.lo.z.cm == z0 && b.lo.y.cm
                == top && b.lo.y.from is Floor && b.hi.y.from is Floor
            &&& b.lo.x.jitter == -1 && b.lo.z.jitter == -1 && b.hi.x.jitter == 1 && b.hi.z.jitter
                == 1
        }),
        ({
            let p = mast(x0, z0, top);
            &&& p.len() == 3 && p[0].role is Steel && p[1].role is Steel && p[2].role is Glow
            &&& forall|i: int|
                0 <= i < 3 ==> plain_box(#[trigger] p[i]) && p[i].lo.x.cm + p[i].hi.x.cm == 2 * x0
                    && p[i].lo.z.cm + p[i].hi.z.cm == 2 * z0
            &&& size(p[0]) == (600int, 250int, 400int) && size(p[1]) == (30int, 1200int, 30int)
                && size(p[2]) == (24int, 20int, 24int)
            &&& p[0].lo.y.cm == top && p[1].lo.y.cm == top && p[2].lo.y.cm == p[1].hi.y.cm
        }),
{
}

/// The entrance is three metres wide and high, through the middle of the wall
/// on the street's side, with a slab of half a metre underfoot, and is the
/// last thing made.
pub proof fn entrances_open_to_the_street(w: int, d: int, street: Facing)
    requires
        sized(w, d, 0),
    ensures
        ({
            let p = street_door(w, d, street);
            let (open, slab) = (p[0], p[1]);
            &&& p.len() == 2 && plain_box(open) && plain_box(slab)
            &&& open.role is Air && slab.role is Concrete && open.lo == slab.lo && open.hi.x
                == slab.hi.x && open.hi.z == slab.hi.z
            &&& open.lo.y.cm == 0 && open.hi.y.cm == 300 && slab.hi.y.cm == 50
            &&& street is NegZ || street is PosZ ==> size(open).0 == 300 && size(open).2 == 100
                && 0 <= w - (open.lo.x.cm + open.hi.x.cm) <= 1
            &&& street is NegX || street is PosX ==> size(open).2 == 300 && size(open).0 == 100
                && 0 <= d - (open.lo.z.cm + open.hi.z.cm) <= 1
            &&& street is NegZ ==> open.lo.z.cm + open.hi.z.cm == 0
            &&& street is PosZ ==> open.lo.z.cm + open.hi.z.cm == 2 * d
            &&& street is NegX ==> open.lo.x.cm + open.hi.x.cm == 0
            &&& street is PosX ==> open.lo.x.cm + open.hi.x.cm == 2 * w
        }),
{
}

/// A tower is a podium of three storeys of ribbon windows over the whole lot,
/// and on it its floors behind a curtain wall, set back all round; both have
/// a parapet, and the mast stands on the upper. The two blocks' lights differ.
pub proof fn towers_rise_from_a_podium(b: Building)
    requires
        b.kind is Tower,
        sized(b.w as int, b.d as int, 0),
        0 <= b.floors <= 1000,
        0 <= b.inset <= 0x1000_0000,
    ensures
        ({
            let p = body(b);
            &&& p.len() == 23
            &&& p[0].role is Concrete && size(p[0]) == (b.w as int, 1050int, b.d as int)
                && p[0].lo.y.cm == 0 && p[0].lo.x.cm == 0 && p[0].lo.z.cm == 0
            &&& p[8].role is Wall && size(p[8]) == (
                b.w - 2 * b.inset,
                b.floors * 350,
                b.d - 2 * b.inset,
            ) && p[8].lo.y == p[0].hi.y && p[8].lo.x.cm == b.inset && p[8].lo.z.cm == b.inset
            &&& p[4].form matches Form::Facade { style, storey, .. } && style is Ribbon && storey
                == 350
            &&& p[12].form matches Form::Facade { style, storey, .. } && style is Curtain && storey
                == 350
            &&& p[2].form matches Form::Floors { lit: a, .. } && p[10].form matches Form::Floors {
                lit: c,
                ..
            } && a != c
            &&& p[16].lo.y == p[0].hi.y && size(p[16]).0 == b.w && size(p[16]).2 == b.d
            &&& p[18].lo.y == p[8].hi.y && size(p[18]).0 == b.w - 2 * b.inset && size(p[18]).2
                == b.d - 2 * b.inset
            &&& p[20].lo.y == p[8].hi.y && p[22].role is Glow
        }),
{
    let p = body(b);
    let (w, d, i, top) = (b.w as int, b.d as int, b.inset as int, 1050 + b.floors * 350);
    let low = block(0, w, 0, d, 0, 1050, 350, after(b.lit), Role::Concrete, FacadeStyle::Ribbon);
    let high = block(
        i,
        w - i,
        i,
        d - i,
        1050,
        top,
        350,
        after(after(b.lit)),
        Role::Wall,
        FacadeStyle::Curtain,
    );
    assert(low.len() == 8 && high.len() == 8);
    assert(p[0] == low[0] && p[2] == low[2] && p[4] == low[4]);
    assert(p[8] == high[0] && p[10] == high[2] && p[12] == high[4]);
}

/// Apartments and offices are one block of their floors over the whole lot,
/// apartments behind punched windows and offices behind ribbons, with plant on
/// the roof; only apartments have a cornice, and shops in the ground floor.
pub proof fn other_buildings_are_one_block(b: Building)
    requires
        !(b.kind is Tower),
        sized(b.w as int, b.d as int, 0),
        0 <= b.floors <= 1000,
    ensures
        ({
            let p = body(b);
            let f = if b.kind is Apartments {
                300int
            } else {
                350
            };
            let n = p.len() as int;
            &&& n == if b.kind is Apartments {
                12int
            } else {
                11
            }
            &&& p[0].role is Wall && size(p[0]) == (b.w as int, b.floors * f, b.d as int)
                && p[0].lo.y.cm == 0 && p[0].lo.x.cm == 0 && p[0].lo.z.cm == 0
            &&& p[4].form matches Form::Facade { style, storey, .. } && storey == f && (b.kind
                is Apartments ==> style is Punched) && (b.kind is Offices ==> style is Ribbon)
            &&& p[8].lo.y == p[0].hi.y && p[9].lo.y == p[0].hi.y
            &&& b.kind is Apartments ==> p[10].role is Stone
            &&& p[n - 1].role is Steel && p[n - 1].lo.y == p[0].hi.y
            &&& building_parts(b).len() == n + 3 + if b.kind is Apartments {
                4int
            } else {
                0
            }
            &&& b.kind is Apartments ==> (building_parts(b)[n + 1].form matches Form::Facade {
                style,
                ..
            } && style is Shopfront && building_parts(b)[n + 1].hi.y.cm == 300)
        }),
{
    let p = body(b);
    let (w, d, f) = (b.w as int, b.d as int, storey_cm(b.kind));
    let top = b.floors * f;
    let one = block(0, w, 0, d, 0, top, f, after(b.lit), Role::Wall, facade_style(b.kind));
    assert(one.len() == 8);
    assert(p[0] == one[0] && p[4] == one[4]);
    if b.kind is Apartments {
        let shops = facades(0, w, 0, d, 0, f, f, FacadeStyle::Shopfront, Role::Wall);
        assert(building_parts(b)[p.len() as int + 1] == shops[0]);
    }
}

proof fn lemma_chain(f: spec_fn(int) -> Seq<Part>, n: int, l: int, k: int)
    requires
        0 <= n,
        0 <= l,
        forall|j: int| (#[trigger] f(j)).len() == l,
    ensures
        chain(f, n).len() == l * n,
        0 <= k < n ==> forall|i: int|
            0 <= i < l ==> 0 <= #[trigger] (l * k + i) < l * n && chain(f, n)[l * k + i] == f(k)[i],
    decreases n,
{
    if n > 0 {
        lemma_chain(f, n - 1, l, k);
        assert(l * n == l * (n - 1) + l) by (nonlinear_arith);
        assert(f(n - 1).len() == l);
        if 0 <= k < n {
            assert forall|i: int| 0 <= i < l implies 0 <= #[trigger] (l * k + i) < l * n && chain(
                f,
                n,
            )[l * k + i] == f(k)[i] by {
                if k < n - 1 {
                    assert(0 <= l * k + i < l * (n - 1));
                } else {
                    assert(l * k == l * (n - 1));
                    assert(0 <= l * k) by (nonlinear_arith)
                        requires
                            l >= 0,
                            k >= 0,
                    ;
                }
            }
        }
    } else {
        assert(l * n == 0) by (nonlinear_arith)
            requires
                n == 0,
        ;
    }
}

/// A wall has a window every two metres, the first a metre in, as long as a
/// metre is left after it: five parts each.
pub proof fn walls_have_a_bay_every_two_metres(len: int, f: int, y: int, k: int)
    requires
        0 <= k,
        200 + 200 * k < len,
    ensures
        wall_x(len, f, y).len() >= 5 * k + 5,
        wall_z(len, f, y).len() == wall_x(len, f, y).len(),
        forall|i: int|
            0 <= i < 5 ==> wall_x(len, f, y)[#[trigger] (5 * k + i)] == window_x(
                100 + k * 200,
                f,
                y,
            )[i] && wall_z(len, f, y)[5 * k + i] == window_z(100 + k * 200, f, y)[i],
        len - 200 <= 40 * wall_x(len, f, y).len() < len,
{
    let n = fitting(len, 100, 200, 100);
    let a = |k: int| window_x(100 + k * 200, f, y);
    let b = |k: int| window_z(100 + k * 200, f, y);
    lemma_chain(a, n, 5, k);
    lemma_chain(b, n, 5, k);
    as_many_as_fit(len, 100, 200, 100);
    assert(k < n);
    assert forall|i: int| 0 <= i < 5 implies wall_x(len, f, y)[#[trigger] (5 * k + i)] == window_x(
        100 + k * 200,
        f,
        y,
    )[i] && wall_z(len, f, y)[5 * k + i] == window_z(100 + k * 200, f, y)[i] by {
        assert(chain(a, n)[5 * k + i] == a(k)[i]);
        assert(chain(b, n)[5 * k + i] == b(k)[i]);
    }
}

/// Every house has its four posts. Timber and brick have a rail under each
/// storey and one under the roof; only timber has studs too.
pub proof fn frames_go_by_style(h: House)
    requires
        sized(h.w as int, h.d as int, 0),
        0 <= h.storeys <= 1000,
    ensures
        h.style is Stone || h.style is Thatch ==> framing(h).len() == 4,
        h.style is Brick ==> framing(h).len() == h.storeys + 5,
        h.style is Timber ==> framing(h).len() == h.storeys + 5 + 2 * fitting(
            h.w as int,
            150,
            150,
            100,
        ) + 2 * fitting(h.d as int, 150, 150, 100),
        h.style is Timber || h.style is Brick ==> forall|k: int|
            0 <= k <= h.storeys ==> {
                let r = #[trigger] framing(h)[4 + k];
                r.role is Frame && r.lo.y.cm + r.hi.y.cm == 600 * k && size(r) == (
                    h.w + 8,
                    24int,
                    h.d + 8,
                )
            },
{
    let top = h.storeys * 300;
    let f = |k: int| rail(h.w as int, h.d as int, k * 300);
    let a = |k: int| stud_pair_x(h.d as int, top, 150 + k * 150);
    let b = |k: int| stud_pair_z(h.w as int, top, 150 + k * 150);
    let n = h.storeys + 1;
    lemma_chain(f, n, 1, 0);
    as_many_as_fit(h.w as int, 150, 150, 100);
    as_many_as_fit(h.d as int, 150, 150, 100);
    lemma_chain(a, fitting(h.w as int, 150, 150, 100), 2, 0);
    lemma_chain(b, fitting(h.d as int, 150, 150, 100), 2, 0);
    if h.style is Timber || h.style is Brick {
        assert forall|k: int| 0 <= k <= h.storeys implies {
            let r = #[trigger] framing(h)[4 + k];
            r.role is Frame && r.lo.y.cm + r.hi.y.cm == 600 * k && size(r) == (
                h.w + 8,
                24int,
                h.d + 8,
            )
        } by {
            lemma_chain(f, n, 1, k);
            assert(chain(f, n)[1 * k + 0] == f(k)[0]);
            assert(framing(h)[4 + k] == chain(f, n)[k]);
            frames_hold_the_corners(h.w as int, h.d as int, k * 300);
        }
    }
}

/// A lantern hangs in the middle of every room, the last parts of the house:
/// its foot 55 cm under the ceiling.
pub proof fn rooms_are_lit(h: House, s: int)
    requires
        sized(h.w as int, h.d as int, 0),
        0 <= s < h.storeys <= 1000,
    ensures
        ({
            let p = house_parts(h);
            let iron = p[p.len() - 3 * (h.storeys - s)];
            let glow = p[p.len() - 3 * (h.storeys - s) + 1];
            &&& iron.role is Iron && glow.role is Glow
            &&& iron.lo.y.cm == 300 * s + 245
            &&& 0 <= h.w - (iron.lo.x.cm + iron.hi.x.cm) <= 1
            &&& 0 <= h.d - (iron.lo.z.cm + iron.hi.z.cm) <= 1
        }),
{
    let f = |s: int| lantern(h.w as int / 2, (s + 1) * 300 - 55, h.d as int / 2);
    let n = h.storeys as int;
    lemma_chain(f, n, 3, s);
    let p = house_parts(h);
    let lamps = chain(f, n);
    assert(p[p.len() - 3 * (n - s)] == lamps[3 * s + 0]);
    assert(p[p.len() - 3 * (n - s) + 1] == lamps[3 * s + 1]);
    assert(lamps[3 * s + 0] == f(s)[0]);
    assert(lamps[3 * s + 1] == f(s)[1]);
    house_lanterns_glow(h.w as int / 2, (s + 1) * 300 - 55, h.d as int / 2);
}

} // verus!
