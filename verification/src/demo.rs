//! Scripted play for headless captures: the same game systems a player
//! drives, fed synthetic input, so screenshots and regression captures
//! exercise real interaction code. A script is a list of acts.

use crate::cli::same;
use crate::input::{Button, Key};
use crate::item::{solid_item, BlockKind, Item, Tier, ToolKind};
use crate::ivec::{floor_div, IVec3};
use crate::material::{air, ids, MaterialId};
use vstd::prelude::*;

verus! {

#[derive(Clone, Copy, Debug, PartialEq, Eq, Structural)]
pub enum Demo {
    /// Stand, build a small wall with a window and a torch, carve a crater.
    Build,
    /// Ring the player with lanterns and torches on the ground: emitters
    /// meant to be captured at night.
    Lights,
    /// Lay polished slabs (steel, obsidian, ice) and a wall in front of the
    /// player: glossy reflections to look at.
    Mirror,
    /// Place two TNT blocks down the view, light one, and stop while the
    /// debris of both blasts is in the air.
    Blast,
    /// Raise a stone tower, blow its base out and stop while it comes down.
    Collapse,
    /// A pool of water over a gravel bed and a glass wall with coloured
    /// blocks behind it: refraction and absorption to look at.
    Glass,
    /// Survival: turn a few logs and some stone into a crafting table,
    /// tools and a furnace, set them down, and stop with the inventory open
    /// at the table.
    Craft,
    /// The craft demo's workshop from outside: table and furnace set down,
    /// a torch beside them, and a block of ground half broken.
    Workshop,
    /// A stone tank ahead, open on the near side, poured three metres deep:
    /// the water collapses across the ground toward the camera.
    Flood,
    /// Standing on a beach facing the sea: dig a trench 2 m wide from the
    /// player's feet to the water, below sea level, and let the sea in.
    Shore,
    /// A tree ahead set alight with flint and steel, caught seven seconds
    /// later with its canopy ablaze.
    Wildfire,
    /// A storm, and a bolt brought down forty metres ahead.
    Lightning,
}

impl Demo {
    /// The demo of a name.
    pub open spec fn named(s: Seq<char>) -> Option<Demo> {
        if s == "build"@ {
            Some(Demo::Build)
        } else if s == "lights"@ {
            Some(Demo::Lights)
        } else if s == "mirror"@ {
            Some(Demo::Mirror)
        } else if s == "blast"@ {
            Some(Demo::Blast)
        } else if s == "collapse"@ {
            Some(Demo::Collapse)
        } else if s == "glass"@ {
            Some(Demo::Glass)
        } else if s == "craft"@ {
            Some(Demo::Craft)
        } else if s == "workshop"@ {
            Some(Demo::Workshop)
        } else if s == "flood"@ {
            Some(Demo::Flood)
        } else if s == "shore"@ {
            Some(Demo::Shore)
        } else if s == "wildfire"@ {
            Some(Demo::Wildfire)
        } else if s == "lightning"@ {
            Some(Demo::Lightning)
        } else {
            None
        }
    }

    pub fn parse(s: &str) -> (r: Option<Demo>)
        ensures
            r == Demo::named(s@),
    {
        if same(s, "build") {
            Some(Demo::Build)
        } else if same(s, "lights") {
            Some(Demo::Lights)
        } else if same(s, "mirror") {
            Some(Demo::Mirror)
        } else if same(s, "blast") {
            Some(Demo::Blast)
        } else if same(s, "collapse") {
            Some(Demo::Collapse)
        } else if same(s, "glass") {
            Some(Demo::Glass)
        } else if same(s, "craft") {
            Some(Demo::Craft)
        } else if same(s, "workshop") {
            Some(Demo::Workshop)
        } else if same(s, "flood") {
            Some(Demo::Flood)
        } else if same(s, "shore") {
            Some(Demo::Shore)
        } else if same(s, "wildfire") {
            Some(Demo::Wildfire)
        } else if same(s, "lightning") {
            Some(Demo::Lightning)
        } else {
            None
        }
    }
}

/// One thing a script does.
#[derive(Clone, Copy, Debug, PartialEq, Eq, Structural)]
pub enum Act {
    /// So many frames go by.
    Tick(u32),
    /// The mouse moves.
    Look(i32, i32),
    Down(Key),
    Up(Key),
    Press(Button),
    Release(Button),
    Scroll(i32),
    /// The player starts again with nothing.
    Survival,
    Give(Item, u32),
    /// A recipe is made up to so many times.
    Make(Item, u32),
    /// An item is moved to the hotbar, if need be, and selected.
    Hold(Item),
    /// A box of voxels becomes one material.
    Fill { lo: IVec3, hi: IVec3, m: MaterialId },
    /// A box counts as built.
    Built { lo: IVec3, hi: IVec3 },
    /// Water is poured into a box.
    Pour { lo: IVec3, hi: IVec3 },
    /// A blast at a block, of so many voxels.
    Blast { block: IVec3, radius: u32 },
    /// The view rises until it is on TNT.
    AimUp { tries: u32, step: i32 },
    /// Frames go by until so many more bodies exist.
    WaitBodies { more: u32, most: u32 },
    /// Frames go by until so many blasts have gone off.
    WaitBlasts { count: u32, most: u32 },
    /// A trench is dug to the sea.
    Trench,
    /// The nearest tree is set alight.
    Ignite,
    /// A storm, with a bolt so many metres ahead.
    Storm(u32),
}

/// Where the player stands, as far as the scripts need it, in voxels or, where
/// it says so, blocks.
#[derive(Debug)]
pub struct Stage {
    /// Just under the middle of the slabs.
    pub floor: IVec3,
    /// The pool's middle, in blocks.
    pub pool: IVec3,
    /// The ground's top voxel.
    pub ground: i32,
    /// A voxel column of each glass pane, and of the block behind it.
    pub panes: Vec<(i32, i32)>,
    pub behind: Vec<(i32, i32)>,
    /// The tower's middle, in blocks.
    pub tower: IVec3,
    /// The tank's middle, in blocks, and its bottom voxel.
    pub tank: IVec3,
    pub tank_floor: i32,
    /// Which of the tank's columns, nine by nine, lie on the near side.
    pub near: Vec<bool>,
}

pub open spec fn small(v: IVec3) -> bool {
    &&& -0x7ff_f000 <= v.x <= 0x7ff_f000
    &&& -0x7ff_f000 <= v.y <= 0x7ff_f000
    &&& -0x7ff_f000 <= v.z <= 0x7ff_f000
}

impl Stage {
    pub open spec fn wf(&self) -> bool {
        &&& small(self.floor) && small(self.pool) && small(self.tower) && small(self.tank)
        &&& -0x7fff_0000 <= self.ground <= 0x7fff_0000
        &&& -0x7fff_0000 <= self.tank_floor <= 0x7fff_0000
        &&& self.panes@.len() == 6 && self.behind@.len() == 6
        &&& self.near@.len() == 81
    }
}

pub open spec fn vec(x: int, y: int, z: int) -> IVec3 {
    IVec3 { x: x as i32, y: y as i32, z: z as i32 }
}

pub open spec fn fill(x: int, y: int, z: int, x2: int, y2: int, z2: int, m: u16) -> Act {
    Act::Fill { lo: vec(x, y, z), hi: vec(x2, y2, z2), m: MaterialId(m) }
}

/// A mouse click.
pub open spec fn click(b: Button) -> Seq<Act> {
    seq![Act::Press(b), Act::Tick(1), Act::Release(b), Act::Tick(1)]
}

/// A key pressed for a frame.
pub open spec fn tap(k: Key) -> Seq<Act> {
    seq![Act::Down(k), Act::Tick(1), Act::Up(k)]
}

pub open spec fn select(slot: u8) -> Seq<Act> {
    tap(Key::Slot(slot)) + seq![Act::Tick(1)]
}

pub open spec fn look(dx: int, dy: int) -> Seq<Act> {
    seq![Act::Look(dx as i32, dy as i32), Act::Tick(1)]
}

/// A key held for some frames.
pub open spec fn hold_key(k: Key, frames: u32) -> Seq<Act> {
    seq![Act::Down(k), Act::Tick(frames), Act::Up(k)]
}

fn push_click(out: &mut Vec<Act>, b: Button)
    ensures
        final(out)@ == old(out)@ + click(b),
{
    out.push(Act::Press(b));
    out.push(Act::Tick(1));
    out.push(Act::Release(b));
    out.push(Act::Tick(1));
    assert(out@ =~= old(out)@ + click(b));
}

fn push_hold_key(out: &mut Vec<Act>, k: Key, frames: u32)
    ensures
        final(out)@ == old(out)@ + hold_key(k, frames),
{
    out.push(Act::Down(k));
    out.push(Act::Tick(frames));
    out.push(Act::Up(k));
    assert(out@ =~= old(out)@ + hold_key(k, frames));
}

fn push_tap(out: &mut Vec<Act>, k: Key)
    ensures
        final(out)@ == old(out)@ + tap(k),
{
    push_hold_key(out, k, 1);
}

fn push_select(out: &mut Vec<Act>, slot: u8)
    ensures
        final(out)@ == old(out)@ + select(slot),
{
    push_tap(out, Key::Slot(slot));
    out.push(Act::Tick(1));
    assert(out@ =~= old(out)@ + select(slot));
}

fn push_look(out: &mut Vec<Act>, dx: i32, dy: i32)
    ensures
        final(out)@ == old(out)@ + look(dx as int, dy as int),
{
    out.push(Act::Look(dx, dy));
    out.push(Act::Tick(1));
    assert(out@ =~= old(out)@ + look(dx as int, dy as int));
}

fn push_one(out: &mut Vec<Act>, a: Act)
    ensures
        final(out)@ == old(out)@ + seq![a],
{
    out.push(a);
    assert(out@ =~= old(out)@ + seq![a]);
}

fn push_fill(out: &mut Vec<Act>, lo: IVec3, hi: IVec3, m: MaterialId)
    ensures
        final(out)@ == old(out)@ + seq![Act::Fill { lo, hi, m }],
{
    push_one(out, Act::Fill { lo, hi, m });
}

/// Places a block from a slot and turns.
pub open spec fn place_and_turn(slot: u8) -> Seq<Act> {
    tap(Key::Slot(slot)) + click(Button::Secondary) + look(-90, 0)
}

fn push_place_and_turn(out: &mut Vec<Act>, slot: u8)
    ensures
        final(out)@ == old(out)@ + place_and_turn(slot),
{
    push_tap(out, Key::Slot(slot));
    push_click(out, Button::Secondary);
    push_look(out, -90, 0);
    assert(out@ =~= old(out)@ + place_and_turn(slot));
}

/// A wall with a window, a torch, and a crater to the side.
pub open spec fn build_acts(s: Seq<Act>) -> Seq<Act> {
    s + look(0, 180) + place_and_turn(0) + place_and_turn(0) + place_and_turn(2) + place_and_turn(0)
        + place_and_turn(0) + look(250, -60) + tap(Key::Slot(3)) + click(Button::Secondary) + tap(
        Key::ToggleMode,
    ) + seq![Act::Scroll(10)] + look(300, 40) + seq![Act::Press(Button::Primary)] + seq![
        Act::Tick(40),
    ] + seq![Act::Release(Button::Primary)] + seq![Act::Tick(2)] + look(-280, -20)
}

fn build(out: &mut Vec<Act>)
    ensures
        final(out)@ == build_acts(old(out)@),
{
    push_look(out, 0, 180);
    push_place_and_turn(out, 0);
    push_place_and_turn(out, 0);
    push_place_and_turn(out, 2);
    push_place_and_turn(out, 0);
    push_place_and_turn(out, 0);
    push_look(out, 250, -60);
    push_tap(out, Key::Slot(3));
    push_click(out, Button::Secondary);
    push_tap(out, Key::ToggleMode);
    push_one(out, Act::Scroll(10));
    push_look(out, 300, 40);
    push_one(out, Act::Press(Button::Primary));
    push_one(out, Act::Tick(40));
    push_one(out, Act::Release(Button::Primary));
    push_one(out, Act::Tick(2));
    push_look(out, -280, -20);
}

/// Places a light from a slot and turns.
pub open spec fn light_and_turn(slot: u8, dx: int) -> Seq<Act> {
    select(slot) + click(Button::Secondary) + look(dx, 0)
}

fn push_light_and_turn(out: &mut Vec<Act>, slot: u8, dx: i32)
    ensures
        final(out)@ == old(out)@ + light_and_turn(slot, dx as int),
{
    push_select(out, slot);
    push_click(out, Button::Secondary);
    push_look(out, dx, 0);
    assert(out@ =~= old(out)@ + light_and_turn(slot, dx as int));
}

/// Lanterns and torches by turns, on the ground a few metres out.
pub open spec fn lights_acts(s: Seq<Act>) -> Seq<Act> {
    s + look(0, 140) + light_and_turn(4, 170) + light_and_turn(3, 150) + light_and_turn(4, 170)
        + light_and_turn(3, 150) + light_and_turn(4, 170) + light_and_turn(3, 150) + look(120, -110)
}

fn lights(out: &mut Vec<Act>)
    ensures
        final(out)@ == lights_acts(old(out)@),
{
    push_look(out, 0, 140);
    push_light_and_turn(out, 4, 170);
    push_light_and_turn(out, 3, 150);
    push_light_and_turn(out, 4, 170);
    push_light_and_turn(out, 3, 150);
    push_light_and_turn(out, 4, 170);
    push_light_and_turn(out, 3, 150);
    push_look(out, 120, -110);
}

/// A box about `f`.
pub open spec fn fill_about(
    f: IVec3,
    x: int,
    y: int,
    z: int,
    x2: int,
    y2: int,
    z2: int,
    m: u16,
) -> Seq<Act> {
    seq![fill(f.x + x, f.y + y, f.z + z, f.x + x2, f.y + y2, f.z + z2, m)]
}

fn push_fill_about(out: &mut Vec<Act>, f: IVec3, a: IVec3, b: IVec3, m: MaterialId)
    requires
        small(f),
        small(a),
        small(b),
    ensures
        final(out)@ == old(out)@ + fill_about(
            f,
            a.x as int,
            a.y as int,
            a.z as int,
            b.x as int,
            b.y as int,
            b.z as int,
            m.0,
        ),
{
    push_fill(out, f.plus(a), f.plus(b), m);
}

/// Air cleared, then three 2 m slabs side by side and a marble wall behind
/// them to reflect.
pub open spec fn mirror_acts(s: Seq<Act>, f: IVec3) -> Seq<Act> {
    s + fill_about(f, -48, 1, -16, 47, 64, 31, ids::AIR) + fill_about(
        f,
        -48,
        -3,
        -16,
        -17,
        0,
        15,
        ids::STEEL,
    ) + fill_about(f, -16, -3, -16, 15, 0, 15, ids::OBSIDIAN) + fill_about(
        f,
        16,
        -3,
        -16,
        47,
        0,
        15,
        ids::ICE,
    ) + fill_about(f, -48, 1, 16, 47, 48, 31, ids::MARBLE)
}

fn at(x: i32, y: i32, z: i32) -> (v: IVec3)
    ensures
        v == (IVec3 { x, y, z }),
{
    IVec3 { x, y, z }
}

fn mirror(out: &mut Vec<Act>, f: IVec3)
    requires
        small(f),
    ensures
        final(out)@ == mirror_acts(old(out)@, f),
{
    push_fill_about(out, f, at(-48, 1, -16), at(47, 64, 31), MaterialId(ids::AIR));
    push_fill_about(out, f, at(-48, -3, -16), at(-17, 0, 15), MaterialId(ids::STEEL));
    push_fill_about(out, f, at(-16, -3, -16), at(15, 0, 15), MaterialId(ids::OBSIDIAN));
    push_fill_about(out, f, at(16, -3, -16), at(47, 0, 15), MaterialId(ids::ICE));
    push_fill_about(out, f, at(-48, 1, 16), at(47, 48, 31), MaterialId(ids::MARBLE));
}

/// One block of the pool: its bed, water over it, and air over that.
pub open spec fn pool_block(pool: IVec3, top: int, bx: int, bz: int) -> Seq<Act> {
    let (x, z) = ((pool.x + bx) * 16, (pool.z + bz) * 16);
    seq![
        fill(
            x,
            top - 31,
            z,
            x + 15,
            top - 24,
            z + 15,
            if (bx + bz) % 3 == 0 {
                ids::SAND
            } else {
                ids::GRAVEL
            },
        ),
        fill(x, top - 23, z, x + 15, top - 1, z + 15, ids::WATER),
        fill(x, top, z, x + 15, top + 48, z + 15, ids::AIR),
    ]
}

fn push_pool_block(out: &mut Vec<Act>, pool: IVec3, top: i32, bx: i32, bz: i32)
    requires
        small(pool),
        -0x7fff_0000 <= top <= 0x7fff_0000,
        -8 <= bx <= 8,
        -8 <= bz <= 8,
    ensures
        final(out)@ == old(out)@ + pool_block(pool, top as int, bx as int, bz as int),
{
    let (x, z): (i32, i32) = ((pool.x + bx) * 16, (pool.z + bz) * 16);
    let bed: u16 = if (bx + bz + 18) % 3 == 0 {
        ids::SAND
    } else {
        ids::GRAVEL
    };
    push_fill(out, at(x, top - 31, z), at(x + 15, top - 24, z + 15), MaterialId(bed));
    push_fill(out, at(x, top - 23, z), at(x + 15, top - 1, z + 15), MaterialId(ids::WATER));
    push_fill(out, at(x, top, z), at(x + 15, top + 48, z + 15), MaterialId(ids::AIR));
    assert(out@ =~= old(out)@ + pool_block(pool, top as int, bx as int, bz as int));
}

/// The first `n` blocks of a pool six by four.
pub open spec fn pool_acts(s: Seq<Act>, pool: IVec3, top: int, n: int) -> Seq<Act>
    decreases n,
{
    if n <= 0 {
        s
    } else {
        pool_acts(s, pool, top, n - 1) + pool_block(
            pool,
            top,
            (n - 1) / 4 - 3,
            (n - 1) % 4 - 2,
        )
    }
}

/// The block `dy` blocks up that holds a voxel column.
pub open spec fn block_fill(column: (i32, i32), ground: int, dy: int, m: u16) -> Seq<Act> {
    let (x, z) = (column.0 as int / 16 * 16, column.1 as int / 16 * 16);
    let y = ground + 1 + dy * 16;
    seq![fill(x, y, z, x + 15, y + 15, z + 15, m)]
}

fn push_block_fill(out: &mut Vec<Act>, column: (i32, i32), ground: i32, dy: i32, m: u16)
    requires
        -0x7fff_0000 <= ground <= 0x7fff_0000,
        0 <= dy <= 8,
        -0x4000_0000 <= column.0 <= 0x4000_0000,
        -0x4000_0000 <= column.1 <= 0x4000_0000,
    ensures
        final(out)@ == old(out)@ + block_fill(column, ground as int, dy as int, m),
{
    let (x, z): (i32, i32) = (floor_div(column.0, 16) * 16, floor_div(column.1, 16) * 16);
    let y: i32 = ground + 1 + dy * 16;
    push_fill(out, at(x, y, z), at(x + 15, y + 15, z + 15), MaterialId(m));
}

/// What stands behind glass pane `i`.
pub open spec fn coloured(i: int) -> u16 {
    if i == 0 {
        ids::GOLD_ORE
    } else if i == 1 {
        ids::ROOF_TILE
    } else if i == 2 {
        ids::COPPER_ORE
    } else if i == 3 {
        ids::WOOL
    } else if i == 4 {
        ids::TNT
    } else {
        ids::PLANKS
    }
}

/// Three blocks of glass and, behind them, two coloured ones.
pub open spec fn pane_acts(pane: (i32, i32), behind: (i32, i32), ground: int, i: int) -> Seq<Act> {
    block_fill(pane, ground, 0, ids::GLASS) + block_fill(pane, ground, 1, ids::GLASS) + block_fill(
        pane,
        ground,
        2,
        ids::GLASS,
    ) + block_fill(behind, ground, 0, coloured(i)) + block_fill(behind, ground, 1, coloured(i))
}

/// The first `n` panes of the wall.
pub open spec fn wall_acts(
    s: Seq<Act>,
    panes: Seq<(i32, i32)>,
    behind: Seq<(i32, i32)>,
    ground: int,
    n: int,
) -> Seq<Act>
    decreases n,
{
    if n <= 0 {
        s
    } else {
        wall_acts(s, panes, behind, ground, n - 1) + pane_acts(
            panes[n - 1],
            behind[n - 1],
            ground,
            n - 1,
        )
    }
}

pub open spec fn glass_acts(s: Seq<Act>, g: Stage) -> Seq<Act> {
    wall_acts(
        pool_acts(s, g.pool, g.ground as int, 24),
        g.panes@,
        g.behind@,
        g.ground as int,
        6,
    )
}

/// Voxel columns that block arithmetic can take.
pub open spec fn near_columns(c: Seq<(i32, i32)>) -> bool {
    forall|i: int|
        0 <= i < c.len() ==> -0x4000_0000 <= (#[trigger] c[i]).0 <= 0x4000_0000 && -0x4000_0000
            <= c[i].1 <= 0x4000_0000
}

fn glass(out: &mut Vec<Act>, g: &Stage)
    requires
        g.wf(),
        near_columns(g.panes@),
        near_columns(g.behind@),
    ensures
        final(out)@ == glass_acts(old(out)@, *g),
{
    let ghost start = out@;
    let mut n: i32 = 0;
    while n < 24
        invariant
            0 <= n <= 24,
            g.wf(),
            out@ == pool_acts(start, g.pool, g.ground as int, n as int),
        decreases 24 - n,
    {
        push_pool_block(out, g.pool, g.ground, n / 4 - 3, n % 4 - 2);
        n += 1;
    }
    let ghost mid = out@;
    let mut i: usize = 0;
    while i < 6
        invariant
            i <= 6,
            g.wf(),
            near_columns(g.panes@),
            near_columns(g.behind@),
            out@ == wall_acts(mid, g.panes@, g.behind@, g.ground as int, i as int),
        decreases 6 - i,
    {
        let ghost before = out@;
        let (pane, behind): ((i32, i32), (i32, i32)) = (g.panes[i], g.behind[i]);
        let m: u16 = if i == 0 {
            ids::GOLD_ORE
        } else if i == 1 {
            ids::ROOF_TILE
        } else if i == 2 {
            ids::COPPER_ORE
        } else if i == 3 {
            ids::WOOL
        } else if i == 4 {
            ids::TNT
        } else {
            ids::PLANKS
        };
        push_block_fill(out, pane, g.ground, 0, ids::GLASS);
        push_block_fill(out, pane, g.ground, 1, ids::GLASS);
        push_block_fill(out, pane, g.ground, 2, ids::GLASS);
        push_block_fill(out, behind, g.ground, 0, m);
        push_block_fill(out, behind, g.ground, 1, m);
        assert(out@ =~= before + pane_acts(pane, behind, g.ground as int, i as int));
        i += 1;
    }
}

/// Blocks `a` to `b` of stone brick, counted as built.
pub open spec fn stone_acts(t: IVec3, a: (int, int, int), b: (int, int, int)) -> Seq<Act> {
    let lo = vec((t.x + a.0) * 16, (t.y + a.1) * 16, (t.z + a.2) * 16);
    let hi = vec((t.x + b.0) * 16 + 15, (t.y + b.1) * 16 + 15, (t.z + b.2) * 16 + 15);
    seq![Act::Fill { lo, hi, m: MaterialId(ids::STONE_BRICK) }, Act::Built { lo, hi }]
}

fn push_stone(out: &mut Vec<Act>, t: IVec3, a: IVec3, b: IVec3)
    requires
        small(t),
        -16 <= a.x <= 16 && -16 <= a.y <= 16 && -16 <= a.z <= 16,
        -16 <= b.x <= 16 && -16 <= b.y <= 16 && -16 <= b.z <= 16,
    ensures
        final(out)@ == old(out)@ + stone_acts(
            t,
            (a.x as int, a.y as int, a.z as int),
            (b.x as int, b.y as int, b.z as int),
        ),
{
    let lo: IVec3 = at((t.x + a.x) * 16, (t.y + a.y) * 16, (t.z + a.z) * 16);
    let hi: IVec3 = at((t.x + b.x) * 16 + 15, (t.y + b.y) * 16 + 15, (t.z + b.z) * 16 + 15);
    push_fill(out, lo, hi, MaterialId(ids::STONE_BRICK));
    push_one(out, Act::Built { lo, hi });
    assert(out@ =~= old(out)@ + stone_acts(
        t,
        (a.x as int, a.y as int, a.z as int),
        (b.x as int, b.y as int, b.z as int),
    ));
}

/// A 3 m square stone tower 14 m tall under a 5 m cap; it settles, then its
/// base is blown out from under it.
pub open spec fn collapse_acts(s: Seq<Act>, t: IVec3) -> Seq<Act> {
    s + stone_acts(t, (-1, 0, -1), (1, 13, 1)) + stone_acts(t, (-2, 14, -2), (2, 14, 2)) + look(
        0,
        -60,
    ) + seq![Act::Tick(120)] + seq![Act::Blast { block: t, radius: 56 }] + seq![
        Act::WaitBodies { more: 40, most: 600 },
    ] + seq![Act::Tick(30)]
}

fn collapse(out: &mut Vec<Act>, t: IVec3)
    requires
        small(t),
    ensures
        final(out)@ == collapse_acts(old(out)@, t),
{
    push_stone(out, t, at(-1, 0, -1), at(1, 13, 1));
    push_stone(out, t, at(-2, 14, -2), at(2, 14, 2));
    push_look(out, 0, -60);
    push_one(out, Act::Tick(120));
    push_one(out, Act::Blast { block: t, radius: 56 });
    push_one(out, Act::WaitBodies { more: 40, most: 600 });
    push_one(out, Act::Tick(30));
}

/// Two charges down the view; the second is lit by hand and the first goes off
/// when the blast reaches it.
pub open spec fn blast_acts(s: Seq<Act>) -> Seq<Act> {
    s + look(0, 130) + select(8) + click(Button::Secondary) + look(120, 0) + click(
        Button::Secondary,
    ) + seq![Act::AimUp { tries: 80, step: -2i32 }] + tap(Key::Interact) + look(-60, -60) + seq![
        Act::WaitBlasts { count: 2, most: 600 },
    ] + seq![Act::Tick(9)]
}

fn blast(out: &mut Vec<Act>)
    ensures
        final(out)@ == blast_acts(old(out)@),
{
    push_look(out, 0, 130);
    push_select(out, 8);
    push_click(out, Button::Secondary);
    push_look(out, 120, 0);
    push_click(out, Button::Secondary);
    push_one(out, Act::AimUp { tries: 80, step: -2 });
    push_tap(out, Key::Interact);
    push_look(out, -60, -60);
    push_one(out, Act::WaitBlasts { count: 2, most: 600 });
    push_one(out, Act::Tick(9));
}

/// Column `n` of the tank, nine by nine: stone brick on the ring, but not on
/// the near side; air elsewhere.
pub open spec fn tank_column(g: Stage, n: int) -> Act {
    let (bx, bz) = (n % 9 - 4, n / 9 - 4);
    let (x, z) = ((g.tank.x + bx) * 16, (g.tank.z + bz) * 16);
    let ring = bx == -4 || bx == 4 || bz == -4 || bz == 4;
    fill(
        x,
        g.tank_floor as int,
        z,
        x + 15,
        g.tank_floor + 63,
        z + 15,
        if ring && !g.near@[n] {
            ids::STONE_BRICK
        } else {
            ids::AIR
        },
    )
}

pub open spec fn tank_acts(s: Seq<Act>, g: Stage, n: int) -> Seq<Act>
    decreases n,
{
    if n <= 0 {
        s
    } else {
        tank_acts(s, g, n - 1) + seq![tank_column(g, n - 1)]
    }
}

/// The tank, poured three metres deep.
pub open spec fn flood_acts(s: Seq<Act>, g: Stage) -> Seq<Act> {
    tank_acts(s, g, 81) + seq![
        Act::Pour {
            lo: vec((g.tank.x - 3) * 16, g.tank_floor as int, (g.tank.z - 3) * 16),
            hi: vec(
                (g.tank.x + 4) * 16 - 1,
                g.tank_floor + 47,
                (g.tank.z + 4) * 16 - 1,
            ),
        },
    ]
}

fn flood(out: &mut Vec<Act>, g: &Stage)
    requires
        g.wf(),
    ensures
        final(out)@ == flood_acts(old(out)@, *g),
{
    let ghost start = out@;
    let mut n: i32 = 0;
    while n < 81
        invariant
            0 <= n <= 81,
            g.wf(),
            out@ == tank_acts(start, *g, n as int),
        decreases 81 - n,
    {
        let (bx, bz): (i32, i32) = (n % 9 - 4, n / 9 - 4);
        let (x, z): (i32, i32) = ((g.tank.x + bx) * 16, (g.tank.z + bz) * 16);
        let ring: bool = bx == -4 || bx == 4 || bz == -4 || bz == 4;
        let m: u16 = if ring && !g.near[n as usize] {
            ids::STONE_BRICK
        } else {
            ids::AIR
        };
        push_fill(
            out,
            at(x, g.tank_floor, z),
            at(x + 15, g.tank_floor + 63, z + 15),
            MaterialId(m),
        );
        n += 1;
    }
    push_one(
        out,
        Act::Pour {
            lo: at((g.tank.x - 3) * 16, g.tank_floor, (g.tank.z - 3) * 16),
            hi: at((g.tank.x + 4) * 16 - 1, g.tank_floor + 47, (g.tank.z + 4) * 16 - 1),
        },
    );
}

/// The trench, then up and back to look down it.
pub open spec fn shore_acts(s: Seq<Act>) -> Seq<Act> {
    s + seq![Act::Trench] + hold_key(Key::ToggleFly, 1) + hold_key(Key::Jump, 40) + hold_key(
        Key::Back,
        30,
    ) + look(0, 110)
}

fn shore(out: &mut Vec<Act>)
    ensures
        final(out)@ == shore_acts(old(out)@),
{
    push_one(out, Act::Trench);
    push_hold_key(out, Key::ToggleFly, 1);
    push_hold_key(out, Key::Jump, 40);
    push_hold_key(out, Key::Back, 30);
    push_look(out, 0, 110);
}

pub open spec fn block_item(k: BlockKind) -> Item {
    Item::Block(k)
}

/// Survival from a handful of materials: planks, sticks, a crafting table,
/// tools, a furnace, glass, iron, torches and gunpowder, with the table and
/// furnace set down side by side ahead.
pub open spec fn workshop_acts(s: Seq<Act>) -> Seq<Act> {
    s + seq![Act::Survival] + seq![Act::Give(solid_item(MaterialId(ids::OAK_LOG)), 7)] + seq![
        Act::Give(solid_item(MaterialId(ids::COBBLESTONE)), 24),
    ] + seq![Act::Give(Item::Coal, 6)] + seq![
        Act::Give(solid_item(MaterialId(ids::SAND)), 12),
    ] + seq![Act::Give(Item::RawIron, 4)] + seq![Act::Give(Item::Flint, 3)] + seq![
        Act::Give(solid_item(MaterialId(ids::GRAVEL)), 4),
    ] + seq![Act::Make(solid_item(MaterialId(ids::PLANKS)), 7)] + seq![
        Act::Make(Item::Stick, 3),
    ] + seq![Act::Make(block_item(BlockKind::CraftingTable), 1)] + seq![
        Act::Make(Item::Tool(ToolKind::Pickaxe, Tier::Wood), 1),
    ] + seq![Act::Make(Item::Tool(ToolKind::Pickaxe, Tier::Stone), 1)] + seq![
        Act::Make(Item::Tool(ToolKind::Axe, Tier::Stone), 1),
    ] + seq![Act::Make(block_item(BlockKind::Furnace), 1)] + seq![
        Act::Make(solid_item(MaterialId(ids::GLASS)), 3),
    ] + seq![Act::Make(Item::IronIngot, 3)] + seq![
        Act::Make(block_item(BlockKind::Torch), 2),
    ] + seq![Act::Make(Item::Gunpowder, 2)] + look(0, 150) + seq![
        Act::Hold(block_item(BlockKind::CraftingTable)),
    ] + click(Button::Secondary) + look(-60, 0) + seq![
        Act::Hold(block_item(BlockKind::Furnace)),
    ] + click(Button::Secondary) + look(30, -60)
}

fn workshop(out: &mut Vec<Act>)
    ensures
        final(out)@ == workshop_acts(old(out)@),
{
    push_one(out, Act::Survival);
    push_one(out, Act::Give(Item::solid(MaterialId(ids::OAK_LOG)), 7));
    push_one(out, Act::Give(Item::solid(MaterialId(ids::COBBLESTONE)), 24));
    push_one(out, Act::Give(Item::Coal, 6));
    push_one(out, Act::Give(Item::solid(MaterialId(ids::SAND)), 12));
    push_one(out, Act::Give(Item::RawIron, 4));
    push_one(out, Act::Give(Item::Flint, 3));
    push_one(out, Act::Give(Item::solid(MaterialId(ids::GRAVEL)), 4));
    push_one(out, Act::Make(Item::solid(MaterialId(ids::PLANKS)), 7));
    push_one(out, Act::Make(Item::Stick, 3));
    push_one(out, Act::Make(Item::Block(BlockKind::CraftingTable), 1));
    push_one(out, Act::Make(Item::Tool(ToolKind::Pickaxe, Tier::Wood), 1));
    push_one(out, Act::Make(Item::Tool(ToolKind::Pickaxe, Tier::Stone), 1));
    push_one(out, Act::Make(Item::Tool(ToolKind::Axe, Tier::Stone), 1));
    push_one(out, Act::Make(Item::Block(BlockKind::Furnace), 1));
    push_one(out, Act::Make(Item::solid(MaterialId(ids::GLASS)), 3));
    push_one(out, Act::Make(Item::IronIngot, 3));
    push_one(out, Act::Make(Item::Block(BlockKind::Torch), 2));
    push_one(out, Act::Make(Item::Gunpowder, 2));
    push_look(out, 0, 150);
    push_one(out, Act::Hold(Item::Block(BlockKind::CraftingTable)));
    push_click(out, Button::Secondary);
    push_look(out, -60, 0);
    push_one(out, Act::Hold(Item::Block(BlockKind::Furnace)));
    push_click(out, Button::Secondary);
    push_look(out, 30, -60);
}

/// The acts of a demo, by where the player stands, if anywhere: first a second
/// for the world to settle.
pub open spec fn acts(demo: Demo, stage: Option<Stage>) -> Seq<Act> {
    let s = seq![Act::Tick(60)];
    match demo {
        Demo::Build => build_acts(s),
        Demo::Lights => lights_acts(s),
        Demo::Mirror => (match stage {
            Some(g) => mirror_acts(s, g.floor),
            None => s,
        }) + look(0, 60),
        Demo::Glass => (match stage {
            Some(g) => glass_acts(s, g),
            None => s,
        }) + look(0, 70),
        Demo::Collapse => match stage {
            Some(g) => collapse_acts(s, g.tower),
            None => s,
        },
        Demo::Blast => blast_acts(s),
        Demo::Flood => match stage {
            Some(g) => flood_acts(s + look(0, 60), g),
            None => s + look(0, 60),
        },
        Demo::Shore => match stage {
            Some(g) => shore_acts(s),
            None => s,
        },
        Demo::Wildfire => match stage {
            Some(g) => s + seq![Act::Ignite] + seq![Act::Tick(420)],
            None => s,
        },
        Demo::Lightning => s + seq![Act::Storm(40)] + look(0, -40) + seq![Act::Tick(6)],
        Demo::Craft => workshop_acts(s) + seq![
            Act::Hold(Item::Tool(ToolKind::Pickaxe, Tier::Stone)),
        ],
        Demo::Workshop => workshop_acts(s) + look(-70, 10) + seq![
            Act::Hold(block_item(BlockKind::Torch)),
        ] + click(Button::Secondary) + look(110, -30) + seq![
            Act::Hold(Item::Tool(ToolKind::Pickaxe, Tier::Stone)),
        ] + look(-20, 30) + seq![Act::Press(Button::Primary)] + seq![Act::Tick(9)],
    }
}

/// The script of a demo. Streaming must already cover the player.
pub fn run(demo: Demo, stage: &Option<Stage>) -> (out: Vec<Act>)
    requires
        stage matches Some(g) ==> g.wf() && near_columns(g.panes@) && near_columns(g.behind@),
    ensures
        out@ == acts(demo, *stage),
{
    let mut out: Vec<Act> = Vec::new();
    out.push(Act::Tick(60));
    assert(out@ =~= seq![Act::Tick(60)]);
    match demo {
        Demo::Build => build(&mut out),
        Demo::Lights => lights(&mut out),
        Demo::Mirror => {
            if let Some(g) = stage {
                mirror(&mut out, g.floor);
            }
            push_look(&mut out, 0, 60);
        },
        Demo::Glass => {
            if let Some(g) = stage {
                glass(&mut out, g);
            }
            push_look(&mut out, 0, 70);
        },
        Demo::Collapse => {
            if let Some(g) = stage {
                collapse(&mut out, g.tower);
            }
        },
        Demo::Blast => blast(&mut out),
        Demo::Flood => {
            push_look(&mut out, 0, 60);
            if let Some(g) = stage {
                flood(&mut out, g);
            }
        },
        Demo::Shore => {
            if stage.is_some() {
                shore(&mut out);
            }
        },
        Demo::Wildfire => {
            if stage.is_some() {
                push_one(&mut out, Act::Ignite);
                push_one(&mut out, Act::Tick(420));
            }
        },
        Demo::Lightning => {
            push_one(&mut out, Act::Storm(40));
            push_look(&mut out, 0, -40);
            push_one(&mut out, Act::Tick(6));
        },
        Demo::Craft => {
            workshop(&mut out);
            push_one(&mut out, Act::Hold(Item::Tool(ToolKind::Pickaxe, Tier::Stone)));
        },
        Demo::Workshop => {
            workshop(&mut out);
            push_look(&mut out, -70, 10);
            push_one(&mut out, Act::Hold(Item::Block(BlockKind::Torch)));
            push_click(&mut out, Button::Secondary);
            push_look(&mut out, 110, -30);
            push_one(&mut out, Act::Hold(Item::Tool(ToolKind::Pickaxe, Tier::Stone)));
            push_look(&mut out, -20, 30);
            push_one(&mut out, Act::Press(Button::Primary));
            push_one(&mut out, Act::Tick(9));
        },
    }
    out
}

/// How much more `a` presses a button than it lets it go.
pub open spec fn grip(a: Act, b: Button) -> int {
    if a == Act::Press(b) {
        1
    } else if a == Act::Release(b) {
        -1
    } else {
        0
    }
}

/// How many more presses than releases of a button a script has.
pub open spec fn gripped(s: Seq<Act>, b: Button) -> int
    decreases s.len(),
{
    if s.len() == 0 {
        0
    } else {
        gripped(s.drop_last(), b) + grip(s.last(), b)
    }
}

pub broadcast proof fn lemma_gripped(s: Seq<Act>, t: Seq<Act>, b: Button)
    ensures
        #[trigger] gripped(s + t, b) == gripped(s, b) + gripped(t, b),
    decreases t.len(),
{
    if t.len() == 0 {
        assert(s + t =~= s);
    } else {
        lemma_gripped(s, t.drop_last(), b);
        assert((s + t).drop_last() =~= s + t.drop_last());
        assert((s + t).last() == t.last());
    }
}

proof fn lemma_grips(b: Button)
    ensures
        forall|a: Act| gripped(#[trigger] seq![a], b) == grip(a, b),
        forall|c: Button| gripped(#[trigger] click(c), b) == 0,
        forall|k: Key, n: u32| gripped(#[trigger] hold_key(k, n), b) == 0,
        forall|k: Key| gripped(#[trigger] tap(k), b) == 0,
        forall|x: int, y: int| gripped(#[trigger] look(x, y), b) == 0,
        forall|n: u8| gripped(#[trigger] select(n), b) == 0,
{
    reveal_with_fuel(gripped, 5);
    assert forall|a: Act| gripped(#[trigger] seq![a], b) == grip(a, b) by {
        assert(seq![a].drop_last() =~= Seq::empty());
    }
    assert forall|c: Button| gripped(#[trigger] click(c), b) == 0 by {
        let s = click(c);
        assert(s.drop_last() =~= seq![Act::Press(c), Act::Tick(1), Act::Release(c)]);
        assert(s.drop_last().drop_last() =~= seq![Act::Press(c), Act::Tick(1)]);
        assert(s.drop_last().drop_last().drop_last() =~= seq![Act::Press(c)]);
        assert(s.drop_last().drop_last().drop_last().drop_last() =~= Seq::empty());
    }
    assert forall|k: Key, n: u32| gripped(#[trigger] hold_key(k, n), b) == 0 by {
        let s = hold_key(k, n);
        assert(s.drop_last() =~= seq![Act::Down(k), Act::Tick(n)]);
        assert(s.drop_last().drop_last() =~= seq![Act::Down(k)]);
        assert(s.drop_last().drop_last().drop_last() =~= Seq::empty());
    }
    assert forall|k: Key| gripped(#[trigger] tap(k), b) == 0 by {
        assert(tap(k) == hold_key(k, 1));
    }
    assert forall|x: int, y: int| gripped(#[trigger] look(x, y), b) == 0 by {
        let s = look(x, y);
        assert(s.drop_last() =~= seq![Act::Look(x as i32, y as i32)]);
        assert(s.drop_last().drop_last() =~= Seq::empty());
    }
    assert forall|n: u8| gripped(#[trigger] select(n), b) == 0 by {
        assert(select(n).drop_last() =~= tap(Key::Slot(n)));
        assert(gripped(tap(Key::Slot(n)), b) == 0);
    }
}

proof fn lemma_pool_grip(s: Seq<Act>, pool: IVec3, top: int, n: int, b: Button)
    ensures
        gripped(pool_acts(s, pool, top, n), b) == gripped(s, b),
    decreases n,
{
    if n > 0 {
        lemma_pool_grip(s, pool, top, n - 1, b);
        let t = pool_block(pool, top, (n - 1) / 4 - 3, (n - 1) % 4 - 2);
        lemma_gripped(pool_acts(s, pool, top, n - 1), t, b);
        reveal_with_fuel(gripped, 4);
    }
}

proof fn lemma_wall_grip(
    s: Seq<Act>,
    panes: Seq<(i32, i32)>,
    behind: Seq<(i32, i32)>,
    ground: int,
    n: int,
    b: Button,
)
    ensures
        gripped(wall_acts(s, panes, behind, ground, n), b) == gripped(s, b),
    decreases n,
{
    broadcast use lemma_gripped;

    if n > 0 {
        lemma_wall_grip(s, panes, behind, ground, n - 1, b);
        lemma_grips(b);
    }
}

proof fn lemma_tank_grip(s: Seq<Act>, g: Stage, n: int, b: Button)
    ensures
        gripped(tank_acts(s, g, n), b) == gripped(s, b),
    decreases n,
{
    broadcast use lemma_gripped;

    if n > 0 {
        lemma_tank_grip(s, g, n - 1, b);
        lemma_grips(b);
    }
}

/// Scripts let go of every mouse button they press, but for the workshop,
/// which stops while a block is being broken.
#[verifier::rlimit(60)]
pub proof fn scripts_let_go(demo: Demo, stage: Option<Stage>, b: Button)
    ensures
        gripped(acts(demo, stage), b) == if demo is Workshop && b is Primary {
            1int
        } else {
            0
        },
{
    broadcast use lemma_gripped;

    lemma_grips(b);
    let s = seq![Act::Tick(60)];
    assert(gripped(s, b) == 0);
    if let Some(g) = stage {
        lemma_pool_grip(s, g.pool, g.ground as int, 24, b);
        lemma_wall_grip(
            pool_acts(s, g.pool, g.ground as int, 24),
            g.panes@,
            g.behind@,
            g.ground as int,
            6,
            b,
        );
        lemma_tank_grip(s + look(0, 60), g, 81, b);
        lemma_tower_grip(s, g.tower, b);
    }
}

proof fn lemma_tower_grip(s: Seq<Act>, t: IVec3, b: Button)
    ensures
        gripped(collapse_acts(s, t), b) == gripped(s, b),
{
    broadcast use lemma_gripped;

    lemma_grips(b);
    assert forall|p: (int, int, int), q: (int, int, int)| gripped(
        #[trigger] stone_acts(t, p, q),
        b,
    ) == 0 by {
        let a = stone_acts(t, p, q);
        assert(a =~= seq![a[0]] + seq![a[1]]);
    }
}

/// Digging to the sea, half a metre at a time from step 2, until two metres
/// past the first water: whether to dig at this step, and the last step once
/// water has been met.
pub fn trench_step(step: i32, last: Option<i32>, water: bool) -> (r: (bool, Option<i32>))
    requires
        step <= i32::MAX - 4,
    ensures
        r.1 == (if last is None && water {
            Some((step + 4) as i32)
        } else {
            last
        }),
        r.0 == !(r.1 matches Some(n) && step > n),
        last is None ==> r.0,
        last is None && !water ==> r.1 is None,
        last is None && water ==> r.1 is Some && r.1->Some_0 - step == 4,
        last matches Some(n) ==> r.1 == last && (r.0 <==> step <= n),
{
    let now: Option<i32> = match last {
        Some(n) => Some(n),
        None => if water {
            Some(step + 4)
        } else {
            None
        },
    };
    let dig: bool = match now {
        Some(n) => step <= n,
        None => true,
    };
    (dig, now)
}

/// Half of `s`, rounded toward zero.
pub open spec fn halved(s: int) -> int {
    if s < 0 {
        -((-s) / 2)
    } else {
        s / 2
    }
}

fn halve(s: i32) -> (h: i32)
    requires
        i32::MIN < s,
    ensures
        h == halved(s as int),
{
    if s < 0 {
        -((-s) / 2)
    } else {
        s / 2
    }
}

/// The box to dig between two corners of the trench, and the voxel that tells
/// whether the sea is there.
pub fn trench_box(a: IVec3, b: IVec3, floor: i32, top: i32, sea: i32) -> (r: (IVec3, IVec3, IVec3))
    requires
        -0x3fff_fff0 <= a.x <= 0x3fff_fff0 && -0x3fff_fff0 <= a.z <= 0x3fff_fff0,
        -0x3fff_fff0 <= b.x <= 0x3fff_fff0 && -0x3fff_fff0 <= b.z <= 0x3fff_fff0,
        top <= i32::MAX - 7,
        i32::MIN + 8 <= sea,
    ensures
        r.0 == (IVec3 {
            x: if a.x < b.x {
                a.x
            } else {
                b.x
            },
            y: floor,
            z: if a.z < b.z {
                a.z
            } else {
                b.z
            },
        }),
        r.1.x == 7 + (if a.x > b.x {
            a.x as int
        } else {
            b.x as int
        }),
        r.1.y == top + 7,
        r.1.z == 7 + (if a.z > b.z {
            a.z as int
        } else {
            b.z as int
        }),
        r.2.x == halved(r.0.x + r.1.x) && r.2.y == sea - 8 && r.2.z == halved(r.0.z + r.1.z),
{
    let (x0, x1): (i32, i32) = if a.x < b.x {
        (a.x, b.x)
    } else {
        (b.x, a.x)
    };
    let (z0, z1): (i32, i32) = if a.z < b.z {
        (a.z, b.z)
    } else {
        (b.z, a.z)
    };
    let lo: IVec3 = at(x0, floor, z0);
    let hi: IVec3 = at(x1 + 7, top + 7, z1 + 7);
    (lo, hi, at(halve(lo.x + hi.x), sea - 8, halve(lo.z + hi.z)))
}

/// What digging leaves of a voxel: water stays.
pub fn dug(was: MaterialId) -> (m: MaterialId)
    ensures
        m == (if was.0 == ids::WATER {
            was
        } else {
            air()
        }),
{
    if was.0 == ids::WATER {
        was
    } else {
        MaterialId(ids::AIR)
    }
}

pub open spec fn apart_sq(t: (i32, i32)) -> int {
    t.0 * t.0 + t.1 * t.1
}

/// The tree nearest the middle, the first found of those.
pub fn nearest_tree(trees: &Vec<(i32, i32)>) -> (r: Option<usize>)
    ensures
        r is None == (trees@.len() == 0),
        r matches Some(n) ==> {
            &&& n < trees@.len()
            &&& forall|i: int|
                0 <= i < trees@.len() ==> apart_sq(trees@[n as int]) <= apart_sq(#[trigger] trees@[i])
            &&& forall|i: int|
                0 <= i < n ==> apart_sq(trees@[n as int]) < apart_sq(#[trigger] trees@[i])
        },
{
    let mut best: Option<usize> = None;
    let mut least: u64 = 0;
    let mut i: usize = 0;
    while i < trees.len()
        invariant
            i <= trees@.len(),
            best is None == (i == 0),
            best matches Some(n) ==> {
                &&& n < i
                &&& least == apart_sq(trees@[n as int])
                &&& forall|j: int| 0 <= j < i ==> least <= apart_sq(#[trigger] trees@[j])
                &&& forall|j: int| 0 <= j < n ==> least < apart_sq(#[trigger] trees@[j])
            },
        decreases trees@.len() - i,
    {
        let (dx, dz): (i64, i64) = (trees[i].0 as i64, trees[i].1 as i64);
        proof {
            assert(0 <= dx * dx <= 0x4000_0000_0000_0000) by (nonlinear_arith)
                requires
                    -0x8000_0000 <= dx <= 0x8000_0000,
            ;
            assert(0 <= dz * dz <= 0x4000_0000_0000_0000) by (nonlinear_arith)
                requires
                    -0x8000_0000 <= dz <= 0x8000_0000,
            ;
        }
        let d: u64 = (dx * dx) as u64 + (dz * dz) as u64;
        if best.is_none() || d < least {
            best = Some(i);
            least = d;
        }
        i += 1;
    }
    best
}

/// Whether to let another frame go by for what a script waits for.
pub fn keep_waiting(have: u64, want: u64, waited: u32, most: u32) -> (b: bool)
    ensures
        b == (have < want && waited < most),
{
    have < want && waited < most
}

/// Letters by which the demos' names differ.
proof fn lemma_names()
    ensures
        "build"@.len() == 5 && "build"@[0] == 'b' && "build"@[1] == 'u' && "build"@[2] == 'i' && "build"@[3] == 'l',
        "lights"@.len() == 6 && "lights"@[0] == 'l' && "lights"@[1] == 'i' && "lights"@[2] == 'g' && "lights"@[3] == 'h',
        "mirror"@.len() == 6 && "mirror"@[0] == 'm' && "mirror"@[1] == 'i' && "mirror"@[2] == 'r' && "mirror"@[3] == 'r',
        "blast"@.len() == 5 && "blast"@[0] == 'b' && "blast"@[1] == 'l' && "blast"@[2] == 'a' && "blast"@[3] == 's',
        "collapse"@.len() == 8 && "collapse"@[0] == 'c' && "collapse"@[1] == 'o' && "collapse"@[2] == 'l' && "collapse"@[3] == 'l',
        "glass"@.len() == 5 && "glass"@[0] == 'g' && "glass"@[1] == 'l' && "glass"@[2] == 'a' && "glass"@[3] == 's',
        "craft"@.len() == 5 && "craft"@[0] == 'c' && "craft"@[1] == 'r' && "craft"@[2] == 'a' && "craft"@[3] == 'f',
        "workshop"@.len() == 8 && "workshop"@[0] == 'w' && "workshop"@[1] == 'o' && "workshop"@[2] == 'r' && "workshop"@[3] == 'k',
        "flood"@.len() == 5 && "flood"@[0] == 'f' && "flood"@[1] == 'l' && "flood"@[2] == 'o' && "flood"@[3] == 'o',
        "shore"@.len() == 5 && "shore"@[0] == 's' && "shore"@[1] == 'h' && "shore"@[2] == 'o' && "shore"@[3] == 'r',
        "wildfire"@.len() == 8 && "wildfire"@[0] == 'w' && "wildfire"@[1] == 'i' && "wildfire"@[2] == 'l' && "wildfire"@[3] == 'd',
        "lightning"@.len() == 9 && "lightning"@[0] == 'l' && "lightning"@[1] == 'i' && "lightning"@[2] == 'g' && "lightning"@[3] == 'h',
{
    reveal_strlit("build");
    reveal_strlit("lights");
    reveal_strlit("mirror");
    reveal_strlit("blast");
    reveal_strlit("collapse");
    reveal_strlit("glass");
    reveal_strlit("craft");
    reveal_strlit("workshop");
    reveal_strlit("flood");
    reveal_strlit("shore");
    reveal_strlit("wildfire");
    reveal_strlit("lightning");
}

/// Every demo has its own name, in small letters, and no other text names one.
pub proof fn demos_have_their_names(s: Seq<char>)
    ensures
        Demo::named("build"@) == Some(Demo::Build),
        Demo::named("lights"@) == Some(Demo::Lights),
        Demo::named("mirror"@) == Some(Demo::Mirror),
        Demo::named("blast"@) == Some(Demo::Blast),
        Demo::named("collapse"@) == Some(Demo::Collapse),
        Demo::named("glass"@) == Some(Demo::Glass),
        Demo::named("craft"@) == Some(Demo::Craft),
        Demo::named("workshop"@) == Some(Demo::Workshop),
        Demo::named("flood"@) == Some(Demo::Flood),
        Demo::named("shore"@) == Some(Demo::Shore),
        Demo::named("wildfire"@) == Some(Demo::Wildfire),
        Demo::named("lightning"@) == Some(Demo::Lightning),
        Demo::named(s) is Some ==> 5 <= s.len() <= 9,
{
    lemma_names();
}

/// A block of the pool is a metre square. Its bed is half a metre of sand or
/// gravel, water lies on that up to the ground's top, and three metres over it
/// are clear: the three meet without a gap.
pub proof fn pools_are_filled_to_the_ground(pool: IVec3, top: int, bx: int, bz: int)
    requires
        small(pool),
        -0x7fff_0000 <= top <= 0x7fff_0000,
        -4 <= bx <= 4,
        -4 <= bz <= 4,
    ensures
        ({
            let p = pool_block(pool, top, bx, bz);
            &&& p.len() == 3 && p[0] is Fill && p[1] is Fill && p[2] is Fill
            &&& p[0]->m.0 == 10 || p[0]->m.0 == 11
            &&& p[0]->m.0 == 10 <==> (bx + bz) % 3 == 0
            &&& p[1]->m.0 == 15 && p[2]->m.0 == 0
            &&& p[1]->Fill_lo.y == p[0]->Fill_hi.y + 1 && p[2]->Fill_lo.y == p[1]->Fill_hi.y + 1
            &&& p[2]->Fill_lo.y == top && p[2]->Fill_hi.y == top + 48
            &&& p[0]->Fill_hi.y - p[0]->Fill_lo.y == 7 && p[1]->Fill_hi.y - p[1]->Fill_lo.y == 22
            &&& forall|i: int|
                0 <= i < 3 ==> (#[trigger] p[i])->Fill_lo.x == 16 * (pool.x + bx) && p[i]->Fill_lo.z
                    == 16 * (pool.z + bz) && p[i]->Fill_hi.x - p[i]->Fill_lo.x == 15
                    && p[i]->Fill_hi.z - p[i]->Fill_lo.z == 15
        }),
{
}

/// A pool's blocks reach three either way along x and two along z, each once.
pub proof fn pools_are_six_by_four(s: Seq<Act>, pool: IVec3, top: int, n: int, i: int)
    requires
        0 <= i < n <= 24,
    ensures
        pool_acts(s, pool, top, n).len() == s.len() + 3 * n,
        forall|j: int|
            0 <= j < 3 ==> pool_acts(s, pool, top, n)[s.len() + #[trigger] (3 * i + j)]
                == pool_block(pool, top, i / 4 - 3, i % 4 - 2)[j],
    decreases n,
{
    let rest = pool_acts(s, pool, top, n - 1);
    if n > 1 {
        pools_are_six_by_four(s, pool, top, n - 1, if i < n - 1 {
            i
        } else {
            0
        });
    } else {
        assert(rest == s);
    }
    assert(rest.len() == s.len() + 3 * (n - 1));
    if i < n - 1 {
        assert forall|j: int| 0 <= j < 3 implies pool_acts(s, pool, top, n)[s.len()
            + #[trigger] (3 * i + j)] == pool_block(pool, top, i / 4 - 3, i % 4 - 2)[j] by {
            assert(rest[s.len() + (3 * i + j)] == pool_block(pool, top, i / 4 - 3, i % 4 - 2)[j]);
        }
    }
}

/// A pane fills the block that holds its column, from the ground up: the box
/// is a metre each way, starts on a whole block and holds the column.
pub proof fn blocks_hold_their_column(column: (i32, i32), ground: int, dy: int, m: u16)
    requires
        -0x4000_0000 <= column.0 <= 0x4000_0000,
        -0x4000_0000 <= column.1 <= 0x4000_0000,
        -0x7fff_0000 <= ground <= 0x7fff_0000,
        0 <= dy <= 2,
    ensures
        ({
            let a = block_fill(column, ground, dy, m)[0];
            &&& block_fill(column, ground, dy, m).len() == 1 && a is Fill && a->m.0 == m
            &&& a->Fill_lo.x <= column.0 <= a->Fill_hi.x && a->Fill_lo.z <= column.1
                <= a->Fill_hi.z
            &&& a->Fill_lo.x as int % 16 == 0 && a->Fill_lo.z as int % 16 == 0
            &&& a->Fill_hi.x - a->Fill_lo.x == 15 && a->Fill_hi.y - a->Fill_lo.y == 15
                && a->Fill_hi.z - a->Fill_lo.z == 15
            &&& a->Fill_lo.y == ground + 1 + 16 * dy
        }),
{
}

/// Behind the panes stand six different materials, none of them glass, each
/// two blocks high behind three blocks of glass.
pub proof fn panes_have_colours_behind(
    pane: (i32, i32),
    behind: (i32, i32),
    ground: int,
    i: int,
    j: int,
)
    requires
        0 <= i < j < 6,
    ensures
        coloured(i) != coloured(j),
        coloured(i) != 18 && coloured(j) != 18,
        pane_acts(pane, behind, ground, i).len() == 5,
        forall|k: int|
            0 <= k < 3 ==> (#[trigger] pane_acts(pane, behind, ground, i)[k]) == block_fill(
                pane,
                ground,
                k,
                18,
            )[0],
        forall|k: int|
            3 <= k < 5 ==> (#[trigger] pane_acts(pane, behind, ground, i)[k]) == block_fill(
                behind,
                ground,
                k - 3,
                coloured(i),
            )[0],
{
}

/// What is raised in stone brick counts as built, and nothing more: the same
/// box, of whole blocks from one corner block to the other.
pub proof fn stones_count_as_built(t: IVec3, a: (int, int, int), b: (int, int, int))
    requires
        small(t),
        -16 <= a.0 <= b.0 <= 16,
        -16 <= a.1 <= b.1 <= 16,
        -16 <= a.2 <= b.2 <= 16,
    ensures
        ({
            let p = stone_acts(t, a, b);
            &&& p.len() == 2 && p[0] is Fill && p[1] is Built && p[0]->m.0 == 27
            &&& p[0]->Fill_lo == p[1]->Built_lo && p[0]->Fill_hi == p[1]->Built_hi
            &&& p[0]->Fill_lo.x == 16 * (t.x + a.0) && p[0]->Fill_lo.y == 16 * (t.y + a.1)
                && p[0]->Fill_lo.z == 16 * (t.z + a.2)
            &&& p[0]->Fill_hi.x + 1 - p[0]->Fill_lo.x == 16 * (b.0 - a.0 + 1) && p[0]->Fill_hi.y + 1
                - p[0]->Fill_lo.y == 16 * (b.1 - a.1 + 1) && p[0]->Fill_hi.z + 1 - p[0]->Fill_lo.z
                == 16 * (b.2 - a.2 + 1)
        }),
{
}

/// The tank is walled on its outer ring but for the near side, and all within
/// is air, four metres high.
pub proof fn tanks_open_to_the_near_side(g: Stage, n: int)
    requires
        g.wf(),
        0 <= n < 81,
    ensures
        ({
            let a = tank_column(g, n);
            let inner = 1 <= n % 9 <= 7 && 9 <= n < 72;
            &&& a is Fill && (a->m.0 == 27 || a->m.0 == 0)
            &&& a->m.0 == 27 <==> !inner && !g.near@[n]
            &&& a->Fill_lo.y == g.tank_floor && a->Fill_hi.y == g.tank_floor + 63
            &&& a->Fill_lo.x == 16 * (g.tank.x - 4 + n % 9) && a->Fill_lo.z == 16 * (g.tank.z - 4 + n
                / 9)
            &&& a->Fill_hi.x - a->Fill_lo.x == 15 && a->Fill_hi.z - a->Fill_lo.z == 15
        }),
{
}

/// The water is poured over the columns within the ring, three metres deep
/// from the tank's floor, last of all.
pub proof fn floods_fill_the_tank(s: Seq<Act>, g: Stage)
    requires
        g.wf(),
    ensures
        ({
            let a = flood_acts(s, g).last();
            let (first, last) = (tank_column(g, 10), tank_column(g, 70));
            &&& a is Pour
            &&& a->Pour_lo.x == first->Fill_lo.x && a->Pour_lo.z == first->Fill_lo.z
            &&& a->Pour_hi.x == last->Fill_hi.x && a->Pour_hi.z == last->Fill_hi.z
            &&& a->Pour_lo.y == g.tank_floor && a->Pour_hi.y - a->Pour_lo.y == 47
        }),
{
}

/// The slabs lie side by side without a gap, level with the floor and four
/// voxels thick, under air cleared first; the wall stands right behind them.
pub proof fn mirrors_lie_side_by_side(s: Seq<Act>, f: IVec3)
    requires
        small(f),
    ensures
        ({
            let p = mirror_acts(s, f);
            let n = s.len() as int;
            let (air, a, b, c, wall) = (p[n], p[n + 1], p[n + 2], p[n + 3], p[n + 4]);
            &&& p.len() == n + 5 && air is Fill && a is Fill && b is Fill && c is Fill && wall
                is Fill
            &&& air->m.0 == 0 && a->m.0 == 42 && b->m.0 == 17 && c->m.0 == 14 && wall->m.0 == 6
            &&& a->Fill_hi.x + 1 == b->Fill_lo.x && b->Fill_hi.x + 1 == c->Fill_lo.x
            &&& forall|i: int|
                n + 1 <= i <= n + 3 ==> (#[trigger] p[i])->Fill_hi.x - p[i]->Fill_lo.x == 31
                    && p[i]->Fill_lo.z == f.z - 16 && p[i]->Fill_hi.z - p[i]->Fill_lo.z == 31
                    && p[i]->Fill_hi.y == f.y && p[i]->Fill_hi.y - p[i]->Fill_lo.y == 3
            &&& wall->Fill_lo.z == a->Fill_hi.z + 1 && wall->Fill_lo.y == f.y + 1
                && wall->Fill_lo.x == a->Fill_lo.x && wall->Fill_hi.x == c->Fill_hi.x
                && wall->Fill_hi.z == f.z + 31 && wall->Fill_hi.y == f.y + 48
            &&& b->Fill_lo.x == f.x - 16
            &&& air->Fill_lo.y == f.y + 1 && air->Fill_lo.x == a->Fill_lo.x && air->Fill_hi.x
                == c->Fill_hi.x && air->Fill_lo.z == a->Fill_lo.z && air->Fill_hi.z
                == wall->Fill_hi.z && air->Fill_hi.y == f.y + 64
        }),
{
}

/// Half a number lies between it and zero, and twice the half is no more than
/// one off it.
pub proof fn halves_round_toward_zero(s: int)
    ensures
        s >= 0 ==> 0 <= s - 2 * halved(s) <= 1,
        s <= 0 ==> 0 <= 2 * halved(s) - s <= 1,
        halved(-s) == -halved(s),
{
}

/// Every script first lets a second go by, and then does what it is named for:
/// it lights a tree and waits seven seconds, brings a bolt down forty metres
/// ahead, or digs the trench before it flies up. Where the player stands
/// nowhere the scripts that need a place do no more.
pub proof fn scripts_do_what_they_are_named_for(demo: Demo, stage: Option<Stage>)
    ensures
        acts(demo, stage).len() >= 1 && acts(demo, stage)[0] == Act::Tick(60),
        acts(Demo::Lightning, stage)[1] == Act::Storm(40),
        acts(Demo::Lightning, stage).last() == Act::Tick(6),
        stage is Some ==> acts(Demo::Wildfire, stage)[1] is Ignite && acts(Demo::Wildfire, stage)[2]
            == Act::Tick(420) && acts(Demo::Wildfire, stage).len() == 3,
        stage is Some ==> acts(Demo::Shore, stage)[1] is Trench,
        stage is None ==> acts(Demo::Wildfire, stage).len() == 1 && acts(Demo::Shore, stage).len()
            == 1 && acts(Demo::Collapse, stage).len() == 1,
        acts(Demo::Craft, stage).last() == Act::Hold(Item::Tool(ToolKind::Pickaxe, Tier::Stone)),
        acts(Demo::Workshop, stage).last() == Act::Tick(9),
        acts(Demo::Blast, stage).last() == Act::Tick(9),
{
    if let Some(g) = stage {
        let s = seq![Act::Tick(60)];
        lemma_starts(s, pool_acts(s, g.pool, g.ground as int, 24), g);
    }
}

proof fn lemma_starts(s: Seq<Act>, p: Seq<Act>, g: Stage)
    requires
        s.len() == 1,
        p == pool_acts(s, g.pool, g.ground as int, 24),
    ensures
        p.len() >= 1 && p[0] == s[0],
        glass_acts(s, g).len() >= 1 && glass_acts(s, g)[0] == s[0],
        flood_acts(s, g).len() >= 1 && flood_acts(s, g)[0] == s[0],
        flood_acts(s + look(0, 60), g).len() >= 1 && flood_acts(s + look(0, 60), g)[0] == s[0],
{
    lemma_pool_starts(s, g.pool, g.ground as int, 24);
    lemma_wall_starts(p, g.panes@, g.behind@, g.ground as int, 6);
    lemma_tank_starts(s, g, 81);
    lemma_tank_starts(s + look(0, 60), g, 81);
}

proof fn lemma_pool_starts(s: Seq<Act>, pool: IVec3, top: int, n: int)
    requires
        s.len() >= 1,
    ensures
        pool_acts(s, pool, top, n).len() >= 1 && pool_acts(s, pool, top, n)[0] == s[0],
    decreases n,
{
    if n > 0 {
        lemma_pool_starts(s, pool, top, n - 1);
    }
}

proof fn lemma_wall_starts(
    s: Seq<Act>,
    panes: Seq<(i32, i32)>,
    behind: Seq<(i32, i32)>,
    ground: int,
    n: int,
)
    requires
        s.len() >= 1,
    ensures
        wall_acts(s, panes, behind, ground, n).len() >= 1 && wall_acts(
            s,
            panes,
            behind,
            ground,
            n,
        )[0] == s[0],
    decreases n,
{
    if n > 0 {
        lemma_wall_starts(s, panes, behind, ground, n - 1);
    }
}

proof fn lemma_tank_starts(s: Seq<Act>, g: Stage, n: int)
    requires
        s.len() >= 1,
    ensures
        tank_acts(s, g, n).len() >= 1 && tank_acts(s, g, n)[0] == s[0],
    decreases n,
{
    if n > 0 {
        lemma_tank_starts(s, g, n - 1);
    }
}

/// The tower is three blocks square and fourteen high under a cap five blocks
/// square; it stands for two seconds before its base is blown out.
pub proof fn towers_stand_before_they_fall(s: Seq<Act>, t: IVec3)
    requires
        small(t),
    ensures
        ({
            let p = collapse_acts(s, t);
            let n = s.len() as int;
            &&& p.len() == n + 10
            &&& p[n] is Fill && p[n + 2] is Fill && p[n + 1] is Built && p[n + 3] is Built
            &&& p[n]->Fill_lo.x == 16 * (t.x - 1) && p[n]->Fill_hi.x + 1 == 16 * (t.x + 2)
            &&& p[n]->Fill_lo.y == 16 * t.y && p[n]->Fill_hi.y + 1 == 16 * (t.y + 14)
            &&& p[n + 2]->Fill_lo.y == p[n]->Fill_hi.y + 1 && p[n + 2]->Fill_hi.y + 1 == 16 * (t.y
                + 15)
            &&& p[n + 2]->Fill_lo.x == 16 * (t.x - 2) && p[n + 2]->Fill_hi.x + 1 == 16 * (t.x + 3)
            &&& p[n + 2]->Fill_lo.z == 16 * (t.z - 2) && p[n + 2]->Fill_hi.z + 1 == 16 * (t.z + 3)
            &&& p[n + 6] == Act::Tick(120)
            &&& p[n + 7] == (Act::Blast { block: t, radius: 56 })
            &&& p[n + 8] == (Act::WaitBodies { more: 40, most: 600 })
        }),
{
    let a = stone_acts(t, (-1, 0, -1), (1, 13, 1));
    let b = stone_acts(t, (-2, 14, -2), (2, 14, 2));
    let p = collapse_acts(s, t);
    let n = s.len() as int;
    assert(p[n] == a[0] && p[n + 1] == a[1] && p[n + 2] == b[0] && p[n + 3] == b[1]);
}

/// The workshop starts with nothing, is given seven kinds of material, and
/// then makes eleven things in an order in which each has what it needs:
/// every log becomes planks first, then sticks and the table, the tools from
/// wood to stone, the furnace, and last what is smelted and mixed.
#[verifier::rlimit(60)]
pub proof fn workshops_make_what_they_need_first(s: Seq<Act>)
    ensures
        ({
            let p = workshop_acts(s);
            let n = s.len() as int;
            &&& p.len() == n + 35
            &&& p[n] is Survival
            &&& p[n + 1] == Act::Give(solid_item(MaterialId(19)), 7)
            &&& p[n + 2] == Act::Give(solid_item(MaterialId(26)), 24)
            &&& p[n + 3] == Act::Give(Item::Coal, 6)
            &&& p[n + 4] == Act::Give(solid_item(MaterialId(10)), 12)
            &&& p[n + 5] == Act::Give(Item::RawIron, 4)
            &&& p[n + 6] == Act::Give(Item::Flint, 3)
            &&& p[n + 7] == Act::Give(solid_item(MaterialId(11)), 4)
            &&& p[n + 8] == Act::Make(solid_item(MaterialId(21)), 7)
            &&& p[n + 9] == Act::Make(Item::Stick, 3)
            &&& p[n + 10] == Act::Make(Item::Block(BlockKind::CraftingTable), 1)
            &&& p[n + 11] == Act::Make(Item::Tool(ToolKind::Pickaxe, Tier::Wood), 1)
            &&& p[n + 12] == Act::Make(Item::Tool(ToolKind::Pickaxe, Tier::Stone), 1)
            &&& p[n + 13] == Act::Make(Item::Tool(ToolKind::Axe, Tier::Stone), 1)
            &&& p[n + 14] == Act::Make(Item::Block(BlockKind::Furnace), 1)
            &&& p[n + 15] == Act::Make(solid_item(MaterialId(18)), 3)
            &&& p[n + 16] == Act::Make(Item::IronIngot, 3)
            &&& p[n + 17] == Act::Make(Item::Block(BlockKind::Torch), 2)
            &&& p[n + 18] == Act::Make(Item::Gunpowder, 2)
        }),
{
}

} // verus!
