//! Settlements: ordered operations on points, the last one that contains a
//! point setting it.
//!
//! Everything is an ordered list of operations (boxes, gable prisms, roof
//! slabs, cylinders, paths that follow the ground); the last operation
//! containing a voxel sets it, so later ones carve rooms, windows and
//! doorways out of earlier walls. A village is stamped into whichever chunks
//! it touches: voxel by voxel only in brick cells an operation's edge crosses,
//! whole uniform cells elsewhere.
//!
//! Lengths are f32 metres and are only ever compared here, so each is carried
//! as a `Key`: an integer ordered as the numbers it stands for.

pub mod blueprint;
pub mod plan;
pub mod tiles;
pub mod town;
pub mod village;

use crate::brick::palette::matter;
use crate::brick::{vindex, Brick};
use crate::ivec::IVec3;
use crate::key::{Key, Key3};
use crate::material::{air, ids, MaterialId};
use crate::noise::{hash3, hash_unit24, point_hash};
use crate::tree::node::{node_cell, Cell};
use crate::tree::{calm_states, fits, in_node, kept_states, solid_voxels, ChunkTree};
use vstd::prelude::*;

verus! {

/// Window patterns for a wall layer.
#[derive(Clone, Copy, Debug, PartialEq, Eq, Structural)]
pub enum FacadeStyle {
    /// Floor-to-ceiling glass between steel mullions, a steel spandrel at
    /// every floor.
    Curtain,
    /// Windows punched in the wall, a sill under each.
    Punched,
    /// Continuous bands of glass along each floor.
    Ribbon,
    /// Shop windows between pillars, the ground floor only.
    Shopfront,
}

// Metres as keys.
pub const M_0_06: Key = 0x3d75_c28f;

pub const M_0_06_DEEP: Key = 0x3dfa_e148;

pub const M_0_07: Key = 0x3d8f_5c29;

pub const M_0_1: Key = 0x3dcc_cccd;

pub const M_0_1_DEEP: Key = 0x3e26_6666;

pub const M_0_12: Key = 0x3df5_c28f;

pub const M_0_12_DEEP: Key = 0x3e3a_e148;

pub const M_0_3: Key = 0x3e99_999a;

pub const M_0_45: Key = 0x3ee6_6666;

pub const M_0_6: Key = 0x3f19_999a;

pub const M_0_78: Key = 0x3f47_ae14;

pub const M_0_8: Key = 0x3f4c_cccd;

pub const M_0_9: Key = 0x3f66_6666;

pub const M_1: Key = 0x3f80_0000;

pub const M_2_1: Key = 0x4006_6666;

pub const M_2_2: Key = 0x400c_cccd;

pub const M_2_5: Key = 0x4020_0000;

pub const M_2_6: Key = 0x4026_6666;

pub const M_3: Key = 0x4040_0000;

pub const M_3_1: Key = 0x4046_6666;

pub const M_3_4: Key = 0x4059_999a;

pub const M_4_5: Key = 0x4090_0000;

/// Where a point lies on a marked street: metres from the nearest junction's
/// edge, from the centre line, and along the repeating patterns.
#[derive(Clone, Copy, Debug)]
pub struct OnStreet {
    pub gap: Key,
    /// Distance off the centre line.
    pub lateral: Key,
    /// Half the street's width less the crossing's margin.
    pub inner: Key,
    /// Place in the stripe pattern across, `0..1`.
    pub stripe: Key,
    /// Place in the dash pattern along, `0..6`.
    pub dash: Key,
}

/// A dashed centre line between junctions, zebra stripes just outside them.
pub open spec fn painted(s: OnStreet) -> bool {
    if s.gap < 0 {
        false
    } else if M_0_6 <= s.gap < M_3_4 {
        s.lateral < s.inner && s.stripe < M_0_45
    } else {
        s.gap > M_4_5 && s.lateral < M_0_07 && s.dash < M_3
    }
}

pub fn paint(s: &OnStreet) -> (b: bool)
    ensures
        b == painted(*s),
{
    if s.gap < 0 {
        return false;
    }
    if s.gap >= M_0_6 && s.gap < M_3_4 {
        return s.lateral < s.inner && s.stripe < M_0_45;
    }
    s.gap > M_4_5 && s.lateral < M_0_07 && s.dash < M_3
}

/// A point as an operation sees it: the measures that decide.
#[derive(Clone, Copy, Debug)]
pub enum Reading {
    /// Axis-aligned box, `lo` inclusive, `hi` exclusive.
    Box { p: Key3, lo: Key3, hi: Key3 },
    /// Everything under a gable roof surface, at `top` over the point.
    Prism { p: Key3, lo: Key3, hi: Key3, top: Key },
    /// The roof surface of such a gable, from `under` to `top`.
    Slab { p: Key3, lo: Key3, hi: Key3, under: Key, top: Key },
    /// Upright cylinder: squared distance from the axis and height.
    Cylinder { d2: Key, r2: Key, y: Key, lo: Key, hi: Key },
    /// A windowed wall layer: place along the pattern, height above a floor
    /// and above the base, depth into the wall; whether the point stands for
    /// a whole coarse cell.
    Facade {
        p: Key3,
        lo: Key3,
        hi: Key3,
        style: FacadeStyle,
        along: Key,
        level: Key,
        up: Key,
        depth: Key,
        coarse: bool,
    },
    /// Floor slabs with light panels under those of lit floors: height above
    /// a floor, the slab's and the panels' reach, place in the panel grid.
    Floors {
        p: Key3,
        lo: Key3,
        hi: Key3,
        level: Key,
        thick: Key,
        panel: Key,
        lit: bool,
        gx: Key,
        gz: Key,
    },
    /// Beyond the square ends of a straight run.
    OffRamp,
    /// A straight run over the ground: distance off its centre line, height
    /// and where its body and its painted top begin and end.
    Ramp {
        lateral: Key,
        half: Key,
        y: Key,
        from: Key,
        to: Key,
        paint_from: Key,
        painted: bool,
    },
}

pub open spec fn in_box(p: Key3, lo: Key3, hi: Key3) -> bool {
    lo.x <= p.x < hi.x && lo.y <= p.y < hi.y && lo.z <= p.z < hi.z
}

fn box_has(p: Key3, lo: Key3, hi: Key3) -> (b: bool)
    ensures
        b == in_box(p, lo, hi),
{
    p.x >= lo.x && p.y >= lo.y && p.z >= lo.z && p.x < hi.x && p.y < hi.y && p.z < hi.z
}

/// Over the footprint, whatever the height.
pub open spec fn in_footprint(p: Key3, lo: Key3, hi: Key3) -> bool {
    lo.x <= p.x < hi.x && lo.z <= p.z < hi.z
}

fn footprint_has(p: Key3, lo: Key3, hi: Key3) -> (b: bool)
    ensures
        b == in_footprint(p, lo, hi),
{
    p.x >= lo.x && p.x < hi.x && p.z >= lo.z && p.z < hi.z
}

/// Glass one voxel thick, set back into the wall; in a coarse cell it fills
/// the opening.
pub open spec fn pane(depth: Key, at: Key, behind: Key, coarse: bool) -> MaterialId {
    if coarse || at <= depth < behind {
        MaterialId(ids::GLASS)
    } else {
        air()
    }
}

fn pane_at(depth: Key, at: Key, behind: Key, coarse: bool) -> (m: MaterialId)
    ensures
        m == pane(depth, at, behind, coarse),
{
    if coarse || (depth >= at && depth < behind) {
        MaterialId(ids::GLASS)
    } else {
        MaterialId(ids::AIR)
    }
}

/// What a windowed wall of `m` shows.
pub open spec fn facade(
    style: FacadeStyle,
    m: MaterialId,
    sill: MaterialId,
    along: Key,
    level: Key,
    up: Key,
    depth: Key,
    coarse: bool,
) -> MaterialId {
    match style {
        FacadeStyle::Curtain => if along < M_0_12 || level < M_0_45 {
            MaterialId(ids::STEEL)
        } else {
            pane(depth, M_0_06, M_0_06_DEEP, coarse)
        },
        FacadeStyle::Punched => if M_0_9 <= along < M_2_1 && M_0_9 <= level < M_2_5 {
            pane(depth, M_0_12, M_0_12_DEEP, coarse)
        } else if M_0_8 <= along < M_2_2 && M_0_78 <= level < M_0_9 {
            sill
        } else {
            m
        },
        FacadeStyle::Ribbon => if M_1 <= level < M_2_6 {
            if along < M_0_1 {
                MaterialId(ids::STEEL)
            } else {
                pane(depth, M_0_1, M_0_1_DEEP, coarse)
            }
        } else {
            m
        },
        FacadeStyle::Shopfront => if along < M_0_45 || !(M_0_3 <= up < M_3_1) {
            m
        } else {
            pane(depth, M_0_1, M_0_1_DEEP, coarse)
        },
    }
}

fn facade_at(
    style: FacadeStyle,
    m: MaterialId,
    sill: MaterialId,
    along: Key,
    level: Key,
    up: Key,
    depth: Key,
    coarse: bool,
) -> (r: MaterialId)
    ensures
        r == facade(style, m, sill, along, level, up, depth, coarse),
{
    match style {
        FacadeStyle::Curtain => if along < M_0_12 || level < M_0_45 {
            MaterialId(ids::STEEL)
        } else {
            pane_at(depth, M_0_06, M_0_06_DEEP, coarse)
        },
        FacadeStyle::Punched => if along >= M_0_9 && along < M_2_1 && level >= M_0_9 && level
            < M_2_5 {
            pane_at(depth, M_0_12, M_0_12_DEEP, coarse)
        } else if along >= M_0_8 && along < M_2_2 && level >= M_0_78 && level < M_0_9 {
            sill
        } else {
            m
        },
        FacadeStyle::Ribbon => if level >= M_1 && level < M_2_6 {
            if along < M_0_1 {
                MaterialId(ids::STEEL)
            } else {
                pane_at(depth, M_0_1, M_0_1_DEEP, coarse)
            }
        } else {
            m
        },
        FacadeStyle::Shopfront => if along < M_0_45 || !(up >= M_0_3 && up < M_3_1) {
            m
        } else {
            pane_at(depth, M_0_1, M_0_1_DEEP, coarse)
        },
    }
}

/// What an operation of material `m` gives a point.
pub open spec fn gives(r: Reading, m: MaterialId, sill: MaterialId) -> Option<MaterialId> {
    match r {
        Reading::Box { p, lo, hi } => if in_box(p, lo, hi) {
            Some(m)
        } else {
            None
        },
        Reading::Prism { p, lo, hi, top } => if in_footprint(p, lo, hi) && lo.y <= p.y < top {
            Some(m)
        } else {
            None
        },
        Reading::Slab { p, lo, hi, under, top } => if in_footprint(p, lo, hi) && under <= p.y
            < top {
            Some(m)
        } else {
            None
        },
        Reading::Cylinder { d2, r2, y, lo, hi } => if d2 < r2 && lo <= y < hi {
            Some(m)
        } else {
            None
        },
        Reading::Facade { p, lo, hi, style, along, level, up, depth, coarse } => if in_box(
            p,
            lo,
            hi,
        ) {
            Some(facade(style, m, sill, along, level, up, depth, coarse))
        } else {
            None
        },
        Reading::Floors { p, lo, hi, level, thick, panel, lit, gx, gz } => if !in_box(p, lo, hi) {
            None
        } else if level < thick {
            Some(m)
        } else if lit && level >= panel && gx < M_0_6 && gz < M_0_6 {
            Some(MaterialId(ids::GLOWSTONE))
        } else {
            None
        },
        Reading::OffRamp => None,
        Reading::Ramp { lateral, half, y, from, to, paint_from, painted } => if lateral > half || !(
        from <= y < to) {
            None
        } else if painted && y >= paint_from {
            Some(MaterialId(ids::WHITEWASH))
        } else {
            Some(m)
        },
    }
}

/// Material an operation gives a point, if it contains it.
pub fn at(r: &Reading, m: MaterialId, sill: MaterialId) -> (g: Option<MaterialId>)
    ensures
        g == gives(*r, m, sill),
{
    match *r {
        Reading::Box { p, lo, hi } => if box_has(p, lo, hi) {
            Some(m)
        } else {
            None
        },
        Reading::Prism { p, lo, hi, top } => if footprint_has(p, lo, hi) && p.y >= lo.y && p.y
            < top {
            Some(m)
        } else {
            None
        },
        Reading::Slab { p, lo, hi, under, top } => if footprint_has(p, lo, hi) && p.y < top && p.y
            >= under {
            Some(m)
        } else {
            None
        },
        Reading::Cylinder { d2, r2, y, lo, hi } => if d2 < r2 && y >= lo && y < hi {
            Some(m)
        } else {
            None
        },
        Reading::Facade { p, lo, hi, style, along, level, up, depth, coarse } => if box_has(
            p,
            lo,
            hi,
        ) {
            Some(facade_at(style, m, sill, along, level, up, depth, coarse))
        } else {
            None
        },
        Reading::Floors { p, lo, hi, level, thick, panel, lit, gx, gz } => {
            if !box_has(p, lo, hi) {
                None
            } else if level < thick {
                Some(m)
            } else if lit && level >= panel && gx < M_0_6 && gz < M_0_6 {
                // Light panels hang under the slab above, on lit floors.
                Some(MaterialId(ids::GLOWSTONE))
            } else {
                None
            }
        },
        Reading::OffRamp => None,
        Reading::Ramp { lateral, half, y, from, to, paint_from, painted } => {
            if lateral > half || y < from || y >= to {
                None
            } else if painted && y >= paint_from {
                Some(MaterialId(ids::WHITEWASH))
            } else {
                Some(m)
            }
        },
    }
}

/// Whether the lights of a floor are on.
pub open spec fn lit(floor: i32, pick: u32) -> bool {
    point_hash(floor, 0, pick as i32, 0x0011_9e00) as int / 0x100_0000_0000 < 9227469
}

/// Whether the lights of floor `floor` are on, for a building whose lights
/// `pick` selects: 0.55 of all floors.
pub fn floor_lit(floor: i32, pick: u32) -> (b: bool)
    ensures
        b == lit(floor, pick),
{
    hash_unit24(hash3(floor, 0, pick as i32, 0x0011_9e00)) < 9227469
}

/// A cube against an operation: what decides whether it lies wholly inside,
/// wholly outside or across the edge.
#[derive(Clone, Copy, Debug)]
pub enum Extent {
    Box,
    /// Squared distances from the axis of the cube's nearest and farthest
    /// points, and the squared radius.
    Cylinder { near2: Key, far2: Key, r2: Key },
    /// Bottom and top above the floor they share, if they share one; the
    /// slab's thickness and where the clear space under the next ends.
    Floors { same: bool, a: Key, b: Key, thick: Key, clear: Key },
    /// Whether all corners lie over the run, and the cube's height against
    /// its body and paint.
    Ramp { inside: bool, clear: bool, filled: bool, painted: bool },
    /// Shapes that answer only by their bounds.
    Other,
}

pub open spec fn apart(clo: Key3, chi: Key3, lo: Key3, hi: Key3) -> bool {
    ||| chi.x <= lo.x || chi.y <= lo.y || chi.z <= lo.z
    ||| clo.x >= hi.x || clo.y >= hi.y || clo.z >= hi.z
}

pub open spec fn holds(clo: Key3, chi: Key3, lo: Key3, hi: Key3) -> bool {
    &&& clo.x >= lo.x && clo.y >= lo.y && clo.z >= lo.z
    &&& chi.x <= hi.x && chi.y <= hi.y && chi.z <= hi.z
}

pub open spec fn related(clo: Key3, chi: Key3, lo: Key3, hi: Key3, e: Extent) -> Option<bool> {
    if apart(clo, chi, lo, hi) {
        Some(false)
    } else {
        match e {
            Extent::Box => if holds(clo, chi, lo, hi) {
                Some(true)
            } else {
                None
            },
            Extent::Cylinder { near2, far2, r2 } => if near2 >= r2 {
                Some(false)
            } else if far2 < r2 && clo.y >= lo.y && chi.y <= hi.y {
                Some(true)
            } else {
                None
            },
            Extent::Floors { same, a, b, thick, clear } => if !same {
                None
            } else if a >= thick && b <= clear {
                Some(false)
            } else if b <= thick && holds(clo, chi, lo, hi) {
                Some(true)
            } else {
                None
            },
            Extent::Ramp { inside, clear, filled, painted } => if !inside {
                None
            } else if clear {
                Some(false)
            } else if filled && !painted {
                Some(true)
            } else {
                None
            },
            Extent::Other => None,
        }
    }
}

/// Whether a cube `clo..chi` lies wholly inside, wholly outside, or across the
/// edge of an operation with bounds `lo..hi`. Only boxes and cylinders answer
/// exactly; the rest may report an edge wherever their bounds reach.
pub fn relate(clo: Key3, chi: Key3, lo: Key3, hi: Key3, e: &Extent) -> (r: Option<bool>)
    ensures
        r == related(clo, chi, lo, hi, *e),
{
    if chi.x <= lo.x || chi.y <= lo.y || chi.z <= lo.z || clo.x >= hi.x || clo.y >= hi.y || clo.z
        >= hi.z {
        return Some(false);
    }
    let within: bool = clo.x >= lo.x && clo.y >= lo.y && clo.z >= lo.z && chi.x <= hi.x && chi.y
        <= hi.y && chi.z <= hi.z;
    match *e {
        Extent::Box => if within {
            Some(true)
        } else {
            None
        },
        Extent::Cylinder { near2, far2, r2 } => {
            if near2 >= r2 {
                Some(false)
            } else if far2 < r2 && clo.y >= lo.y && chi.y <= hi.y {
                Some(true)
            } else {
                None
            }
        },
        Extent::Floors { same, a, b, thick, clear } => {
            if !same {
                None
            } else if a >= thick && b <= clear {
                // Between two slabs and clear of the lights: untouched.
                Some(false)
            } else if b <= thick && within {
                Some(true)
            } else {
                None
            }
        },
        Extent::Ramp { inside, clear, filled, painted } => {
            if !inside {
                None
            } else if clear {
                Some(false)
            } else if filled && !painted {
                Some(true)
            } else {
                None
            }
        },
        Extent::Other => None,
    }
}

/// For a box the answer is right: every point of a cube wholly inside gets the
/// box's material, every point of one wholly outside gets nothing.
pub proof fn box_relation_is_exact(
    p: Key3,
    clo: Key3,
    chi: Key3,
    lo: Key3,
    hi: Key3,
    m: MaterialId,
    sill: MaterialId,
)
    requires
        in_box(p, clo, chi),
    ensures
        related(clo, chi, lo, hi, Extent::Box) == Some(true) ==> gives(
            Reading::Box { p, lo, hi },
            m,
            sill,
        ) == Some(m),
        related(clo, chi, lo, hi, Extent::Box) == Some(false) ==> gives(
            Reading::Box { p, lo, hi },
            m,
            sill,
        ) is None,
{
}

/// For a cylinder too, of points `d2` from its axis that its bounds leave out
/// where they are a radius off: every point of a cube wholly inside gets its
/// material, every point of one wholly outside gets nothing, and the answer is
/// open only where the cube reaches into the cylinder and out of it.
pub proof fn cylinder_relation_is_exact(
    p: Key3,
    d2: Key,
    near2: Key,
    far2: Key,
    r2: Key,
    clo: Key3,
    chi: Key3,
    lo: Key3,
    hi: Key3,
    m: MaterialId,
    sill: MaterialId,
)
    requires
        in_box(p, clo, chi),
        near2 <= d2 <= far2,
        p.x < lo.x || p.x >= hi.x || p.z < lo.z || p.z >= hi.z ==> d2 >= r2,
    ensures
        ({
            let said = related(clo, chi, lo, hi, Extent::Cylinder { near2, far2, r2 });
            let given = gives(Reading::Cylinder { d2, r2, y: p.y, lo: lo.y, hi: hi.y }, m, sill);
            &&& said == Some(true) ==> given == Some(m)
            &&& said == Some(false) ==> given is None
            &&& said is None ==> near2 < r2 && (far2 >= r2 || clo.y < lo.y || chi.y > hi.y)
        }),
{
}

/// What the first `n` of a point's answers come to: the last that is some.
pub open spec fn last_wins(s: Seq<Option<MaterialId>>, n: int) -> Option<MaterialId>
    decreases n,
{
    if n <= 0 {
        None
    } else {
        match s[n - 1] {
            Some(m) => Some(m),
            None => last_wins(s, n - 1),
        }
    }
}

/// Material from every operation that contains a point, last wins.
pub fn last_of(s: &Vec<Option<MaterialId>>) -> (r: Option<MaterialId>)
    ensures
        r == last_wins(s@, s@.len() as int),
{
    let mut found: Option<MaterialId> = None;
    let mut n: usize = 0;
    while n < s.len()
        invariant
            n <= s@.len(),
            found == last_wins(s@, n as int),
        decreases s@.len() - n,
    {
        if let Some(m) = s[n] {
            found = Some(m);
        }
        n += 1;
    }
    found
}

/// What to do with a brick cell.
#[derive(Clone, Debug)]
pub enum CellPlan {
    /// No operation reaches it.
    Untouched,
    /// One operation fills it and none after it touches it.
    Whole(usize),
    /// The operations to ask at every voxel, in order.
    Mixed(Vec<usize>),
}

/// The last of the first `n` operations that wholly contains the cell.
pub open spec fn last_whole(r: Seq<Option<bool>>, n: int) -> int
    decreases n,
{
    if n <= 0 {
        -1
    } else if r[n - 1] == Some(true) {
        n - 1
    } else {
        last_whole(r, n - 1)
    }
}

/// The operations from `from` to `n` that may touch the cell.
pub open spec fn touching(r: Seq<Option<bool>>, from: int, n: int) -> Seq<usize>
    decreases n - from,
{
    if n <= from {
        Seq::empty()
    } else if r[n - 1] == Some(false) {
        touching(r, from, n - 1)
    } else {
        touching(r, from, n - 1).push((n - 1) as usize)
    }
}

/// Where the operations that matter start: at the last that fills the cell.
pub open spec fn first_asked(r: Seq<Option<bool>>) -> int {
    if last_whole(r, r.len() as int) >= 0 {
        last_whole(r, r.len() as int)
    } else {
        0
    }
}

/// Whether a plan is the one for a cell that the operations relate to so.
pub open spec fn plan_ok(r: Seq<Option<bool>>, plan: CellPlan) -> bool {
    let asked = touching(r, first_asked(r), r.len() as int);
    match plan {
        CellPlan::Untouched => asked.len() == 0,
        CellPlan::Whole(i) => asked == seq![i] && r[i as int] == Some(true) && i < r.len(),
        CellPlan::Mixed(ops) => ops@ == asked && asked.len() > 0 && !(asked.len() == 1
            && r[asked[0] as int] == Some(true)),
    }
}

proof fn lemma_last_whole(r: Seq<Option<bool>>, n: int)
    requires
        0 <= n <= r.len(),
    ensures
        -1 <= last_whole(r, n) < n,
        last_whole(r, n) >= 0 ==> r[last_whole(r, n)] == Some(true),
        forall|i: int| last_whole(r, n) < i < n ==> r[i] != Some(true),
    decreases n,
{
    if n > 0 && r[n - 1] != Some(true) {
        lemma_last_whole(r, n - 1);
    }
}

proof fn lemma_touching(r: Seq<Option<bool>>, from: int, n: int)
    requires
        0 <= from,
        n <= r.len() <= usize::MAX,
    ensures
        forall|k: int|
            0 <= k < touching(r, from, n).len() ==> from <= #[trigger] touching(r, from, n)[k] < n,
    decreases n - from,
{
    if n > from {
        lemma_touching(r, from, n - 1);
        let rest = touching(r, from, n - 1);
        assert forall|k: int| 0 <= k < touching(r, from, n).len() implies from
            <= #[trigger] touching(r, from, n)[k] < n by {
            if k < rest.len() {
                assert(touching(r, from, n)[k] == rest[k]);
            }
        }
    }
}

/// How to stamp a cell that the operations, in order, relate to as `r` says.
pub fn plan_cell(r: &Vec<Option<bool>>) -> (plan: CellPlan)
    ensures
        plan_ok(r@, plan),
{
    let mut from: usize = 0;
    let mut n: usize = 0;
    let ghost mut whole: int = -1;
    while n < r.len()
        invariant
            n <= r@.len(),
            whole == last_whole(r@, n as int),
            from == (if whole >= 0 {
                whole
            } else {
                0
            }),
        decreases r@.len() - n,
    {
        if r[n] == Some(true) {
            from = n;
            proof {
                whole = n as int;
            }
        }
        n += 1;
    }
    let mut ops: Vec<usize> = Vec::new();
    let mut k: usize = from;
    proof {
        lemma_last_whole(r@, r@.len() as int);
    }
    while k < r.len()
        invariant
            from <= k <= r@.len() || from == 0 && k == 0,
            k <= r@.len(),
            ops@ == touching(r@, from as int, k as int),
        decreases r@.len() - k,
    {
        if r[k] != Some(false) {
            ops.push(k);
        }
        k += 1;
    }
    proof {
        lemma_touching(r@, from as int, r@.len() as int);
    }
    if ops.len() == 0 {
        return CellPlan::Untouched;
    }
    if ops.len() == 1 && r[ops[0]] == Some(true) {
        assert(ops@ =~= seq![ops@[0]]);
        return CellPlan::Whole(ops[0]);
    }
    CellPlan::Mixed(ops)
}

/// What the operations of a list come to at a point.
pub open spec fn list_wins(s: Seq<Option<MaterialId>>, ops: Seq<usize>, n: int) -> Option<MaterialId>
    decreases n,
{
    if n <= 0 {
        None
    } else {
        match s[ops[n - 1] as int] {
            Some(m) => Some(m),
            None => list_wins(s, ops, n - 1),
        }
    }
}

proof fn lemma_list_prefix(s: Seq<Option<MaterialId>>, a: Seq<usize>, b: Seq<usize>, n: int)
    requires
        0 <= n <= a.len() <= b.len(),
        forall|k: int| 0 <= k < a.len() ==> a[k] == b[k],
    ensures
        list_wins(s, a, n) == list_wins(s, b, n),
    decreases n,
{
    if n > 0 {
        lemma_list_prefix(s, a, b, n - 1);
    }
}

proof fn lemma_touching_wins(
    s: Seq<Option<MaterialId>>,
    r: Seq<Option<bool>>,
    from: int,
    n: int,
)
    requires
        s.len() == r.len(),
        r.len() <= usize::MAX,
        0 <= from <= n <= r.len(),
        forall|i: int| 0 <= i < r.len() && r[i] == Some(false) ==> s[i] is None,
    ensures
        ({
            let ops = touching(r, from, n);
            list_wins(s, ops, ops.len() as int) == match last_wins(s, n) {
                Some(m) => if from <= last_at(s, n) {
                    Some(m)
                } else {
                    None
                },
                None => None,
            }
        }),
    decreases n,
{
    if n > from {
        lemma_touching_wins(s, r, from, n - 1);
        let ops = touching(r, from, n);
        let rest = touching(r, from, n - 1);
        lemma_list_prefix(s, rest, ops, rest.len() as int);
    } else {
        lemma_last_at(s, n);
    }
}

/// The operation that wins.
spec fn last_at(s: Seq<Option<MaterialId>>, n: int) -> int
    decreases n,
{
    if n <= 0 {
        -1
    } else if s[n - 1] is Some {
        n - 1
    } else {
        last_at(s, n - 1)
    }
}

proof fn lemma_last_at(s: Seq<Option<MaterialId>>, n: int)
    ensures
        last_at(s, n) < n || n < 0 && last_at(s, n) == -1,
        last_wins(s, n) is Some ==> 0 <= last_at(s, n) < n && s[last_at(s, n)] == last_wins(s, n),
        last_wins(s, n) is None ==> last_at(s, n) == -1,
    decreases n,
{
    if n > 0 {
        lemma_last_at(s, n - 1);
    }
}

proof fn lemma_last_after(s: Seq<Option<MaterialId>>, i: int, n: int)
    requires
        0 <= i < n <= s.len(),
        s[i] is Some,
    ensures
        last_at(s, n) >= i,
        last_wins(s, n) is Some,
    decreases n,
{
    if n - 1 > i && s[n - 1] is None {
        lemma_last_after(s, i, n - 1);
    }
}

/// Stamping by plan is stamping voxel by voxel: at every point of the cell the
/// plan gives what the whole list of operations gives, last wins. `s` holds
/// the operations' answers at the point; one that lies wholly outside the cell
/// answers nothing, one that wholly contains it answers its material `m`.
pub proof fn plans_agree_with_the_list(
    s: Seq<Option<MaterialId>>,
    r: Seq<Option<bool>>,
    m: Seq<MaterialId>,
    plan: CellPlan,
)
    requires
        s.len() == r.len(),
        m.len() == r.len(),
        r.len() <= usize::MAX,
        forall|i: int| 0 <= i < r.len() && r[i] == Some(false) ==> s[i] is None,
        forall|i: int| 0 <= i < r.len() && r[i] == Some(true) ==> s[i] == Some(m[i]),
        plan_ok(r, plan),
    ensures
        last_wins(s, s.len() as int) == match plan {
            CellPlan::Untouched => None,
            CellPlan::Whole(i) => Some(m[i as int]),
            CellPlan::Mixed(ops) => list_wins(s, ops@, ops@.len() as int),
        },
{
    let n = r.len() as int;
    let from = first_asked(r);
    lemma_last_whole(r, n);
    lemma_touching_wins(s, r, from, n);
    lemma_last_at(s, n);
    if last_whole(r, n) >= 0 {
        lemma_last_after(s, from, n);
    }
    let asked = touching(r, from, n);
    if let CellPlan::Whole(i) = plan {
        assert(asked.len() == 1 && asked[0] == i);
        assert(list_wins(s, asked, 1) == s[i as int]) by {
            assert(list_wins(s, asked, 0) is None);
        }
    }
}

/// `v` with the voxels that have paint painted.
pub open spec fn painted_over(
    v: Seq<MaterialId>,
    paint: Seq<Option<MaterialId>>,
) -> Seq<MaterialId> {
    Seq::new(
        512,
        |i: int|
            match paint[i] {
                Some(m) => m,
                None => v[i],
            },
    )
}

/// The materials of the paint.
pub open spec fn paints(paint: Seq<Option<MaterialId>>) -> Set<MaterialId> {
    Set::new(|m: MaterialId| exists|i: int| 0 <= i < 512 && #[trigger] paint[i] == Some(m))
}

/// A brick takes the paint: with what it holds, no more than 255 materials.
pub open spec fn takes_paint(v: Seq<MaterialId>, paint: Seq<Option<MaterialId>>) -> bool {
    let all = v.to_set().union(paints(paint)).remove(air());
    all.finite() && all.len() <= 255
}

fn paint_brick(brick: &mut Brick, paint: &[Option<MaterialId>; 512])
    requires
        old(brick).wf(),
        takes_paint(old(brick).voxels(), paint@),
    ensures
        final(brick).wf(),
        final(brick).voxels() == painted_over(old(brick).voxels(), paint@),
        final(brick).states() == old(brick).states(),
{
    let ghost v = brick.voxels();
    let ghost all = v.to_set().union(paints(paint@)).remove(air());
    proof {
        brick.lemma_shape();
    }
    let mut i: usize = 0;
    while i < 512
        invariant
            i <= 512,
            v.len() == 512,
            paint@.len() == 512,
            brick.wf(),
            brick.voxels().len() == 512,
            brick.states() == old(brick).states(),
            all == v.to_set().union(paints(paint@)).remove(air()),
            all.finite() && all.len() <= 255,
            forall|j: int|
                0 <= j < 512 ==> #[trigger] brick.voxels()[j] == if j < i {
                    match paint@[j] {
                        Some(m) => m,
                        None => v[j],
                    }
                } else {
                    v[j]
                },
        decreases 512 - i,
    {
        if let Some(m) = paint[i] {
            let l: IVec3 = IVec3 { x: (i % 8) as i32, y: (i / 64) as i32, z: (i / 8 % 8) as i32 };
            assert(vindex(l) == i);
            proof {
                let now = brick.voxels();
                assert(paint@[i as int] == Some(m));
                assert(paints(paint@).contains(m));
                assert forall|x: MaterialId| matter(now).contains(x) implies all.contains(x) by {
                    let j = choose|j: int| 0 <= j < now.len() && now[j] == x;
                    if j < i && paint@[j] is Some {
                        assert(paint@[j] == Some(x));
                    } else {
                        assert(v[j] == x);
                        assert(v.contains(x));
                    }
                }
                if m != air() && !now.contains(m) {
                    assert(matter(now).subset_of(all.remove(m)));
                    vstd::set_lib::lemma_len_subset(matter(now), all.remove(m));
                }
            }
            brick.set(l, m);
        }
        i += 1;
    }
    assert(brick.voxels() =~= painted_over(v, paint@));
}

/// Stamps a cell that an operation fills.
pub fn stamp_whole(tree: &mut ChunkTree, cell: IVec3, m: MaterialId)
    requires
        old(tree).wf(),
        cell.within(64),
    ensures
        final(tree).wf(),
        final(tree).cell_of(cell) == node_cell(m),
        final(tree).cell_voxels(cell) == solid_voxels(m),
        forall|d: IVec3|
            d.within(64) && d != cell ==> #[trigger] final(tree).cell_of(d) == old(tree).cell_of(d)
                && final(tree).cell_voxels(d) == old(tree).cell_voxels(d),
{
    let ghost before = *tree;
    tree.set_cell(
        cell,
        if m.is_air() {
            Cell::Empty
        } else {
            Cell::Uniform(m)
        },
    );
    assert forall|d: IVec3| d.within(64) && d != cell implies #[trigger] tree.cell_of(d)
        == before.cell_of(d) && tree.cell_voxels(d) == before.cell_voxels(d) by {
        assert(tree.cell_voxels(d) == before.cell_voxels(d));
    }
    assert(tree.cell_of(cell) == node_cell(m));
}

/// Stamps a cell that operations' edges cross: voxel `i` becomes what
/// `paint[i]` says, if anything.
pub fn stamp_mixed(tree: &mut ChunkTree, cell: IVec3, paint: &[Option<MaterialId>; 512])
    requires
        old(tree).wf(),
        cell.within(64),
        takes_paint(old(tree).cell_voxels(cell), paint@),
    ensures
        final(tree).wf(),
        final(tree).cell_voxels(cell) == painted_over(old(tree).cell_voxels(cell), paint@),
        final(tree).cell_states(cell) == kept_states(
            final(tree).cell_voxels(cell),
            old(tree).cell_states(cell),
        ),
        fits(
            final(tree).cell_of(cell),
            final(tree).cell_voxels(cell),
            old(tree).cell_states(cell) != calm_states(),
        ),
        forall|d: IVec3|
            d.within(64) && d != cell ==> #[trigger] final(tree).cell_of(d) == old(tree).cell_of(d)
                && final(tree).cell_voxels(d) == old(tree).cell_voxels(d),
{
    let edit = |brick: &mut Brick|
        requires
            old(brick).wf(),
            takes_paint(old(brick).voxels(), paint@),
        ensures
            final(brick).wf(),
            final(brick).voxels() == painted_over(old(brick).voxels(), paint@),
            final(brick).states() == old(brick).states(),
        { paint_brick(brick, paint) };
    tree.edit_brick(cell, edit);
}

/// Stamps one sample into a chunk kept at one material per cell of `cells`
/// brick cells (1: 0.5 m cells, 4: 2 m nodes). Nodes are not cleared: what
/// stands at 2 m only ever adds.
pub fn stamp_coarse(tree: &mut ChunkTree, c: IVec3, cells: i32, m: MaterialId)
    requires
        old(tree).wf(),
        cells == 1 && c.within(64) || cells == 4 && c.within(16),
    ensures
        final(tree).wf(),
        cells == 1 ==> final(tree).cell_of(c) == node_cell(m),
        cells == 1 ==> forall|d: IVec3|
            d.within(64) && d != c ==> #[trigger] final(tree).cell_of(d) == old(tree).cell_of(d)
                && final(tree).cell_voxels(d) == old(tree).cell_voxels(d),
        cells == 4 && m == air() ==> *final(tree) == *old(tree),
        cells == 4 && m != air() ==> forall|d: IVec3|
            d.within(64) ==> #[trigger] final(tree).cell_voxels(d) == if in_node(d, c, 4) {
                solid_voxels(m)
            } else {
                old(tree).cell_voxels(d)
            },
{
    if cells == 1 {
        stamp_whole(tree, c, m);
    } else if !m.is_air() {
        let ghost before = *tree;
        tree.set_node(1, c, m);
        assert forall|d: IVec3| d.within(64) implies #[trigger] tree.cell_voxels(d) == if in_node(
            d,
            c,
            4,
        ) {
            solid_voxels(m)
        } else {
            before.cell_voxels(d)
        } by {
            assert(tree.cell_of(d) == tree.cell_of(d));
        }
    }
}

/// Nothing is painted on a junction. Zebra stripes lie from 0.6 to 3.4 m off
/// it, 0.45 of a stripe's place wide, over the street's inner width; beyond
/// 4.5 m there is only a centre line 14 cm wide, dashed for three metres of
/// its pattern; and between the two nothing.
pub proof fn streets_have_their_marks(s: OnStreet)
    ensures
        painted(s) ==> s.gap >= 0x3f19_999a,
        0x3f19_999a <= s.gap < 0x4059_999a ==> (painted(s) <==> s.lateral < s.inner && s.stripe
            < 0x3ee6_6666),
        0x4059_999a <= s.gap <= 0x4090_0000 ==> !painted(s),
        s.gap > 0x4090_0000 ==> (painted(s) <==> s.lateral < 0x3d8f_5c29 && s.dash < 0x4040_0000),
{
}

/// A pane is glass where it stands and nothing before and behind it; in a
/// coarse cell it is glass throughout.
pub proof fn panes_are_thin(depth: Key, at: Key, behind: Key, coarse: bool)
    ensures
        pane(depth, at, behind, coarse).0 == 18 || pane(depth, at, behind, coarse).0 == 0,
        pane(depth, at, behind, coarse).0 == 0 <==> !coarse && (depth < at || behind <= depth),
{
}

/// A curtain wall is steel at its mullions and floors and glass between; a
/// punched one has windows from 0.9 to 2.1 m along and 0.9 to 2.5 m up, each
/// over a sill a little wider, in plain wall.
pub proof fn walls_have_their_windows(
    m: MaterialId,
    sill: MaterialId,
    along: Key,
    level: Key,
    up: Key,
    depth: Key,
    coarse: bool,
)
    ensures
        ({
            let c = facade(FacadeStyle::Curtain, m, sill, along, level, up, depth, coarse);
            &&& along < 0x3df5_c28f || level < 0x3ee6_6666 ==> c.0 == 42
            &&& along >= 0x3df5_c28f && level >= 0x3ee6_6666 ==> c.0 == if coarse || 0x3d75_c28f
                <= depth < 0x3dfa_e148 {
                18int
            } else {
                0
            }
        }),
        ({
            let c = facade(FacadeStyle::Punched, m, sill, along, level, up, depth, coarse);
            let opening = 0x3f66_6666 <= along < 0x4006_6666 && 0x3f66_6666 <= level < 0x4020_0000;
            let ledge = 0x3f4c_cccd <= along < 0x400c_cccd && 0x3f47_ae14 <= level < 0x3f66_6666;
            &&& opening ==> c.0 == if coarse || 0x3df5_c28f <= depth < 0x3e3a_e148 {
                18int
            } else {
                0
            }
            &&& ledge ==> c == sill
            &&& !opening && !ledge ==> c == m
        }),
{
}

/// A ribbon wall has a band of glass from 1 to 2.6 m over each floor, parted by
/// steel posts ten centimetres wide; a shopfront has glass between its pillars
/// from 0.3 to 3.1 m over the base, on the ground floor only.
pub proof fn bands_and_shops_have_their_glass(
    m: MaterialId,
    sill: MaterialId,
    along: Key,
    level: Key,
    up: Key,
    depth: Key,
    coarse: bool,
)
    ensures
        ({
            let c = facade(FacadeStyle::Ribbon, m, sill, along, level, up, depth, coarse);
            let band = 0x3f80_0000 <= level < 0x4026_6666;
            &&& !band ==> c == m
            &&& band && along < 0x3dcc_cccd ==> c.0 == 42
            &&& band && along >= 0x3dcc_cccd ==> c.0 == if coarse || 0x3dcc_cccd <= depth
                < 0x3e26_6666 {
                18int
            } else {
                0
            }
        }),
        ({
            let c = facade(FacadeStyle::Shopfront, m, sill, along, level, up, depth, coarse);
            let open = along >= 0x3ee6_6666 && 0x3e99_999a <= up < 0x4046_6666;
            &&& !open ==> c == m
            &&& open ==> c.0 == if coarse || 0x3dcc_cccd <= depth < 0x3e26_6666 {
                18int
            } else {
                0
            }
        }),
{
}

/// Boxes, prisms, slabs and cylinders give their own material, and only to the
/// points within: their low sides belong to them and their high sides do not.
pub proof fn solids_fill_their_inside(
    p: Key3,
    lo: Key3,
    hi: Key3,
    under: Key,
    top: Key,
    d2: Key,
    r2: Key,
    m: MaterialId,
    sill: MaterialId,
)
    ensures
        ({
            let b = gives(Reading::Box { p, lo, hi }, m, sill);
            &&& b is Some ==> b == Some(m)
            &&& b is None <==> p.x < lo.x || p.y < lo.y || p.z < lo.z || p.x >= hi.x || p.y >= hi.y
                || p.z >= hi.z
        }),
        ({
            let b = gives(Reading::Prism { p, lo, hi, top }, m, sill);
            &&& b is Some ==> b == Some(m)
            &&& b is None <==> p.x < lo.x || p.y < lo.y || p.z < lo.z || p.x >= hi.x || p.y >= top
                || p.z >= hi.z
        }),
        ({
            let b = gives(Reading::Slab { p, lo, hi, under, top }, m, sill);
            &&& b is Some ==> b == Some(m)
            &&& b is None <==> p.x < lo.x || p.y < under || p.z < lo.z || p.x >= hi.x || p.y >= top
                || p.z >= hi.z
        }),
        ({
            let b = gives(Reading::Cylinder { d2, r2, y: p.y, lo: lo.y, hi: hi.y }, m, sill);
            &&& b is Some ==> b == Some(m)
            &&& b is None <==> d2 >= r2 || p.y < lo.y || p.y >= hi.y
        }),
{
}

/// Within its box a floor gives its material up to its thickness, and on lit
/// floors a light from the panel's height up over the first 0.6 of the grid
/// both ways; it gives nothing else, and a dark floor no light at all.
pub proof fn lights_hang_on_lit_floors(
    p: Key3,
    lo: Key3,
    hi: Key3,
    level: Key,
    thick: Key,
    panel: Key,
    lit: bool,
    gx: Key,
    gz: Key,
    m: MaterialId,
    sill: MaterialId,
)
    requires
        lo.x <= p.x < hi.x && lo.y <= p.y < hi.y && lo.z <= p.z < hi.z,
    ensures
        ({
            let b = gives(
                Reading::Floors { p, lo, hi, level, thick, panel, lit, gx, gz },
                m,
                sill,
            );
            &&& level < thick ==> b == Some(m)
            &&& level >= thick && !lit ==> b is None
            &&& level >= thick && (level < panel || gx >= 0x3f19_999a || gz >= 0x3f19_999a)
                ==> b is None
            &&& level >= thick && level >= panel && lit && gx < 0x3f19_999a && gz < 0x3f19_999a
                ==> b == Some(MaterialId(33))
        }),
{
}

/// A run is its material within half its width, from its lower side up to its
/// top, and white from where its paint begins.
pub proof fn runs_are_paved_and_painted(
    lateral: Key,
    half: Key,
    y: Key,
    from: Key,
    to: Key,
    paint_from: Key,
    painted: bool,
    m: MaterialId,
    sill: MaterialId,
)
    ensures
        ({
            let b = gives(
                Reading::Ramp { lateral, half, y, from, to, paint_from, painted },
                m,
                sill,
            );
            let on = lateral <= half && from <= y && y < to;
            &&& !on ==> b is None
            &&& on && (!painted || y < paint_from) ==> b == Some(m)
            &&& on && painted && y >= paint_from ==> b == Some(MaterialId(40))
        }),
        gives(Reading::OffRamp, m, sill) is None,
{
}

/// Among floors the answer is right where it is given: a cube wholly in a slab
/// gets its material throughout, and one wholly in the clear space between two
/// gets nothing, the lights hanging no lower than that space's end.
pub proof fn floor_relation_is_safe(
    p: Key3,
    clo: Key3,
    chi: Key3,
    lo: Key3,
    hi: Key3,
    a: Key,
    b: Key,
    level: Key,
    thick: Key,
    clear: Key,
    lit: bool,
    gx: Key,
    gz: Key,
    m: MaterialId,
    sill: MaterialId,
)
    requires
        in_box(p, clo, chi),
        a <= level < b,
    ensures
        ({
            let said = related(clo, chi, lo, hi, Extent::Floors { same: true, a, b, thick, clear });
            let given = gives(
                Reading::Floors { p, lo, hi, level, thick, panel: clear, lit, gx, gz },
                m,
                sill,
            );
            &&& said == Some(true) ==> given == Some(m)
            &&& said == Some(false) ==> given is None
            &&& a >= thick && b <= clear ==> said == Some(false)
            &&& b <= thick && lo.x <= clo.x && chi.x <= hi.x && lo.y <= clo.y && chi.y <= hi.y
                && lo.z <= clo.z && chi.z <= hi.z ==> said == Some(true)
        }),
        related(clo, chi, lo, hi, Extent::Floors { same: false, a, b, thick, clear }) != Some(true),
{
}

/// A shape answers that it holds a cube only where the cube touches its bounds;
/// a box answers so exactly where it holds all of the cube, and a cube apart
/// from the bounds is outside whatever the shape.
pub proof fn bounds_decide_what_is_outside(
    clo: Key3,
    chi: Key3,
    lo: Key3,
    hi: Key3,
    e: Extent,
)
    requires
        clo.x < chi.x && clo.y < chi.y && clo.z < chi.z,
    ensures
        chi.x <= lo.x || chi.y <= lo.y || chi.z <= lo.z || hi.x <= clo.x || hi.y <= clo.y || hi.z
            <= clo.z ==> related(clo, chi, lo, hi, e) == Some(false),
        lo.x <= clo.x && chi.x <= hi.x && lo.y <= clo.y && chi.y <= hi.y && lo.z <= clo.z && chi.z
            <= hi.z ==> related(clo, chi, lo, hi, Extent::Box) == Some(true),
        related(clo, chi, lo, hi, Extent::Box) == Some(true) ==> lo.x <= clo.x && chi.x <= hi.x
            && lo.y <= clo.y && chi.y <= hi.y && lo.z <= clo.z && chi.z <= hi.z,
        related(clo, chi, lo, hi, Extent::Other) != Some(true),
{
}

/// Over a run the answer is given only for a cube with all its corners on it:
/// outside where the run's height is clear of it, and inside where the run
/// fills it and paints none of it.
pub proof fn run_relation_is_safe(
    clo: Key3,
    chi: Key3,
    lo: Key3,
    hi: Key3,
    inside: bool,
    clear: bool,
    filled: bool,
    painted: bool,
)
    ensures
        ({
            let said = related(clo, chi, lo, hi, Extent::Ramp { inside, clear, filled, painted });
            &&& said == Some(true) ==> inside && filled && !painted && !clear
            &&& said == Some(false) ==> inside && clear || apart(clo, chi, lo, hi)
            &&& inside && clear ==> said == Some(false)
            &&& inside && !clear && filled && !painted ==> said is Some
        }),
{
}

/// 55 floors in a hundred are lit.
pub proof fn floors_are_lit_by_share(floor: i32, pick: u32)
    ensures
        lit(floor, pick) <==> 100 * (point_hash(floor, 0, pick as i32, 0x0011_9e00) as int
            / 0x100_0000_0000) < 55 * 0x100_0000,
{
}

/// The answers come to the last that is some: none comes after it, and nothing
/// comes of answers that are all none.
pub proof fn the_last_answer_wins(s: Seq<Option<MaterialId>>, n: int, i: int)
    requires
        0 <= i < n <= s.len(),
    ensures
        s[i] is Some && (forall|j: int| i < j < n ==> (#[trigger] s[j]) is None) ==> last_wins(s, n)
            == s[i],
        last_wins(s, n) is None ==> s[i] is None,
    decreases n,
{
    if n - 1 > i {
        the_last_answer_wins(s, n - 1, i);
    }
}

/// A cell is left alone exactly when every operation lies outside it, and is
/// filled whole exactly when one contains it and all after that lie outside.
pub proof fn plans_go_by_the_last_whole(r: Seq<Option<bool>>, plan: CellPlan, i: int)
    requires
        plan_ok(r, plan),
        r.len() <= usize::MAX,
        0 <= i < r.len(),
    ensures
        plan is Untouched ==> r[i] == Some(false),
        plan matches CellPlan::Whole(k) ==> r[k as int] == Some(true) && (i > k ==> r[i]
            == Some(false)),
        r[i] == Some(true) && (forall|j: int| i < j < r.len() ==> #[trigger] r[j] == Some(false))
            ==> plan is Whole && plan->Whole_0 == i,
{
    let n = r.len() as int;
    let from = first_asked(r);
    lemma_last_whole(r, n);
    lemma_touches(r, from, n, i);
    lemma_touches(r, from, n, from);
    lemma_touching(r, from, n);
    if let CellPlan::Whole(k) = plan {
        assert(touching(r, from, n)[0] == k);
        assert(from <= touching(r, from, n)[0]);
    }
    if r[i] == Some(true) && (forall|j: int| i < j < r.len() ==> #[trigger] r[j] == Some(false)) {
        assert(last_whole(r, n) >= i);
        assert(last_whole(r, n) == i);
        lemma_quiet(r, i, n);
    }
}

proof fn lemma_touches(r: Seq<Option<bool>>, from: int, n: int, i: int)
    requires
        0 <= from,
        n <= r.len() <= usize::MAX,
    ensures
        from <= i < n && r[i] != Some(false) ==> touching(r, from, n).contains(i as usize),
    decreases n - from,
{
    if n > from {
        lemma_touches(r, from, n - 1, i);
        let rest = touching(r, from, n - 1);
        if from <= i < n && r[i] != Some(false) {
            if i == n - 1 {
                assert(touching(r, from, n)[rest.len() as int] == i as usize);
            } else {
                let k = choose|k: int| 0 <= k < rest.len() && rest[k] == i as usize;
                assert(touching(r, from, n)[k] == i as usize);
            }
        }
    }
}

proof fn lemma_quiet(r: Seq<Option<bool>>, from: int, n: int)
    requires
        0 <= from < n <= r.len() <= usize::MAX,
        r[from] == Some(true),
        forall|j: int| from < j < n ==> #[trigger] r[j] == Some(false),
    ensures
        touching(r, from, n) == seq![from as usize],
    decreases n,
{
    if n - 1 > from {
        lemma_quiet(r, from, n - 1);
    } else {
        assert(touching(r, from, n - 1) =~= Seq::empty());
        assert(touching(r, from, n) =~= seq![from as usize]);
    }
}

} // verus!
