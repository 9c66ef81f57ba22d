//! Stratigraphy: which layer of the rock column an elevation falls in.
//!
//! A crystalline basement (gneiss with granite plutons) sits on bedrock. Above
//! it a sedimentary sequence repeats every period with per-cycle thickness
//! variation, the way transgression and regression cycles stack real basins.
//! The layer index is monotonic in elevation for a fixed column, which lets
//! chunk generation prove a node is one material by checking its top and
//! bottom.
//!
//! Elevations within a cycle, and the tops of its layers, are fractions of the
//! period. They are never negative, so they are carried and compared as the
//! bits of their f32. Which cycle a point is in and how far up it follows
//! exactly from how many periods it lies above the basement.

use crate::key::parts::{
    lemma_steps_order, parts_keep_the_order, split, steps, unit_steps, TOO_MANY,
};
use crate::key::Key;
use crate::material::{ids, MaterialId};
use crate::noise::{hash3, hash_unit24, point_hash};
use vstd::prelude::*;

verus! {

/// Layers of one sedimentary cycle.
pub const LAYERS: u32 = 8;

pub const CACHED_CYCLES: i32 = 16;

/// Sedimentary cycle, bottom to top.
pub open spec fn sequence(j: int) -> u16 {
    if j == 0 {
        ids::CONGLOMERATE
    } else if j == 1 || j == 4 {
        ids::SANDSTONE
    } else if j == 2 || j == 6 {
        ids::SHALE
    } else if j == 5 {
        ids::CHALK
    } else {
        ids::LIMESTONE
    }
}

fn sequence_at(j: u32) -> (m: u16)
    requires
        j < 8,
    ensures
        m == sequence(j as int),
{
    match j {
        0 => ids::CONGLOMERATE,
        1 | 4 => ids::SANDSTONE,
        2 | 6 => ids::SHALE,
        5 => ids::CHALK,
        _ => ids::LIMESTONE,
    }
}

/// Thickness jitter of the eight layers of a cycle, in steps of 2^-24 of the
/// unit interval.
pub fn cycle_jitter(seed: u64, cycle: i32) -> (r: [u32; 8])
    ensures
        r@.len() == 8,
        forall|j: int|
            0 <= j < 8 ==> #[trigger] r@[j] == point_hash(cycle, j as i32, 0, seed) as int
                / 0x100_0000_0000 && r@[j] < 0x100_0000,
{
    let mut r: [u32; 8] = [0;8];
    let mut j: usize = 0;
    while j < 8
        invariant
            j <= 8,
            forall|i: int|
                0 <= i < j ==> #[trigger] r@[i] == point_hash(cycle, i as i32, 0, seed) as int
                    / 0x100_0000_0000 && r@[i] < 0x100_0000,
        decreases 8 - j,
    {
        r[j] = hash_unit24(hash3(cycle, j as i32, 0, seed));
        j += 1;
    }
    r
}

#[derive(Clone, Copy, Debug, PartialEq, Eq, Structural)]
pub struct LayerRef {
    /// Monotonic in elevation within a column.
    pub index: u32,
    pub material: MaterialId,
}

/// What a column is made of at every elevation.
#[derive(Clone, Copy, Debug, PartialEq, Eq, Structural)]
pub struct Rock {
    /// Granite intrudes the gneiss here.
    pub pluton: bool,
    /// Flows replace the limestones; tuffs replace the chalk.
    pub volcanic: bool,
}

/// 3 m: everything below, the folds taken off, is bedrock.
pub const BEDROCK_M: Key = 0x4040_0000;

/// A point of a column: its elevation with the folds taken off, and how many
/// periods it lies above the basement's top if it does.
#[derive(Clone, Copy, Debug, PartialEq, Eq, Structural)]
pub struct Measure {
    pub elevation: Key,
    pub periods: Key,
}

impl Measure {
    /// Periods are counted from the basement's top up.
    pub open spec fn sound(self, basement: Key) -> bool {
        self.elevation >= BEDROCK_M && self.elevation >= basement ==> 0 <= self.periods < TOO_MANY
    }
}

/// Where in the column a point lies.
#[derive(Clone, Copy, Debug, PartialEq, Eq, Structural)]
pub enum Depth {
    /// Under the bedrock's top.
    Bedrock,
    /// Under the basement's top.
    Basement,
    /// In sedimentary cycle `cycle`, `t` of the way up.
    Cycle { cycle: u32, t: u32 },
}

/// Point `m` of a column with this basement top lies at depth `d`.
pub open spec fn lies_at(m: Measure, basement: Key, d: Depth) -> bool {
    if m.elevation < BEDROCK_M {
        d is Bedrock
    } else if m.elevation < basement {
        d is Basement
    } else {
        d matches Depth::Cycle { cycle, t } && cycle == steps(m.periods as u32) / unit_steps()
            && steps(t) == steps(m.periods as u32) % unit_steps()
    }
}

/// Where in its column a point lies.
pub fn depth(m: &Measure, basement: Key) -> (d: Depth)
    requires
        m.sound(basement),
    ensures
        lies_at(*m, basement, d),
        d matches Depth::Cycle { cycle, .. } ==> cycle < 0x1000_0000,
{
    if m.elevation < BEDROCK_M {
        Depth::Bedrock
    } else if m.elevation < basement {
        Depth::Basement
    } else {
        let (cycle, t): (u32, u32) = split(m.periods as u32);
        Depth::Cycle { cycle, t }
    }
}

/// The first layer whose top lies above `t`, the last if none does.
pub open spec fn layer_in(t: u32, tops: Seq<u32>, from: int) -> int
    decreases 7 - from,
{
    if from >= 7 || t < tops[from] {
        from
    } else {
        layer_in(t, tops, from + 1)
    }
}

/// Index of the layer at a depth; `tops` are the tops of its cycle's layers.
pub open spec fn layer_index(d: Depth, tops: Seq<u32>) -> int {
    match d {
        Depth::Bedrock => 0,
        Depth::Basement => 1,
        Depth::Cycle { cycle, t } => 2 + cycle * 8 + layer_in(t, tops, 0),
    }
}

/// Material of layer `index` of a column.
pub open spec fn layer_material(index: int, rock: Rock) -> u16 {
    if index == 0 {
        ids::BEDROCK
    } else if index == 1 {
        if rock.pluton {
            ids::GRANITE
        } else {
            ids::GNEISS
        }
    } else {
        let m = sequence((index - 2) % 8);
        if rock.volcanic && m == ids::LIMESTONE {
            ids::BASALT
        } else if rock.volcanic && m == ids::CHALK {
            ids::RHYOLITE
        } else {
            m
        }
    }
}

proof fn lemma_layer_in(t: u32, tops: Seq<u32>, from: int)
    requires
        0 <= from <= 7,
    ensures
        from <= layer_in(t, tops, from) <= 7,
    decreases 7 - from,
{
    if from < 7 && t >= tops[from] {
        lemma_layer_in(t, tops, from + 1);
    }
}

/// The layer at a depth of a column; `tops` are the tops of its cycle's
/// layers.
pub fn layer(d: &Depth, tops: &[u32; 8], rock: Rock) -> (r: LayerRef)
    requires
        *d matches Depth::Cycle { cycle, .. } ==> cycle < 0x1000_0000,
    ensures
        r.index == layer_index(*d, tops@),
        r.material.0 == layer_material(layer_index(*d, tops@), rock),
{
    match d {
        Depth::Bedrock => LayerRef { index: 0, material: MaterialId(ids::BEDROCK) },
        Depth::Basement => LayerRef {
            index: 1,
            material: MaterialId(
                if rock.pluton {
                    ids::GRANITE
                } else {
                    ids::GNEISS
                },
            ),
        },
        Depth::Cycle { cycle, t } => {
            let mut j: u32 = 0;
            while j < 7 && *t >= tops[j as usize]
                invariant
                    j <= 7,
                    layer_in(*t, tops@, 0) == layer_in(*t, tops@, j as int),
                decreases 7 - j,
            {
                j += 1;
            }
            let base: u16 = sequence_at(j);
            let material: u16 = if rock.volcanic && base == ids::LIMESTONE {
                ids::BASALT
            } else if rock.volcanic && base == ids::CHALK {
                ids::RHYOLITE
            } else {
                base
            };
            assert((*cycle * 8 + j) % 8 == j);
            LayerRef { index: 2 + *cycle * LAYERS + j, material: MaterialId(material) }
        },
    }
}

/// The tops of a cycle's layers, where they are among those kept.
pub fn kept_tops(kept: &Vec<[u32; 8]>, cycle: u32) -> (r: Option<[u32; 8]>)
    ensures
        r == if cycle < kept@.len() {
            Some(kept@[cycle as int])
        } else {
            None
        },
{
    if (cycle as usize) < kept.len() {
        Some(kept[cycle as usize])
    } else {
        None
    }
}

proof fn lemma_layer_mono(t1: u32, t2: u32, tops: Seq<u32>, from: int)
    requires
        t1 <= t2,
        0 <= from <= 7,
    ensures
        layer_in(t1, tops, from) <= layer_in(t2, tops, from),
    decreases 7 - from,
{
    if from < 7 {
        if t1 < tops[from] {
            lemma_layer_in(t2, tops, from);
        } else {
            lemma_layer_mono(t1, t2, tops, from + 1);
        }
    }
}

/// Point `b` of a column is no lower than `a`: by elevation, and so no fewer
/// periods above the basement.
pub open spec fn no_lower(a: Measure, b: Measure) -> bool {
    a.elevation <= b.elevation && a.periods <= b.periods
}

/// The tops that a depth's layer goes by, in a column whose cycles have these.
pub open spec fn tops_at(d: Depth, tops: spec_fn(u32) -> Seq<u32>) -> Seq<u32> {
    match d {
        Depth::Cycle { cycle, .. } => tops(cycle),
        _ => Seq::empty(),
    }
}

/// The layer index never falls with elevation within a column.
pub proof fn index_rises_with_elevation(
    a: Measure,
    b: Measure,
    basement: Key,
    tops: spec_fn(u32) -> Seq<u32>,
    d: Depth,
    e: Depth,
)
    requires
        no_lower(a, b),
        a.sound(basement),
        b.sound(basement),
        lies_at(a, basement, d),
        lies_at(b, basement, e),
    ensures
        layer_index(d, tops_at(d, tops)) <= layer_index(e, tops_at(e, tops)),
{
    match (d, e) {
        (Depth::Cycle { cycle: c1, t: t1 }, Depth::Cycle { cycle: c2, t: t2 }) => {
            lemma_layer_in(t1, tops(c1), 0);
            lemma_layer_in(t2, tops(c2), 0);
            parts_keep_the_order(a.periods as u32, b.periods as u32);
            if c1 == c2 {
                if t2 < t1 {
                    lemma_steps_order(t2, t1);
                }
                lemma_layer_mono(t1, t2, tops(c1), 0);
            }
        },
        (_, Depth::Cycle { cycle: c2, t: t2 }) => {
            lemma_layer_in(t2, tops(c2), 0);
        },
        _ => {},
    }
}

/// Between two elevations of a column with the same layer index everything is
/// the same material, so a node's top and bottom tell what fills it.
pub proof fn equal_ends_are_one_material(
    bottom: Measure,
    between: Measure,
    top: Measure,
    basement: Key,
    tops: spec_fn(u32) -> Seq<u32>,
    rock: Rock,
    d: Depth,
    e: Depth,
    f: Depth,
)
    requires
        no_lower(bottom, between),
        no_lower(between, top),
        bottom.sound(basement),
        between.sound(basement),
        top.sound(basement),
        lies_at(bottom, basement, d),
        lies_at(between, basement, e),
        lies_at(top, basement, f),
        layer_index(d, tops_at(d, tops)) == layer_index(f, tops_at(f, tops)),
    ensures
        layer_index(e, tops_at(e, tops)) == layer_index(d, tops_at(d, tops)),
        layer_material(layer_index(e, tops_at(e, tops)), rock) == layer_material(
            layer_index(d, tops_at(d, tops)),
            rock,
        ),
{
    index_rises_with_elevation(bottom, between, basement, tops, d, e);
    index_rises_with_elevation(between, top, basement, tops, e, f);
}

/// A point has one depth, and so one layer, however often it is looked up: by
/// its column or by itself, with its cycle's tops kept or worked out again.
pub proof fn columns_match_points(
    m: Measure,
    basement: Key,
    tops: spec_fn(u32) -> Seq<u32>,
    kept: Seq<[u32; 8]>,
    d: Depth,
    e: Depth,
)
    requires
        m.sound(basement),
        lies_at(m, basement, d),
        lies_at(m, basement, e),
        forall|c: u32| c < kept.len() ==> (#[trigger] kept[c as int])@ == tops(c),
    ensures
        d == e,
        match d {
            Depth::Cycle { cycle, .. } => cycle < kept.len() ==> layer_index(
                d,
                kept[cycle as int]@,
            ) == layer_index(e, tops_at(e, tops)),
            _ => true,
        },
{
    match (d, e) {
        (Depth::Cycle { cycle: c1, t: t1 }, Depth::Cycle { cycle: c2, t: t2 }) => {
            if t1 < t2 {
                lemma_steps_order(t1, t2);
            }
            if t2 < t1 {
                lemma_steps_order(t2, t1);
            }
        },
        _ => {},
    }
}

/// Outside volcanic provinces the layers of every cycle are, bottom to top,
/// conglomerate, sandstone, shale, limestone, sandstone, chalk, shale and
/// limestone.
pub proof fn basins_repeat_their_sequence(d: Depth, tops: Seq<u32>, pluton: bool)
    requires
        d is Cycle,
    ensures
        ({
            let i = layer_index(d, tops);
            let m = layer_material(i, Rock { pluton, volcanic: false });
            let j = (i - 2) % 8;
            &&& 2 + 8 * d->cycle <= i < 10 + 8 * d->cycle
            &&& m == ids::CONGLOMERATE <==> j == 0
            &&& m == ids::SANDSTONE <==> j == 1 || j == 4
            &&& m == ids::SHALE <==> j == 2 || j == 6
            &&& m == ids::LIMESTONE <==> j == 3 || j == 7
            &&& m == ids::CHALK <==> j == 5
            &&& m != ids::BASALT && m != ids::RHYOLITE
        }),
{
    lemma_layer_in(d->t, tops, 0);
}

/// In a volcanic province flows of basalt lie in place of the limestones and
/// tuff of rhyolite in place of the chalk; the rest is as in a basin.
pub proof fn provinces_are_volcanic(d: Depth, tops: Seq<u32>, pluton: bool)
    requires
        d is Cycle,
    ensures
        ({
            let i = layer_index(d, tops);
            let m = layer_material(i, Rock { pluton, volcanic: true });
            let plain = layer_material(i, Rock { pluton, volcanic: false });
            let j = (i - 2) % 8;
            &&& m != ids::LIMESTONE && m != ids::CHALK
            &&& m == ids::BASALT <==> j == 3 || j == 7
            &&& m == ids::RHYOLITE <==> j == 5
            &&& m != ids::BASALT && m != ids::RHYOLITE ==> m == plain
        }),
{
    lemma_layer_in(d->t, tops, 0);
}

/// Under everything lies bedrock, on it the basement: gneiss, or granite where
/// a pluton intrudes, whatever stands above; neither occurs higher up.
pub proof fn basements_are_crystalline(d: Depth, tops: Seq<u32>, rock: Rock)
    ensures
        ({
            let m = layer_material(layer_index(d, tops), rock);
            &&& m == ids::BEDROCK <==> d is Bedrock
            &&& m == ids::GRANITE <==> d is Basement && rock.pluton
            &&& m == ids::GNEISS <==> d is Basement && !rock.pluton
            &&& d is Bedrock ==> layer_index(d, tops) == 0
            &&& d is Basement ==> layer_index(d, tops) == 1
        }),
{
    if let Depth::Cycle { cycle, t } = d {
        lemma_layer_in(t, tops, 0);
    }
}

/// A layer reaches from the top of the one below it to its own: the point is
/// at or above every top below its layer and, but in the last, below its own.
pub proof fn layers_lie_between_tops(t: u32, tops: Seq<u32>, j: int)
    requires
        tops.len() == 8,
        0 <= j < 7,
    ensures
        0 <= layer_in(t, tops, 0) <= 7,
        j < layer_in(t, tops, 0) ==> t >= tops[j],
        j == layer_in(t, tops, 0) ==> t < tops[j],
{
    lemma_layer_in(t, tops, 0);
    lemma_between(t, tops, 0, j);
}

proof fn lemma_between(t: u32, tops: Seq<u32>, from: int, j: int)
    requires
        0 <= from <= 7,
        from <= j < 7,
    ensures
        j < layer_in(t, tops, from) ==> t >= tops[j],
        j == layer_in(t, tops, from) ==> t < tops[j],
    decreases 7 - from,
{
    lemma_layer_in(t, tops, from);
    if from < 7 && t >= tops[from] && from < j {
        lemma_between(t, tops, from + 1, j);
    } else if from < 7 && t >= tops[from] {
        lemma_layer_in(t, tops, from + 1);
    }
}

/// Everything more than three metres up and above the basement's top is
/// sediment, what is above three metres but not above that top is basement,
/// and the rest bedrock.
pub proof fn depths_go_by_elevation(m: Measure, basement: Key, d: Depth)
    requires
        lies_at(m, basement, d),
    ensures
        d is Bedrock <==> m.elevation < 0x4040_0000,
        d is Basement <==> 0x4040_0000 <= m.elevation < basement,
        d is Cycle <==> m.elevation >= 0x4040_0000 && m.elevation >= basement,
{
}

} // verus!
