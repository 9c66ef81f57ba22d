//! 8^3 voxel brick with palette compression and per-subblock occupancy.
//!
//! Voxels index palette entries; entry 0 is always air. A narrow brick packs
//! indices into 4 bits (up to 16 materials, air included), which covers
//! almost every brick. A brick that needs more is promoted to 8-bit wide
//! storage rather than being quantised. Occupancy is one 64-bit mask per
//! 4^3 subblock, so traversal skips an empty quarter-metre with a single
//! comparison and finds the next solid voxel with a bit scan.
//!
//! Layout conventions shared with the GPU:
//! - voxel index `x + z*8 + y*64`
//! - subblock index `(x>>2) + (z>>2)*2 + (y>>2)*4`
//! - bit within a subblock mask `(x&3) + (z&3)*4 + (y&3)*16`

pub mod palette;

use crate::bits::{
    bit, lemma_all_bits, lemma_clear_bit, lemma_full_rank, lemma_no_bits, lemma_ones_mono,
    lemma_ones_set, lemma_same_bits, lemma_set_bit, ones, test_bit,
};
use crate::brick::palette::{has_room, matter, nibble, padded, with_entry, Storage, Wide};
use crate::footprint::{capacity, capped, grown};
use crate::ivec::IVec3;
use crate::material::{air, MaterialId};
use crate::tally::{lemma_tally_bounds, lemma_tally_update, tally};
use vstd::prelude::*;

verus! {

pub const VOXELS: usize = 512;

pub const NARROW_CAP: usize = 16;

/// Damage, wetness, temperature band and burn progress, two bits each.
#[derive(Clone, Copy, Debug, PartialEq, Eq, Hash, Structural)]
pub struct VoxelState(pub u8);

impl Default for VoxelState {
    fn default() -> (s: VoxelState)
        ensures
            s == calm(),
    {
        VoxelState(0)
    }
}

/// The state of an untouched voxel.
pub open spec fn calm() -> VoxelState {
    VoxelState(0)
}

/// The two-bit field of `b` whose lowest bit weighs `unit`.
pub open spec fn field(b: u8, unit: int) -> int {
    (b as int / unit) % 4
}

/// The weights of the four fields: damage, wetness, temperature, burn.
pub open spec fn is_unit(u: int) -> bool {
    u == 1 || u == 4 || u == 16 || u == 64
}

/// `s` with the low two bits of `v` in one field.
pub open spec fn with_set(s: VoxelState, unit: int, v: u8) -> VoxelState {
    VoxelState((s.0 - field(s.0, unit) * unit + v as int % 4 * unit) as u8)
}

/// A state byte is its four fields, and four fields below 4 make one byte.
proof fn lemma_fields(b: u8, f0: int, f1: int, f2: int, f3: int)
    requires
        0 <= f0 < 4,
        0 <= f1 < 4,
        0 <= f2 < 4,
        0 <= f3 < 4,
    ensures
        b == f0 + 4 * f1 + 16 * f2 + 64 * f3 <==> field(b, 1) == f0 && field(b, 4) == f1 && field(
            b,
            16,
        ) == f2 && field(b, 64) == f3,
{
    let n = b as int;
    let q1 = n / 4;
    let q2 = n / 16;
    let q3 = n / 64;
    assert(q2 == q1 / 4);
    assert(q3 == q2 / 4);
    assert(n / 1 == n);
    assert(q3 % 4 == q3);
    assert(n == 4 * q1 + n % 4);
    assert(q1 == 4 * q2 + q1 % 4);
    assert(q2 == 4 * q3 + q2 % 4);
    if n == f0 + 4 * f1 + 16 * f2 + 64 * f3 {
        assert(q1 == f1 + 4 * f2 + 16 * f3);
        assert(q2 == f2 + 4 * f3);
        assert(q3 == f3);
    }
}

impl VoxelState {
    fn with_field(self, unit: u8, v: u8) -> (s: VoxelState)
        requires
            is_unit(unit as int),
        ensures
            s == with_set(self, unit as int, v),
            forall|u: int|
                #![trigger field(s.0, u)]
                is_unit(u) ==> field(s.0, u) == if u == unit {
                    v as int % 4
                } else {
                    field(self.0, u)
                },
    {
        let (f0, f1, f2, f3): (u8, u8, u8, u8) = (
            self.damage(),
            self.wetness(),
            self.temperature(),
            self.burn(),
        );
        let g: u8 = v % 4;
        let r: (u8, u8, u8, u8) = if unit == 1 {
            (g, f1, f2, f3)
        } else if unit == 4 {
            (f0, g, f2, f3)
        } else if unit == 16 {
            (f0, f1, g, f3)
        } else {
            (f0, f1, f2, g)
        };
        let s: u8 = r.0 + 4 * r.1 + 16 * r.2 + 64 * r.3;
        proof {
            lemma_fields(s, r.0 as int, r.1 as int, r.2 as int, r.3 as int);
            setters_set_their_field(self, unit as int, v);
            fields_fix_the_state(VoxelState(s), with_set(self, unit as int, v));
        }
        VoxelState(s)
    }

    pub fn damage(self) -> (v: u8)
        ensures
            v == field(self.0, 1),
    {
        self.0 % 4
    }

    pub fn wetness(self) -> (v: u8)
        ensures
            v == field(self.0, 4),
    {
        self.0 / 4 % 4
    }

    pub fn temperature(self) -> (v: u8)
        ensures
            v == field(self.0, 16),
    {
        self.0 / 16 % 4
    }

    pub fn burn(self) -> (v: u8)
        ensures
            v == field(self.0, 64),
    {
        self.0 / 64 % 4
    }

    pub fn with_damage(self, v: u8) -> (s: VoxelState)
        ensures
            s == with_set(self, 1, v),
            field(s.0, 1) == v as int % 4,
            field(s.0, 4) == field(self.0, 4),
            field(s.0, 16) == field(self.0, 16),
            field(s.0, 64) == field(self.0, 64),
    {
        self.with_field(1, v)
    }

    pub fn with_wetness(self, v: u8) -> (s: VoxelState)
        ensures
            s == with_set(self, 4, v),
            field(s.0, 1) == field(self.0, 1),
            field(s.0, 4) == v as int % 4,
            field(s.0, 16) == field(self.0, 16),
            field(s.0, 64) == field(self.0, 64),
    {
        self.with_field(4, v)
    }

    pub fn with_temperature(self, v: u8) -> (s: VoxelState)
        ensures
            s == with_set(self, 16, v),
            field(s.0, 1) == field(self.0, 1),
            field(s.0, 4) == field(self.0, 4),
            field(s.0, 16) == v as int % 4,
            field(s.0, 64) == field(self.0, 64),
    {
        self.with_field(16, v)
    }

    pub fn with_burn(self, v: u8) -> (s: VoxelState)
        ensures
            s == with_set(self, 64, v),
            field(s.0, 1) == field(self.0, 1),
            field(s.0, 4) == field(self.0, 4),
            field(s.0, 16) == field(self.0, 16),
            field(s.0, 64) == v as int % 4,
    {
        self.with_field(64, v)
    }
}

/// The four fields are the whole state: equal fields, equal states.
pub proof fn fields_fix_the_state(a: VoxelState, b: VoxelState)
    requires
        field(a.0, 1) == field(b.0, 1),
        field(a.0, 4) == field(b.0, 4),
        field(a.0, 16) == field(b.0, 16),
        field(a.0, 64) == field(b.0, 64),
    ensures
        a == b,
{
    lemma_fields(a.0, field(a.0, 1), field(a.0, 4), field(a.0, 16), field(a.0, 64));
    lemma_fields(b.0, field(b.0, 1), field(b.0, 4), field(b.0, 16), field(b.0, 64));
}

/// A setter sets its own field, to the low two bits of what it is given, and
/// leaves the other three alone.
pub proof fn setters_set_their_field(s: VoxelState, unit: int, v: u8)
    requires
        is_unit(unit),
    ensures
        forall|u: int|
            is_unit(u) ==> #[trigger] field(with_set(s, unit, v).0, u) == if u == unit {
                v as int % 4
            } else {
                field(s.0, u)
            },
{
    let (f0, f1, f2, f3) = (field(s.0, 1), field(s.0, 4), field(s.0, 16), field(s.0, 64));
    let g = v as int % 4;
    lemma_fields(s.0, f0, f1, f2, f3);
    let t = with_set(s, unit, v).0;
    if unit == 1 {
        lemma_fields(t, g, f1, f2, f3);
    } else if unit == 4 {
        lemma_fields(t, f0, g, f2, f3);
    } else if unit == 16 {
        lemma_fields(t, f0, f1, g, f3);
    } else {
        lemma_fields(t, f0, f1, f2, g);
    }
}

/// Setters of different fields commute; of one field the last counts, so that
/// repeating a setter changes nothing.
pub proof fn setters_commute(s: VoxelState, a: int, v: u8, b: int, w: u8)
    requires
        is_unit(a),
        is_unit(b),
    ensures
        a != b ==> with_set(with_set(s, a, v), b, w) == with_set(with_set(s, b, w), a, v),
        a == b ==> with_set(with_set(s, a, v), b, w) == with_set(s, b, w),
        with_set(with_set(s, a, v), a, v) == with_set(s, a, v),
{
    setters_set_their_field(s, a, v);
    setters_set_their_field(s, b, w);
    setters_set_their_field(with_set(s, a, v), b, w);
    setters_set_their_field(with_set(s, b, w), a, v);
    setters_set_their_field(with_set(s, a, v), a, v);
    if a != b {
        fields_fix_the_state(with_set(with_set(s, a, v), b, w), with_set(with_set(s, b, w), a, v));
    } else {
        fields_fix_the_state(with_set(with_set(s, a, v), b, w), with_set(s, b, w));
    }
    fields_fix_the_state(with_set(with_set(s, a, v), a, v), with_set(s, a, v));
}

/// Index of voxel `l` in a brick.
pub open spec fn vindex(l: IVec3) -> int {
    l.x + l.z * 8 + l.y * 64
}

/// Subblock that holds the voxel of index `i`.
pub open spec fn sub_of(i: int) -> int {
    i % 8 / 4 + i / 8 % 8 / 4 * 2 + i / 64 / 4 * 4
}

/// Bit of the voxel of index `i` in its subblock's mask.
pub open spec fn bit_of(i: int) -> int {
    i % 8 % 4 + i / 8 % 8 % 4 * 4 + i / 64 % 4 * 16
}

/// The voxel index at bit `b` of subblock `s`.
pub open spec fn voxel_at(s: int, b: int) -> int {
    (s % 2 * 4 + b % 4) + (s / 2 % 2 * 4 + b / 4 % 4) * 8 + (s / 4 * 4 + b / 16) * 64
}

#[inline]
pub fn voxel_index(l: IVec3) -> (i: usize)
    requires
        l.within(8),
    ensures
        i == vindex(l),
        i < 512,
{
    (l.x + l.z * 8 + l.y * 64) as usize
}

#[inline]
pub fn subblock_bit(l: IVec3) -> (r: (usize, u32))
    requires
        l.within(8),
    ensures
        r.0 == sub_of(vindex(l)),
        r.1 == bit_of(vindex(l)),
        r.0 < 8,
        r.1 < 64,
{
    let s: i32 = l.x / 4 + l.z / 4 * 2 + l.y / 4 * 4;
    let b: i32 = l.x % 4 + l.z % 4 * 4 + l.y % 4 * 16;
    proof {
        let i = vindex(l);
        assert(i % 8 == l.x && i / 8 % 8 == l.z && i / 64 == l.y);
    }
    (s as usize, b as u32)
}

/// Subblock and bit name each voxel once: the pairs and the indices match
/// one to one.
pub proof fn subblock_layout_is_one_to_one()
    ensures
        forall|i: int|
            0 <= i < 512 ==> 0 <= sub_of(i) < 8 && 0 <= bit_of(i) < 64 && #[trigger] voxel_at(
                sub_of(i),
                bit_of(i),
            ) == i,
        forall|s: int, b: int|
            0 <= s < 8 && 0 <= b < 64 ==> 0 <= #[trigger] voxel_at(s, b) < 512 && sub_of(
                voxel_at(s, b),
            ) == s && bit_of(voxel_at(s, b)) == b,
{
    assert forall|i: int| 0 <= i < 512 implies 0 <= sub_of(i) < 8 && 0 <= bit_of(i) < 64
        && #[trigger] voxel_at(sub_of(i), bit_of(i)) == i by {
        let (x, z, y) = (i % 8, i / 8 % 8, i / 64);
        assert(i == x + z * 8 + y * 64);
        lemma_split(x, y, z);
    }
    assert forall|s: int, b: int| 0 <= s < 8 && 0 <= b < 64 implies 0 <= #[trigger] voxel_at(s, b)
        < 512 && sub_of(voxel_at(s, b)) == s && bit_of(voxel_at(s, b)) == b by {
        let (xs, zs, ys) = (s % 2, s / 2 % 2, s / 4);
        let (xb, zb, yb) = (b % 4, b / 4 % 4, b / 16);
        assert(s == xs + 2 * zs + 4 * ys);
        assert(b == xb + 4 * zb + 16 * yb);
        let (x, z, y) = (xs * 4 + xb, zs * 4 + zb, ys * 4 + yb);
        let i = x + z * 8 + y * 64;
        assert(i % 8 == x && i / 8 == z + 8 * y && i / 64 == y);
        assert((z + 8 * y) % 8 == z);
        assert(x / 4 == xs && z / 4 == zs && y / 4 == ys);
        assert(x % 4 == xb && z % 4 == zb && y % 4 == yb);
    }
}

/// The digits of a subblock and of a bit give the coordinates back.
proof fn lemma_split(x: int, y: int, z: int)
    requires
        0 <= x < 8,
        0 <= y < 8,
        0 <= z < 8,
    ensures
        ({
            let s = x / 4 + z / 4 * 2 + y / 4 * 4;
            let b = x % 4 + z % 4 * 4 + y % 4 * 16;
            &&& 0 <= s < 8
            &&& 0 <= b < 64
            &&& s % 2 * 4 + b % 4 == x
            &&& s / 2 % 2 * 4 + b / 4 % 4 == z
            &&& s / 4 * 4 + b / 16 == y
        }),
{
    let (xs, zs, ys) = (x / 4, z / 4, y / 4);
    let (xb, zb, yb) = (x % 4, z % 4, y % 4);
    let s = xs + zs * 2 + ys * 4;
    let b = xb + zb * 4 + yb * 16;
    assert(s / 2 == zs + 2 * ys && s / 4 == ys && s % 2 == xs);
    assert((zs + 2 * ys) % 2 == zs);
    assert(b / 4 == zb + 4 * yb && b / 16 == yb && b % 4 == xb);
    assert((zb + 4 * yb) % 4 == zb);
}

/// 512 voxels and, where any voxel has one, their states.
#[derive(Clone, Debug)]
pub struct Brick {
    storage: Storage,
    occupancy: [u64; 8],
    state: Option<Box<[VoxelState; 512]>>,
}

/// Set bits of all masks together.
pub open spec fn total_ones(masks: Seq<u64>, n: int) -> nat
    decreases n,
{
    if n <= 0 {
        0
    } else {
        total_ones(masks, n - 1) + ones(masks[n - 1])
    }
}

/// The bit of voxel `i` in the subblock masks.
pub open spec fn occupied_bit(masks: Seq<u64>, i: int) -> bool {
    bit(masks[sub_of(i)], bit_of(i))
}

/// Palette entries that some voxel uses, with their voxel counts, in palette
/// order.
pub open spec fn used(pal: Seq<MaterialId>, v: Seq<MaterialId>, n: int) -> Seq<(MaterialId, u16)>
    decreases n,
{
    if n <= 0 {
        Seq::empty()
    } else if tally(v, pal[n - 1]) > 0 {
        used(pal, v, n - 1).push((pal[n - 1], tally(v, pal[n - 1]) as u16))
    } else {
        used(pal, v, n - 1)
    }
}

proof fn lemma_total_ones_update(masks: Seq<u64>, s: int, m: u64, n: int)
    requires
        0 <= s < masks.len(),
        0 <= n <= masks.len(),
    ensures
        total_ones(masks.update(s, m), n) == total_ones(masks, n) + if s < n {
            ones(m) - ones(masks[s])
        } else {
            0
        },
    decreases n,
{
    if n > 0 {
        lemma_total_ones_update(masks, s, m, n - 1);
    }
}

impl Brick {
    /// The materials, by voxel index.
    pub closed spec fn voxels(&self) -> Seq<MaterialId> {
        self.storage.vox()
    }

    /// The states, by voxel index.
    pub closed spec fn states(&self) -> Seq<VoxelState> {
        match self.state {
            Some(s) => s@,
            None => Seq::new(512, |i: int| calm()),
        }
    }

    /// Whether states are kept at all.
    pub closed spec fn stateful(&self) -> bool {
        self.state is Some
    }

    /// Whether a voxel's palette index takes a whole byte.
    pub closed spec fn wide(&self) -> bool {
        self.storage.wide()
    }

    /// Materials in the order of their entries; some may have no voxel left.
    pub closed spec fn palette(&self) -> Seq<MaterialId> {
        self.storage.pal()
    }

    /// Palette index of voxel `i`.
    pub closed spec fn slot(&self, i: int) -> int {
        self.storage.idx(i)
    }

    pub closed spec fn masks(&self) -> Seq<u64> {
        self.occupancy@
    }

    pub closed spec fn wf(&self) -> bool {
        &&& self.storage.wf()
        &&& forall|i: int|
            0 <= i < 512 ==> #[trigger] occupied_bit(self.occupancy@, i) == (self.storage.vox()[i]
                != air())
        &&& total_ones(self.occupancy@, 8) == 512 - tally(self.storage.vox(), air())
    }

    /// Neither empty nor, without states, of one material: what only a brick
    /// can store.
    pub open spec fn mixed(&self) -> bool {
        &&& exists|i: int| 0 <= i < 512 && #[trigger] self.voxels()[i] != air()
        &&& self.stateful() || exists|i: int|
            0 <= i < 512 && #[trigger] self.voxels()[i] != self.voxels()[0]
    }

    /// `m` is the most common material that is not air; of several, the one
    /// last in the palette.
    pub open spec fn dominated_by(&self, m: MaterialId) -> bool {
        m != air() && tally(self.voxels(), m) > 0 && exists|p: int|
            1 <= p < self.palette().len() && #[trigger] self.palette()[p] == m && forall|q: int|
                1 <= q < self.palette().len() ==> #[trigger] tally(
                    self.voxels(),
                    self.palette()[q],
                ) <= tally(self.voxels(), m) && (tally(self.voxels(), self.palette()[q]) == tally(
                    self.voxels(),
                    m,
                ) ==> q <= p)
    }

    /// What every well-formed brick is: 512 voxels, each of a palette entry,
    /// entry 0 air, no material twice, a mask bit per voxel that is not air.
    pub proof fn lemma_shape(&self)
        requires
            self.wf(),
        ensures
            self.voxels().len() == 512,
            self.states().len() == 512,
            self.masks().len() == 8,
            1 <= self.palette().len() <= 256,
            !self.wide() ==> self.palette().len() <= 16,
            self.palette()[0] == air(),
            self.palette().no_duplicates(),
            forall|i: int|
                0 <= i < 512 ==> 0 <= #[trigger] self.slot(i) < self.palette().len()
                    && self.voxels()[i] == self.palette()[self.slot(i)],
            forall|i: int|
                0 <= i < 512 ==> #[trigger] occupied_bit(self.masks(), i) == (self.voxels()[i]
                    != air()),
            !self.stateful() ==> forall|i: int| 0 <= i < 512 ==> self.states()[i] == calm(),
    {
    }

    pub fn empty() -> (b: Brick)
        ensures
            b.wf(),
            b.voxels() == Seq::new(512, |i: int| air()),
            b.palette() == seq![air()],
            !b.wide(),
            !b.stateful(),
    {
        let mut counts: [u16; 16] = [0;16];
        counts[0] = 512;
        let b = Brick {
            storage: Storage::Narrow {
                palette: [MaterialId(0);16],
                counts,
                len: 1,
                nibbles: [0;256],
            },
            occupancy: [0;8],
            state: None,
        };
        proof {
            assert forall|i: int| 0 <= i < 512 implies #[trigger] b.storage.idx(i) == 0 by {}
            assert(b.voxels() =~= Seq::new(512, |i: int| air()));
            assert(b.palette() =~= seq![air()]);
            lemma_tally_bounds(b.voxels(), air(), 512);
            lemma_no_bits(0);
            lemma_flat_masks(b.occupancy@, 0, 8);
            subblock_layout_is_one_to_one();
            assert forall|i: int| 0 <= i < 512 implies !#[trigger] occupied_bit(
                b.occupancy@,
                i,
            ) by {
                assert(voxel_at(sub_of(i), bit_of(i)) == i);
            }
        }
        b
    }

    pub fn filled(m: MaterialId) -> (b: Brick)
        ensures
            b.wf(),
            b.voxels() == Seq::new(512, |i: int| m),
            b.palette() == if m == air() {
                seq![air()]
            } else {
                seq![air(), m]
            },
            !b.wide(),
            !b.stateful(),
    {
        if m.is_air() {
            return Self::empty();
        }
        let mut palette: [MaterialId; 16] = [MaterialId(0);16];
        palette[1] = m;
        let mut counts: [u16; 16] = [0;16];
        counts[1] = 512;
        let b = Brick {
            storage: Storage::Narrow { palette, counts, len: 2, nibbles: [0x11;256] },
            occupancy: [u64::MAX;8],
            state: None,
        };
        proof {
            assert forall|i: int| 0 <= i < 512 implies #[trigger] b.storage.idx(i) == 1 by {}
            assert(b.voxels() =~= Seq::new(512, |i: int| m));
            assert(b.palette() =~= seq![air(), m]);
            lemma_tally_bounds(b.voxels(), air(), 512);
            lemma_tally_bounds(b.voxels(), m, 512);
            lemma_all_bits(u64::MAX);
            lemma_full_rank();
            lemma_flat_masks(b.occupancy@, u64::MAX, 8);
            subblock_layout_is_one_to_one();
            assert forall|i: int| 0 <= i < 512 implies #[trigger] occupied_bit(b.occupancy@, i) by {
                assert(voxel_at(sub_of(i), bit_of(i)) == i);
            }
        }
        b
    }

    #[inline]
    pub fn get(&self, l: IVec3) -> (m: MaterialId)
        requires
            self.wf(),
            l.within(8),
        ensures
            m == self.voxels()[vindex(l)],
    {
        let i: usize = voxel_index(l);
        let p: usize = self.storage.index(i);
        self.storage.entry(p)
    }

    pub fn state(&self, l: IVec3) -> (s: VoxelState)
        requires
            self.wf(),
            l.within(8),
        ensures
            s == self.states()[vindex(l)],
    {
        match &self.state {
            Some(s) => s[voxel_index(l)],
            None => VoxelState(0),
        }
    }

    pub fn set_state(&mut self, l: IVec3, st: VoxelState)
        requires
            old(self).wf(),
            l.within(8),
        ensures
            final(self).wf(),
            final(self).states() == old(self).states().update(vindex(l), st),
            final(self).voxels() == old(self).voxels(),
            final(self).palette() == old(self).palette(),
            final(self).wide() == old(self).wide(),
            final(self).stateful() == (old(self).stateful() || st != calm()),
    {
        let i: usize = voxel_index(l);
        if self.state.is_none() {
            if st == VoxelState(0) {
                assert(self.states() =~= self.states().update(i as int, st));
                return;
            }
            self.state = Some(Box::new([VoxelState(0);512]));
            assert(self.states() =~= old(self).states());
        }
        if let Some(s) = &mut self.state {
            s[i] = st;
        }
    }

    /// Frees the state array when every voxel is back to the default state.
    pub fn compact_state(&mut self)
        requires
            old(self).wf(),
        ensures
            final(self).wf(),
            final(self).states() == old(self).states(),
            final(self).voxels() == old(self).voxels(),
            final(self).palette() == old(self).palette(),
            final(self).wide() == old(self).wide(),
            final(self).stateful() == exists|i: int|
                0 <= i < 512 && old(self).states()[i] != calm(),
    {
        let mut all: bool = true;
        if let Some(s) = &self.state {
            let mut i: usize = 0;
            while i < VOXELS
                invariant
                    i <= 512,
                    self.state == Some(*s),
                    all == forall|j: int| 0 <= j < i ==> self.states()[j] == calm(),
                decreases VOXELS - i,
            {
                if s[i] != VoxelState(0) {
                    assert(self.states()[i as int] != calm());
                    all = false;
                }
                i += 1;
            }
        }
        if all {
            self.state = None;
        }
        assert(self.states() =~= old(self).states());
    }

    pub fn has_state(&self) -> (b: bool)
        ensures
            b == self.stateful(),
    {
        self.state.is_some()
    }

    pub fn is_wide(&self) -> (b: bool)
        ensures
            b == self.wide(),
    {
        matches!(self.storage, Storage::Wide(_))
    }

    /// Sets a voxel; returns the previous material. A brick becomes wide when
    /// a new material comes to fifteen others, and stays wide.
    pub fn set(&mut self, l: IVec3, m: MaterialId) -> (was: MaterialId)
        requires
            old(self).wf(),
            l.within(8),
            has_room(old(self).voxels(), m),
        ensures
            final(self).wf(),
            was == old(self).voxels()[vindex(l)],
            final(self).voxels() == old(self).voxels().update(vindex(l), m),
            final(self).states() == old(self).states(),
            final(self).stateful() == old(self).stateful(),
            was == m ==> *final(self) == *old(self),
            final(self).palette() == if was == m {
                old(self).palette()
            } else {
                with_entry(old(self).palette(), old(self).voxels(), m)
            },
            final(self).wide() == (old(self).wide() || (m != air() && !old(self).voxels().contains(
                m,
            ) && matter(old(self).voxels()).len() == 15)),
    {
        let i: usize = voxel_index(l);
        let old_slot: usize = self.storage.index(i);
        let was: MaterialId = self.storage.entry(old_slot);
        if was == m {
            assert(self.voxels() =~= self.voxels().update(i as int, m));
            assert(self.voxels()[i as int] == m);
            return was;
        }
        let ghost v = self.storage.vox();
        let ghost occ = self.occupancy@;
        assert(v[i as int] == was);
        let slot: usize = self.storage.slot_for(m);
        assert(self.storage.vox()[i as int] == self.storage.pal()[self.storage.idx(i as int)]);
        self.storage.point(i, slot);
        let (s, b) = subblock_bit(l);
        let mask: u64 = self.occupancy[s];
        proof {
            lemma_set_bit(mask, b as u64);
            lemma_clear_bit(mask, b as u64);
            assert(occupied_bit(occ, i as int) == (was != air()));
        }
        let next: u64 = if m.is_air() {
            mask & !(1u64 << b)
        } else {
            mask | (1u64 << b)
        };
        self.occupancy[s] = next;
        proof {
            lemma_tally_update(v, i as int, m, air(), 512);
            lemma_total_ones_update(occ, s as int, next, 8);
            assert(self.occupancy@ =~= occ.update(s as int, next));
            if m == air() {
                assert(!bit(next, b as int));
                lemma_ones_set(next, mask, b as int, 64);
            } else if was == air() {
                lemma_ones_set(mask, next, b as int, 64);
            } else {
                lemma_same_bits(mask, next);
            }
            subblock_layout_is_one_to_one();
            assert forall|j: int| 0 <= j < 512 implies #[trigger] occupied_bit(self.occupancy@, j)
                == (self.storage.vox()[j] != air()) by {
                assert(voxel_at(sub_of(j), bit_of(j)) == j);
                assert(voxel_at(sub_of(i as int), bit_of(i as int)) == i);
                assert(occupied_bit(occ, j) == (v[j] != air()));
            }
        }
        was
    }

    pub fn occupancy(&self) -> (masks: &[u64; 8])
        requires
            self.wf(),
        ensures
            masks@ == self.masks(),
            forall|i: int|
                0 <= i < 512 ==> #[trigger] occupied_bit(masks@, i) == (self.voxels()[i] != air()),
    {
        &self.occupancy
    }

    #[inline]
    pub fn is_occupied(&self, l: IVec3) -> (b: bool)
        requires
            self.wf(),
            l.within(8),
        ensures
            b == (self.voxels()[vindex(l)] != air()),
    {
        let (s, b) = subblock_bit(l);
        assert(occupied_bit(self.occupancy@, vindex(l)) == (self.storage.vox()[vindex(l)] != air()));
        test_bit(self.occupancy[s], b)
    }

    pub fn solid_count(&self) -> (n: u32)
        requires
            self.wf(),
        ensures
            n == 512 - tally(self.voxels(), air()),
    {
        let mut n: u32 = 0;
        let mut k: usize = 0;
        while k < 8
            invariant
                self.wf(),
                k <= 8,
                n == total_ones(self.occupancy@, k as int),
                n <= k * 64,
            decreases 8 - k,
        {
            proof {
                lemma_ones_mono(self.occupancy@[k as int], 0, 64);
            }
            n += self.occupancy[k].count_ones();
            k += 1;
        }
        n
    }

    pub fn is_empty(&self) -> (b: bool)
        requires
            self.wf(),
        ensures
            b == forall|i: int| 0 <= i < 512 ==> self.voxels()[i] == air(),
    {
        let mut k: usize = 0;
        while k < 8
            invariant
                self.wf(),
                k <= 8,
                forall|s: int| 0 <= s < k ==> self.occupancy@[s] == 0,
            decreases 8 - k,
        {
            if self.occupancy[k] != 0 {
                proof {
                    lemma_no_bits(self.occupancy@[k as int]);
                    let b = choose|b: int| 0 <= b < 64 && bit(self.occupancy@[k as int], b);
                    subblock_layout_is_one_to_one();
                    let i = voxel_at(k as int, b);
                    assert(occupied_bit(self.occupancy@, i));
                    assert(self.voxels()[i] != air());
                }
                return false;
            }
            k += 1;
        }
        proof {
            lemma_no_bits(0);
            assert forall|i: int| 0 <= i < 512 implies self.voxels()[i] == air() by {
                subblock_layout_is_one_to_one();
                assert(voxel_at(sub_of(i), bit_of(i)) == i);
                assert(!occupied_bit(self.occupancy@, i));
            }
        }
        true
    }

    /// The single material filling every voxel, if any, with no voxel state.
    pub fn uniform(&self) -> (r: Option<MaterialId>)
        requires
            self.wf(),
        ensures
            match r {
                Some(m) => !self.stateful() && forall|i: int|
                    0 <= i < 512 ==> self.voxels()[i] == m,
                None => self.stateful() || exists|i: int|
                    0 <= i < 512 && #[trigger] self.voxels()[i] != self.voxels()[0],
            },
    {
        if self.state.is_some() {
            return None;
        }
        let n: usize = self.storage.len();
        let mut p: usize = 0;
        while p < n
            invariant
                self.wf(),
                n == self.storage.pal().len(),
                forall|q: int| 0 <= q < p ==> self.storage.cnt()[q] != 512,
                p <= n,
                self.state is None,
            decreases n - p,
        {
            if self.storage.count(p) == 512 {
                let m: MaterialId = self.storage.entry(p);
                proof {
                    lemma_tally_bounds(self.voxels(), m, 512);
                }
                return Some(m);
            }
            p += 1;
        }
        proof {
            let q = self.storage.idx(0);
            assert(self.voxels()[0] == self.storage.pal()[q]);
            assert(self.storage.cnt()[q] != 512);
            lemma_tally_bounds(self.voxels(), self.voxels()[0], 512);
        }
        None
    }

    /// Non-empty palette entries with voxel counts (air included).
    pub fn materials(&self) -> (r: Vec<(MaterialId, u16)>)
        requires
            self.wf(),
        ensures
            r@ == used(self.palette(), self.voxels(), self.palette().len() as int),
            r@.len() <= 256,
    {
        let n: usize = self.storage.len();
        let mut r: Vec<(MaterialId, u16)> = Vec::new();
        let mut p: usize = 0;
        while p < n
            invariant
                self.wf(),
                n == self.storage.pal().len(),
                p <= n <= 256,
                r@.len() <= p,
                r@ == used(self.palette(), self.voxels(), p as int),
            decreases n - p,
        {
            let c: u16 = self.storage.count(p);
            if c > 0 {
                r.push((self.storage.entry(p), c));
            }
            p += 1;
        }
        r
    }

    /// Most common non-air material, used for LOD filtering. Of several, the
    /// one last in the palette.
    pub fn dominant(&self) -> (r: Option<(MaterialId, u16)>)
        requires
            self.wf(),
        ensures
            match r {
                Some((m, c)) => c == tally(self.voxels(), m) && self.dominated_by(m),
                None => forall|i: int| 0 <= i < 512 ==> self.voxels()[i] == air(),
            },
    {
        let n: usize = self.storage.len();
        let mut best: Option<(MaterialId, u16)> = None;
        let mut at: usize = 0;
        let mut p: usize = 1;
        while p < n
            invariant
                self.wf(),
                n == self.storage.pal().len(),
                1 <= p <= n,
                match best {
                    Some((m, c)) => {
                        &&& 1 <= at < p
                        &&& c > 0
                        &&& self.storage.pal()[at as int] == m
                        &&& c == self.storage.cnt()[at as int]
                        &&& forall|q: int|
                            1 <= q < p ==> self.storage.cnt()[q] <= c && (self.storage.cnt()[q] == c
                                ==> q <= at)
                    },
                    None => forall|q: int| 1 <= q < p ==> self.storage.cnt()[q] == 0,
                },
            decreases n - p,
        {
            let c: u16 = self.storage.count(p);
            let better: bool = match best {
                Some((_, b)) => c >= b,
                None => c > 0,
            };
            if better {
                best = Some((self.storage.entry(p), c));
                at = p;
            }
            p += 1;
        }
        proof {
            match best {
                Some((m, c)) => {
                    assert(self.palette()[at as int] == m);
                    assert(self.palette()[0] == air());
                    assert forall|q: int| 1 <= q < self.palette().len() implies #[trigger] tally(
                        self.voxels(),
                        self.palette()[q],
                    ) <= c && (tally(self.voxels(), self.palette()[q]) == c ==> q <= at) by {
                        assert(self.storage.cnt()[q] == tally(self.voxels(), self.palette()[q]));
                    }
                },
                None => {
                    assert forall|i: int| 0 <= i < 512 implies self.voxels()[i] == air() by {
                        let q = self.storage.idx(i);
                        assert(self.voxels()[i] == self.storage.pal()[q]);
                        lemma_tally_bounds(self.voxels(), self.voxels()[i], 512);
                        if q >= 1 {
                            assert(self.storage.cnt()[q] == 0);
                        }
                    }
                },
            }
        }
        best
    }

    /// Raw palette (padded to 16 for narrow bricks) and packed indices, for upload.
    pub fn raw(&self) -> (r: BrickRaw<'_>)
        requires
            self.wf(),
        ensures
            match r {
                BrickRaw::Narrow { palette, nibbles } => {
                    &&& !self.wide()
                    &&& palette@ == padded(self.palette())
                    &&& forall|i: int| 0 <= i < 512 ==> nibble(nibbles@, i) == #[trigger] self.slot(i)
                },
                BrickRaw::Wide { palette, indices } => {
                    &&& self.wide()
                    &&& palette@ == self.palette()
                    &&& forall|i: int| 0 <= i < 512 ==> indices@[i] == #[trigger] self.slot(i)
                },
            },
    {
        match &self.storage {
            Storage::Narrow { palette, nibbles, .. } => {
                assert(palette@ =~= padded(self.palette()));
                BrickRaw::Narrow { palette, nibbles }
            },
            Storage::Wide(w) => BrickRaw::Wide {
                palette: w.palette.as_slice(),
                indices: &*w.indices,
            },
        }
    }

    pub fn raw_state(&self) -> (r: Option<&[VoxelState; 512]>)
        ensures
            match r {
                Some(s) => self.stateful() && s@ == self.states(),
                None => !self.stateful(),
            },
    {
        match &self.state {
            Some(s) => Some(&**s),
            None => None,
        }
    }
}

/// Bytes of a brick: itself, a block of its own for a wide palette with room
/// for `wide` entries, and one for its states.
pub open spec fn brick_total(wide: Option<usize>, stateful: bool) -> int {
    core::mem::size_of::<Brick>() + match wide {
        Some(room) => core::mem::size_of::<Wide>() + 512 + room * 4,
        None => 0,
    } + if stateful {
        512int
    } else {
        0
    }
}

/// Bytes of a brick whose wide palette, if it has one, has room for `wide`
/// entries.
pub fn brick_bytes(wide: Option<usize>, stateful: bool) -> (n: usize)
    ensures
        n == capped(brick_total(wide, stateful)),
{
    let mut n: usize = core::mem::size_of::<Brick>();
    if let Some(room) = wide {
        n = grown(n, 1, core::mem::size_of::<Wide>());
        n = grown(n, 1, 512);
        n = grown(n, room, 4);
    }
    if stateful {
        n = grown(n, 1, 512);
    }
    n
}

impl Brick {
    /// `n` bytes may be what the brick takes: its palette has room for what is
    /// in it.
    pub open spec fn takes(&self, n: usize) -> bool {
        if self.wide() {
            exists|room: usize|
                room >= self.palette().len() && n == #[trigger] capped(
                    brick_total(Some(room), self.stateful()),
                )
        } else {
            n == capped(brick_total(None, self.stateful()))
        }
    }

    /// The fewest bytes that the brick can take.
    pub open spec fn least_bytes(&self) -> int {
        core::mem::size_of::<Brick>() + (if self.wide() {
            core::mem::size_of::<Wide>() + 512 + self.palette().len() * 4
        } else {
            0
        }) + if self.stateful() {
            512int
        } else {
            0
        }
    }

    pub proof fn lemma_takes(&self, n: usize)
        requires
            self.takes(n),
        ensures
            n >= capped(self.least_bytes()),
            self.least_bytes() >= 0,
    {
    }

    /// Bytes allocated for the brick: exactly so for one that keeps everything
    /// inline but its states; a wide palette adds what its allocator gave it.
    pub fn memory_bytes(&self) -> (n: usize)
        ensures
            self.takes(n),
            n >= capped(self.least_bytes()),
    {
        let wide: Option<usize> = match &self.storage {
            Storage::Wide(w) => Some(capacity(&w.palette)),
            Storage::Narrow { .. } => None,
        };
        let n: usize = brick_bytes(wide, self.state.is_some());
        proof {
            if let Some(room) = wide {
                assert(room >= self.palette().len());
                assert(n == capped(brick_total(Some(room), self.stateful())));
            }
        }
        n
    }
}

/// A brick's stored form.
#[allow(inconsistent_fields)]
pub enum BrickRaw<'a> {
    Narrow { palette: &'a [MaterialId; 16], nibbles: &'a [u8; 256] },
    Wide { palette: &'a [MaterialId], indices: &'a [u8; 512] },
}

proof fn lemma_flat_masks(masks: Seq<u64>, m: u64, n: int)
    requires
        0 <= n <= masks.len(),
        forall|k: int| 0 <= k < masks.len() ==> masks[k] == m,
    ensures
        total_ones(masks, n) == n * ones(m),
    decreases n,
{
    if n > 0 {
        lemma_flat_masks(masks, m, n - 1);
        assert(n * ones(m) == (n - 1) * ones(m) + ones(m)) by (nonlinear_arith);
    } else {
        assert(n * ones(m) == 0) by (nonlinear_arith)
            requires
                n == 0,
        ;
    }
}

/// Voxels are numbered along x first, then z, then y: a step along each adds
/// 1, 8 and 64, and a subblock is a cube of four voxels' edge.
pub proof fn voxels_are_numbered_by_layer(l: IVec3)
    requires
        l.within(8),
    ensures
        vindex(l) % 8 == l.x && vindex(l) / 8 % 8 == l.z && vindex(l) / 64 == l.y,
        sub_of(vindex(l)) % 2 == l.x as int / 4,
        sub_of(vindex(l)) / 2 % 2 == l.z as int / 4,
        sub_of(vindex(l)) / 4 == l.y as int / 4,
        bit_of(vindex(l)) % 4 == l.x as int % 4,
        bit_of(vindex(l)) / 4 % 4 == l.z as int % 4,
        bit_of(vindex(l)) / 16 == l.y as int % 4,
{
}

/// A brick is dominated by what fills most of it: no other material but air
/// has more voxels, and of two with as many it is the one that came into the
/// palette later.
pub proof fn bricks_are_dominated_by_the_most_common(b: Brick, m: MaterialId, i: int, q: int)
    requires
        b.wf(),
        b.dominated_by(m),
        0 <= i < 512,
        b.voxels()[i] != air(),
        1 <= q < b.palette().len(),
    ensures
        tally(b.voxels(), b.voxels()[i]) <= tally(b.voxels(), m),
        tally(b.voxels(), b.palette()[q]) == tally(b.voxels(), m) ==> exists|p: int|
            q <= p < b.palette().len() && #[trigger] b.palette()[p] == m,
{
    b.lemma_shape();
    let s = b.slot(i);
    assert(b.voxels()[i] == b.palette()[s]);
    assert(s != 0);
    let p = choose|p: int|
        1 <= p < b.palette().len() && #[trigger] b.palette()[p] == m && forall|q: int|
            1 <= q < b.palette().len() ==> #[trigger] tally(b.voxels(), b.palette()[q]) <= tally(
                b.voxels(),
                m,
            ) && (tally(b.voxels(), b.palette()[q]) == tally(b.voxels(), m) ==> q <= p);
    assert(tally(b.voxels(), b.palette()[s]) <= tally(b.voxels(), m));
    assert(tally(b.voxels(), b.palette()[q]) <= tally(b.voxels(), m));
    assert(b.palette()[p] == m);
}

} // verus!
