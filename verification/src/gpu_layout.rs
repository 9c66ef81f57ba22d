//! GPU word layout of the voxel structure, and chunk flattening into it.
//!
//! Everything the marcher reads lives in two `array<u32>` storage buffers.
//!
//! **Tree buffer.** A node is four words:
//!
//! | word | bits   | meaning                                               |
//! |------|--------|-------------------------------------------------------|
//! | 0    | 31     | `LEAF_PARENT`: children are brick-cell leaf words     |
//! | 0    | 30     | `NOT_RESIDENT`: children are not on the GPU           |
//! | 0    | 29     | `UNIFORM_NODE`: one material throughout (bits 0..16)  |
//! | 0    | 0..29  | absolute word offset of the compact child block       |
//! | 1, 2 |        | child mask, low and high halves                       |
//! | 3    | 0..16  | LOD material                                          |
//! | 3    | 16..28 | LOD normal, octahedral 6+6 bits                       |
//! | 3    | 28..32 | normal spread 0 (flat) ..15 (no dominant direction)   |
//!
//! A leaf word (child of a `LEAF_PARENT` node) is one of:
//! - `UNIFORM` (bit 31) with the material in bits 0..16,
//! - `NOT_RESIDENT` (bit 30) with the brick's dominant material in 0..16,
//! - a brick: word offset into the voxel buffer in bits 0..29, `WIDE` bit 29.
//!
//! **Voxel buffer.** A narrow brick is 89 words: header (state offset, 0 for
//! none), 16 occupancy words (eight `u64`), 8 palette words (sixteen `u16`),
//! 64 index words (eight nibbles each, voxel `i` at word `i/8` bit `4*(i%8)`).
//! A wide brick is 273 words: header, occupancy, 128 palette words, 128
//! index words (four bytes each). A state block is 128 words, four state
//! bytes per word.

pub mod encode;
pub mod facing;
pub mod flat;
pub mod hist;
pub mod leaves;

use vstd::prelude::*;

verus! {

pub const NODE_WORDS: usize = 4;

pub const LEAF_PARENT: u32 = 0x8000_0000;

pub const NOT_RESIDENT: u32 = 0x4000_0000;

pub const UNIFORM_NODE: u32 = 0x2000_0000;

pub const PTR_MASK: u32 = 0x1fff_ffff;

pub const UNIFORM: u32 = 0x8000_0000;

pub const WIDE: u32 = 0x2000_0000;

pub const BRICK_PTR_MASK: u32 = 0x1fff_ffff;

pub const NARROW_BRICK_WORDS: usize = 89;

pub const WIDE_BRICK_WORDS: usize = 273;

pub const STATE_WORDS: usize = 128;

} // verus!
