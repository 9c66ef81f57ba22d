//! Single-precision numbers that are only compared.

pub mod parts;

use vstd::prelude::*;

verus! {

/// Stands for an f32: its bits for one that is not negative, and in the same
/// order below zero.
pub type Key = i32;

#[derive(Clone, Copy, Debug, PartialEq, Eq, Structural)]
pub struct Key3 {
    pub x: Key,
    pub y: Key,
    pub z: Key,
}

// Numbers as keys.
pub const K_0_05: Key = 0x3d4c_cccd;

pub const K_0_1: Key = 0x3dcc_cccd;

pub const K_0_12: Key = 0x3df5_c28f;

pub const K_0_18: Key = 0x3e38_51ec;

pub const K_0_2: Key = 0x3e4c_cccd;

pub const K_0_25: Key = 0x3e80_0000;

pub const K_0_3: Key = 0x3e99_999a;

pub const K_0_35: Key = 0x3eb3_3333;

pub const K_0_4: Key = 0x3ecc_cccd;

pub const K_0_42: Key = 0x3ed7_0a3d;

pub const K_0_5: Key = 0x3f00_0000;

pub const K_0_52: Key = 0x3f05_1eb8;

pub const K_0_58: Key = 0x3f14_7ae1;

pub const K_0_6: Key = 0x3f19_999a;

pub const K_0_64: Key = 0x3f23_d70a;

pub const K_0_72: Key = 0x3f38_51ec;

pub const K_0_75: Key = 0x3f40_0000;

pub const K_0_8: Key = 0x3f4c_cccd;

pub const K_0_9: Key = 0x3f66_6666;

pub const K_1: Key = 0x3f80_0000;

pub const K_1_2: Key = 0x3f99_999a;

} // verus!
