//! Spatial units and conversions.
//!
//! The finest unit is the voxel, 1/16 m. Everything above it is a power of
//! two:
//!
//! | unit    | voxels | metres | notes                                  |
//! |---------|--------|--------|----------------------------------------|
//! | voxel   | 1      | 0.0625 | material + state                       |
//! | subblk  | 4      | 0.25   | one 64-bit occupancy mask              |
//! | brick   | 8      | 0.5    | 4-bit palette storage, streaming unit  |
//! | block   | 16     | 1      | macro layer: gameplay, inventory, save |
//! | L1 node | 32     | 2      | 4^3 bricks                             |
//! | L2 node | 128    | 8      |                                        |
//! | chunk   | 512    | 32     | L3 node, CPU edit and upload unit      |
//! | sector  | 8192   | 512    | streamed region                        |
//!
//! The world is 32 x 1 x 32 sectors: 16384 m square, 512 m tall.

use crate::ivec::IVec3;
use vstd::prelude::*;

verus! {

pub const VOXELS_PER_BLOCK: i32 = 16;

pub const BRICK_SHIFT: i32 = 3;

pub const BRICK_VOXELS: i32 = 8;

pub const BLOCK_SHIFT: i32 = 4;

pub const CHUNK_SHIFT: i32 = 9;

pub const CHUNK_VOXELS: i32 = 512;

pub const CHUNK_BLOCKS: i32 = 32;

pub const CHUNK_BRICKS: i32 = 64;

pub const SECTOR_SHIFT: i32 = 13;

pub const SECTOR_VOXELS: i32 = 8192;

pub const WORLD_SECTORS_XZ: i32 = 32;

pub const WORLD_SECTORS_Y: i32 = 1;

pub const WORLD_BLOCKS_XZ: i32 = 16384;

pub const WORLD_BLOCKS_Y: i32 = 512;

/// Voxels along x and along z of the whole world.
pub const WORLD_VOXELS_XZ: i32 = 262144;

/// Voxels along y of the whole world.
pub const WORLD_VOXELS_Y: i32 = 8192;

/// World voxel coordinate.
pub type VoxelPos = IVec3;

/// A chunk's place on the grid of 32 m chunks.
#[derive(Clone, Copy, Debug, PartialEq, Eq, Hash, Structural)]
pub struct ChunkPos(pub IVec3);

/// A block's place on the grid of 1 m blocks.
#[derive(Clone, Copy, Debug, PartialEq, Eq, Hash, Structural)]
pub struct BlockPos(pub IVec3);

/// The chunk that holds voxel `v`.
pub open spec fn chunk_of(v: VoxelPos) -> ChunkPos {
    ChunkPos(
        IVec3 {
            x: (v.x as int / 512) as i32,
            y: (v.y as int / 512) as i32,
            z: (v.z as int / 512) as i32,
        },
    )
}

/// Where in its chunk voxel `v` lies.
pub open spec fn local_of(v: VoxelPos) -> IVec3 {
    IVec3 {
        x: (v.x as int % 512) as i32,
        y: (v.y as int % 512) as i32,
        z: (v.z as int % 512) as i32,
    }
}

/// Voxels of the world: `0..262144` across, `0..8192` up.
pub open spec fn voxel_in_world(v: VoxelPos) -> bool {
    &&& 0 <= v.x < WORLD_VOXELS_XZ
    &&& 0 <= v.y < WORLD_VOXELS_Y
    &&& 0 <= v.z < WORLD_VOXELS_XZ
}

impl ChunkPos {
    pub fn of_voxel(v: VoxelPos) -> (c: ChunkPos)
        ensures
            c == chunk_of(v),
            c.0.x == v.x as int / 512,
            c.0.y == v.y as int / 512,
            c.0.z == v.z as int / 512,
    {
        ChunkPos(v.div(CHUNK_VOXELS))
    }

    pub fn of_block(b: BlockPos) -> (c: ChunkPos)
        ensures
            c.0.x == b.0.x as int / 32,
            c.0.y == b.0.y as int / 32,
            c.0.z == b.0.z as int / 32,
    {
        ChunkPos(b.0.div(CHUNK_BLOCKS))
    }

    /// Voxel coordinate of the chunk's minimum corner.
    pub fn origin(self) -> (v: VoxelPos)
        requires
            i32::MIN <= self.0.x * 512 <= i32::MAX,
            i32::MIN <= self.0.y * 512 <= i32::MAX,
            i32::MIN <= self.0.z * 512 <= i32::MAX,
        ensures
            v.x == self.0.x * 512,
            v.y == self.0.y * 512,
            v.z == self.0.z * 512,
    {
        self.0.scale(CHUNK_VOXELS)
    }

    pub open spec fn inside(self) -> bool {
        &&& 0 <= self.0.x < 512
        &&& 0 <= self.0.y < 16
        &&& 0 <= self.0.z < 512
    }

    pub fn in_world(self) -> (b: bool)
        ensures
            b == self.inside(),
    {
        let per_sector: i32 = SECTOR_VOXELS / CHUNK_VOXELS;
        let xz: i32 = WORLD_SECTORS_XZ * per_sector;
        let y: i32 = WORLD_SECTORS_Y * per_sector;
        self.0.x >= 0 && self.0.z >= 0 && self.0.y >= 0 && self.0.x < xz && self.0.z < xz
            && self.0.y < y
    }
}

impl BlockPos {
    pub fn of_voxel(v: VoxelPos) -> (b: BlockPos)
        ensures
            b.0.x == v.x as int / 16,
            b.0.y == v.y as int / 16,
            b.0.z == v.z as int / 16,
    {
        BlockPos(v.div(VOXELS_PER_BLOCK))
    }

    /// Voxel coordinate of the block's minimum corner.
    pub fn origin(self) -> (v: VoxelPos)
        requires
            i32::MIN <= self.0.x * 16 <= i32::MAX,
            i32::MIN <= self.0.y * 16 <= i32::MAX,
            i32::MIN <= self.0.z * 16 <= i32::MAX,
        ensures
            v.x == self.0.x * 16,
            v.y == self.0.y * 16,
            v.z == self.0.z * 16,
    {
        self.0.scale(VOXELS_PER_BLOCK)
    }
}

/// Voxel position within its chunk, each component in `0..512`.
pub fn chunk_local(v: VoxelPos) -> (l: IVec3)
    ensures
        l == local_of(v),
        l.within(512),
{
    v.rem(CHUNK_VOXELS)
}

pub fn in_world_voxel(v: VoxelPos) -> (b: bool)
    ensures
        b == voxel_in_world(v),
{
    v.x >= 0 && v.y >= 0 && v.z >= 0 && v.x < WORLD_VOXELS_XZ && v.z < WORLD_VOXELS_XZ && v.y
        < WORLD_VOXELS_Y
}

/// A voxel is its chunk's corner plus its place in the chunk, so the pair
/// names one voxel and no other.
pub proof fn voxel_is_chunk_plus_local(v: VoxelPos)
    ensures
        v.x == chunk_of(v).0.x * 512 + local_of(v).x,
        v.y == chunk_of(v).0.y * 512 + local_of(v).y,
        v.z == chunk_of(v).0.z * 512 + local_of(v).z,
        local_of(v).within(512),
{
}

/// A voxel lies in the world exactly when its chunk does.
pub proof fn world_is_whole_chunks(v: VoxelPos)
    ensures
        voxel_in_world(v) <==> chunk_of(v).inside(),
{
}

} // verus!
