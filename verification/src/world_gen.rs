use vstd::prelude::*;
use crate::chunk_id::{cell_pos, ChunkID, IVec3};
use crate::meshing::in_block;
use crate::voxel::{fill, voxel_at, VoxelData3D, VoxelType};

verus! {

pub type Seed = u64;

/// A world function: from a chunk id to the chunk's voxels, made from a seed.
///
/// A generator is meant to be pure: what `gen` returns depends on the seed
/// and the id alone. The generators of this module state what they return;
/// of any other nothing is known but the block that it hands back.
pub trait Generator: Sized {
    fn new(seed: Seed) -> Self;

    fn gen(&self, chunk_id: ChunkID) -> VoxelData3D
        requires
            chunk_id.in_world(),
    ;

    fn seed(&self) -> Seed;
}

/// Every voxel of the block is air.
pub open spec fn is_all_air(block: VoxelData3D) -> bool {
    forall|x: int, y: int, z: int|
        in_block(x, y, z) ==> #[trigger] voxel_at(block, x, y, z) == VoxelType::Air
}

/// The world without any material.
#[derive(Clone, Copy, Debug)]
pub struct AllAir {
    pub seed: Seed,
}

impl Generator for AllAir {
    fn new(seed: Seed) -> (r: Self)
        ensures
            r.seed == seed,
    {
        AllAir { seed }
    }

    fn gen(&self, chunk_id: ChunkID) -> (r: VoxelData3D)
        ensures
            is_all_air(r),
    {
        fill(VoxelType::Air)
    }

    fn seed(&self) -> (r: Seed)
        ensures
            r == self.seed,
    {
        self.seed
    }
}

/// One round of mixing a 64-bit state.
pub open spec fn mix_spec(v: u64) -> u64 {
    let a = (v ^ (v >> 30)).wrapping_mul(0xbf58_476d_1ce4_e5b9u64);
    let b = (a ^ (a >> 27)).wrapping_mul(0x94d0_49bb_1331_11ebu64);
    b ^ (b >> 31)
}

/// One round of mixing a 64-bit state.
pub fn mix(v: u64) -> (r: u64)
    ensures
        r == mix_spec(v),
{
    let a = (v ^ (v >> 30)).wrapping_mul(0xbf58_476d_1ce4_e5b9u64);
    let b = (a ^ (a >> 27)).wrapping_mul(0x94d0_49bb_1331_11ebu64);
    b ^ (b >> 31)
}

/// A coordinate as an unsigned number: its offset from the least `i32`.
pub open spec fn unsigned(c: i32) -> u64 {
    (c - i32::MIN) as u64
}

/// The number that white noise draws for a world position: the seed mixed
/// with the three coordinates in turn.
pub open spec fn noise_at(seed: Seed, pos: IVec3) -> u64 {
    mix_spec(mix_spec(mix_spec(seed ^ unsigned(pos.x)) ^ unsigned(pos.y)) ^ unsigned(pos.z))
}

/// The material of white noise at a world position: stone where the drawn
/// number is a multiple of five, dirt elsewhere.
pub open spec fn white_noise_material(seed: Seed, pos: IVec3) -> VoxelType {
    if noise_at(seed, pos) % 5 == 0 {
        VoxelType::Stone
    } else {
        VoxelType::Dirt
    }
}

/// A world of stone and dirt without any structure: each world position gets
/// its material from the seed and its coordinates alone.
#[derive(Clone, Copy, Debug)]
pub struct WhiteNoise {
    pub seed: Seed,
}

impl WhiteNoise {
    /// The material at a world position.
    pub fn material_at(&self, pos: IVec3) -> (r: VoxelType)
        ensures
            r == white_noise_material(self.seed, pos),
    {
        let ux: u64 = (pos.x as i64 - i32::MIN as i64) as u64;
        let uy: u64 = (pos.y as i64 - i32::MIN as i64) as u64;
        let uz: u64 = (pos.z as i64 - i32::MIN as i64) as u64;
        let h = mix(mix(mix(self.seed ^ ux) ^ uy) ^ uz);
        VoxelType::from_weighted_index((h % 5) as u32)
    }
}

/// The block holds, cell by cell, the white noise of the seed in the chunk
/// `id`: each cell has the material of its world position.
pub open spec fn is_white_noise(block: VoxelData3D, seed: Seed, id: ChunkID) -> bool {
    forall|x: int, y: int, z: int|
        in_block(x, y, z) ==> #[trigger] voxel_at(block, x, y, z) == white_noise_material(
            seed,
            cell_pos(id, x, y, z),
        )
}

impl Generator for WhiteNoise {
    fn new(seed: Seed) -> (r: Self)
        ensures
            r.seed == seed,
    {
        WhiteNoise { seed }
    }

    fn gen(&self, chunk_id: ChunkID) -> (r: VoxelData3D)
        ensures
            is_white_noise(r, self.seed, chunk_id),
    {
        let mut voxels = fill(VoxelType::Air);
        let mut x: usize = 0;
        while x < 32
            invariant
                x <= 32,
                chunk_id.in_world(),
                forall|x2: int, y2: int, z2: int|
                    in_block(x2, y2, z2) && x2 < x ==> #[trigger] voxel_at(voxels, x2, y2, z2)
                        == white_noise_material(self.seed, cell_pos(chunk_id, x2, y2, z2)),
            decreases 32 - x,
        {
            let mut y: usize = 0;
            while y < 32
                invariant
                    x < 32,
                    y <= 32,
                    chunk_id.in_world(),
                    forall|x2: int, y2: int, z2: int|
                        in_block(x2, y2, z2) && (x2 < x || (x2 == x && y2 < y))
                            ==> #[trigger] voxel_at(voxels, x2, y2, z2) == white_noise_material(
                            self.seed,
                            cell_pos(chunk_id, x2, y2, z2),
                        ),
                decreases 32 - y,
            {
                let mut z: usize = 0;
                while z < 32
                    invariant
                        x < 32,
                        y < 32,
                        z <= 32,
                        chunk_id.in_world(),
                        forall|x2: int, y2: int, z2: int|
                            in_block(x2, y2, z2) && (x2 < x || (x2 == x && (y2 < y || (y2 == y
                                && z2 < z)))) ==> #[trigger] voxel_at(voxels, x2, y2, z2)
                                == white_noise_material(
                                self.seed,
                                cell_pos(chunk_id, x2, y2, z2),
                            ),
                    decreases 32 - z,
                {
                    let ghost prev = voxels;
                    let material = self.material_at(chunk_id.cell_world_pos(x, y, z));
                    voxels[x][y][z] = material;
                    assert forall|x2: int, y2: int, z2: int|
                        in_block(x2, y2, z2) && (x2 < x || (x2 == x && (y2 < y || (y2 == y && z2
                            < z + 1)))) implies #[trigger] voxel_at(voxels, x2, y2, z2)
                        == white_noise_material(self.seed, cell_pos(chunk_id, x2, y2, z2)) by {
                        if !(x2 == x && y2 == y && z2 == z) {
                            assert(voxel_at(voxels, x2, y2, z2) == voxel_at(prev, x2, y2, z2));
                        }
                    }
                    z += 1;
                }
                y += 1;
            }
            x += 1;
        }
        voxels
    }

    fn seed(&self) -> (r: Seed)
        ensures
            r == self.seed,
    {
        self.seed
    }
}

/// White noise depends on the seed and the chunk id alone: two blocks
/// generated with one seed for one id hold the same voxels, whenever and
/// wherever they were generated.
pub proof fn lemma_white_noise_deterministic(
    first: VoxelData3D,
    second: VoxelData3D,
    seed: Seed,
    id: ChunkID,
)
    requires
        is_white_noise(first, seed, id),
        is_white_noise(second, seed, id),
    ensures
        forall|x: int, y: int, z: int|
            in_block(x, y, z) ==> #[trigger] voxel_at(first, x, y, z) == voxel_at(second, x, y, z),
{
    assert forall|x: int, y: int, z: int| in_block(x, y, z) implies #[trigger] voxel_at(
        first,
        x,
        y,
        z,
    ) == voxel_at(second, x, y, z) by {
        assert(voxel_at(first, x, y, z) == white_noise_material(seed, cell_pos(id, x, y, z)));
        assert(voxel_at(second, x, y, z) == white_noise_material(seed, cell_pos(id, x, y, z)));
    }
}

} // verus!
