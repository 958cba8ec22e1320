use vstd::prelude::*;
use crate::random::get_random;
use crate::texture::Texture;

verus! {

/// Edge length of a voxel block.
pub const CHUNK_SIZE: usize = 32;

/// The material of one voxel. `Air` is the distinguished empty variant.
#[derive(Debug, Clone, Copy, PartialEq, Eq, Structural)]
pub enum VoxelType {
    Air,
    CrackedStone,
    Stone,
    Dirt,
}

/// A dense 32x32x32 cube of voxels, indexed `[x][y][z]`.
pub type VoxelData3D = [[[VoxelType; 32]; 32]; 32];

/// The bit that marks a solid voxel in a packed row: the most significant one.
pub const SOLID_BIT: u32 = 0x8000_0000u32;

impl VoxelType {
    /// Whether the voxel occupies space: every material but air does.
    pub open spec fn solid(self) -> bool {
        self != VoxelType::Air
    }

    pub fn is_solid(self) -> (r: bool)
        ensures
            r == self.solid(),
    {
        match self {
            VoxelType::Air => false,
            _ => true,
        }
    }

    /// The material that stands for a number drawn from 0 to 2: air, stone
    /// and dirt in this order.
    pub fn from_index(index: u32) -> (r: VoxelType)
        requires
            index <= 2,
        ensures
            r == if index == 0 {
                VoxelType::Air
            } else if index == 1 {
                VoxelType::Stone
            } else {
                VoxelType::Dirt
            },
    {
        if index == 0 {
            VoxelType::Air
        } else if index == 1 {
            VoxelType::Stone
        } else {
            VoxelType::Dirt
        }
    }

    /// The material that stands for a number drawn from 0 to 4: stone for 0,
    /// dirt for the rest.
    pub fn from_weighted_index(index: u32) -> (r: VoxelType)
        ensures
            r == if index == 0 {
                VoxelType::Stone
            } else {
                VoxelType::Dirt
            },
    {
        if index == 0 {
            VoxelType::Stone
        } else {
            VoxelType::Dirt
        }
    }

    /// Air, stone or dirt, each as likely as the others.
    pub fn from_random() -> (r: VoxelType)
        ensures
            r == VoxelType::Air || r == VoxelType::Stone || r == VoxelType::Dirt,
    {
        VoxelType::from_index(get_random(0, 2))
    }

    /// Stone in one case of five, dirt in the others.
    pub fn random_weighted() -> (r: VoxelType)
        ensures
            r == VoxelType::Stone || r == VoxelType::Dirt,
    {
        VoxelType::from_weighted_index(get_random(0, 4))
    }

    /// Whether a moving body is stopped by the voxel. Every material but air
    /// stops it.
    pub fn is_physically_solid(self) -> (r: bool)
        ensures
            r == self.solid(),
            self == VoxelType::Air ==> !r,
    {
        self.is_solid()
    }

    /// The solidity of the voxel as the top bit of a packed row: `SOLID_BIT`
    /// for a solid voxel, zero for air.
    pub fn is_solid_u32(self) -> (r: u32)
        ensures
            r == if self.solid() { SOLID_BIT } else { 0u32 },
    {
        if self.is_solid() {
            SOLID_BIT
        } else {
            0
        }
    }

    /// What `texture` returns for a material that has one.
    pub open spec fn texture_spec(self) -> Texture {
        match self {
            VoxelType::CrackedStone => Texture::CrackedStone,
            VoxelType::Dirt => Texture::Dirt,
            _ => Texture::Stone,
        }
    }

    /// The texture of a material. Air has none.
    pub fn texture(self) -> (r: Texture)
        requires
            self != VoxelType::Air,
        ensures
            r == self.texture_spec(),
            self == VoxelType::Stone ==> r == Texture::Stone,
            self == VoxelType::CrackedStone ==> r == Texture::CrackedStone,
            self == VoxelType::Dirt ==> r == Texture::Dirt,
    {
        match self {
            VoxelType::CrackedStone => Texture::CrackedStone,
            VoxelType::Dirt => Texture::Dirt,
            _ => Texture::Stone,
        }
    }
}

pub open spec fn voxel_at(voxels: VoxelData3D, x: int, y: int, z: int) -> VoxelType {
    voxels[x][y][z]
}

/// A block in which every voxel is `fill`.
pub fn fill(material: VoxelType) -> (r: VoxelData3D)
    ensures
        forall|x: int, y: int, z: int|
            0 <= x < 32 && 0 <= y < 32 && 0 <= z < 32 ==> #[trigger] voxel_at(r, x, y, z)
                == material,
{
    [[[material; 32]; 32]; 32]
}

} // verus!
