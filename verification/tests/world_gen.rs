use voxeled::chunk_id::{ChunkID, IVec3};
use voxeled::random::get_random;
use voxeled::texture::Texture;
use voxeled::voxel::{fill, VoxelType, SOLID_BIT};
use voxeled::world_gen::{mix, AllAir, Generator, WhiteNoise};

#[test]
fn mixing_is_the_stated_formula() {
    assert_eq!(mix(0), 0);
    assert_eq!(mix(1), 0x5692_161d_100b_05e5);
}

#[test]
fn white_noise_material_by_position() {
    let noise = WhiteNoise::new(42);
    assert_eq!(noise.material_at(IVec3::new(1, 2, 3)), VoxelType::Dirt);
    assert_eq!(noise.material_at(IVec3::new(-5, 7, -9)), VoxelType::Dirt);
    assert_eq!(noise.material_at(IVec3::new(4, 0, 0)), VoxelType::Stone);
    assert_eq!(noise.material_at(IVec3::new(0, 0, 0)), VoxelType::Dirt);
    assert_eq!(WhiteNoise::new(0).material_at(IVec3::new(0, 0, 0)), VoxelType::Dirt);
}

#[test]
fn white_noise_is_the_same_on_every_run() {
    let id = ChunkID::new(0, IVec3::new(3, -2, 1));
    let first = WhiteNoise::new(7).gen(id);
    let second = WhiteNoise::new(7).gen(id);
    assert!(first == second);
    let other = WhiteNoise::new(8).gen(id);
    assert!(first != other);
    let origin = WhiteNoise::new(7).gen(ChunkID::new(0, IVec3::new(0, 0, 0)));
    let stones = origin.iter().flatten().flatten().filter(|v| **v == VoxelType::Stone).count();
    assert_eq!(stones, 6500);
    assert!(origin.iter().flatten().flatten().all(|v| *v != VoxelType::Air));
    assert_eq!(WhiteNoise::new(7).seed(), 7);
}

#[test]
fn coarse_chunks_sample_the_same_world() {
    let noise = WhiteNoise::new(99);
    let coarse = noise.gen(ChunkID::new(2, IVec3::new(1, 0, -1)));
    let fine = noise.gen(ChunkID::new(0, IVec3::new(4, 0, -4)));
    for x in 0..8 {
        for y in 0..8 {
            for z in 0..8 {
                assert_eq!(coarse[x][y][z], fine[4 * x][4 * y][4 * z]);
                assert_eq!(coarse[x][y][z], noise.material_at(IVec3::new(
                    128 + 4 * x as i32,
                    4 * y as i32,
                    -128 + 4 * z as i32
                )));
            }
        }
    }
}

#[test]
fn all_air_is_all_air() {
    let generator = AllAir::new(5);
    assert_eq!(generator.seed(), 5);
    let block = generator.gen(ChunkID::new(4, IVec3::new(-1, -1, -1)));
    assert!(block == fill(VoxelType::Air));
}

#[test]
fn random_numbers_stay_in_their_range() {
    let mut seen = [false; 5];
    for _ in 0..2000 {
        let drawn = get_random(3, 7);
        assert!((3..=7).contains(&drawn));
        seen[(drawn - 3) as usize] = true;
    }
    assert!(seen.iter().all(|hit| *hit));
    assert_eq!(get_random(9, 9), 9);
}

#[test]
fn random_voxels_are_of_the_promised_materials() {
    let mut air = false;
    let mut stone = false;
    let mut dirt = false;
    for _ in 0..2000 {
        match VoxelType::from_random() {
            VoxelType::Air => air = true,
            VoxelType::Stone => stone = true,
            VoxelType::Dirt => dirt = true,
            VoxelType::CrackedStone => panic!("cracked stone is never drawn"),
        }
    }
    assert!(air && stone && dirt);
    let mut stones = 0;
    for _ in 0..5000 {
        match VoxelType::random_weighted() {
            VoxelType::Stone => stones += 1,
            VoxelType::Dirt => {}
            other => panic!("{:?} is never drawn", other),
        }
    }
    assert!(stones > 500 && stones < 1500);
}

#[test]
fn voxel_materials() {
    assert_eq!(VoxelType::from_index(0), VoxelType::Air);
    assert_eq!(VoxelType::from_index(1), VoxelType::Stone);
    assert_eq!(VoxelType::from_index(2), VoxelType::Dirt);
    assert_eq!(VoxelType::from_weighted_index(0), VoxelType::Stone);
    assert_eq!(VoxelType::from_weighted_index(4), VoxelType::Dirt);
    assert_eq!(VoxelType::Air.is_solid_u32(), 0);
    assert_eq!(VoxelType::Stone.is_solid_u32(), SOLID_BIT);
    assert_eq!(VoxelType::Dirt.is_solid_u32(), 0x8000_0000);
    assert_eq!(VoxelType::CrackedStone.is_solid_u32(), 0x8000_0000);
    assert!(!VoxelType::Air.is_physically_solid());
    assert!(VoxelType::Dirt.is_physically_solid());
    assert!(!VoxelType::Air.is_solid());
    assert_eq!(VoxelType::Stone.texture(), Texture::Stone);
    assert_eq!(VoxelType::CrackedStone.texture(), Texture::CrackedStone);
    assert_eq!(VoxelType::Dirt.texture(), Texture::Dirt);
    assert_eq!(Texture::CrackedStone.id(), 0);
    assert_eq!(Texture::Stone.id(), 1);
    assert_eq!(Texture::Dirt.id(), 2);
    assert_eq!(Texture::Debug.id(), 3);
    let block = fill(VoxelType::Dirt);
    assert!(block.iter().flatten().flatten().all(|v| *v == VoxelType::Dirt));
}
