use voxeled::chunk_id::{ChunkID, IVec3};
use voxeled::job::{generate_chunk_and_mesh, generate_voxel, mesh_chunk, run_job, Job};
use voxeled::level::{Chunk, Level, Payload, Progress};
use voxeled::meshing::mesh_block;
use voxeled::voxel::{fill, VoxelData3D, VoxelType};
use voxeled::world_gen::{AllAir, Generator, WhiteNoise};

fn id(lod: u8, x: i32, y: i32, z: i32) -> ChunkID {
    ChunkID::new(lod, IVec3::new(x, y, z))
}

struct Solid;

impl Generator for Solid {
    fn new(_seed: u64) -> Self {
        Solid
    }

    fn gen(&self, _chunk_id: ChunkID) -> VoxelData3D {
        fill(VoxelType::Stone)
    }

    fn seed(&self) -> u64 {
        0
    }
}

#[test]
fn untouched_slot_reads_as_missing() {
    let level = Level::new();
    assert!(!level.voxel_ready(id(0, 1, 2, 3)));
    assert!(!level.mesh_ready(id(0, 1, 2, 3)));
    assert!(level.voxels(id(0, 1, 2, 3)).is_none());
    assert!(level.mesh(id(0, 1, 2, 3)).is_none());
    assert!(level.voxel_at(id(0, 1, 2, 3), 0, 0, 0).is_none());
    let chunk = Chunk::new();
    assert_eq!(chunk.voxel_state, Progress::Missing);
    assert_eq!(chunk.mesh_state, Progress::Missing);
    assert!(chunk.voxel.is_none());
    assert_eq!(chunk.mesh.len(), 0);
}

#[test]
fn only_one_caller_wins_try_begin() {
    let mut level = Level::with_capacity(4);
    let a = id(0, 0, 0, 0);
    assert!(level.try_begin(a, Payload::Voxel));
    assert!(!level.try_begin(a, Payload::Voxel));
    assert!(level.try_begin(a, Payload::Mesh));
    assert!(!level.try_begin(a, Payload::Mesh));
    assert!(level.try_begin(id(0, 0, 0, 1), Payload::Voxel));
    assert!(level.try_begin(id(1, 0, 0, 0), Payload::Voxel));
    assert!(!level.voxel_ready(a));
}

#[test]
fn voxels_are_published_once_and_only_in_flight() {
    let mut level = Level::new();
    let a = id(0, 4, 5, 6);
    assert!(!level.publish_voxel(a, fill(VoxelType::Stone)));
    assert!(!level.voxel_ready(a));
    assert!(level.try_begin(a, Payload::Voxel));
    assert!(!level.voxel_ready(a));
    assert!(level.voxels(a).is_none());
    assert!(level.publish_voxel(a, fill(VoxelType::Dirt)));
    assert!(level.voxel_ready(a));
    assert_eq!(level.voxel_at(a, 1, 2, 3), Some(VoxelType::Dirt));
    assert!(!level.publish_voxel(a, fill(VoxelType::Stone)));
    assert_eq!(level.voxel_at(a, 1, 2, 3), Some(VoxelType::Dirt));
    assert!(!level.try_begin(a, Payload::Voxel));
    assert!(level.voxel_ready(a));
}

#[test]
fn mesh_is_published_only_after_the_voxels() {
    let mut level = Level::new();
    let a = id(0, 0, 0, 0);
    let block = fill(VoxelType::Stone);
    let planes = level.neighbor_planes(a);
    assert!(level.try_begin(a, Payload::Mesh));
    assert!(!level.publish_mesh(a, planes, mesh_block(&block, &planes, a)));
    assert!(!level.mesh_ready(a));
    let b = id(0, 9, 9, 9);
    assert!(level.try_begin(b, Payload::Voxel));
    assert!(level.publish_voxel(b, block));
    assert!(!level.publish_mesh(b, planes, mesh_block(&block, &planes, b)));
    assert!(level.try_begin(b, Payload::Mesh));
    assert!(level.publish_mesh(b, planes, mesh_block(&block, &planes, b)));
    assert!(level.mesh_ready(b));
    assert_eq!(level.mesh(b).map(|mesh| mesh.len()), Some(6 * 1024));
    assert!(!level.publish_mesh(b, planes, mesh_block(&block, &planes, b)));
    assert!(level.voxel_ready(b));
}

#[test]
fn absent_neighbours_give_planes_of_air() {
    let mut level = Level::new();
    let a = id(0, 0, 0, 0);
    for axis in 0..3 {
        for positive in [false, true] {
            let plane = level.neighbor_solidity(a, axis, positive);
            assert!(plane.iter().flatten().all(|solid| !solid));
        }
    }
    let right = id(0, 1, 0, 0);
    assert!(level.try_begin(right, Payload::Voxel));
    assert!(level.neighbor_solidity(a, 0, true).iter().flatten().all(|solid| !solid));
    let mut block = fill(VoxelType::Air);
    block[0][3][4] = VoxelType::Stone;
    block[31][5][6] = VoxelType::Stone;
    assert!(level.publish_voxel(right, block));
    let plane = level.neighbor_solidity(a, 0, true);
    assert!(plane[3][4]);
    assert_eq!(plane.iter().flatten().filter(|solid| **solid).count(), 1);
    let from_left = level.neighbor_solidity(id(0, 2, 0, 0), 0, false);
    assert!(from_left[5][6]);
    assert_eq!(from_left.iter().flatten().filter(|solid| **solid).count(), 1);
    assert!(level.neighbor_solidity(a, 1, true).iter().flatten().all(|solid| !solid));
    assert!(level.neighbor_solidity(id(1, 0, 0, 0), 0, true).iter().flatten().all(|solid| !solid));
}

#[test]
fn neighbour_planes_follow_the_axes() {
    let mut level = Level::new();
    let above = id(0, 0, 1, 0);
    let behind = id(0, 0, 0, -1);
    let mut block = fill(VoxelType::Air);
    block[2][0][7] = VoxelType::Dirt;
    block[4][9][31] = VoxelType::Dirt;
    assert!(level.try_begin(above, Payload::Voxel));
    assert!(level.publish_voxel(above, block));
    assert!(level.try_begin(behind, Payload::Voxel));
    assert!(level.publish_voxel(behind, block));
    let a = id(0, 0, 0, 0);
    let planes = level.neighbor_planes(a);
    assert!(planes[3][7][2]);
    assert_eq!(planes[3].iter().flatten().filter(|solid| **solid).count(), 1);
    assert!(planes[4][4][9]);
    assert_eq!(planes[4].iter().flatten().filter(|solid| **solid).count(), 1);
    for dir in [0, 1, 2, 5] {
        assert!(planes[dir].iter().flatten().all(|solid| !solid));
    }
}

#[test]
fn neighbour_at_the_edge_of_the_number_range_is_air() {
    let level = Level::new();
    let edge = id(0, i32::MAX, i32::MIN, 0);
    assert!(level.neighbor_solidity(edge, 0, true).iter().flatten().all(|solid| !solid));
    assert!(level.neighbor_solidity(edge, 1, false).iter().flatten().all(|solid| !solid));
}

#[test]
fn generate_job_runs_once() {
    let mut level = Level::new();
    let generator = Solid::new(0);
    let a = id(0, 1, 1, 1);
    assert!(generate_voxel(&mut level, &generator, a));
    assert!(level.voxel_ready(a));
    assert!(!level.mesh_ready(a));
    assert_eq!(level.voxel_at(a, 0, 0, 0), Some(VoxelType::Stone));
    assert!(!generate_voxel(&mut level, &generator, a));
    assert!(!generate_voxel(&mut level, &generator, id(0, 67_108_864, 0, 0)));
    assert!(!level.voxel_ready(id(0, 67_108_864, 0, 0)));
    assert!(level.try_begin(id(0, 67_108_864, 0, 0), Payload::Voxel));
}

#[test]
fn mesh_job_needs_voxels_and_runs_once() {
    let mut level = Level::new();
    let generator = Solid::new(0);
    let a = id(0, 0, 0, 0);
    assert!(!mesh_chunk(&mut level, a));
    assert!(level.try_begin(a, Payload::Mesh));
    let b = id(0, 5, 0, 0);
    assert!(generate_voxel(&mut level, &generator, b));
    assert!(mesh_chunk(&mut level, b));
    assert!(level.mesh_ready(b));
    assert_eq!(level.mesh(b).map(|mesh| mesh.len()), Some(6 * 1024));
    assert!(!mesh_chunk(&mut level, b));
    assert!(!run_job(&mut level, &generator, Job::MeshChunk(b)));
}

#[test]
fn composite_job_generates_and_meshes() {
    let mut level = Level::new();
    let generator = Solid::new(0);
    let a = id(1, -1, 0, 2);
    assert!(run_job(&mut level, &generator, Job::GenerateChunkAndMesh(a)));
    assert!(level.voxel_ready(a));
    assert!(level.mesh_ready(a));
    assert!(!run_job(&mut level, &generator, Job::GenerateChunkAndMesh(a)));
    let b = id(0, 3, 3, 3);
    assert!(run_job(&mut level, &generator, Job::GenerateVoxel(b)));
    assert!(generate_chunk_and_mesh(&mut level, &generator, b));
    assert!(level.mesh_ready(b));
    assert_eq!(Job::GenerateVoxel(b).chunk_id(), b);
    assert_eq!(Job::MeshChunk(a).chunk_id(), a);
    assert_eq!(Job::GenerateChunkAndMesh(a).chunk_id(), a);
}

#[test]
fn mesh_sees_the_neighbours_that_are_done() {
    let mut level = Level::new();
    let generator = Solid::new(0);
    let left = id(0, 0, 0, 0);
    let right = id(0, 1, 0, 0);
    assert!(run_job(&mut level, &generator, Job::GenerateChunkAndMesh(left)));
    assert!(run_job(&mut level, &generator, Job::GenerateChunkAndMesh(right)));
    let left_mesh = level.mesh(left).unwrap();
    assert_eq!(left_mesh.px.len(), 1024);
    assert_eq!(left_mesh.nx.len(), 1024);
    let right_mesh = level.mesh(right).unwrap();
    assert_eq!(right_mesh.nx.len(), 0);
    assert_eq!(right_mesh.px.len(), 1024);
}

#[test]
fn published_mesh_is_the_meshers_output() {
    let mut level = Level::new();
    let generator = WhiteNoise::new(11);
    let a = id(0, 2, -3, 4);
    let below = id(0, 2, -4, 4);
    assert!(run_job(&mut level, &generator, Job::GenerateChunkAndMesh(below)));
    let planes = level.neighbor_planes(a);
    assert!(run_job(&mut level, &generator, Job::GenerateChunkAndMesh(a)));
    let block = *level.voxels(a).unwrap();
    let expected = mesh_block(&block, &planes, a);
    let published = level.mesh(a).unwrap();
    assert_eq!(published.nx, expected.nx);
    assert_eq!(published.px, expected.px);
    assert_eq!(published.ny, expected.ny);
    assert_eq!(published.py, expected.py);
    assert_eq!(published.nz, expected.nz);
    assert_eq!(published.pz, expected.pz);
    assert_eq!(published.ny.len(), 0);
}

#[test]
fn empty_world_chunk_is_done_with_an_empty_mesh() {
    let mut level = Level::new();
    let generator = AllAir::new(0);
    let a = id(0, 0, 0, 0);
    assert!(run_job(&mut level, &generator, Job::GenerateChunkAndMesh(a)));
    assert_eq!(level.voxel_at(a, 31, 31, 31), Some(VoxelType::Air));
    assert_eq!(level.mesh(a).map(|mesh| mesh.len()), Some(0));
    assert!(Progress::Done.is_done());
    assert!(!Progress::InFlight.is_done());
    assert!(!Progress::Missing.is_done());
}

#[test]
fn chunk_op_reads_a_slot_and_leaves_the_registry_as_it_reads() {
    let mut level = Level::new();
    let a = id(0, 1, 1, 1);
    let states = level.chunk_op(a, |chunk| (chunk.voxel_state, chunk.mesh_state));
    assert_eq!(states, (Progress::Missing, Progress::Missing));
    assert!(!level.voxel_ready(a));
    assert!(level.try_begin(a, Payload::Voxel));
    assert_eq!(level.chunk_op(a, |chunk| chunk.voxel_state), Progress::InFlight);
    assert!(level.publish_voxel(a, fill(VoxelType::Dirt)));
    assert_eq!(level.chunk_op(a, |chunk| chunk.voxel_state), Progress::Done);
    let voxel = level.chunk_op(a, |chunk| chunk.voxel.map(|voxels| voxels[3][4][5]));
    assert_eq!(voxel, Some(VoxelType::Dirt));
    assert_eq!(level.chunk_op(a, |chunk| chunk.mesh.len()), 0);
}
