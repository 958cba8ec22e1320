use voxeled::chunk_id::{ChunkID, IVec3};
use voxeled::mesh::{kind_lod, kind_texture_id, pack_kind, Instance, Mesh, Vertex};
use voxeled::meshing::{
    generate_mesh_without_cam_occ, get_axis_aligned_solid_maps, get_x_aligned_solid_map,
    get_y_aligned_solid_map, get_z_aligned_solid_map, map_visible, mesh_block, ChunkFaces,
    NeighborPlanes,
};
use voxeled::texture::Texture;
use voxeled::voxel::{fill, VoxelData3D, VoxelType, SOLID_BIT};
use voxeled::world_gen::{AllAir, Generator};

fn air_planes() -> NeighborPlanes {
    [[[false; 32]; 32]; 6]
}

fn origin() -> ChunkID {
    ChunkID::new(0, IVec3::new(0, 0, 0))
}

struct Checker;

impl Generator for Checker {
    fn new(_seed: u64) -> Self {
        Checker
    }

    fn gen(&self, _chunk_id: ChunkID) -> VoxelData3D {
        let mut voxels = fill(VoxelType::Air);
        for x in 0..32 {
            for y in 0..32 {
                for z in 0..32 {
                    if (x + y + z) % 2 == 0 {
                        voxels[x][y][z] = VoxelType::Dirt;
                    }
                }
            }
        }
        voxels
    }

    fn seed(&self) -> u64 {
        0
    }
}

fn lists(mesh: &Mesh) -> [&Vec<Instance>; 6] {
    [&mesh.nx, &mesh.px, &mesh.ny, &mesh.py, &mesh.nz, &mesh.pz]
}

#[test]
fn empty_world_emits_no_faces() {
    let generator = AllAir::new(0);
    let voxels = generator.gen(origin());
    for x in 0..32 {
        for y in 0..32 {
            for z in 0..32 {
                assert_eq!(voxels[x][y][z], VoxelType::Air);
            }
        }
    }
    let mesh = mesh_block(&voxels, &air_planes(), origin());
    for list in lists(&mesh) {
        assert_eq!(list.len(), 0);
    }
    assert_eq!(mesh.len(), 0);
}

#[test]
fn single_stone_voxel_has_six_faces() {
    let mut voxels = fill(VoxelType::Air);
    voxels[0][0][0] = VoxelType::Stone;
    let mesh = mesh_block(&voxels, &air_planes(), origin());
    let expected = Instance { pos: IVec3::new(0, 0, 0), kind: Texture::Stone.id() };
    for list in lists(&mesh) {
        assert_eq!(list.len(), 1);
        assert_eq!(list[0], expected);
        assert_eq!(kind_texture_id(list[0].kind), Texture::Stone.id());
        assert_eq!(kind_lod(list[0].kind), 0);
    }
    assert_eq!(mesh.len(), 6);
}

#[test]
fn flat_slab_faces() {
    let mut voxels = fill(VoxelType::Air);
    for x in 0..32 {
        for z in 0..32 {
            voxels[x][0][z] = VoxelType::Stone;
        }
    }
    let mesh = mesh_block(&voxels, &air_planes(), origin());
    assert_eq!(mesh.py.len(), 1024);
    assert_eq!(mesh.ny.len(), 1024);
    assert_eq!(mesh.nx.len(), 32);
    assert_eq!(mesh.px.len(), 32);
    assert_eq!(mesh.nz.len(), 32);
    assert_eq!(mesh.pz.len(), 32);
    assert_eq!(mesh.len(), 2048 + 128);
    for face in &mesh.nx {
        assert_eq!(face.pos.x, 0);
        assert_eq!(face.pos.y, 0);
    }
    for face in &mesh.px {
        assert_eq!(face.pos.x, 31);
    }
}

#[test]
fn full_block_has_faces_on_its_surface_only() {
    let voxels = fill(VoxelType::Dirt);
    let mesh = mesh_block(&voxels, &air_planes(), origin());
    for list in lists(&mesh) {
        assert_eq!(list.len(), 1024);
    }
    let mut planes = air_planes();
    planes[1] = [[true; 32]; 32];
    planes[4] = [[true; 32]; 32];
    let mesh = mesh_block(&voxels, &planes, origin());
    assert_eq!(mesh.nx.len(), 1024);
    assert_eq!(mesh.px.len(), 0);
    assert_eq!(mesh.nz.len(), 0);
    assert_eq!(mesh.pz.len(), 1024);
}

#[test]
fn neighbour_plane_hides_only_the_cells_it_covers() {
    let mut voxels = fill(VoxelType::Air);
    voxels[31][3][4] = VoxelType::Stone;
    voxels[31][5][6] = VoxelType::Stone;
    voxels[7][0][8] = VoxelType::Dirt;
    voxels[9][10][31] = VoxelType::CrackedStone;
    let mut planes = air_planes();
    planes[1][3][4] = true;
    planes[2][8][7] = true;
    planes[5][9][10] = true;
    let mesh = mesh_block(&voxels, &planes, origin());
    assert_eq!(mesh.px.len(), 3);
    assert!(!mesh.px.iter().any(|face| face.pos == IVec3::new(31, 3, 4)));
    assert!(mesh.px.iter().any(|face| face.pos == IVec3::new(31, 5, 6)));
    assert_eq!(mesh.ny.len(), 3);
    assert!(!mesh.ny.iter().any(|face| face.pos == IVec3::new(7, 0, 8)));
    assert_eq!(mesh.pz.len(), 3);
    assert!(!mesh.pz.iter().any(|face| face.pos == IVec3::new(9, 10, 31)));
    assert_eq!(mesh.nx.len(), 4);
    assert_eq!(mesh.py.len(), 4);
    assert_eq!(mesh.nz.len(), 4);
}

#[test]
fn interfaces_are_never_drawn_from_both_sides() {
    let voxels = Checker::new(0).gen(origin());
    let mut solid = fill(VoxelType::Air);
    for x in 0..32 {
        for y in 0..32 {
            for z in 0..32 {
                if (x / 3 + y / 5 + z / 2) % 2 == 0 {
                    solid[x][y][z] = VoxelType::Stone;
                }
            }
        }
    }
    for block in [voxels, solid] {
        let mesh = mesh_block(&block, &air_planes(), origin());
        for face in &mesh.px {
            let neighbour = IVec3::new(face.pos.x + 1, face.pos.y, face.pos.z);
            assert!(!mesh.nx.iter().any(|other| other.pos == neighbour));
            if face.pos.x < 31 {
                let (x, y, z) = (face.pos.x as usize, face.pos.y as usize, face.pos.z as usize);
                assert_eq!(block[x + 1][y][z], VoxelType::Air);
            }
        }
        for face in &mesh.py {
            let neighbour = IVec3::new(face.pos.x, face.pos.y + 1, face.pos.z);
            assert!(!mesh.ny.iter().any(|other| other.pos == neighbour));
        }
        for face in &mesh.pz {
            let neighbour = IVec3::new(face.pos.x, face.pos.y, face.pos.z + 1);
            assert!(!mesh.nz.iter().any(|other| other.pos == neighbour));
        }
    }
}

#[test]
fn meshing_twice_gives_the_same_lists() {
    let voxels = Checker::new(0).gen(origin());
    let mut planes = air_planes();
    planes[3][4][5] = true;
    let id = ChunkID::new(1, IVec3::new(-2, 3, 0));
    let first = mesh_block(&voxels, &planes, id);
    let second = mesh_block(&voxels, &planes, id);
    for (a, b) in lists(&first).iter().zip(lists(&second).iter()) {
        assert_eq!(a, b);
    }
    let first_bytes: Vec<[u8; 16]> = first.px.iter().map(|face| face.to_le_bytes()).collect();
    let second_bytes: Vec<[u8; 16]> = second.px.iter().map(|face| face.to_le_bytes()).collect();
    assert_eq!(first_bytes, second_bytes);
}

#[test]
fn faces_come_in_walking_order() {
    let mut voxels = fill(VoxelType::Air);
    voxels[2][0][0] = VoxelType::Stone;
    voxels[0][1][5] = VoxelType::Dirt;
    voxels[0][1][2] = VoxelType::Dirt;
    voxels[0][0][9] = VoxelType::CrackedStone;
    let mesh = mesh_block(&voxels, &air_planes(), origin());
    let positions: Vec<IVec3> = mesh.py.iter().map(|face| face.pos).collect();
    assert_eq!(
        positions,
        vec![
            IVec3::new(0, 0, 9),
            IVec3::new(0, 1, 2),
            IVec3::new(0, 1, 5),
            IVec3::new(2, 0, 0)
        ]
    );
    let kinds: Vec<u32> = mesh.py.iter().map(|face| face.kind).collect();
    assert_eq!(kinds, vec![0, 2, 2, 1]);
}

#[test]
fn coarse_chunk_scales_positions_and_carries_its_level() {
    let mut voxels = fill(VoxelType::Air);
    voxels[1][2][3] = VoxelType::Dirt;
    let id = ChunkID::new(3, IVec3::new(1, -1, 0));
    let mesh = mesh_block(&voxels, &air_planes(), id);
    let expected = Instance { pos: IVec3::new(256 + 8, -256 + 16, 24), kind: (3 << 16) | 2 };
    for list in lists(&mesh) {
        assert_eq!(list.len(), 1);
        assert_eq!(list[0], expected);
        assert_eq!(kind_lod(list[0].kind), 3);
        assert_eq!(kind_texture_id(list[0].kind), 2);
    }
}

#[test]
fn checkerboard_from_outside_generator() {
    let voxels = Checker::new(7).gen(origin());
    let mesh = mesh_block(&voxels, &air_planes(), origin());
    assert_eq!(mesh.px.len(), 16384);
    assert_eq!(mesh.nx.len(), 16384);
    assert_eq!(mesh.len(), 6 * 16384);
}

#[test]
fn kind_packs_texture_and_level() {
    assert_eq!(pack_kind(Texture::CrackedStone, 0), 0);
    assert_eq!(pack_kind(Texture::Stone, 0), 1);
    assert_eq!(pack_kind(Texture::Dirt, 3), 196_610);
    assert_eq!(pack_kind(Texture::Debug, 255), 0x00FF_0003);
    assert_eq!(pack_kind(Texture::Debug, 255) >> 24, 0);
    assert_eq!(kind_lod(0x00FF_0003), 255);
    assert_eq!(kind_texture_id(0x00FF_0003), 3);
    assert_eq!(Instance::new(IVec3::new(1, 2, 3), Texture::Dirt, 1).kind, 65_538);
}

#[test]
fn instance_bytes_are_little_endian() {
    let instance = Instance { pos: IVec3::new(1, -2, 0x0102_0304), kind: 0x0003_0002 };
    assert_eq!(
        instance.to_le_bytes(),
        [1, 0, 0, 0, 0xFE, 0xFF, 0xFF, 0xFF, 4, 3, 2, 1, 2, 0, 3, 0]
    );
    let least = Instance { pos: IVec3::new(i32::MIN, i32::MAX, -1), kind: u32::MAX };
    assert_eq!(
        least.to_le_bytes(),
        [0, 0, 0, 0x80, 0xFF, 0xFF, 0xFF, 0x7F, 0xFF, 0xFF, 0xFF, 0xFF, 0xFF, 0xFF, 0xFF, 0xFF]
    );
}

#[test]
fn solid_maps_pack_one_bit_per_voxel() {
    let mut voxels = fill(VoxelType::Air);
    voxels[0][1][2] = VoxelType::Stone;
    voxels[31][1][2] = VoxelType::Dirt;
    voxels[5][6][7] = VoxelType::CrackedStone;
    let x_map = get_x_aligned_solid_map(&voxels);
    let y_map = get_y_aligned_solid_map(&voxels);
    let z_map = get_z_aligned_solid_map(&voxels);
    assert_eq!(x_map[1][2], SOLID_BIT | 1);
    assert_eq!(x_map[6][7], SOLID_BIT >> 5);
    assert_eq!(y_map[2][0], SOLID_BIT >> 1);
    assert_eq!(y_map[2][31], SOLID_BIT >> 1);
    assert_eq!(y_map[7][5], SOLID_BIT >> 6);
    assert_eq!(z_map[0][1], SOLID_BIT >> 2);
    assert_eq!(z_map[5][6], SOLID_BIT >> 7);
    let maps = get_axis_aligned_solid_maps(&voxels);
    assert_eq!(maps[0], x_map);
    assert_eq!(maps[1], y_map);
    assert_eq!(maps[2], z_map);
    let set: u32 = x_map.iter().flatten().map(|row| row.count_ones()).sum();
    assert_eq!(set, 3);
}

#[test]
fn face_bitmaps_mark_uncovered_faces() {
    let mut voxels = fill(VoxelType::Air);
    voxels[3][0][0] = VoxelType::Stone;
    voxels[4][0][0] = VoxelType::Stone;
    let faces = map_visible(&voxels, &air_planes());
    assert_eq!(faces[0].0[0][0], SOLID_BIT >> 3);
    assert_eq!(faces[1].0[0][0], SOLID_BIT >> 4);
    assert_eq!(faces[2].0[0][3], SOLID_BIT);
    assert_eq!(faces[3].0[0][4], SOLID_BIT);
    assert_eq!(faces[4].0[3][0], SOLID_BIT);
    assert_eq!(faces[5].0[4][0], SOLID_BIT);
    let mesh = generate_mesh_without_cam_occ(&voxels, origin(), faces);
    assert_eq!(mesh.nx.len(), 1);
    assert_eq!(mesh.nx[0].pos, IVec3::new(3, 0, 0));
    assert_eq!(mesh.px[0].pos, IVec3::new(4, 0, 0));
    assert_eq!(mesh.py.len(), 2);
    let empty = ChunkFaces::new();
    assert!(empty.0.iter().flatten().all(|row| *row == 0));
}

#[test]
fn meshes_are_joined_direction_by_direction() {
    let mut first = Mesh::new();
    first.add_nx(IVec3::new(1, 0, 0), Texture::Stone, 0);
    first.add_py(IVec3::new(2, 0, 0), Texture::Dirt, 1);
    let mut second = Mesh::with_capacity(4);
    second.add_nx(IVec3::new(3, 0, 0), Texture::Dirt, 0);
    second.add_pz(IVec3::new(4, 0, 0), Texture::CrackedStone, 2);
    second.add_px(IVec3::new(5, 0, 0), Texture::Debug, 0);
    second.add_ny(IVec3::new(6, 0, 0), Texture::Debug, 0);
    second.add_nz(IVec3::new(7, 0, 0), Texture::Debug, 0);
    let sum = first.clone().add(second.clone());
    assert_eq!(sum.nx.iter().map(|face| face.pos.x).collect::<Vec<i32>>(), vec![1, 3]);
    assert_eq!(sum.py, first.py);
    assert_eq!(sum.pz, second.pz);
    assert_eq!(sum.len(), 7);
    first.add_assign(second);
    assert_eq!(first.nx, sum.nx);
    assert_eq!(first.px, sum.px);
    assert_eq!(first.len(), 7);
}

#[test]
fn debug_cube_marks_all_six_directions() {
    let mut mesh = Mesh::new();
    mesh.debug_cube(IVec3::new(32, 64, -32), 6);
    let mark = Instance { pos: IVec3::new(32, 64, -32), kind: (6 << 16) | 3 };
    for list in lists(&mesh) {
        assert_eq!(list[..], [mark]);
    }
}

#[test]
fn unit_quad_template() {
    assert_eq!(Vertex::vertices(), [Vertex(0), Vertex(1), Vertex(2), Vertex(3)]);
    assert_eq!(Vertex::indices(), [0, 1, 2, 0, 2, 3]);
}
