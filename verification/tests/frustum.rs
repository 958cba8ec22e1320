use voxeled::chunk_id::{chunk_overlaps, ChunkID, IVec3, MAX_LOD};
use voxeled::frustum::{
    candidate, center_distance_squared, cube, lod_level_at, offer, outside_frustum,
    sort_nearest_first, Frustum, Plane,
};

fn id(lod: u8, x: i32, y: i32, z: i32) -> ChunkID {
    ChunkID::new(lod, IVec3::new(x, y, z))
}

/// The six planes that bound the box between two corners, both included.
fn box_planes(lo: IVec3, hi: IVec3) -> [Plane; 6] {
    [
        Plane { normal: IVec3::new(1, 0, 0), offset: -(lo.x as i64) },
        Plane { normal: IVec3::new(-1, 0, 0), offset: hi.x as i64 },
        Plane { normal: IVec3::new(0, 1, 0), offset: -(lo.y as i64) },
        Plane { normal: IVec3::new(0, -1, 0), offset: hi.y as i64 },
        Plane { normal: IVec3::new(0, 0, 1), offset: -(lo.z as i64) },
        Plane { normal: IVec3::new(0, 0, -1), offset: hi.z as i64 },
    ]
}

fn corridor() -> Frustum {
    Frustum {
        cam_pos: IVec3::new(0, 0, 0),
        planes: box_planes(IVec3::new(0, -16, -16), IVec3::new(48 * 32, 16, 16)),
        render_distance: 48,
        full_detail_range: 5,
        max_chunks: 100_000,
    }
}

#[test]
fn lod_bands_double() {
    let cam = IVec3::new(0, 0, 0);
    assert_eq!(lod_level_at(cam, IVec3::new(0, 0, 0), 5), 0);
    assert_eq!(lod_level_at(cam, IVec3::new(4, 0, 0), 5), 0);
    assert_eq!(lod_level_at(cam, IVec3::new(5, 0, 0), 5), 0);
    assert_eq!(lod_level_at(cam, IVec3::new(3, 4, 0), 5), 0);
    assert_eq!(lod_level_at(cam, IVec3::new(3, 4, 1), 5), 1);
    assert_eq!(lod_level_at(cam, IVec3::new(6, 0, 0), 5), 1);
    assert_eq!(lod_level_at(cam, IVec3::new(0, -10, 0), 5), 1);
    assert_eq!(lod_level_at(cam, IVec3::new(0, 0, 11), 5), 2);
    assert_eq!(lod_level_at(cam, IVec3::new(40, 0, 0), 5), 3);
    assert_eq!(lod_level_at(cam, IVec3::new(41, 0, 0), 5), 4);
    assert_eq!(lod_level_at(cam, IVec3::new(640, 0, 0), 5), 7);
    assert_eq!(lod_level_at(cam, IVec3::new(641, 0, 0), 5), MAX_LOD);
    assert_eq!(lod_level_at(cam, IVec3::new(i32::MAX, i32::MIN, i32::MAX), 5), MAX_LOD);
    assert_eq!(lod_level_at(IVec3::new(10, 10, 10), IVec3::new(14, 10, 10), 5), 0);
    assert_eq!(lod_level_at(cam, IVec3::new(1, 0, 0), 0), MAX_LOD);
    assert_eq!(lod_level_at(cam, cam, 0), 0);
    assert_eq!(lod_level_at(cam, IVec3::new(i32::MAX, 0, 0), u32::MAX), 0);
}

#[test]
fn candidate_is_the_position_at_its_level() {
    let cam = IVec3::new(0, 0, 0);
    assert_eq!(candidate(cam, IVec3::new(4, 0, 0), 5), id(0, 4, 0, 0));
    assert_eq!(candidate(cam, IVec3::new(40, 0, 0), 5), id(3, 5, 0, 0));
    assert_eq!(candidate(cam, IVec3::new(-40, 3, -1), 5), id(4, -3, 0, -1));
    assert_eq!(candidate(cam, IVec3::new(-7, 0, 0), 5), id(1, -4, 0, 0));
}

#[test]
fn region_outside_one_plane_is_outside() {
    let planes = box_planes(IVec3::new(0, 0, 0), IVec3::new(100, 100, 100));
    assert!(!outside_frustum(&planes, id(0, 0, 0, 0)));
    assert!(!outside_frustum(&planes, id(0, -1, -1, -1)));
    assert!(outside_frustum(&planes, id(0, -2, 0, 0)));
    assert!(!outside_frustum(&planes, id(0, 3, 3, 3)));
    assert!(outside_frustum(&planes, id(0, 4, 0, 0)));
    assert!(!outside_frustum(&planes, id(3, 0, 0, 0)));
    assert!(!outside_frustum(&planes, id(3, -1, 0, 0)));
    assert!(outside_frustum(&planes, id(3, 1, 0, 0)));
    let slanted = [Plane { normal: IVec3::new(1, -1, 0), offset: -1 }; 6];
    assert!(outside_frustum(&slanted, id(0, 0, 1, 0)));
    assert!(!outside_frustum(&slanted, id(0, 1, 0, 0)));
    assert!(!outside_frustum(&slanted, id(0, 0, 0, 0)));
}

#[test]
fn distance_is_measured_to_the_centre() {
    let cam = IVec3::new(0, 0, 0);
    assert_eq!(center_distance_squared(cam, id(0, 0, 0, 0)), 768);
    assert_eq!(center_distance_squared(cam, id(0, -1, -1, -1)), 768);
    assert_eq!(center_distance_squared(cam, id(1, 0, 0, 0)), 3 * 32 * 32);
    assert_eq!(center_distance_squared(IVec3::new(16, 16, 16), id(0, 1, 0, 0)), 1024);
    assert_eq!(
        center_distance_squared(IVec3::new(i32::MAX, i32::MAX, i32::MAX), id(0, -67_108_864, 0, 0)),
        (i32::MAX as i128 + 2_147_483_632).pow(2) + 2 * (i32::MAX as i128 - 16).pow(2)
    );
}

#[test]
fn sorting_is_nearest_first_and_stable() {
    let cam = IVec3::new(16, 16, 16);
    let list = vec![id(0, 3, 0, 0), id(0, 0, 2, 0), id(0, 0, 0, 0), id(0, 0, 0, -2), id(0, 1, 0, 0)];
    let sorted = sort_nearest_first(&list, cam);
    assert_eq!(
        sorted,
        vec![id(0, 0, 0, 0), id(0, 1, 0, 0), id(0, 0, 2, 0), id(0, 0, 0, -2), id(0, 3, 0, 0)]
    );
    assert_eq!(sort_nearest_first(&Vec::new(), cam), Vec::new());
}

#[test]
fn offers_keep_the_list_free_of_overlaps() {
    let mut list = Vec::new();
    offer(&mut list, id(0, 0, 0, 0));
    offer(&mut list, id(0, 1, 0, 0));
    offer(&mut list, id(0, 2, 0, 0));
    offer(&mut list, id(0, 1, 0, 0));
    assert_eq!(list, vec![id(0, 0, 0, 0), id(0, 1, 0, 0), id(0, 2, 0, 0)]);
    offer(&mut list, id(1, 0, 0, 0));
    assert_eq!(list, vec![id(0, 2, 0, 0), id(1, 0, 0, 0)]);
    offer(&mut list, id(0, 1, 1, 1));
    assert_eq!(list, vec![id(0, 2, 0, 0), id(1, 0, 0, 0)]);
    offer(&mut list, id(3, 0, 0, 0));
    assert_eq!(list, vec![id(3, 0, 0, 0)]);
    offer(&mut list, id(3, 1, 0, 0));
    assert_eq!(list, vec![id(3, 0, 0, 0), id(3, 1, 0, 0)]);
}

#[test]
fn handoff_between_levels_of_detail() {
    let frustum = corridor();
    let ids = frustum.chunk_ids();
    assert!(ids.contains(&id(0, 4, 0, 0)));
    assert!(ids.contains(&id(0, 0, 0, 0)));
    let far = id(0, 40, 0, 0);
    let cover: Vec<&ChunkID> = ids.iter().filter(|chunk| chunk_overlaps(chunk, far)).collect();
    assert_eq!(cover.len(), 1);
    assert!(cover[0].lod >= 3);
    for i in 0..ids.len() {
        for j in 0..ids.len() {
            if i != j {
                assert!(!chunk_overlaps(&ids[i], ids[j]));
            }
        }
    }
    for pair in ids.windows(2) {
        assert!(
            center_distance_squared(frustum.cam_pos, pair[0])
                <= center_distance_squared(frustum.cam_pos, pair[1])
        );
    }
    for chunk in &ids {
        assert!(chunk.is_in_world());
        assert!(chunk.lod <= MAX_LOD);
        assert!(!outside_frustum(&frustum.planes, *chunk));
        assert!(chunk.pos.x >= -1);
    }
    for x in 0..48 {
        let cell = id(0, x, 0, 0);
        assert_eq!(ids.iter().filter(|chunk| chunk_overlaps(chunk, cell)).count(), 1);
    }
    assert_eq!(frustum.cam_chunk(), IVec3::new(0, 0, 0));
}

#[test]
fn selection_is_cut_off_after_the_nearest() {
    let mut frustum = corridor();
    let all = frustum.chunk_ids();
    assert!(all.len() > 8);
    frustum.max_chunks = 8;
    let some = frustum.chunk_ids();
    assert_eq!(some.len(), 8);
    assert_eq!(some[..], all[..8]);
    frustum.max_chunks = 0;
    assert_eq!(frustum.chunk_ids().len(), 0);
}

#[test]
fn chunks_behind_the_camera_are_never_selected() {
    let frustum = Frustum {
        cam_pos: IVec3::new(-70, 40, 1000),
        planes: box_planes(IVec3::new(-70, 0, 990), IVec3::new(200, 80, 1100)),
        render_distance: 6,
        full_detail_range: 2,
        max_chunks: 1000,
    };
    assert_eq!(frustum.cam_chunk(), IVec3::new(-3, 1, 31));
    let ids = frustum.chunk_ids();
    assert!(!ids.is_empty());
    for chunk in &ids {
        let lo = chunk.world_min();
        let size = chunk.world_size();
        assert!(lo.x + size >= -70 && lo.x <= 200);
        assert!(lo.y + size >= 0 && lo.y <= 80);
        assert!(lo.z + size >= 990 && lo.z <= 1100);
    }
}

#[test]
fn empty_view_selects_nothing() {
    let frustum = Frustum {
        cam_pos: IVec3::new(0, 0, 0),
        planes: [Plane { normal: IVec3::new(0, 0, 0), offset: -1 }; 6],
        render_distance: 3,
        full_detail_range: 5,
        max_chunks: 10,
    };
    assert_eq!(frustum.chunk_ids().len(), 0);
}

#[test]
fn cube_tiles_the_edge_length() {
    assert_eq!(cube(8, 0).len(), 512);
    assert_eq!(cube(8, 1).len(), 64);
    assert_eq!(cube(8, 3).len(), 1);
    assert_eq!(cube(8, 4).len(), 0);
    assert_eq!(cube(0, 0).len(), 0);
    assert_eq!(cube(-5, 0).len(), 0);
    let ids = cube(2, 0);
    assert_eq!(ids[0], id(0, 0, 0, 0));
    assert_eq!(ids[1], id(0, 0, 0, 1));
    assert_eq!(ids[2], id(0, 0, 1, 0));
    assert_eq!(ids[7], id(0, 1, 1, 1));
}
