use voxeled::chunk_id::{chunk_overlaps, shift_down, ChunkID, IVec3, MAX_LOD};

fn id(lod: u8, x: i32, y: i32, z: i32) -> ChunkID {
    ChunkID::new(lod, IVec3::new(x, y, z))
}

#[test]
fn shift_down_rounds_towards_negative_infinity() {
    assert_eq!(shift_down(5, 1), 2);
    assert_eq!(shift_down(-5, 1), -3);
    assert_eq!(shift_down(-1, 3), -1);
    assert_eq!(shift_down(-8, 3), -1);
    assert_eq!(shift_down(-9, 3), -2);
    assert_eq!(shift_down(7, 0), 7);
    assert_eq!(shift_down(i32::MIN, 31), -1);
    assert_eq!(shift_down(i32::MAX, 31), 0);
    assert_eq!(shift_down(i32::MIN, 200), -1);
    assert_eq!(shift_down(1, 200), 0);
}

#[test]
fn world_size_and_min() {
    assert_eq!(id(0, 0, 0, 0).world_size(), 32);
    assert_eq!(id(3, 0, 0, 0).world_size(), 256);
    assert_eq!(id(MAX_LOD, 0, 0, 0).world_size(), 8192);
    assert_eq!(id(0, 1, -1, 2).world_min(), IVec3::new(32, -32, 64));
    assert_eq!(id(2, 1, -1, 2).world_min(), IVec3::new(128, -128, 256));
    assert_eq!(id(2, 0, 0, 0).cell_size(), 4);
}

#[test]
fn cell_world_pos_scales_with_lod() {
    assert_eq!(id(0, 1, 1, 1).cell_world_pos(3, 4, 5), IVec3::new(35, 36, 37));
    assert_eq!(id(2, -1, 0, 1).cell_world_pos(1, 2, 31), IVec3::new(-124, 8, 252));
}

#[test]
fn in_world_limits() {
    assert!(id(0, 0, 0, 0).is_in_world());
    assert!(id(0, 67_108_863, 0, 0).is_in_world());
    assert!(!id(0, 67_108_864, 0, 0).is_in_world());
    assert!(id(0, -67_108_864, 0, 0).is_in_world());
    assert!(!id(0, -67_108_865, 0, 0).is_in_world());
    assert!(id(MAX_LOD, 262_143, -262_144, 0).is_in_world());
    assert!(!id(MAX_LOD, 262_144, 0, 0).is_in_world());
    assert!(!id(MAX_LOD + 1, 0, 0, 0).is_in_world());
}

#[test]
fn parent_is_one_level_coarser() {
    assert_eq!(id(0, 5, -5, 0).parent_lod(), id(1, 2, -3, 0));
    assert_eq!(id(3, -1, 1, 7).parent_lod(), id(4, -1, 0, 3));
}

#[test]
fn parent_at_the_coarsest_level_is_the_chunk_itself() {
    let top = id(MAX_LOD, 3, -4, 5);
    assert_eq!(top.parent_lod(), top);
    assert_eq!(top.parent_lod().parent_lod(), top);
}

#[test]
fn children_have_the_chunk_as_parent() {
    let chunk = id(2, -3, 4, 0);
    let children = chunk.children_lod();
    assert_eq!(children.len(), 8);
    assert_eq!(children[0], id(1, -6, 8, 0));
    assert_eq!(children[1], id(1, -6, 8, 1));
    assert_eq!(children[2], id(1, -6, 9, 0));
    assert_eq!(children[7], id(1, -5, 9, 1));
    for child in &children {
        assert_eq!(child.parent_lod(), chunk);
        assert!(chunk_overlaps(child, chunk));
        assert!(chunk_overlaps(&chunk, *child));
    }
    for i in 0..8 {
        for j in 0..8 {
            assert_eq!(chunk_overlaps(&children[i], children[j]), i == j);
        }
    }
    assert_eq!(id(0, 1, 1, 1).children_lod().len(), 0);
}

#[test]
fn overlaps_follows_the_tree() {
    assert!(chunk_overlaps(&id(0, 1, 2, 3), id(0, 1, 2, 3)));
    assert!(!chunk_overlaps(&id(0, 1, 2, 3), id(0, 1, 2, 4)));
    assert!(chunk_overlaps(&id(2, 0, 0, 0), id(0, 3, 3, 3)));
    assert!(chunk_overlaps(&id(0, 3, 3, 3), id(2, 0, 0, 0)));
    assert!(!chunk_overlaps(&id(2, 0, 0, 0), id(0, 4, 0, 0)));
    assert!(chunk_overlaps(&id(2, -1, -1, -1), id(0, -1, -4, -2)));
    assert!(!chunk_overlaps(&id(2, -1, -1, -1), id(0, -5, -1, -1)));
    assert!(chunk_overlaps(&id(1, 0, 0, 0), id(200, 0, 0, 0)));
    assert!(chunk_overlaps(&id(1, -7, 0, 0), id(200, -1, 0, 0)));
}

#[test]
fn overlap_is_containment_of_regions() {
    let coarse = id(3, -2, 1, 0);
    let lo = coarse.world_min();
    let size = coarse.world_size();
    for x in -20..20 {
        for y in 6..18 {
            let fine = id(0, x, y, 3);
            let m = fine.world_min();
            let inside = lo.x <= m.x
                && m.x + 32 <= lo.x + size
                && lo.y <= m.y
                && m.y + 32 <= lo.y + size
                && lo.z <= m.z
                && m.z + 32 <= lo.z + size;
            assert_eq!(chunk_overlaps(&coarse, fine), inside);
        }
    }
}
