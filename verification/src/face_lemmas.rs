use vstd::prelude::*;
use crate::chunk_id::ChunkID;
use crate::mesh::{Instance, Mesh};
use crate::meshing::{
    block_mesh, emit_x, emit_y, emit_z, emitted, face_instance, face_selector, has_face, in_block,
    is_block_mesh, solid_at, NeighborPlanes, Selector,
};
use crate::voxel::VoxelData3D;

verus! {

/// An interface between two voxels of a block is never drawn from both sides
/// along x: where the voxel `(x, y, z)` has a face towards positive x, its
/// neighbour `(x + 1, y, z)` has none towards negative x.
pub proof fn lemma_face_symmetry_x(
    voxels: VoxelData3D,
    planes: NeighborPlanes,
    x: int,
    y: int,
    z: int,
)
    requires
        in_block(x, y, z),
        in_block(x + 1, y, z),
    ensures
        !(has_face(voxels, planes, 1, x, y, z) && has_face(voxels, planes, 0, x + 1, y, z)),
        has_face(voxels, planes, 1, x, y, z) ==> !solid_at(voxels, x + 1, y, z),
        has_face(voxels, planes, 0, x + 1, y, z) ==> !solid_at(voxels, x, y, z),
{
}

/// An interface between two voxels of a block is never drawn from both sides
/// along y.
pub proof fn lemma_face_symmetry_y(
    voxels: VoxelData3D,
    planes: NeighborPlanes,
    x: int,
    y: int,
    z: int,
)
    requires
        in_block(x, y, z),
        in_block(x, y + 1, z),
    ensures
        !(has_face(voxels, planes, 3, x, y, z) && has_face(voxels, planes, 2, x, y + 1, z)),
        has_face(voxels, planes, 3, x, y, z) ==> !solid_at(voxels, x, y + 1, z),
        has_face(voxels, planes, 2, x, y + 1, z) ==> !solid_at(voxels, x, y, z),
{
}

/// An interface between two voxels of a block is never drawn from both sides
/// along z.
pub proof fn lemma_face_symmetry_z(
    voxels: VoxelData3D,
    planes: NeighborPlanes,
    x: int,
    y: int,
    z: int,
)
    requires
        in_block(x, y, z),
        in_block(x, y, z + 1),
    ensures
        !(has_face(voxels, planes, 5, x, y, z) && has_face(voxels, planes, 4, x, y, z + 1)),
        has_face(voxels, planes, 5, x, y, z) ==> !solid_at(voxels, x, y, z + 1),
        has_face(voxels, planes, 4, x, y, z + 1) ==> !solid_at(voxels, x, y, z),
{
}

/// The interface between two blocks that are neighbours along x is never
/// drawn from both sides, once each has been meshed with the other's boundary
/// layer as its plane.
pub proof fn lemma_seam_symmetry_x(
    low: VoxelData3D,
    low_planes: NeighborPlanes,
    high: VoxelData3D,
    high_planes: NeighborPlanes,
    y: int,
    z: int,
)
    requires
        0 <= y < 32,
        0 <= z < 32,
        low_planes[1][y][z] == solid_at(high, 0, y, z),
        high_planes[0][y][z] == solid_at(low, 31, y, z),
    ensures
        !(has_face(low, low_planes, 1, 31, y, z) && has_face(high, high_planes, 0, 0, y, z)),
{
}

/// The interface between two blocks that are neighbours along y is never
/// drawn from both sides, once each has been meshed with the other's boundary
/// layer as its plane.
pub proof fn lemma_seam_symmetry_y(
    low: VoxelData3D,
    low_planes: NeighborPlanes,
    high: VoxelData3D,
    high_planes: NeighborPlanes,
    x: int,
    z: int,
)
    requires
        0 <= x < 32,
        0 <= z < 32,
        low_planes[3][z][x] == solid_at(high, x, 0, z),
        high_planes[2][z][x] == solid_at(low, x, 31, z),
    ensures
        !(has_face(low, low_planes, 3, x, 31, z) && has_face(high, high_planes, 2, x, 0, z)),
{
}

/// The interface between two blocks that are neighbours along z is never
/// drawn from both sides, once each has been meshed with the other's boundary
/// layer as its plane.
pub proof fn lemma_seam_symmetry_z(
    low: VoxelData3D,
    low_planes: NeighborPlanes,
    high: VoxelData3D,
    high_planes: NeighborPlanes,
    x: int,
    y: int,
)
    requires
        0 <= x < 32,
        0 <= y < 32,
        low_planes[5][x][y] == solid_at(high, x, y, 0),
        high_planes[4][x][y] == solid_at(low, x, y, 31),
    ensures
        !(has_face(low, low_planes, 5, x, y, 31) && has_face(high, high_planes, 4, x, y, 0)),
{
}

/// Where a neighbour's plane is all air, every solid voxel of the boundary
/// layer towards it has a face.
pub proof fn lemma_air_plane_exposes_boundary(
    voxels: VoxelData3D,
    planes: NeighborPlanes,
    dir: int,
    x: int,
    y: int,
    z: int,
)
    requires
        0 <= dir < 6,
        in_block(x, y, z),
        forall|i: int, j: int| 0 <= i < 32 && 0 <= j < 32 ==> !(#[trigger] planes[dir][i][j]),
        dir == 0 ==> x == 0,
        dir == 1 ==> x == 31,
        dir == 2 ==> y == 0,
        dir == 3 ==> y == 31,
        dir == 4 ==> z == 0,
        dir == 5 ==> z == 31,
    ensures
        has_face(voxels, planes, dir, x, y, z) == solid_at(voxels, x, y, z),
{
    if dir == 0 || dir == 1 {
        assert(!planes[dir][y][z]);
    } else if dir == 2 || dir == 3 {
        assert(!planes[dir][z][x]);
    } else {
        assert(!planes[dir][x][y]);
    }
}

/// Two runs of the mesher on the same block, planes and id give the same six
/// lists, element by element and in the same order.
pub proof fn lemma_mesher_deterministic(
    first: Mesh,
    second: Mesh,
    voxels: VoxelData3D,
    planes: NeighborPlanes,
    id: ChunkID,
)
    requires
        is_block_mesh(first, voxels, planes, id),
        is_block_mesh(second, voxels, planes, id),
    ensures
        forall|dir: int| 0 <= dir < 6 ==> #[trigger] first.list(dir) == second.list(dir),
{
    assert forall|dir: int| 0 <= dir < 6 implies #[trigger] first.list(dir) == second.list(
        dir,
    ) by {
        assert(first.list(dir) == block_mesh(voxels, planes, id, dir));
        assert(second.list(dir) == block_mesh(voxels, planes, id, dir));
    }
}

/// Some chosen cell of the block gives the instance.
pub open spec fn emits(voxels: VoxelData3D, id: ChunkID, sel: Selector, inst: Instance) -> bool {
    exists|x: int, y: int, z: int|
        in_block(x, y, z) && sel(x, y, z) && #[trigger] face_instance(voxels, id, x, y, z) == inst
}

proof fn lemma_emit_z_holds(
    voxels: VoxelData3D,
    id: ChunkID,
    sel: Selector,
    x: int,
    y: int,
    zn: int,
    z: int,
)
    requires
        0 <= z < zn,
        sel(x, y, z),
    ensures
        emit_z(voxels, id, sel, x, y, zn).contains(face_instance(voxels, id, x, y, z)),
    decreases zn,
{
    let rest = emit_z(voxels, id, sel, x, y, zn - 1);
    if z == zn - 1 {
        let s = rest.push(face_instance(voxels, id, x, y, z));
        assert(s[s.len() - 1] == face_instance(voxels, id, x, y, z));
    } else {
        lemma_emit_z_holds(voxels, id, sel, x, y, zn - 1, z);
        let w = choose|k: int| 0 <= k < rest.len() && rest[k] == face_instance(voxels, id, x, y, z);
        if sel(x, y, zn - 1) {
            let s = rest.push(face_instance(voxels, id, x, y, zn - 1));
            assert(s[w] == face_instance(voxels, id, x, y, z));
        }
    }
}

proof fn lemma_emit_y_holds(
    voxels: VoxelData3D,
    id: ChunkID,
    sel: Selector,
    x: int,
    yn: int,
    y: int,
    z: int,
)
    requires
        0 <= y < yn,
        0 <= z < 32,
        sel(x, y, z),
    ensures
        emit_y(voxels, id, sel, x, yn).contains(face_instance(voxels, id, x, y, z)),
    decreases yn,
{
    let head = emit_y(voxels, id, sel, x, yn - 1);
    let tail = emit_z(voxels, id, sel, x, yn - 1, 32);
    let inst = face_instance(voxels, id, x, y, z);
    if y == yn - 1 {
        lemma_emit_z_holds(voxels, id, sel, x, y, 32, z);
        let w = choose|k: int| 0 <= k < tail.len() && tail[k] == inst;
        assert((head + tail)[head.len() + w] == inst);
    } else {
        lemma_emit_y_holds(voxels, id, sel, x, yn - 1, y, z);
        let w = choose|k: int| 0 <= k < head.len() && head[k] == inst;
        assert((head + tail)[w] == inst);
    }
}

proof fn lemma_emit_x_holds(
    voxels: VoxelData3D,
    id: ChunkID,
    sel: Selector,
    xn: int,
    x: int,
    y: int,
    z: int,
)
    requires
        0 <= x < xn,
        0 <= y < 32,
        0 <= z < 32,
        sel(x, y, z),
    ensures
        emit_x(voxels, id, sel, xn).contains(face_instance(voxels, id, x, y, z)),
    decreases xn,
{
    let head = emit_x(voxels, id, sel, xn - 1);
    let tail = emit_y(voxels, id, sel, xn - 1, 32);
    let inst = face_instance(voxels, id, x, y, z);
    if x == xn - 1 {
        lemma_emit_y_holds(voxels, id, sel, x, 32, y, z);
        let w = choose|k: int| 0 <= k < tail.len() && tail[k] == inst;
        assert((head + tail)[head.len() + w] == inst);
    } else {
        lemma_emit_x_holds(voxels, id, sel, xn - 1, x, y, z);
        let w = choose|k: int| 0 <= k < head.len() && head[k] == inst;
        assert((head + tail)[w] == inst);
    }
}

proof fn lemma_emit_z_from(
    voxels: VoxelData3D,
    id: ChunkID,
    sel: Selector,
    x: int,
    y: int,
    zn: int,
    inst: Instance,
)
    requires
        0 <= x < 32,
        0 <= y < 32,
        zn <= 32,
        emit_z(voxels, id, sel, x, y, zn).contains(inst),
    ensures
        emits(voxels, id, sel, inst),
    decreases zn,
{
    if zn > 0 {
        let rest = emit_z(voxels, id, sel, x, y, zn - 1);
        let all = emit_z(voxels, id, sel, x, y, zn);
        let w = choose|k: int| 0 <= k < all.len() && all[k] == inst;
        if sel(x, y, zn - 1) && w == rest.len() {
            assert(in_block(x, y, zn - 1));
            assert(face_instance(voxels, id, x, y, zn - 1) == inst);
        } else {
            assert(rest[w] == inst);
            lemma_emit_z_from(voxels, id, sel, x, y, zn - 1, inst);
        }
    }
}

proof fn lemma_emit_y_from(
    voxels: VoxelData3D,
    id: ChunkID,
    sel: Selector,
    x: int,
    yn: int,
    inst: Instance,
)
    requires
        0 <= x < 32,
        yn <= 32,
        emit_y(voxels, id, sel, x, yn).contains(inst),
    ensures
        emits(voxels, id, sel, inst),
    decreases yn,
{
    if yn > 0 {
        let head = emit_y(voxels, id, sel, x, yn - 1);
        let tail = emit_z(voxels, id, sel, x, yn - 1, 32);
        let w = choose|k: int| 0 <= k < (head + tail).len() && (head + tail)[k] == inst;
        if w < head.len() {
            assert(head[w] == inst);
            lemma_emit_y_from(voxels, id, sel, x, yn - 1, inst);
        } else {
            assert(tail[w - head.len()] == inst);
            lemma_emit_z_from(voxels, id, sel, x, yn - 1, 32, inst);
        }
    }
}

proof fn lemma_emit_x_from(voxels: VoxelData3D, id: ChunkID, sel: Selector, xn: int, inst: Instance)
    requires
        xn <= 32,
        emit_x(voxels, id, sel, xn).contains(inst),
    ensures
        emits(voxels, id, sel, inst),
    decreases xn,
{
    if xn > 0 {
        let head = emit_x(voxels, id, sel, xn - 1);
        let tail = emit_y(voxels, id, sel, xn - 1, 32);
        let w = choose|k: int| 0 <= k < (head + tail).len() && (head + tail)[k] == inst;
        if w < head.len() {
            assert(head[w] == inst);
            lemma_emit_x_from(voxels, id, sel, xn - 1, inst);
        } else {
            assert(tail[w - head.len()] == inst);
            lemma_emit_y_from(voxels, id, sel, xn - 1, 32, inst);
        }
    }
}

/// The mesher's list of a direction holds an instance exactly when some voxel
/// of the block has a face towards that direction and the instance is that
/// voxel's.
pub proof fn lemma_block_mesh_members(
    voxels: VoxelData3D,
    planes: NeighborPlanes,
    id: ChunkID,
    dir: int,
    inst: Instance,
)
    ensures
        block_mesh(voxels, planes, id, dir).contains(inst) <==> exists|x: int, y: int, z: int|
            in_block(x, y, z) && has_face(voxels, planes, dir, x, y, z) && #[trigger] face_instance(
                voxels,
                id,
                x,
                y,
                z,
            ) == inst,
{
    let sel = face_selector(voxels, planes, dir);
    if block_mesh(voxels, planes, id, dir).contains(inst) {
        lemma_emit_x_from(voxels, id, sel, 32, inst);
        let (x, y, z) = choose|x: int, y: int, z: int|
            in_block(x, y, z) && sel(x, y, z) && #[trigger] face_instance(voxels, id, x, y, z)
                == inst;
        assert(in_block(x, y, z) && has_face(voxels, planes, dir, x, y, z) && face_instance(
            voxels,
            id,
            x,
            y,
            z,
        ) == inst);
    }
    if exists|x: int, y: int, z: int|
        in_block(x, y, z) && has_face(voxels, planes, dir, x, y, z) && #[trigger] face_instance(
            voxels,
            id,
            x,
            y,
            z,
        ) == inst {
        let (x, y, z) = choose|x: int, y: int, z: int|
            in_block(x, y, z) && has_face(voxels, planes, dir, x, y, z) && #[trigger] face_instance(
                voxels,
                id,
                x,
                y,
                z,
            ) == inst;
        assert(sel(x, y, z));
        lemma_emit_x_holds(voxels, id, sel, 32, x, y, z);
        assert(emitted(voxels, id, sel).contains(inst));
    }
}

} // verus!
