use vstd::prelude::*;
use crate::chunk_id::{cell_pos, ChunkID};
use crate::mesh::{Instance, Mesh};
use crate::voxel::{voxel_at, VoxelData3D, SOLID_BIT};

verus! {

/// Solidity of a block packed along one axis: one 32-bit row for each pair of
/// the two other coordinates, the most significant bit for coordinate 0.
pub type SolidMap = [[u32; 32]; 32];

/// Solidity of the boundary layer of a neighbouring block, indexed like the
/// rows of the map of the axis that leads to the neighbour.
pub type SolidPlane = [[bool; 32]; 32];

/// Whether the bit of coordinate `a` is set in a packed row.
pub open spec fn row_bit(row: u32, a: int) -> bool {
    row & (SOLID_BIT >> (a as u32)) != 0
}

/// Whether the bit of coordinate `a` is set in row `[i][j]` of a map.
pub open spec fn map_bit(map: SolidMap, i: int, j: int, a: int) -> bool {
    row_bit(map[i][j], a)
}

pub open spec fn in_block(x: int, y: int, z: int) -> bool {
    0 <= x < 32 && 0 <= y < 32 && 0 <= z < 32
}

/// Whether the voxel at `(x, y, z)` of the block is solid.
pub open spec fn solid_at(voxels: VoxelData3D, x: int, y: int, z: int) -> bool {
    voxel_at(voxels, x, y, z).solid()
}

/// Whether cell `c1` comes before cell `c2` when a block is walked with x
/// outermost and z innermost.
pub open spec fn before(x1: int, y1: int, z1: int, x2: int, y2: int, z2: int) -> bool {
    x1 < x2 || (x1 == x2 && (y1 < y2 || (y1 == y2 && z1 < z2)))
}

/// The map of an axis holds exactly the solid voxels of the block: along x
/// the rows are `[y][z]`, along y `[z][x]`, along z `[x][y]`.
pub open spec fn map_packs(map: SolidMap, voxels: VoxelData3D, axis: int) -> bool {
    forall|x: int, y: int, z: int|
        in_block(x, y, z) ==> #[trigger] axis_bit(map, axis, x, y, z) == solid_at(voxels, x, y, z)
}

/// The bit of a map of the given axis that stands for the voxel `(x, y, z)`.
pub open spec fn axis_bit(map: SolidMap, axis: int, x: int, y: int, z: int) -> bool {
    if axis == 0 {
        map_bit(map, y, z, x)
    } else if axis == 1 {
        map_bit(map, z, x, y)
    } else {
        map_bit(map, x, y, z)
    }
}

proof fn lemma_set_bit(row: u32, a: u32, b: u32)
    requires
        a < 32,
        b < 32,
    ensures
        row_bit(row | (SOLID_BIT >> a), b as int) == (row_bit(row, b as int) || a == b),
{
    assert(((row | (0x8000_0000u32 >> a)) & (0x8000_0000u32 >> b) != 0) == ((row & (0x8000_0000u32
        >> b) != 0) || a == b)) by (bit_vector)
        requires
            a < 32,
            b < 32,
    ;
}

proof fn lemma_zero_row(b: u32)
    requires
        b < 32,
    ensures
        !row_bit(0, b as int),
{
    assert(0u32 & (0x8000_0000u32 >> b) == 0) by (bit_vector);
}

/// Sets the bit of coordinate `a` in row `[i][j]` of a map.
fn set_bit(map: &mut SolidMap, i: usize, j: usize, a: usize)
    requires
        i < 32,
        j < 32,
        a < 32,
    ensures
        forall|i2: int, j2: int, a2: int|
            0 <= i2 < 32 && 0 <= j2 < 32 && 0 <= a2 < 32 ==> #[trigger] map_bit(
                *final(map),
                i2,
                j2,
                a2,
            ) == (map_bit(*old(map), i2, j2, a2) || (i2 == i && j2 == j && a2 == a)),
{
    let row: u32 = map[i][j];
    let shift: u32 = a as u32;
    map[i][j] = row | (SOLID_BIT >> shift);
    assert forall|i2: int, j2: int, a2: int|
        0 <= i2 < 32 && 0 <= j2 < 32 && 0 <= a2 < 32 implies #[trigger] map_bit(*map, i2, j2, a2)
        == (map_bit(*old(map), i2, j2, a2) || (i2 == i && j2 == j && a2 == a)) by {
        lemma_set_bit(row, shift, a2 as u32);
    }
}

/// A map with no bit set.
fn empty_map() -> (map: SolidMap)
    ensures
        forall|i: int, j: int, a: int|
            0 <= i < 32 && 0 <= j < 32 && 0 <= a < 32 ==> !#[trigger] map_bit(map, i, j, a),
{
    let map: SolidMap = [[0u32; 32]; 32];
    assert forall|i: int, j: int, a: int|
        0 <= i < 32 && 0 <= j < 32 && 0 <= a < 32 implies !#[trigger] map_bit(map, i, j, a) by {
        lemma_zero_row(a as u32);
    }
    map
}

/// The map of an axis holds exactly the solid voxels that come before the
/// cell `(cx, cy, cz)`.
pub open spec fn map_packs_upto(
    map: SolidMap,
    voxels: VoxelData3D,
    axis: int,
    cx: int,
    cy: int,
    cz: int,
) -> bool {
    forall|x: int, y: int, z: int|
        in_block(x, y, z) ==> #[trigger] axis_bit(map, axis, x, y, z) == (before(
            x,
            y,
            z,
            cx,
            cy,
            cz,
        ) && solid_at(voxels, x, y, z))
}

/// Packs the solidity of a block along one axis: 0 for x, 1 for y, 2 for z.
fn aligned_solid_map(voxels: &VoxelData3D, axis: usize) -> (map: SolidMap)
    requires
        axis < 3,
    ensures
        map_packs(map, *voxels, axis as int),
{
    let mut map = empty_map();
    let mut x: usize = 0;
    while x < 32
        invariant
            x <= 32,
            axis < 3,
            map_packs_upto(map, *voxels, axis as int, x as int, 0, 0),
        decreases 32 - x,
    {
        let mut y: usize = 0;
        while y < 32
            invariant
                x < 32,
                y <= 32,
                axis < 3,
                map_packs_upto(map, *voxels, axis as int, x as int, y as int, 0),
            decreases 32 - y,
        {
            let mut z: usize = 0;
            while z < 32
                invariant
                    x < 32,
                    y < 32,
                    z <= 32,
                    axis < 3,
                    map_packs_upto(map, *voxels, axis as int, x as int, y as int, z as int),
                decreases 32 - z,
            {
                let ghost prev = map;
                if voxels[x][y][z].is_solid_u32() > 0 {
                    if axis == 0 {
                        set_bit(&mut map, y, z, x);
                    } else if axis == 1 {
                        set_bit(&mut map, z, x, y);
                    } else {
                        set_bit(&mut map, x, y, z);
                    }
                }
                assert forall|x2: int, y2: int, z2: int| in_block(x2, y2, z2) implies #[trigger] axis_bit(
                    map,
                    axis as int,
                    x2,
                    y2,
                    z2,
                ) == (before(x2, y2, z2, x as int, y as int, z + 1) && solid_at(
                    *voxels,
                    x2,
                    y2,
                    z2,
                )) by {
                    assert(axis_bit(prev, axis as int, x2, y2, z2) == (before(
                        x2,
                        y2,
                        z2,
                        x as int,
                        y as int,
                        z as int,
                    ) && solid_at(*voxels, x2, y2, z2)));
                }
                z += 1;
            }
            y += 1;
        }
        x += 1;
    }
    map
}

/// Packs the solidity of a block along x: bit `x` of row `[y][z]` is set
/// exactly where the voxel `(x, y, z)` is solid.
pub fn get_x_aligned_solid_map(voxels: &VoxelData3D) -> (map: SolidMap)
    ensures
        map_packs(map, *voxels, 0),
{
    aligned_solid_map(voxels, 0)
}

/// Packs the solidity of a block along y: bit `y` of row `[z][x]` is set
/// exactly where the voxel `(x, y, z)` is solid.
pub fn get_y_aligned_solid_map(voxels: &VoxelData3D) -> (map: SolidMap)
    ensures
        map_packs(map, *voxels, 1),
{
    aligned_solid_map(voxels, 1)
}

/// Packs the solidity of a block along z: bit `z` of row `[x][y]` is set
/// exactly where the voxel `(x, y, z)` is solid.
pub fn get_z_aligned_solid_map(voxels: &VoxelData3D) -> (map: SolidMap)
    ensures
        map_packs(map, *voxels, 2),
{
    aligned_solid_map(voxels, 2)
}

/// The three packed maps of a block, along x, y and z in this order.
pub fn get_axis_aligned_solid_maps(voxels: &VoxelData3D) -> (maps: [SolidMap; 3])
    ensures
        forall|axis: int| 0 <= axis < 3 ==> map_packs(#[trigger] maps[axis], *voxels, axis),
{
    let x_aligned = aligned_solid_map(voxels, 0);
    let y_aligned = aligned_solid_map(voxels, 1);
    let z_aligned = aligned_solid_map(voxels, 2);
    [x_aligned, y_aligned, z_aligned]
}

/// For each of the six directions, a bitmap in which a bit is set where a
/// face towards that direction is not covered. The rows of a direction are
/// laid out like the map of its axis.
#[derive(Debug, Clone, Copy, PartialEq)]
pub struct ChunkFaces(pub [[u32; 32]; 32]);

impl ChunkFaces {
    /// A bitmap without faces.
    pub fn new() -> (r: Self)
        ensures
            forall|i: int, j: int, a: int|
                0 <= i < 32 && 0 <= j < 32 && 0 <= a < 32 ==> !#[trigger] map_bit(r.0, i, j, a),
    {
        ChunkFaces(empty_map())
    }
}

/// The boundary planes of the six neighbours: towards negative and positive
/// x, y and z, in this order.
pub type NeighborPlanes = [SolidPlane; 6];

/// Whether the voxel next to `(x, y, z)` in direction `dir` is solid. Beyond
/// the block's boundary the neighbour's plane decides.
pub open spec fn neighbor_solid(
    voxels: VoxelData3D,
    planes: NeighborPlanes,
    dir: int,
    x: int,
    y: int,
    z: int,
) -> bool {
    if dir == 0 {
        if x == 0 {
            planes[0][y][z]
        } else {
            solid_at(voxels, x - 1, y, z)
        }
    } else if dir == 1 {
        if x == 31 {
            planes[1][y][z]
        } else {
            solid_at(voxels, x + 1, y, z)
        }
    } else if dir == 2 {
        if y == 0 {
            planes[2][z][x]
        } else {
            solid_at(voxels, x, y - 1, z)
        }
    } else if dir == 3 {
        if y == 31 {
            planes[3][z][x]
        } else {
            solid_at(voxels, x, y + 1, z)
        }
    } else if dir == 4 {
        if z == 0 {
            planes[4][x][y]
        } else {
            solid_at(voxels, x, y, z - 1)
        }
    } else {
        if z == 31 {
            planes[5][x][y]
        } else {
            solid_at(voxels, x, y, z + 1)
        }
    }
}

/// A face is drawn on the side `dir` of the voxel `(x, y, z)` exactly when
/// the voxel is solid and its neighbour on that side is not.
pub open spec fn has_face(
    voxels: VoxelData3D,
    planes: NeighborPlanes,
    dir: int,
    x: int,
    y: int,
    z: int,
) -> bool {
    solid_at(voxels, x, y, z) && !neighbor_solid(voxels, planes, dir, x, y, z)
}

/// The bit of the bitmap of direction `dir` that stands for `(x, y, z)`.
pub open spec fn face_bit(faces: [ChunkFaces; 6], dir: int, x: int, y: int, z: int) -> bool {
    axis_bit(faces[dir].0, dir / 2, x, y, z)
}

/// The bitmaps hold exactly the faces of the block.
pub open spec fn faces_match(
    faces: [ChunkFaces; 6],
    voxels: VoxelData3D,
    planes: NeighborPlanes,
) -> bool {
    forall|dir: int, x: int, y: int, z: int|
        0 <= dir < 6 && in_block(x, y, z) ==> #[trigger] face_bit(faces, dir, x, y, z) == has_face(
            voxels,
            planes,
            dir,
            x,
            y,
            z,
        )
}

/// The bit next to coordinate `a` in row `[i][j]`: the one above it when
/// `high`, else the one below; beyond the row's end, the plane's entry.
pub open spec fn adjacent_bit(
    map: SolidMap,
    plane: SolidPlane,
    high: bool,
    i: int,
    j: int,
    a: int,
) -> bool {
    if high {
        if a == 31 {
            plane[i][j]
        } else {
            map_bit(map, i, j, a + 1)
        }
    } else {
        if a == 0 {
            plane[i][j]
        } else {
            map_bit(map, i, j, a - 1)
        }
    }
}

proof fn lemma_low_face_row(row: u32, nb: u32, a: u32, p: u32)
    requires
        a < 32,
        nb == 0 || nb == SOLID_BIT,
        a > 0 ==> p + 1 == a,
    ensures
        row_bit(row & !((row >> 1) | nb), a as int) == (row_bit(row, a as int) && !(if a == 0 {
            nb != 0
        } else {
            row_bit(row, p as int)
        })),
{
    assert((((row & !((row >> 1) | nb)) & (0x8000_0000u32 >> a)) != 0) == (((row & (0x8000_0000u32
        >> a)) != 0) && !(if a == 0 {
        nb != 0
    } else {
        (row & (0x8000_0000u32 >> p)) != 0
    }))) by (bit_vector)
        requires
            a < 32,
            nb == 0 || nb == 0x8000_0000u32,
            a > 0 ==> p + 1 == a,
    ;
}

proof fn lemma_high_face_row(row: u32, nb: u32, a: u32, n: u32)
    requires
        a < 32,
        nb == 0 || nb == 1,
        a < 31 ==> n == a + 1,
    ensures
        row_bit(row & !((row << 1) | nb), a as int) == (row_bit(row, a as int) && !(if a == 31 {
            nb != 0
        } else {
            row_bit(row, n as int)
        })),
{
    assert((((row & !((row << 1) | nb)) & (0x8000_0000u32 >> a)) != 0) == (((row & (0x8000_0000u32
        >> a)) != 0) && !(if a == 31 {
        nb != 0
    } else {
        (row & (0x8000_0000u32 >> n)) != 0
    }))) by (bit_vector)
        requires
            a < 32,
            nb == 0 || nb == 1,
            a < 31 ==> n == a + 1,
    ;
}

/// The uncovered faces of one direction: a bit stays where the map has it and
/// the adjacent bit, towards the direction, is clear.
fn face_map(map: &SolidMap, plane: &SolidPlane, high: bool) -> (faces: ChunkFaces)
    ensures
        forall|i: int, j: int, a: int|
            0 <= i < 32 && 0 <= j < 32 && 0 <= a < 32 ==> #[trigger] map_bit(faces.0, i, j, a) == (
            map_bit(*map, i, j, a) && !adjacent_bit(*map, *plane, high, i, j, a)),
{
    let mut rows: SolidMap = [[0u32; 32]; 32];
    let mut i: usize = 0;
    while i < 32
        invariant
            i <= 32,
            forall|i2: int, j2: int, a2: int|
                0 <= i2 < i && 0 <= j2 < 32 && 0 <= a2 < 32 ==> #[trigger] map_bit(rows, i2, j2, a2)
                    == (map_bit(*map, i2, j2, a2) && !adjacent_bit(*map, *plane, high, i2, j2, a2)),
        decreases 32 - i,
    {
        let mut j: usize = 0;
        while j < 32
            invariant
                i < 32,
                j <= 32,
                forall|i2: int, j2: int, a2: int|
                    0 <= i2 < 32 && 0 <= j2 < 32 && 0 <= a2 < 32 && (i2 < i || (i2 == i && j2 < j))
                        ==> #[trigger] map_bit(rows, i2, j2, a2) == (map_bit(*map, i2, j2, a2)
                        && !adjacent_bit(*map, *plane, high, i2, j2, a2)),
            decreases 32 - j,
        {
            let row: u32 = map[i][j];
            let covered: bool = plane[i][j];
            let ghost prev = rows;
            if high {
                let nb: u32 = if covered {
                    1
                } else {
                    0
                };
                rows[i][j] = row & !((row << 1) | nb);
                assert forall|a2: int| 0 <= a2 < 32 implies #[trigger] map_bit(
                    rows,
                    i as int,
                    j as int,
                    a2,
                ) == (map_bit(*map, i as int, j as int, a2) && !adjacent_bit(
                    *map,
                    *plane,
                    high,
                    i as int,
                    j as int,
                    a2,
                )) by {
                    lemma_high_face_row(row, nb, a2 as u32, (a2 + 1) as u32);
                }
            } else {
                let nb: u32 = if covered {
                    SOLID_BIT
                } else {
                    0
                };
                rows[i][j] = row & !((row >> 1) | nb);
                assert forall|a2: int| 0 <= a2 < 32 implies #[trigger] map_bit(
                    rows,
                    i as int,
                    j as int,
                    a2,
                ) == (map_bit(*map, i as int, j as int, a2) && !adjacent_bit(
                    *map,
                    *plane,
                    high,
                    i as int,
                    j as int,
                    a2,
                )) by {
                    lemma_low_face_row(row, nb, a2 as u32, (a2 - 1) as u32);
                }
            }
            assert forall|i2: int, j2: int, a2: int|
                0 <= i2 < 32 && 0 <= j2 < 32 && 0 <= a2 < 32 && (i2 < i || (i2 == i && j2 < j + 1))
                implies #[trigger] map_bit(rows, i2, j2, a2) == (map_bit(*map, i2, j2, a2)
                && !adjacent_bit(*map, *plane, high, i2, j2, a2)) by {
                if !(i2 == i && j2 == j) {
                    assert(map_bit(rows, i2, j2, a2) == map_bit(prev, i2, j2, a2));
                }
            }
            j += 1;
        }
        i += 1;
    }
    ChunkFaces(rows)
}

/// The uncovered faces of a block, by direction, from its voxels and the
/// boundary planes of its six neighbours.
pub fn map_visible(voxels: &VoxelData3D, planes: &NeighborPlanes) -> (faces: [ChunkFaces; 6])
    ensures
        faces_match(faces, *voxels, *planes),
{
    let maps = get_axis_aligned_solid_maps(voxels);
    let faces = [
        face_map(&maps[0], &planes[0], false),
        face_map(&maps[0], &planes[1], true),
        face_map(&maps[1], &planes[2], false),
        face_map(&maps[1], &planes[3], true),
        face_map(&maps[2], &planes[4], false),
        face_map(&maps[2], &planes[5], true),
    ];
    assert forall|dir: int, x: int, y: int, z: int|
        0 <= dir < 6 && in_block(x, y, z) implies #[trigger] face_bit(faces, dir, x, y, z)
        == has_face(*voxels, *planes, dir, x, y, z) by {
        let axis = dir / 2;
        assert(map_packs(maps[axis], *voxels, axis));
        assert(axis_bit(maps[axis], axis, x, y, z) == solid_at(*voxels, x, y, z));
        if dir == 0 && x > 0 {
            assert(axis_bit(maps[0], 0, x - 1, y, z) == solid_at(*voxels, x - 1, y, z));
        }
        if dir == 1 && x < 31 {
            assert(axis_bit(maps[0], 0, x + 1, y, z) == solid_at(*voxels, x + 1, y, z));
        }
        if dir == 2 && y > 0 {
            assert(axis_bit(maps[1], 1, x, y - 1, z) == solid_at(*voxels, x, y - 1, z));
        }
        if dir == 3 && y < 31 {
            assert(axis_bit(maps[1], 1, x, y + 1, z) == solid_at(*voxels, x, y + 1, z));
        }
        if dir == 4 && z > 0 {
            assert(axis_bit(maps[2], 2, x, y, z - 1) == solid_at(*voxels, x, y, z - 1));
        }
        if dir == 5 && z < 31 {
            assert(axis_bit(maps[2], 2, x, y, z + 1) == solid_at(*voxels, x, y, z + 1));
        }
    }
    faces
}

/// The instance drawn for a face of the voxel `(x, y, z)`: its world position,
/// the texture of its material and the chunk's level of detail.
pub open spec fn face_instance(voxels: VoxelData3D, id: ChunkID, x: int, y: int, z: int) -> Instance {
    Instance::of(cell_pos(id, x, y, z), voxel_at(voxels, x, y, z).texture_spec(), id.lod)
}

/// A choice of cells of a block.
pub type Selector = spec_fn(int, int, int) -> bool;

/// The instances of the chosen cells `(x, y, 0..zn)`, by rising z.
pub open spec fn emit_z(
    voxels: VoxelData3D,
    id: ChunkID,
    sel: Selector,
    x: int,
    y: int,
    zn: int,
) -> Seq<Instance>
    decreases zn,
{
    if zn <= 0 {
        Seq::empty()
    } else if sel(x, y, zn - 1) {
        emit_z(voxels, id, sel, x, y, zn - 1).push(face_instance(voxels, id, x, y, zn - 1))
    } else {
        emit_z(voxels, id, sel, x, y, zn - 1)
    }
}

/// The instances of the chosen cells `(x, 0..yn, 0..32)`, by rising y, then z.
pub open spec fn emit_y(voxels: VoxelData3D, id: ChunkID, sel: Selector, x: int, yn: int) -> Seq<
    Instance,
>
    decreases yn,
{
    if yn <= 0 {
        Seq::empty()
    } else {
        emit_y(voxels, id, sel, x, yn - 1) + emit_z(voxels, id, sel, x, yn - 1, 32)
    }
}

/// The instances of the chosen cells `(0..xn, 0..32, 0..32)`, by rising x,
/// then y, then z.
pub open spec fn emit_x(voxels: VoxelData3D, id: ChunkID, sel: Selector, xn: int) -> Seq<Instance>
    decreases xn,
{
    if xn <= 0 {
        Seq::empty()
    } else {
        emit_x(voxels, id, sel, xn - 1) + emit_y(voxels, id, sel, xn - 1, 32)
    }
}

/// The instances of all chosen cells of a block, in the order in which the
/// block is walked: x outermost, z innermost.
pub open spec fn emitted(voxels: VoxelData3D, id: ChunkID, sel: Selector) -> Seq<Instance> {
    emit_x(voxels, id, sel, 32)
}

/// The cells whose bit is set in a map of the given axis.
pub open spec fn map_selector(map: SolidMap, axis: int) -> Selector {
    |x: int, y: int, z: int| axis_bit(map, axis, x, y, z)
}

/// The cells that have a face towards `dir` according to the bitmaps.
pub open spec fn bitmap_selector(faces: [ChunkFaces; 6], dir: int) -> Selector {
    map_selector(faces[dir].0, dir / 2)
}

/// The cells that have a face towards `dir`.
pub open spec fn face_selector(voxels: VoxelData3D, planes: NeighborPlanes, dir: int) -> Selector {
    |x: int, y: int, z: int| has_face(voxels, planes, dir, x, y, z)
}

/// Every bit of the map stands for a solid voxel.
pub open spec fn within_solid(map: SolidMap, axis: int, voxels: VoxelData3D) -> bool {
    forall|x: int, y: int, z: int|
        in_block(x, y, z) && #[trigger] axis_bit(map, axis, x, y, z) ==> solid_at(voxels, x, y, z)
}

/// The instances of one direction, from that direction's bitmap.
fn emit_direction(voxels: &VoxelData3D, id: ChunkID, map: &SolidMap, axis: usize) -> (out: Vec<
    Instance,
>)
    requires
        axis < 3,
        id.in_world(),
        within_solid(*map, axis as int, *voxels),
    ensures
        out@ == emitted(*voxels, id, map_selector(*map, axis as int)),
{
    let ghost sel = map_selector(*map, axis as int);
    let mut out: Vec<Instance> = Vec::new();
    let mut x: usize = 0;
    while x < 32
        invariant
            x <= 32,
            axis < 3,
            id.in_world(),
            within_solid(*map, axis as int, *voxels),
            sel == map_selector(*map, axis as int),
            out@ == emit_x(*voxels, id, sel, x as int),
        decreases 32 - x,
    {
        let ghost done_x = out@;
        let mut y: usize = 0;
        while y < 32
            invariant
                x < 32,
                y <= 32,
                axis < 3,
                id.in_world(),
                within_solid(*map, axis as int, *voxels),
                sel == map_selector(*map, axis as int),
                done_x == emit_x(*voxels, id, sel, x as int),
                out@ == done_x + emit_y(*voxels, id, sel, x as int, y as int),
            decreases 32 - y,
        {
            let ghost done_y = out@;
            let mut z: usize = 0;
            while z < 32
                invariant
                    x < 32,
                    y < 32,
                    z <= 32,
                    axis < 3,
                    id.in_world(),
                    within_solid(*map, axis as int, *voxels),
                    sel == map_selector(*map, axis as int),
                    out@ == done_y + emit_z(*voxels, id, sel, x as int, y as int, z as int),
                decreases 32 - z,
            {
                let row: u32 = if axis == 0 {
                    map[y][z]
                } else if axis == 1 {
                    map[z][x]
                } else {
                    map[x][y]
                };
                let a: u32 = if axis == 0 {
                    x as u32
                } else if axis == 1 {
                    y as u32
                } else {
                    z as u32
                };
                let ghost before_push = out@;
                assert(sel(x as int, y as int, z as int) == axis_bit(
                    *map,
                    axis as int,
                    x as int,
                    y as int,
                    z as int,
                ));
                if row & (SOLID_BIT >> a) != 0 {
                    let pos = id.cell_world_pos(x, y, z);
                    let voxel = voxels[x][y][z];
                    assert(solid_at(*voxels, x as int, y as int, z as int));
                    out.push(Instance::new(pos, voxel.texture(), id.lod));
                    assert(out@ == done_y + emit_z(
                        *voxels,
                        id,
                        sel,
                        x as int,
                        y as int,
                        z as int + 1,
                    ));
                }
                z += 1;
            }
            assert(out@ == done_x + emit_y(*voxels, id, sel, x as int, y as int + 1));
            y += 1;
        }
        x += 1;
    }
    out
}

/// The bitmaps set a bit only where the voxel is solid.
pub open spec fn faces_within_solid(faces: [ChunkFaces; 6], voxels: VoxelData3D) -> bool {
    forall|dir: int| 0 <= dir < 6 ==> within_solid(#[trigger] faces[dir].0, dir / 2, voxels)
}

/// The six instance lists of a chunk from its face bitmaps: for each
/// direction, one instance for each set bit, in the order in which the block
/// is walked.
pub fn generate_mesh_without_cam_occ(
    voxels: &VoxelData3D,
    chunk_id: ChunkID,
    faces: [ChunkFaces; 6],
) -> (mesh: Mesh)
    requires
        chunk_id.in_world(),
        faces_within_solid(faces, *voxels),
    ensures
        forall|dir: int|
            0 <= dir < 6 ==> #[trigger] mesh.list(dir) == emitted(
                *voxels,
                chunk_id,
                bitmap_selector(faces, dir),
            ),
{
    assert(within_solid(faces[0].0, 0, *voxels));
    assert(within_solid(faces[1].0, 1int / 2, *voxels));
    assert(within_solid(faces[2].0, 2int / 2, *voxels));
    assert(within_solid(faces[3].0, 3int / 2, *voxels));
    assert(within_solid(faces[4].0, 4int / 2, *voxels));
    assert(within_solid(faces[5].0, 5int / 2, *voxels));
    Mesh {
        nx: emit_direction(voxels, chunk_id, &faces[0].0, 0),
        px: emit_direction(voxels, chunk_id, &faces[1].0, 0),
        ny: emit_direction(voxels, chunk_id, &faces[2].0, 1),
        py: emit_direction(voxels, chunk_id, &faces[3].0, 1),
        nz: emit_direction(voxels, chunk_id, &faces[4].0, 2),
        pz: emit_direction(voxels, chunk_id, &faces[5].0, 2),
    }
}

/// Two choices that agree on every cell of the block give the same instances.
pub proof fn lemma_emitted_agree(voxels: VoxelData3D, id: ChunkID, s1: Selector, s2: Selector)
    requires
        forall|x: int, y: int, z: int| in_block(x, y, z) ==> s1(x, y, z) == s2(x, y, z),
    ensures
        emitted(voxels, id, s1) == emitted(voxels, id, s2),
{
    lemma_emit_x_agree(voxels, id, s1, s2, 32);
}

proof fn lemma_emit_x_agree(voxels: VoxelData3D, id: ChunkID, s1: Selector, s2: Selector, xn: int)
    requires
        xn <= 32,
        forall|x: int, y: int, z: int| in_block(x, y, z) ==> s1(x, y, z) == s2(x, y, z),
    ensures
        emit_x(voxels, id, s1, xn) == emit_x(voxels, id, s2, xn),
    decreases xn,
{
    if xn > 0 {
        lemma_emit_x_agree(voxels, id, s1, s2, xn - 1);
        lemma_emit_y_agree(voxels, id, s1, s2, xn - 1, 32);
    }
}

proof fn lemma_emit_y_agree(
    voxels: VoxelData3D,
    id: ChunkID,
    s1: Selector,
    s2: Selector,
    x: int,
    yn: int,
)
    requires
        0 <= x < 32,
        yn <= 32,
        forall|x: int, y: int, z: int| in_block(x, y, z) ==> s1(x, y, z) == s2(x, y, z),
    ensures
        emit_y(voxels, id, s1, x, yn) == emit_y(voxels, id, s2, x, yn),
    decreases yn,
{
    if yn > 0 {
        lemma_emit_y_agree(voxels, id, s1, s2, x, yn - 1);
        lemma_emit_z_agree(voxels, id, s1, s2, x, yn - 1, 32);
    }
}

proof fn lemma_emit_z_agree(
    voxels: VoxelData3D,
    id: ChunkID,
    s1: Selector,
    s2: Selector,
    x: int,
    y: int,
    zn: int,
)
    requires
        0 <= x < 32,
        0 <= y < 32,
        zn <= 32,
        forall|x: int, y: int, z: int| in_block(x, y, z) ==> s1(x, y, z) == s2(x, y, z),
    ensures
        emit_z(voxels, id, s1, x, y, zn) == emit_z(voxels, id, s2, x, y, zn),
    decreases zn,
{
    if zn > 0 {
        lemma_emit_z_agree(voxels, id, s1, s2, x, y, zn - 1);
        assert(in_block(x, y, zn - 1));
    }
}

/// The instances that the mesher emits towards `dir` for a block with the
/// given neighbour planes: one for each face, in the order in which the block
/// is walked.
pub open spec fn block_mesh(
    voxels: VoxelData3D,
    planes: NeighborPlanes,
    id: ChunkID,
    dir: int,
) -> Seq<Instance> {
    emitted(voxels, id, face_selector(voxels, planes, dir))
}

/// The mesh holds, for each direction, exactly the mesher's output.
pub open spec fn is_block_mesh(
    mesh: Mesh,
    voxels: VoxelData3D,
    planes: NeighborPlanes,
    id: ChunkID,
) -> bool {
    forall|dir: int| 0 <= dir < 6 ==> #[trigger] mesh.list(dir) == block_mesh(voxels, planes, id, dir)
}

/// The face-culling mesher: the six instance lists of a block, given the
/// boundary planes of its six neighbours.
pub fn mesh_block(voxels: &VoxelData3D, planes: &NeighborPlanes, id: ChunkID) -> (mesh: Mesh)
    requires
        id.in_world(),
    ensures
        is_block_mesh(mesh, *voxels, *planes, id),
{
    let faces = map_visible(voxels, planes);
    assert forall|dir: int| 0 <= dir < 6 implies within_solid(
        #[trigger] faces[dir].0,
        dir / 2,
        *voxels,
    ) by {
        assert forall|x: int, y: int, z: int|
            in_block(x, y, z) && #[trigger] axis_bit(faces[dir].0, dir / 2, x, y, z) implies solid_at(
            *voxels,
            x,
            y,
            z,
        ) by {
            assert(face_bit(faces, dir, x, y, z) == has_face(*voxels, *planes, dir, x, y, z));
        }
    }
    let mesh = generate_mesh_without_cam_occ(voxels, id, faces);
    assert forall|dir: int| 0 <= dir < 6 implies #[trigger] mesh.list(dir) == block_mesh(
        *voxels,
        *planes,
        id,
        dir,
    ) by {
        let s1 = bitmap_selector(faces, dir);
        let s2 = face_selector(*voxels, *planes, dir);
        assert forall|x: int, y: int, z: int| in_block(x, y, z) implies s1(x, y, z) == s2(
            x,
            y,
            z,
        ) by {
            assert(face_bit(faces, dir, x, y, z) == has_face(*voxels, *planes, dir, x, y, z));
        }
        lemma_emitted_agree(*voxels, id, s1, s2);
    }
    mesh
}

} // verus!
