use vstd::prelude::*;
use vstd::arithmetic::power2::pow2;
use crate::chunk_id::{chunk_overlaps, shift_down, shifted, ChunkID, IVec3, LodLevel, MAX_LOD};

verus! {

/// A half-space of world voxel space: a point `p` lies inside when
/// `normal . p + offset >= 0`.
#[derive(Debug, Clone, Copy, PartialEq, Eq, Structural)]
pub struct Plane {
    pub normal: IVec3,
    pub offset: i64,
}

/// What the camera sees in one frame.
#[derive(Debug, Clone, Copy)]
pub struct Frustum {
    /// The camera's position in world voxels.
    pub cam_pos: IVec3,
    /// The six planes that bound the view; their inner sides face the view.
    pub planes: [Plane; 6],
    /// How far chunks are looked for, in chunks.
    pub render_distance: u32,
    /// The radius, in chunks, within which chunks are shown in full detail.
    pub full_detail_range: u32,
    /// The most chunks that are shown in one frame.
    pub max_chunks: usize,
}

/// The value of a plane's form at a point.
pub open spec fn plane_value(plane: Plane, x: int, y: int, z: int) -> int {
    plane.normal.x * x + plane.normal.y * y + plane.normal.z * z + plane.offset
}

/// Whether every point of the box `[lo, lo + size]^3` lies outside the plane.
pub open spec fn box_outside(plane: Plane, lo: (int, int, int), size: int) -> bool {
    forall|x: int, y: int, z: int|
        lo.0 <= x <= lo.0 + size && lo.1 <= y <= lo.1 + size && lo.2 <= z <= lo.2 + size
            ==> #[trigger] plane_value(plane, x, y, z) < 0
}

/// The corner coordinate of a stretch at which a form with the given
/// coefficient is greatest.
pub open spec fn far_corner(coefficient: int, lo: int, size: int) -> int {
    if coefficient >= 0 {
        lo + size
    } else {
        lo
    }
}

/// The greatest value of a plane's form on a box: its value at the corner
/// that lies farthest along the normal.
pub open spec fn box_peak(plane: Plane, lo: (int, int, int), size: int) -> int {
    plane_value(
        plane,
        far_corner(plane.normal.x as int, lo.0, size),
        far_corner(plane.normal.y as int, lo.1, size),
        far_corner(plane.normal.z as int, lo.2, size),
    )
}

/// A box lies outside a plane exactly when its farthest corner does.
pub proof fn lemma_box_outside_by_peak(plane: Plane, lo: (int, int, int), size: int)
    requires
        size >= 0,
    ensures
        box_outside(plane, lo, size) <==> box_peak(plane, lo, size) < 0,
{
    let cx = far_corner(plane.normal.x as int, lo.0, size);
    let cy = far_corner(plane.normal.y as int, lo.1, size);
    let cz = far_corner(plane.normal.z as int, lo.2, size);
    if box_peak(plane, lo, size) < 0 {
        assert forall|x: int, y: int, z: int|
            lo.0 <= x <= lo.0 + size && lo.1 <= y <= lo.1 + size && lo.2 <= z <= lo.2
                + size implies #[trigger] plane_value(plane, x, y, z) < 0 by {
            lemma_term_le(plane.normal.x as int, x, lo.0, size);
            lemma_term_le(plane.normal.y as int, y, lo.1, size);
            lemma_term_le(plane.normal.z as int, z, lo.2, size);
        }
    }
    if box_outside(plane, lo, size) {
        assert(plane_value(plane, cx, cy, cz) < 0);
    }
}

proof fn lemma_term_le(n: int, v: int, lo: int, size: int)
    requires
        lo <= v <= lo + size,
    ensures
        n * v <= n * far_corner(n, lo, size),
{
    if n >= 0 {
        assert(n * v <= n * (lo + size)) by (nonlinear_arith)
            requires
                n >= 0,
                v <= lo + size,
        ;
    } else {
        assert(n * v <= n * lo) by (nonlinear_arith)
            requires
                n < 0,
                lo <= v,
        ;
    }
}

/// The region of a chunk lies outside one of the six planes.
pub open spec fn region_outside(planes: [Plane; 6], id: ChunkID) -> bool {
    exists|k: int| 0 <= k < 6 && box_outside(#[trigger] planes[k], id.world_min_spec(), id.world_size_spec())
}

/// Whether the region of a chunk lies outside a plane.
fn outside_plane(plane: &Plane, id: ChunkID) -> (r: bool)
    requires
        id.in_world(),
    ensures
        r == box_outside(*plane, id.world_min_spec(), id.world_size_spec()),
{
    let lo = id.world_min();
    let size: i128 = id.world_size() as i128;
    let nx: i128 = plane.normal.x as i128;
    let ny: i128 = plane.normal.y as i128;
    let nz: i128 = plane.normal.z as i128;
    let cx: i128 = if nx >= 0 {
        lo.x as i128 + size
    } else {
        lo.x as i128
    };
    let cy: i128 = if ny >= 0 {
        lo.y as i128 + size
    } else {
        lo.y as i128
    };
    let cz: i128 = if nz >= 0 {
        lo.z as i128 + size
    } else {
        lo.z as i128
    };
    proof {
        lemma_box_outside_by_peak(*plane, id.world_min_spec(), id.world_size_spec());
        lemma_product_bound(nx as int, cx as int);
        lemma_product_bound(ny as int, cy as int);
        lemma_product_bound(nz as int, cz as int);
    }
    nx * cx + ny * cy + nz * cz + (plane.offset as i128) < 0
}

proof fn lemma_product_bound(n: int, c: int)
    requires
        -0x8000_0000 <= n <= 0x8000_0000,
        -0x1_0000_0000 <= c <= 0x1_0000_0000,
    ensures
        -0x8000_0000_0000_0000_0000 <= n * c <= 0x8000_0000_0000_0000_0000,
{
    assert(-0x8000_0000_0000_0000_0000 <= n * c <= 0x8000_0000_0000_0000_0000)
        by (nonlinear_arith)
        requires
            -0x8000_0000 <= n <= 0x8000_0000,
            -0x1_0000_0000 <= c <= 0x1_0000_0000,
    ;
}

/// Whether the region of a chunk lies outside one of the six planes.
pub fn outside_frustum(planes: &[Plane; 6], id: ChunkID) -> (r: bool)
    requires
        id.in_world(),
    ensures
        r == region_outside(*planes, id),
{
    let mut k: usize = 0;
    while k < 6
        invariant
            k <= 6,
            id.in_world(),
            forall|k2: int|
                0 <= k2 < k ==> !box_outside(
                    #[trigger] planes[k2],
                    id.world_min_spec(),
                    id.world_size_spec(),
                ),
        decreases 6 - k,
    {
        if outside_plane(&planes[k], id) {
            return true;
        }
        k += 1;
    }
    false
}

/// Square of the distance between two points.
pub open spec fn dist_sq(a: (int, int, int), b: (int, int, int)) -> int {
    (a.0 - b.0) * (a.0 - b.0) + (a.1 - b.1) * (a.1 - b.1) + (a.2 - b.2) * (a.2 - b.2)
}

/// The square of a number of moderate size.
fn square(v: i64) -> (r: i128)
    requires
        -0x2_0000_0000_0000 <= v <= 0x2_0000_0000_0000,
    ensures
        r == v * v,
        0 <= r <= 0x4_0000_0000_0000_0000_0000_0000,
{
    assert(0 <= v * v <= 0x4_0000_0000_0000_0000_0000_0000) by (nonlinear_arith)
        requires
            -0x2_0000_0000_0000 <= v <= 0x2_0000_0000_0000,
    ;
    (v as i128) * (v as i128)
}

/// Square of the distance between two points.
fn distance_squared(a: IVec3, b: IVec3) -> (r: i128)
    ensures
        r == dist_sq((a.x as int, a.y as int, a.z as int), (b.x as int, b.y as int, b.z as int)),
        r >= 0,
{
    square(a.x as i64 - b.x as i64) + square(a.y as i64 - b.y as i64) + square(
        a.z as i64 - b.z as i64,
    )
}

/// The radius of the band of level `k`: the full-detail range, doubled `k`
/// times.
pub open spec fn band_radius(full_detail_range: u32, k: nat) -> int {
    full_detail_range * pow2(k)
}

/// The least level from `k` on whose band reaches the squared distance; the
/// coarsest level if none does.
pub open spec fn lod_from(distance_sq: int, full_detail_range: u32, k: nat) -> LodLevel
    decreases MAX_LOD - k,
{
    if k >= MAX_LOD {
        MAX_LOD
    } else if distance_sq <= band_radius(full_detail_range, k) * band_radius(full_detail_range, k) {
        k as LodLevel
    } else {
        lod_from(distance_sq, full_detail_range, k + 1)
    }
}

/// The level of detail at which a chunk is shown: the least level whose band
/// reaches the chunk's distance from the camera, both in chunks.
pub open spec fn lod_level_spec(cam_chunk: IVec3, chunk: IVec3, full_detail_range: u32) -> LodLevel {
    lod_from(
        dist_sq(
            (cam_chunk.x as int, cam_chunk.y as int, cam_chunk.z as int),
            (chunk.x as int, chunk.y as int, chunk.z as int),
        ),
        full_detail_range,
        0,
    )
}

/// The level of detail at which a chunk is shown: level 0 within the
/// full-detail range, and one level more each time the distance doubles.
pub fn lod_level_at(cam_chunk: IVec3, chunk: IVec3, full_detail_range: u32) -> (lod: LodLevel)
    ensures
        lod == lod_level_spec(cam_chunk, chunk, full_detail_range),
        lod <= MAX_LOD,
{
    let d = distance_squared(cam_chunk, chunk);
    let mut k: u8 = 0;
    while k < MAX_LOD
        invariant
            k <= MAX_LOD,
            d as int == dist_sq(
                (cam_chunk.x as int, cam_chunk.y as int, cam_chunk.z as int),
                (chunk.x as int, chunk.y as int, chunk.z as int),
            ),
            lod_from(d as int, full_detail_range, k as nat) == lod_from(
                d as int,
                full_detail_range,
                0,
            ),
        decreases MAX_LOD - k,
    {
        proof {
            crate::chunk_id::lemma_one_shl(k);
            vstd::arithmetic::power2::lemma2_to64();
            assert((1i64 << k) <= 256) by {
                vstd::arithmetic::power2::lemma_pow2_strictly_increases(k as nat, 9);
            }
        }
        let step: i64 = 1i64 << k;
        assert(0 <= (full_detail_range as i64) * step <= 0x100_0000_0000) by (nonlinear_arith)
            requires
                0 < step <= 256,
                0 <= full_detail_range <= 0xFFFF_FFFF,
        ;
        let radius: i64 = (full_detail_range as i64) * step;
        assert(radius as int == band_radius(full_detail_range, k as nat));
        let reach = square(radius);
        assert(reach as int == band_radius(full_detail_range, k as nat) * band_radius(
            full_detail_range,
            k as nat,
        ));
        if d <= reach {
            assert(lod_from(d as int, full_detail_range, k as nat) == k);
            return k;
        }
        assert(lod_from(d as int, full_detail_range, k as nat) == lod_from(
            d as int,
            full_detail_range,
            (k + 1) as nat,
        ));
        k += 1;
    }
    MAX_LOD
}

/// The id under which a chunk position is shown: its level of detail by its
/// distance from the camera, and its position at that level.
pub open spec fn candidate_spec(cam_chunk: IVec3, cell: IVec3, full_detail_range: u32) -> ChunkID {
    let lod = lod_level_spec(cam_chunk, cell, full_detail_range);
    ChunkID {
        lod,
        pos: IVec3 {
            x: shifted(cell.x as int, lod as nat) as i32,
            y: shifted(cell.y as int, lod as nat) as i32,
            z: shifted(cell.z as int, lod as nat) as i32,
        },
    }
}

/// The id under which a chunk position is shown.
pub fn candidate(cam_chunk: IVec3, cell: IVec3, full_detail_range: u32) -> (id: ChunkID)
    ensures
        id == candidate_spec(cam_chunk, cell, full_detail_range),
        id.lod <= MAX_LOD,
{
    let lod = lod_level_at(cam_chunk, cell, full_detail_range);
    ChunkID {
        lod,
        pos: IVec3 {
            x: shift_down(cell.x, lod),
            y: shift_down(cell.y, lod),
            z: shift_down(cell.z, lod),
        },
    }
}

/// Some id of the list overlaps `c` and is as coarse as `c` or coarser.
pub open spec fn dominated(list: Seq<ChunkID>, c: ChunkID) -> bool {
    exists|i: int| 0 <= i < list.len() && (#[trigger] list[i]).overlaps(c) && list[i].lod >= c.lod
}

/// The ids of the list that do not overlap `c`, in their order.
pub open spec fn drop_overlapping(list: Seq<ChunkID>, c: ChunkID) -> Seq<ChunkID>
    decreases list.len(),
{
    if list.len() == 0 {
        Seq::empty()
    } else if list.last().overlaps(c) {
        drop_overlapping(list.drop_last(), c)
    } else {
        drop_overlapping(list.drop_last(), c).push(list.last())
    }
}

/// The list after `c` has been offered to it: unchanged where an id of the
/// list dominates `c`; else without the ids that overlap `c`, which are all
/// finer, and with `c` at the end.
pub open spec fn insert_candidate(list: Seq<ChunkID>, c: ChunkID) -> Seq<ChunkID> {
    if dominated(list, c) {
        list
    } else {
        drop_overlapping(list, c).push(c)
    }
}

/// No two ids of the list overlap.
pub open spec fn disjoint(list: Seq<ChunkID>) -> bool {
    forall|i: int, j: int|
        0 <= i < list.len() && 0 <= j < list.len() && i != j ==> !(#[trigger] list[i]).overlaps(
            #[trigger] list[j],
        )
}

/// Overlapping does not depend on the order of the two ids.
pub proof fn lemma_overlaps_symmetric(a: ChunkID, b: ChunkID)
    ensures
        a.overlaps(b) == b.overlaps(a),
{
    if a.lod == b.lod {
        vstd::arithmetic::power2::lemma2_to64();
        assert((a.lod - b.lod) as nat == 0);
        assert(pow2(0) == 1);
        assert(shifted(a.pos.x as int, 0) == a.pos.x);
        assert(shifted(a.pos.y as int, 0) == a.pos.y);
        assert(shifted(a.pos.z as int, 0) == a.pos.z);
        assert(shifted(b.pos.x as int, 0) == b.pos.x);
        assert(shifted(b.pos.y as int, 0) == b.pos.y);
        assert(shifted(b.pos.z as int, 0) == b.pos.z);
    }
}

/// What is left after the ids that overlap `c` are dropped: ids of the list,
/// none of which overlaps `c`.
pub proof fn lemma_drop_overlapping_members(list: Seq<ChunkID>, c: ChunkID)
    ensures
        drop_overlapping(list, c).len() <= list.len(),
        forall|i: int|
            0 <= i < drop_overlapping(list, c).len() ==> list.contains(
                #[trigger] drop_overlapping(list, c)[i],
            ) && !drop_overlapping(list, c)[i].overlaps(c),
        forall|i: int|
            0 <= i < list.len() && !(#[trigger] list[i]).overlaps(c) ==> drop_overlapping(
                list,
                c,
            ).contains(list[i]),
    decreases list.len(),
{
    if list.len() > 0 {
        let head = list.drop_last();
        lemma_drop_overlapping_members(head, c);
        let rest = drop_overlapping(head, c);
        let all = drop_overlapping(list, c);
        assert forall|i: int| 0 <= i < all.len() implies list.contains(#[trigger] all[i])
            && !all[i].overlaps(c) by {
            if i < rest.len() {
                assert(all[i] == rest[i]);
                let k = choose|k: int| 0 <= k < head.len() && head[k] == rest[i];
                assert(list[k] == rest[i]);
            } else {
                assert(all[i] == list.last());
                assert(list[list.len() - 1] == all[i]);
            }
        }
        assert forall|i: int| 0 <= i < list.len() && !(#[trigger] list[i]).overlaps(
            c,
        ) implies all.contains(list[i]) by {
            if i < head.len() {
                assert(head[i] == list[i]);
                let k = choose|k: int| 0 <= k < rest.len() && rest[k] == list[i];
                assert(all[k] == list[i]);
            } else {
                assert(all[all.len() - 1] == list[i]);
            }
        }
    }
}

/// Dropping the ids that overlap `c` from a list without overlaps leaves a
/// list without overlaps.
pub proof fn lemma_drop_overlapping_disjoint(list: Seq<ChunkID>, c: ChunkID)
    requires
        disjoint(list),
    ensures
        disjoint(drop_overlapping(list, c)),
    decreases list.len(),
{
    if list.len() > 0 {
        let head = list.drop_last();
        assert(disjoint(head)) by {
            assert forall|i: int, j: int|
                0 <= i < head.len() && 0 <= j < head.len() && i != j implies !(
            #[trigger] head[i]).overlaps(#[trigger] head[j]) by {
                assert(head[i] == list[i]);
                assert(head[j] == list[j]);
            }
        }
        lemma_drop_overlapping_disjoint(head, c);
        lemma_drop_overlapping_members(head, c);
        let rest = drop_overlapping(head, c);
        let all = drop_overlapping(list, c);
        if !list.last().overlaps(c) {
            assert forall|i: int, j: int|
                0 <= i < all.len() && 0 <= j < all.len() && i != j implies !(
            #[trigger] all[i]).overlaps(#[trigger] all[j]) by {
                if i < rest.len() && j < rest.len() {
                    assert(all[i] == rest[i] && all[j] == rest[j]);
                } else if i < rest.len() {
                    let k = choose|k: int| 0 <= k < head.len() && head[k] == rest[i];
                    assert(list[k] == all[i]);
                    assert(list[list.len() - 1] == all[j]);
                } else {
                    let k = choose|k: int| 0 <= k < head.len() && head[k] == rest[j];
                    assert(list[k] == all[j]);
                    assert(list[list.len() - 1] == all[i]);
                }
            }
        }
    }
}

/// Offering an id to a list without overlaps leaves a list without overlaps.
pub proof fn lemma_insert_candidate_disjoint(list: Seq<ChunkID>, c: ChunkID)
    requires
        disjoint(list),
    ensures
        disjoint(insert_candidate(list, c)),
{
    if !dominated(list, c) {
        lemma_drop_overlapping_disjoint(list, c);
        lemma_drop_overlapping_members(list, c);
        let rest = drop_overlapping(list, c);
        let all = rest.push(c);
        assert forall|i: int, j: int|
            0 <= i < all.len() && 0 <= j < all.len() && i != j implies !(
        #[trigger] all[i]).overlaps(#[trigger] all[j]) by {
            if i < rest.len() && j < rest.len() {
                assert(all[i] == rest[i] && all[j] == rest[j]);
            } else if i < rest.len() {
                assert(all[i] == rest[i]);
                assert(!rest[i].overlaps(c));
            } else {
                assert(all[j] == rest[j]);
                assert(!rest[j].overlaps(c));
                lemma_overlaps_symmetric(c, rest[j]);
            }
        }
    }
}

/// Every id of the list after an offer is `c` or was in the list before.
pub proof fn lemma_insert_candidate_members(list: Seq<ChunkID>, c: ChunkID)
    ensures
        forall|i: int|
            0 <= i < insert_candidate(list, c).len() ==> (#[trigger] insert_candidate(list, c)[i])
                == c || list.contains(insert_candidate(list, c)[i]),
{
    lemma_drop_overlapping_members(list, c);
    let all = insert_candidate(list, c);
    assert forall|i: int| 0 <= i < all.len() implies (#[trigger] all[i]) == c || list.contains(
        all[i],
    ) by {
        if dominated(list, c) {
            assert(list[i] == all[i]);
        } else if i < drop_overlapping(list, c).len() {
            assert(all[i] == drop_overlapping(list, c)[i]);
        }
    }
}

/// Whether some id of the list overlaps `c` and is as coarse or coarser.
fn is_dominated(list: &Vec<ChunkID>, c: ChunkID) -> (r: bool)
    ensures
        r == dominated(list@, c),
{
    let mut i: usize = 0;
    while i < list.len()
        invariant
            i <= list.len(),
            forall|k: int| 0 <= k < i ==> !((#[trigger] list@[k]).overlaps(c) && list@[k].lod >= c.lod),
        decreases list.len() - i,
    {
        if chunk_overlaps(&list[i], c) && list[i].lod >= c.lod {
            return true;
        }
        i += 1;
    }
    false
}

/// Offers an id to the list of selected ids: it is left out where an id of
/// the list dominates it, and replaces the finer ids that it overlaps where
/// none does.
pub fn offer(list: &mut Vec<ChunkID>, c: ChunkID)
    ensures
        final(list)@ == insert_candidate(old(list)@, c),
{
    if is_dominated(list, c) {
        return ;
    }
    let mut kept: Vec<ChunkID> = Vec::new();
    let mut i: usize = 0;
    while i < list.len()
        invariant
            i <= list.len(),
            kept@ == drop_overlapping(list@.take(i as int), c),
        decreases list.len() - i,
    {
        assert(list@.take(i + 1).drop_last() == list@.take(i as int));
        assert(list@.take(i + 1).last() == list@[i as int]);
        if !chunk_overlaps(&list[i], c) {
            kept.push(list[i]);
        }
        i += 1;
    }
    assert(list@.take(list.len() as int) == list@);
    kept.push(c);
    *list = kept;
}

/// Along one axis, the stretch of a chunk position at level 0 lies within
/// the stretch of its position at a coarser level, which lies in the world if
/// the finer one does.
pub proof fn lemma_axis_contained(p: int, k: nat)
    requires
        k <= MAX_LOD,
        i32::MIN <= p * 32,
        (p + 1) * 32 <= i32::MAX + 1,
    ensures
        i32::MIN <= shifted(p, k) * (32 * pow2(k)),
        (shifted(p, k) + 1) * (32 * pow2(k)) <= i32::MAX + 1,
        shifted(p, k) * (32 * pow2(k)) <= p * 32,
        p * 32 + 32 <= (shifted(p, k) + 1) * (32 * pow2(k)),
        i32::MIN <= shifted(p, k) <= i32::MAX,
{
    let d = pow2(k) as int;
    let m = pow2((26 - k) as nat) as int;
    let q = p / d;
    vstd::arithmetic::power2::lemma_pow2_pos(k);
    vstd::arithmetic::power2::lemma_pow2_pos((26 - k) as nat);
    vstd::arithmetic::power2::lemma_pow2_adds(k, (26 - k) as nat);
    vstd::arithmetic::power2::lemma2_to64();
    assert(d * m == 0x400_0000);
    vstd::arithmetic::div_mod::lemma_fundamental_div_mod(p, d);
    vstd::arithmetic::div_mod::lemma_mod_bound(p, d);
    assert(p == d * q + p % d);
    assert(q * d <= p < q * d + d) by (nonlinear_arith)
        requires
            p == d * q + p % d,
            0 <= p % d < d,
    ;
    assert(-m <= q) by (nonlinear_arith)
        requires
            p < q * d + d,
            -0x400_0000 <= p,
            d * m == 0x400_0000,
            d > 0,
    ;
    assert(q < m) by (nonlinear_arith)
        requires
            q * d <= p,
            p < 0x400_0000,
            d * m == 0x400_0000,
            d > 0,
    ;
    assert(-0x8000_0000 <= q * (32 * d) && (q + 1) * (32 * d) <= 0x8000_0000) by (nonlinear_arith)
        requires
            -m <= q < m,
            d * m == 0x400_0000,
            d > 0,
    ;
    assert(q * (32 * d) <= p * 32 && p * 32 + 32 <= (q + 1) * (32 * d)) by (nonlinear_arith)
        requires
            q * d <= p < q * d + d,
    ;
    assert(m <= 0x400_0000) by (nonlinear_arith)
        requires
            d * m == 0x400_0000,
            d >= 1,
            m >= 1,
    ;
}

/// The id under which a chunk position is shown names a region of the world
/// that contains the region of the position at level 0.
pub proof fn lemma_candidate_contains_cell(cam_chunk: IVec3, cell: IVec3, full_detail_range: u32)
    requires
        (ChunkID { lod: 0, pos: cell }).in_world(),
    ensures
        candidate_spec(cam_chunk, cell, full_detail_range).in_world(),
        contains_region(
            candidate_spec(cam_chunk, cell, full_detail_range),
            ChunkID { lod: 0, pos: cell },
        ),
{
    let c = candidate_spec(cam_chunk, cell, full_detail_range);
    lemma_lod_from_bounded(
        dist_sq(
            (cam_chunk.x as int, cam_chunk.y as int, cam_chunk.z as int),
            (cell.x as int, cell.y as int, cell.z as int),
        ),
        full_detail_range,
        0,
    );
    vstd::arithmetic::power2::lemma2_to64();
    let inner = ChunkID { lod: 0, pos: cell };
    assert(inner.world_size_spec() == 32);
    assert(inner.world_min_spec() == (cell.x * 32, cell.y * 32, cell.z * 32));
    lemma_axis_contained(cell.x as int, c.lod as nat);
    lemma_axis_contained(cell.y as int, c.lod as nat);
    lemma_axis_contained(cell.z as int, c.lod as nat);
    let w = 32 * pow2(c.lod as nat);
    assert(c.world_size_spec() == w);
    assert(c.world_min_spec() == (c.pos.x * w, c.pos.y * w, c.pos.z * w));
    assert(c.pos.x == shifted(cell.x as int, c.lod as nat));
    assert(c.pos.y == shifted(cell.y as int, c.lod as nat));
    assert(c.pos.z == shifted(cell.z as int, c.lod as nat));
    assert((c.pos.x + 1) * w == c.pos.x * w + w) by (nonlinear_arith);
    assert((c.pos.y + 1) * w == c.pos.y * w + w) by (nonlinear_arith);
    assert((c.pos.z + 1) * w == c.pos.z * w + w) by (nonlinear_arith);
}

proof fn lemma_lod_from_bounded(distance_sq: int, full_detail_range: u32, k: nat)
    requires
        k <= MAX_LOD,
    ensures
        lod_from(distance_sq, full_detail_range, k) <= MAX_LOD,
    decreases MAX_LOD - k,
{
    if k < MAX_LOD {
        lemma_lod_from_bounded(distance_sq, full_detail_range, k + 1);
    }
}

/// The region of `outer` contains the region of `inner` along every axis.
pub open spec fn contains_region(outer: ChunkID, inner: ChunkID) -> bool {
    &&& outer.world_min_spec().0 <= inner.world_min_spec().0
    &&& outer.world_min_spec().1 <= inner.world_min_spec().1
    &&& outer.world_min_spec().2 <= inner.world_min_spec().2
    &&& inner.world_min_spec().0 + inner.world_size_spec() <= outer.world_min_spec().0
        + outer.world_size_spec()
    &&& inner.world_min_spec().1 + inner.world_size_spec() <= outer.world_min_spec().1
        + outer.world_size_spec()
    &&& inner.world_min_spec().2 + inner.world_size_spec() <= outer.world_min_spec().2
        + outer.world_size_spec()
}

/// A region that lies outside the view contains no region that does not.
pub proof fn lemma_outside_is_inherited(planes: [Plane; 6], outer: ChunkID, inner: ChunkID)
    requires
        contains_region(outer, inner),
        inner.world_size_spec() >= 0,
        region_outside(planes, outer),
    ensures
        region_outside(planes, inner),
{
    let k = choose|k: int|
        0 <= k < 6 && box_outside(#[trigger] planes[k], outer.world_min_spec(), outer.world_size_spec());
    let lo = inner.world_min_spec();
    let size = inner.world_size_spec();
    assert forall|x: int, y: int, z: int|
        lo.0 <= x <= lo.0 + size && lo.1 <= y <= lo.1 + size && lo.2 <= z <= lo.2
            + size implies #[trigger] plane_value(planes[k], x, y, z) < 0 by {}
    assert(box_outside(planes[k], lo, size));
}

/// Square of the distance from the camera to the centre of a chunk's region,
/// in world voxels.
pub open spec fn center_dist_sq(cam: IVec3, id: ChunkID) -> int {
    dist_sq(
        (
            id.world_min_spec().0 + id.world_size_spec() / 2,
            id.world_min_spec().1 + id.world_size_spec() / 2,
            id.world_min_spec().2 + id.world_size_spec() / 2,
        ),
        (cam.x as int, cam.y as int, cam.z as int),
    )
}

/// Square of the distance from the camera to the centre of a chunk's region.
pub fn center_distance_squared(cam: IVec3, id: ChunkID) -> (r: i128)
    requires
        id.in_world(),
    ensures
        r == center_dist_sq(cam, id),
{
    let lo = id.world_min();
    let half: i64 = (id.world_size() / 2) as i64;
    square(lo.x as i64 + half - cam.x as i64) + square(lo.y as i64 + half - cam.y as i64) + square(
        lo.z as i64 + half - cam.z as i64,
    )
}

/// The list with `e` put in behind the last id that is not farther from the
/// camera than `e`.
pub open spec fn insert_by(sorted: Seq<ChunkID>, e: ChunkID, cam: IVec3) -> Seq<ChunkID>
    decreases sorted.len(),
{
    if sorted.len() == 0 {
        seq![e]
    } else if center_dist_sq(cam, sorted.last()) <= center_dist_sq(cam, e) {
        sorted.push(e)
    } else {
        insert_by(sorted.drop_last(), e, cam).push(sorted.last())
    }
}

/// The ids of the list, nearest to the camera first; ids at the same
/// distance keep their order.
pub open spec fn nearest_first(list: Seq<ChunkID>, cam: IVec3) -> Seq<ChunkID>
    decreases list.len(),
{
    if list.len() == 0 {
        Seq::empty()
    } else {
        insert_by(nearest_first(list.drop_last(), cam), list.last(), cam)
    }
}

/// No id of the list is nearer to the camera than one before it.
pub open spec fn is_nearest_first(list: Seq<ChunkID>, cam: IVec3) -> bool {
    forall|i: int, j: int|
        0 <= i <= j < list.len() ==> center_dist_sq(cam, #[trigger] list[i]) <= center_dist_sq(
            cam,
            #[trigger] list[j],
        )
}

/// Where `e` goes in: behind the ids that are not farther than `e`, before
/// the ids that are.
pub open spec fn is_insert_position(sorted: Seq<ChunkID>, e: ChunkID, cam: IVec3, p: int) -> bool {
    &&& 0 <= p <= sorted.len()
    &&& forall|j: int|
        p <= j < sorted.len() ==> center_dist_sq(cam, #[trigger] sorted[j]) > center_dist_sq(cam, e)
    &&& (p > 0 ==> center_dist_sq(cam, sorted[p - 1]) <= center_dist_sq(cam, e))
}

/// Putting `e` in gives the list with `e` at its insert position.
pub proof fn lemma_insert_at(sorted: Seq<ChunkID>, e: ChunkID, cam: IVec3, p: int)
    requires
        is_insert_position(sorted, e, cam, p),
    ensures
        insert_by(sorted, e, cam) == sorted.insert(p, e),
    decreases sorted.len(),
{
    if sorted.len() == 0 {
        assert(seq![e] =~= sorted.insert(p, e));
    } else if p == sorted.len() {
        assert(sorted.push(e) =~= sorted.insert(p, e));
    } else {
        let head = sorted.drop_last();
        assert(center_dist_sq(cam, sorted[sorted.len() - 1]) > center_dist_sq(cam, e));
        assert forall|j: int| p <= j < head.len() implies center_dist_sq(cam, #[trigger] head[j])
            > center_dist_sq(cam, e) by {
            assert(head[j] == sorted[j]);
        }
        if p > 0 {
            assert(head[p - 1] == sorted[p - 1]);
        }
        lemma_insert_at(head, e, cam, p);
        assert(head.insert(p, e).push(sorted.last()) =~= sorted.insert(p, e));
    }
}

/// There is an insert position for every id.
pub proof fn lemma_insert_position_exists(sorted: Seq<ChunkID>, e: ChunkID, cam: IVec3) -> (p: int)
    ensures
        is_insert_position(sorted, e, cam, p),
    decreases sorted.len(),
{
    if sorted.len() == 0 {
        0
    } else if center_dist_sq(cam, sorted.last()) <= center_dist_sq(cam, e) {
        sorted.len() as int
    } else {
        let head = sorted.drop_last();
        let p = lemma_insert_position_exists(head, e, cam);
        assert forall|j: int| p <= j < sorted.len() implies center_dist_sq(
            cam,
            #[trigger] sorted[j],
        ) > center_dist_sq(cam, e) by {
            if j < head.len() {
                assert(head[j] == sorted[j]);
            }
        }
        if p > 0 {
            assert(head[p - 1] == sorted[p - 1]);
        }
        p
    }
}

/// Putting an id into a list that is ordered nearest first leaves it ordered,
/// one id longer, and made of the same ids and the new one.
pub proof fn lemma_insert_by_keeps_order(sorted: Seq<ChunkID>, e: ChunkID, cam: IVec3)
    requires
        is_nearest_first(sorted, cam),
    ensures
        is_nearest_first(insert_by(sorted, e, cam), cam),
        insert_by(sorted, e, cam).len() == sorted.len() + 1,
        insert_by(sorted, e, cam).contains(e),
        forall|i: int|
            0 <= i < sorted.len() ==> insert_by(sorted, e, cam).contains(#[trigger] sorted[i]),
        forall|i: int|
            0 <= i < insert_by(sorted, e, cam).len() ==> (#[trigger] insert_by(sorted, e, cam)[i])
                == e || sorted.contains(insert_by(sorted, e, cam)[i]),
        disjoint(sorted) && (forall|k: int|
            0 <= k < sorted.len() ==> !(#[trigger] sorted[k]).overlaps(e) && !e.overlaps(sorted[k]))
            ==> disjoint(insert_by(sorted, e, cam)),
{
    let p = lemma_insert_position_exists(sorted, e, cam);
    lemma_insert_at(sorted, e, cam, p);
    let all = sorted.insert(p, e);
    assert forall|i: int, j: int| 0 <= i <= j < all.len() implies center_dist_sq(
        cam,
        #[trigger] all[i],
    ) <= center_dist_sq(cam, #[trigger] all[j]) by {
        let a = if i < p {
            sorted[i]
        } else if i == p {
            e
        } else {
            sorted[i - 1]
        };
        let b = if j < p {
            sorted[j]
        } else if j == p {
            e
        } else {
            sorted[j - 1]
        };
        assert(all[i] == a && all[j] == b);
        if i < p && j == p {
            assert(center_dist_sq(cam, sorted[i]) <= center_dist_sq(cam, sorted[p - 1]));
        }
    }
    assert(all[p] == e);
    assert forall|i: int| 0 <= i < sorted.len() implies all.contains(#[trigger] sorted[i]) by {
        if i < p {
            assert(all[i] == sorted[i]);
        } else {
            assert(all[i + 1] == sorted[i]);
        }
    }
    assert forall|i: int| 0 <= i < all.len() implies (#[trigger] all[i]) == e || sorted.contains(
        all[i],
    ) by {
        if i < p {
            assert(all[i] == sorted[i]);
        } else if i > p {
            assert(all[i] == sorted[i - 1]);
        }
    }
    if disjoint(sorted) && (forall|k: int|
        0 <= k < sorted.len() ==> !(#[trigger] sorted[k]).overlaps(e) && !e.overlaps(sorted[k])) {
        assert forall|i: int, j: int|
            0 <= i < all.len() && 0 <= j < all.len() && i != j implies !(
        #[trigger] all[i]).overlaps(#[trigger] all[j]) by {
            let ii = if i < p {
                i
            } else {
                i - 1
            };
            let jj = if j < p {
                j
            } else {
                j - 1
            };
            if i != p {
                assert(all[i] == sorted[ii]);
            }
            if j != p {
                assert(all[j] == sorted[jj]);
            }
        }
    }
}

/// Ordering a list nearest first keeps its ids and its length; it keeps a
/// list without overlaps free of them.
pub proof fn lemma_nearest_first_props(list: Seq<ChunkID>, cam: IVec3)
    ensures
        is_nearest_first(nearest_first(list, cam), cam),
        nearest_first(list, cam).len() == list.len(),
        forall|i: int| 0 <= i < list.len() ==> nearest_first(list, cam).contains(#[trigger] list[i]),
        forall|i: int|
            0 <= i < list.len() ==> list.contains(#[trigger] nearest_first(list, cam)[i]),
        disjoint(list) ==> disjoint(nearest_first(list, cam)),
    decreases list.len(),
{
    if list.len() > 0 {
        let head = list.drop_last();
        let e = list.last();
        let inner = nearest_first(head, cam);
        lemma_nearest_first_props(head, cam);
        let all = insert_by(inner, e, cam);
        if disjoint(list) {
            assert(disjoint(head)) by {
                assert forall|i: int, j: int|
                    0 <= i < head.len() && 0 <= j < head.len() && i != j implies !(
                #[trigger] head[i]).overlaps(#[trigger] head[j]) by {
                    assert(head[i] == list[i] && head[j] == list[j]);
                }
            }
            assert forall|k: int| 0 <= k < inner.len() implies !(#[trigger] inner[k]).overlaps(e)
                && !e.overlaps(inner[k]) by {
                let w = choose|w: int| 0 <= w < head.len() && head[w] == inner[k];
                assert(list[w] == inner[k]);
                assert(list[list.len() - 1] == e);
            }
        }
        lemma_insert_by_keeps_order(inner, e, cam);
        assert forall|i: int| 0 <= i < list.len() implies all.contains(#[trigger] list[i]) by {
            if i < head.len() {
                assert(head[i] == list[i]);
                let w = choose|w: int| 0 <= w < inner.len() && inner[w] == head[i];
                assert(all.contains(inner[w]));
            }
        }
        assert forall|i: int| 0 <= i < list.len() implies list.contains(#[trigger] all[i]) by {
            if all[i] == e {
                assert(list[list.len() - 1] == e);
            } else {
                let w = choose|w: int| 0 <= w < inner.len() && inner[w] == all[i];
                let v = choose|v: int| 0 <= v < head.len() && head[v] == inner[w];
                assert(list[v] == all[i]);
            }
        }
    }
}

/// Every id of the list names a region of the world.
pub open spec fn all_in_world(list: Seq<ChunkID>) -> bool {
    forall|i: int| 0 <= i < list.len() ==> (#[trigger] list[i]).in_world()
}

/// Puts an id into a list that is ordered nearest first.
fn insert_nearest(sorted: &mut Vec<ChunkID>, e: ChunkID, cam: IVec3)
    requires
        all_in_world(old(sorted)@),
        e.in_world(),
    ensures
        final(sorted)@ == insert_by(old(sorted)@, e, cam),
{
    let key = center_distance_squared(cam, e);
    let mut p: usize = sorted.len();
    while p > 0 && center_distance_squared(cam, sorted[p - 1]) > key
        invariant
            p <= sorted.len(),
            sorted@ == old(sorted)@,
            all_in_world(sorted@),
            key == center_dist_sq(cam, e),
            forall|j: int|
                p <= j < sorted.len() ==> center_dist_sq(cam, #[trigger] sorted@[j]) > key,
        decreases p,
    {
        p -= 1;
    }
    proof {
        lemma_insert_at(sorted@, e, cam, p as int);
    }
    sorted.insert(p, e);
}

/// Orders a list of ids nearest to the camera first; ids at the same
/// distance keep their order.
pub fn sort_nearest_first(list: &Vec<ChunkID>, cam: IVec3) -> (sorted: Vec<ChunkID>)
    requires
        all_in_world(list@),
    ensures
        sorted@ == nearest_first(list@, cam),
{
    let mut sorted: Vec<ChunkID> = Vec::new();
    let mut i: usize = 0;
    while i < list.len()
        invariant
            i <= list.len(),
            all_in_world(list@),
            sorted@ == nearest_first(list@.take(i as int), cam),
        decreases list.len() - i,
    {
        proof {
            let prefix = list@.take(i as int);
            lemma_nearest_first_props(prefix, cam);
            assert forall|k: int| 0 <= k < sorted@.len() implies (#[trigger] sorted@[k]).in_world() by {
                let w = choose|w: int| 0 <= w < prefix.len() && prefix[w] == sorted@[k];
                assert(list@[w] == sorted@[k]);
            }
            assert(list@.take(i + 1).drop_last() == prefix);
            assert(list@.take(i + 1).last() == list@[i as int]);
        }
        insert_nearest(&mut sorted, list[i], cam);
        i += 1;
    }
    assert(list@.take(list.len() as int) == list@);
    sorted
}

/// Every id of the list names a region of the world that does not lie
/// outside the view.
pub open spec fn all_in_view(planes: [Plane; 6], list: Seq<ChunkID>) -> bool {
    forall|i: int|
        0 <= i < list.len() ==> (#[trigger] list[i]).in_world() && !region_outside(planes, list[i])
}

impl Frustum {
    /// The position of the chunk of level 0 that holds the camera.
    pub open spec fn cam_chunk_spec(self) -> IVec3 {
        IVec3 {
            x: shifted(self.cam_pos.x as int, 5) as i32,
            y: shifted(self.cam_pos.y as int, 5) as i32,
            z: shifted(self.cam_pos.z as int, 5) as i32,
        }
    }

    /// The position of the chunk of level 0 that holds the camera.
    pub fn cam_chunk(&self) -> (r: IVec3)
        ensures
            r == self.cam_chunk_spec(),
    {
        IVec3 {
            x: shift_down(self.cam_pos.x, 5),
            y: shift_down(self.cam_pos.y, 5),
            z: shift_down(self.cam_pos.z, 5),
        }
    }

    /// How far from the camera's chunk chunk positions are looked at, along
    /// each axis.
    pub open spec fn reach(self) -> int {
        self.render_distance + 1
    }

    /// Whether the chunk position is one of the world and its region at
    /// level 0 does not lie outside the view.
    pub open spec fn accepts(self, x: int, y: int, z: int) -> bool {
        &&& i32::MIN <= x <= i32::MAX
        &&& i32::MIN <= y <= i32::MAX
        &&& i32::MIN <= z <= i32::MAX
        &&& (ChunkID { lod: 0, pos: IVec3 { x: x as i32, y: y as i32, z: z as i32 } }).in_world()
        &&& !region_outside(
            self.planes,
            ChunkID { lod: 0, pos: IVec3 { x: x as i32, y: y as i32, z: z as i32 } },
        )
    }

    /// The list after the chunk position `(x, y, z)` has been looked at: a
    /// position that is accepted offers the id under which it is shown.
    pub open spec fn consider(self, list: Seq<ChunkID>, x: int, y: int, z: int) -> Seq<ChunkID> {
        if self.accepts(x, y, z) {
            insert_candidate(
                list,
                candidate_spec(
                    self.cam_chunk_spec(),
                    IVec3 { x: x as i32, y: y as i32, z: z as i32 },
                    self.full_detail_range,
                ),
            )
        } else {
            list
        }
    }

    /// The list after the first `n` positions of the row `(y, z)` have been
    /// looked at, by rising x.
    pub open spec fn scan_x(self, list: Seq<ChunkID>, y: int, z: int, n: int) -> Seq<ChunkID>
        decreases n,
    {
        if n <= 0 {
            list
        } else {
            self.consider(
                self.scan_x(list, y, z, n - 1),
                self.cam_chunk_spec().x - self.reach() + n - 1,
                y,
                z,
            )
        }
    }

    /// The list after the first `n` rows of the layer `z` have been looked
    /// at, by rising y.
    pub open spec fn scan_y(self, list: Seq<ChunkID>, z: int, n: int) -> Seq<ChunkID>
        decreases n,
    {
        if n <= 0 {
            list
        } else {
            self.scan_x(
                self.scan_y(list, z, n - 1),
                self.cam_chunk_spec().y - self.reach() + n - 1,
                z,
                2 * self.reach() + 1,
            )
        }
    }

    /// The list after the first `n` layers of the cube around the camera have
    /// been looked at, by rising z.
    pub open spec fn scan_z(self, list: Seq<ChunkID>, n: int) -> Seq<ChunkID>
        decreases n,
    {
        if n <= 0 {
            list
        } else {
            self.scan_y(
                self.scan_z(list, n - 1),
                self.cam_chunk_spec().z - self.reach() + n - 1,
                2 * self.reach() + 1,
            )
        }
    }

    /// The ids that are selected before they are ordered: what is left after
    /// every chunk position of the cube around the camera has been looked at.
    pub open spec fn scanned(self) -> Seq<ChunkID> {
        self.scan_z(Seq::empty(), 2 * self.reach() + 1)
    }

    /// The ids to show in this frame: the selected ids, nearest to the camera
    /// first, cut off after `max_chunks`.
    pub open spec fn selection(self) -> Seq<ChunkID> {
        let ordered = nearest_first(self.scanned(), self.cam_pos);
        if ordered.len() <= self.max_chunks {
            ordered
        } else {
            ordered.take(self.max_chunks as int)
        }
    }

    /// Looks at one chunk position.
    fn look_at(&self, list: &mut Vec<ChunkID>, cam_chunk: IVec3, x: i64, y: i64, z: i64)
        requires
            cam_chunk == self.cam_chunk_spec(),
            disjoint(old(list)@),
            all_in_view(self.planes, old(list)@),
        ensures
            final(list)@ == self.consider(old(list)@, x as int, y as int, z as int),
            disjoint(final(list)@),
            all_in_view(self.planes, final(list)@),
    {
        if x < -0x8000_0000 || x > 0x7fff_ffff || y < -0x8000_0000 || y > 0x7fff_ffff || z
            < -0x8000_0000 || z > 0x7fff_ffff {
            return ;
        }
        let cell = IVec3 { x: x as i32, y: y as i32, z: z as i32 };
        let cell_id = ChunkID { lod: 0, pos: cell };
        if !cell_id.is_in_world() {
            return ;
        }
        if outside_frustum(&self.planes, cell_id) {
            return ;
        }
        let c = candidate(cam_chunk, cell, self.full_detail_range);
        proof {
            lemma_candidate_contains_cell(cam_chunk, cell, self.full_detail_range);
            if region_outside(self.planes, c) {
                vstd::arithmetic::power2::lemma_pow2_pos(0);
                lemma_outside_is_inherited(self.planes, c, cell_id);
            }
            lemma_insert_candidate_disjoint(list@, c);
            lemma_insert_candidate_members(list@, c);
            let all = insert_candidate(list@, c);
            assert forall|i: int| 0 <= i < all.len() implies (#[trigger] all[i]).in_world()
                && !region_outside(self.planes, all[i]) by {
                if all[i] != c {
                    let w = choose|w: int| 0 <= w < list@.len() && list@[w] == all[i];
                    assert(list@[w].in_world());
                }
            }
        }
        offer(list, c);
    }

    /// The ids of the chunks to show in this frame, nearest to the camera
    /// first and at most `max_chunks` of them: each at the level of detail of
    /// its distance, none outside the view, no two overlapping.
    pub fn chunk_ids(&self) -> (ids: Vec<ChunkID>)
        ensures
            ids@ == self.selection(),
            ids@.len() <= self.max_chunks,
            is_nearest_first(ids@, self.cam_pos),
            disjoint(ids@),
            all_in_view(self.planes, ids@),
    {
        let cam_chunk = self.cam_chunk();
        let reach: i64 = self.render_distance as i64 + 1;
        let width: i64 = 2 * reach + 1;
        let mut list: Vec<ChunkID> = Vec::new();
        let mut nz: i64 = 0;
        while nz < width
            invariant
                0 <= nz <= width,
                reach == self.reach(),
                width == 2 * reach + 1,
                cam_chunk == self.cam_chunk_spec(),
                list@ == self.scan_z(Seq::empty(), nz as int),
                disjoint(list@),
                all_in_view(self.planes, list@),
            decreases width - nz,
        {
            let z: i64 = cam_chunk.z as i64 - reach + nz;
            let ghost layer_start = list@;
            let mut ny: i64 = 0;
            while ny < width
                invariant
                    0 <= ny <= width,
                    0 <= nz < width,
                    reach == self.reach(),
                    width == 2 * reach + 1,
                    cam_chunk == self.cam_chunk_spec(),
                    z == cam_chunk.z - reach + nz,
                    list@ == self.scan_y(layer_start, z as int, ny as int),
                    disjoint(list@),
                    all_in_view(self.planes, list@),
                decreases width - ny,
            {
                let y: i64 = cam_chunk.y as i64 - reach + ny;
                let ghost row_start = list@;
                let mut nx: i64 = 0;
                while nx < width
                    invariant
                        0 <= nx <= width,
                        0 <= ny < width,
                        reach == self.reach(),
                        width == 2 * reach + 1,
                        cam_chunk == self.cam_chunk_spec(),
                        y == cam_chunk.y - reach + ny,
                        list@ == self.scan_x(row_start, y as int, z as int, nx as int),
                        disjoint(list@),
                        all_in_view(self.planes, list@),
                    decreases width - nx,
                {
                    let x: i64 = cam_chunk.x as i64 - reach + nx;
                    self.look_at(&mut list, cam_chunk, x, y, z);
                    nx += 1;
                }
                ny += 1;
            }
            nz += 1;
        }
        let mut ids = sort_nearest_first(&list, self.cam_pos);
        proof {
            lemma_nearest_first_props(list@, self.cam_pos);
            assert forall|i: int| 0 <= i < ids@.len() implies (#[trigger] ids@[i]).in_world()
                && !region_outside(self.planes, ids@[i]) by {
                let w = choose|w: int| 0 <= w < list@.len() && list@[w] == ids@[i];
                assert(list@[w].in_world());
            }
        }
        if ids.len() > self.max_chunks {
            let ghost ordered = ids@;
            ids.truncate(self.max_chunks);
            assert(ids@ == ordered.take(self.max_chunks as int));
            assert forall|i: int| 0 <= i < ids@.len() implies ids@[i] == ordered[i] by {}
        }
        ids
    }
}

/// The ids of one level at `(x, y, 0..n)`, by rising z.
pub open spec fn cube_z(lod: LodLevel, x: int, y: int, n: int) -> Seq<ChunkID>
    decreases n,
{
    if n <= 0 {
        Seq::empty()
    } else {
        cube_z(lod, x, y, n - 1).push(
            ChunkID { lod, pos: IVec3 { x: x as i32, y: y as i32, z: (n - 1) as i32 } },
        )
    }
}

/// The ids of one level at `(x, 0..n, 0..side)`, by rising y, then z.
pub open spec fn cube_y(lod: LodLevel, side: int, x: int, n: int) -> Seq<ChunkID>
    decreases n,
{
    if n <= 0 {
        Seq::empty()
    } else {
        cube_y(lod, side, x, n - 1) + cube_z(lod, x, n - 1, side)
    }
}

/// The ids of one level at `(0..n, 0..side, 0..side)`, by rising x, then y,
/// then z.
pub open spec fn cube_x(lod: LodLevel, side: int, n: int) -> Seq<ChunkID>
    decreases n,
{
    if n <= 0 {
        Seq::empty()
    } else {
        cube_x(lod, side, n - 1) + cube_y(lod, side, n - 1, side)
    }
}

/// The ids of the chunks of one level that tile the cube of `edges` chunks
/// of level 0 along each axis which starts at the origin, by rising x, then
/// y, then z. An edge that is not a multiple of the chunks' size is cut off.
pub fn cube(edges: i32, lod_level: LodLevel) -> (ids: Vec<ChunkID>)
    ensures
        ids@ == cube_x(
            lod_level,
            shifted(edges as int, lod_level as nat),
            shifted(edges as int, lod_level as nat),
        ),
{
    let side = shift_down(edges, lod_level);
    let mut ids: Vec<ChunkID> = Vec::new();
    let mut x: i32 = 0;
    while x < side
        invariant
            0 <= x,
            side > 0 ==> x <= side,
            side <= 0 ==> x == 0,
            side == shifted(edges as int, lod_level as nat),
            ids@ == cube_x(lod_level, side as int, x as int),
        decreases side - x,
    {
        let ghost done_x = ids@;
        let mut y: i32 = 0;
        while y < side
            invariant
                0 <= x < side,
                0 <= y <= side,
                ids@ == done_x + cube_y(lod_level, side as int, x as int, y as int),
            decreases side - y,
        {
            let ghost done_y = ids@;
            let mut z: i32 = 0;
            while z < side
                invariant
                    0 <= x < side,
                    0 <= y < side,
                    0 <= z <= side,
                    ids@ == done_y + cube_z(lod_level, x as int, y as int, z as int),
                decreases side - z,
            {
                ids.push(ChunkID::new(lod_level, IVec3::new(x, y, z)));
                assert(ids@ == done_y + cube_z(lod_level, x as int, y as int, z + 1));
                z += 1;
            }
            assert(ids@ == done_x + cube_y(lod_level, side as int, x as int, y + 1));
            y += 1;
        }
        x += 1;
    }
    proof {
        if side <= 0 {
            assert(cube_x(lod_level, side as int, side as int) == Seq::<ChunkID>::empty());
        }
    }
    ids
}

} // verus!
