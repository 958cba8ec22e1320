use vstd::prelude::*;
use vstd::arithmetic::power2::pow2;

verus! {

/// Exponent of a chunk's linear scale factor.
pub type LodLevel = u8;

/// The coarsest level of detail.
pub const MAX_LOD: LodLevel = 8;

/// A vector of three signed integers.
#[derive(Debug, Clone, Copy, PartialEq, Eq, Hash, Structural)]
pub struct IVec3 {
    pub x: i32,
    pub y: i32,
    pub z: i32,
}

impl IVec3 {
    pub fn new(x: i32, y: i32, z: i32) -> (r: Self)
        ensures
            r == (IVec3 { x, y, z }),
    {
        IVec3 { x, y, z }
    }
}

/// Address of the cubic region `[pos * 32 * 2^lod, (pos + 1) * 32 * 2^lod)` of
/// world voxel space.
#[derive(Debug, Clone, Copy, PartialEq, Eq, Hash, Structural)]
pub struct ChunkID {
    pub lod: LodLevel,
    pub pos: IVec3,
}

/// `2^lod` as an integer.
pub open spec fn scale(lod: LodLevel) -> int {
    pow2(lod as nat) as int
}

/// Floor of `p / 2^k`: what an arithmetic right shift by `k` computes.
pub open spec fn shifted(p: int, k: nat) -> int {
    p / (pow2(k) as int)
}

/// `1 << k` is `2^k` while it fits.
pub proof fn lemma_one_shl(k: u8)
    requires
        k < 31,
    ensures
        (1i64 << k) as int == pow2(k as nat) as int,
        0 < (1i64 << k) <= 0x4000_0000,
    decreases k,
{
    vstd::arithmetic::power2::lemma2_to64();
    if k == 0 {
        assert(1i64 << 0u8 == 1) by (bit_vector);
    } else {
        let j = (k - 1) as u8;
        lemma_one_shl(j);
        assert((1i64 << k) == 2 * (1i64 << j)) by (bit_vector)
            requires
                0 < k < 31,
                j == k - 1,
        ;
        vstd::arithmetic::power2::lemma_pow2_unfold(k as nat);
    }
}

/// `2^k` exceeds every `i32` in magnitude once `k` reaches 31.
pub proof fn lemma_pow2_large(k: nat)
    requires
        k >= 31,
    ensures
        pow2(k) >= 0x8000_0000,
    decreases k,
{
    vstd::arithmetic::power2::lemma2_to64();
    if k > 31 {
        lemma_pow2_large((k - 1) as nat);
        vstd::arithmetic::power2::lemma_pow2_unfold(k);
    }
}

/// Arithmetic right shift of `a` by `k` places, for every `k`.
pub fn shift_down(a: i32, k: u8) -> (r: i32)
    ensures
        r as int == shifted(a as int, k as nat),
{
    if k >= 31 {
        proof {
            lemma_pow2_large(k as nat);
            let d = pow2(k as nat) as int;
            if a >= 0 {
                vstd::arithmetic::div_mod::lemma_fundamental_div_mod_converse(
                    a as int,
                    d,
                    0,
                    a as int,
                );
            } else {
                vstd::arithmetic::div_mod::lemma_fundamental_div_mod_converse(
                    a as int,
                    d,
                    -1,
                    a as int + d,
                );
            }
        }
        if a < 0 {
            -1
        } else {
            0
        }
    } else {
        let r = a >> k;
        proof {
            let d = 1i64 << k;
            lemma_one_shl(k);
            assert((a >> k) as i64 * (1i64 << k) <= a as i64 && (a as i64) < (a >> k) as i64 * (1i64
                << k) + (1i64 << k)) by (bit_vector)
                requires
                    k < 31,
            ;
            vstd::arithmetic::div_mod::lemma_fundamental_div_mod_converse(
                a as int,
                d as int,
                r as int,
                a as int - (r as int) * (d as int),
            );
        }
        r
    }
}

impl ChunkID {
    pub fn new(lod: LodLevel, pos: IVec3) -> (r: Self)
        ensures
            r == (ChunkID { lod, pos }),
    {
        ChunkID { lod, pos }
    }

    /// Edge length of the region in world voxels.
    pub open spec fn world_size_spec(self) -> int {
        32 * scale(self.lod)
    }

    /// Least world coordinate of the region along each axis.
    pub open spec fn world_min_spec(self) -> (int, int, int) {
        (
            self.pos.x * self.world_size_spec(),
            self.pos.y * self.world_size_spec(),
            self.pos.z * self.world_size_spec(),
        )
    }

    /// The id names a level that exists and a region inside the world's
    /// 32-bit coordinate space.
    pub open spec fn in_world(self) -> bool {
        &&& self.lod <= MAX_LOD
        &&& i32::MIN <= self.pos.x * self.world_size_spec()
        &&& (self.pos.x + 1) * self.world_size_spec() <= i32::MAX + 1
        &&& i32::MIN <= self.pos.y * self.world_size_spec()
        &&& (self.pos.y + 1) * self.world_size_spec() <= i32::MAX + 1
        &&& i32::MIN <= self.pos.z * self.world_size_spec()
        &&& (self.pos.z + 1) * self.world_size_spec() <= i32::MAX + 1
    }

    /// The region one level coarser that contains this one; the id itself at
    /// the coarsest level.
    pub open spec fn parent_lod_spec(self) -> ChunkID {
        if self.lod >= MAX_LOD {
            self
        } else {
            ChunkID {
                lod: (self.lod + 1) as LodLevel,
                pos: IVec3 {
                    x: shifted(self.pos.x as int, 1) as i32,
                    y: shifted(self.pos.y as int, 1) as i32,
                    z: shifted(self.pos.z as int, 1) as i32,
                },
            }
        }
    }

    /// Whether the two regions lie on one path of the tree: the finer
    /// position, shifted down by the difference of the levels, is the coarser.
    pub open spec fn overlaps(self, other: ChunkID) -> bool {
        if self.lod >= other.lod {
            let k = (self.lod - other.lod) as nat;
            &&& shifted(other.pos.x as int, k) == self.pos.x
            &&& shifted(other.pos.y as int, k) == self.pos.y
            &&& shifted(other.pos.z as int, k) == self.pos.z
        } else {
            let k = (other.lod - self.lod) as nat;
            &&& shifted(self.pos.x as int, k) == other.pos.x
            &&& shifted(self.pos.y as int, k) == other.pos.y
            &&& shifted(self.pos.z as int, k) == other.pos.z
        }
    }

    /// Edge length of the region in world voxels.
    pub fn world_size(&self) -> (r: i32)
        requires
            self.lod <= MAX_LOD,
        ensures
            r as int == self.world_size_spec(),
            32 <= r <= 8192,
    {
        let lod: u8 = self.lod;
        proof {
            lemma_one_shl(lod);
            vstd::arithmetic::power2::lemma2_to64();
            assert((1i64 << lod) <= 256) by {
                vstd::arithmetic::power2::lemma_pow2_strictly_increases(lod as nat, 9);
            }
            assert((32i32 << lod) as int == 32 * (1i64 << lod)) by (bit_vector)
                requires
                    lod <= 8,
            ;
        }
        32i32 << lod
    }

    /// Whether the id names a level that exists and a region inside the
    /// world's 32-bit coordinate space.
    pub fn is_in_world(&self) -> (r: bool)
        ensures
            r == self.in_world(),
    {
        if self.lod > MAX_LOD {
            return false;
        }
        let size: i64 = self.world_size() as i64;
        axis_in_world(self.pos.x, size) && axis_in_world(self.pos.y, size) && axis_in_world(
            self.pos.z,
            size,
        )
    }

    /// Edge length of one cell of the region in world voxels: `2^lod`.
    pub fn cell_size(&self) -> (r: i32)
        requires
            self.lod <= MAX_LOD,
        ensures
            r as int == scale(self.lod),
            1 <= r <= 256,
    {
        let lod: u8 = self.lod;
        proof {
            lemma_one_shl(lod);
            vstd::arithmetic::power2::lemma2_to64();
            assert((1i64 << lod) <= 256) by {
                vstd::arithmetic::power2::lemma_pow2_strictly_increases(lod as nat, 9);
            }
            assert((1i32 << lod) as int == (1i64 << lod)) by (bit_vector)
                requires
                    lod <= 8,
            ;
        }
        1i32 << lod
    }

    /// Least corner of the region in world voxels.
    pub fn world_min(&self) -> (r: IVec3)
        requires
            self.in_world(),
        ensures
            (r.x as int, r.y as int, r.z as int) == self.world_min_spec(),
    {
        let size = self.world_size();
        proof {
            lemma_min_fits(self.pos.x as int, size as int);
            lemma_min_fits(self.pos.y as int, size as int);
            lemma_min_fits(self.pos.z as int, size as int);
        }
        IVec3 { x: self.pos.x * size, y: self.pos.y * size, z: self.pos.z * size }
    }

    /// World position of the cell `(x, y, z)` of the region.
    pub fn cell_world_pos(&self, x: usize, y: usize, z: usize) -> (r: IVec3)
        requires
            self.in_world(),
            x < 32,
            y < 32,
            z < 32,
        ensures
            r == cell_pos(*self, x as int, y as int, z as int),
    {
        let base = self.world_min();
        let size = self.cell_size();
        proof {
            lemma_cell_fits(*self, x as int);
            lemma_cell_fits(*self, y as int);
            lemma_cell_fits(*self, z as int);
        }
        IVec3 {
            x: base.x + (x as i32) * size,
            y: base.y + (y as i32) * size,
            z: base.z + (z as i32) * size,
        }
    }

    /// The eight chunks one level finer that make up the region; none at
    /// level 0.
    pub fn children_lod(&self) -> (children: Vec<ChunkID>)
        requires
            self.in_world(),
        ensures
            children@.len() == if self.lod == 0 {
                0int
            } else {
                8int
            },
            forall|i: int| 0 <= i < children@.len() ==> #[trigger] children@[i] == child_spec(*self, i),
    {
        let mut children: Vec<ChunkID> = Vec::new();
        if self.lod == 0 {
            return children;
        }
        proof {
            lemma_child_has_parent(*self, 0);
        }
        let lod: u8 = self.lod - 1;
        let (x, y, z) = (2 * self.pos.x, 2 * self.pos.y, 2 * self.pos.z);
        children.push(ChunkID { lod, pos: IVec3 { x, y, z } });
        children.push(ChunkID { lod, pos: IVec3 { x, y, z: z + 1 } });
        children.push(ChunkID { lod, pos: IVec3 { x, y: y + 1, z } });
        children.push(ChunkID { lod, pos: IVec3 { x, y: y + 1, z: z + 1 } });
        children.push(ChunkID { lod, pos: IVec3 { x: x + 1, y, z } });
        children.push(ChunkID { lod, pos: IVec3 { x: x + 1, y, z: z + 1 } });
        children.push(ChunkID { lod, pos: IVec3 { x: x + 1, y: y + 1, z } });
        children.push(ChunkID { lod, pos: IVec3 { x: x + 1, y: y + 1, z: z + 1 } });
        children
    }

    /// The containing region one level coarser; the id itself at `MAX_LOD`.
    pub fn parent_lod(&self) -> (r: ChunkID)
        ensures
            r == self.parent_lod_spec(),
            self.lod >= MAX_LOD ==> r == *self,
            self.lod < MAX_LOD ==> r.lod == self.lod + 1,
    {
        if self.lod >= MAX_LOD {
            *self
        } else {
            ChunkID {
                lod: self.lod + 1,
                pos: IVec3 {
                    x: shift_down(self.pos.x, 1),
                    y: shift_down(self.pos.y, 1),
                    z: shift_down(self.pos.z, 1),
                },
            }
        }
    }
}

/// Whether the stretch `[p * size, (p + 1) * size)` lies within 32 bits.
fn axis_in_world(p: i32, size: i64) -> (r: bool)
    requires
        32 <= size <= 8192,
    ensures
        r == (i32::MIN <= p * size && (p + 1) * size <= i32::MAX + 1),
{
    assert(-0x1000_0000_0000 <= p * size <= 0x1000_0000_0000 && -0x1000_0000_0000 <= (p + 1) * size
        <= 0x1000_0000_0000) by (nonlinear_arith)
        requires
            -0x8000_0000 <= p <= 0x7fff_ffff,
            32 <= size <= 8192,
    ;
    let low: i64 = (p as i64) * size;
    let high: i64 = (p as i64 + 1) * size;
    -0x8000_0000 <= low && high <= 0x8000_0000
}

/// A region's least corner fits in 32 bits when the whole region does.
pub proof fn lemma_min_fits(p: int, size: int)
    requires
        size > 0,
        i32::MIN <= p * size,
        (p + 1) * size <= i32::MAX + 1,
    ensures
        i32::MIN <= p * size <= i32::MAX,
{
    assert((p + 1) * size == p * size + size) by (nonlinear_arith);
}

/// World position of the cell `(x, y, z)` of a chunk: the chunk's least
/// corner plus the local coordinates times `2^lod`.
pub open spec fn cell_pos(id: ChunkID, x: int, y: int, z: int) -> IVec3 {
    IVec3 {
        x: (id.world_min_spec().0 + x * scale(id.lod)) as i32,
        y: (id.world_min_spec().1 + y * scale(id.lod)) as i32,
        z: (id.world_min_spec().2 + z * scale(id.lod)) as i32,
    }
}

/// A cell's coordinate fits in 32 bits when its chunk lies in the world.
pub proof fn lemma_cell_fits(id: ChunkID, c: int)
    requires
        id.in_world(),
        0 <= c < 32,
    ensures
        0 <= c * scale(id.lod) < id.world_size_spec(),
        i32::MIN <= id.pos.x * id.world_size_spec() + c * scale(id.lod) <= i32::MAX,
        i32::MIN <= id.pos.y * id.world_size_spec() + c * scale(id.lod) <= i32::MAX,
        i32::MIN <= id.pos.z * id.world_size_spec() + c * scale(id.lod) <= i32::MAX,
{
    let s = scale(id.lod);
    vstd::arithmetic::power2::lemma_pow2_pos(id.lod as nat);
    assert(0 <= c * s < 32 * s) by (nonlinear_arith)
        requires
            0 <= c < 32,
            s > 0,
    ;
    let w = id.world_size_spec();
    assert((id.pos.x + 1) * w == id.pos.x * w + w) by (nonlinear_arith);
    assert((id.pos.y + 1) * w == id.pos.y * w + w) by (nonlinear_arith);
    assert((id.pos.z + 1) * w == id.pos.z * w + w) by (nonlinear_arith);
}

/// Along one axis, the stretch of a position at one level lies within the
/// stretch of its parent's position, which lies in the world if the stretch
/// itself does.
pub proof fn lemma_axis_parent(p: int, k: nat)
    requires
        k < MAX_LOD,
        i32::MIN <= p * (32 * pow2(k)),
        (p + 1) * (32 * pow2(k)) <= i32::MAX + 1,
    ensures
        i32::MIN <= shifted(p, 1) * (32 * pow2(k + 1)),
        (shifted(p, 1) + 1) * (32 * pow2(k + 1)) <= i32::MAX + 1,
        shifted(p, 1) * (32 * pow2(k + 1)) <= p * (32 * pow2(k)),
        (p + 1) * (32 * pow2(k)) <= (shifted(p, 1) + 1) * (32 * pow2(k + 1)),
        i32::MIN <= shifted(p, 1) <= i32::MAX,
{
    let d = pow2(k) as int;
    let h = pow2((25 - k) as nat) as int;
    let q = p / 2;
    vstd::arithmetic::power2::lemma_pow2_pos(k);
    vstd::arithmetic::power2::lemma_pow2_pos((25 - k) as nat);
    vstd::arithmetic::power2::lemma_pow2_adds(k, (25 - k) as nat);
    vstd::arithmetic::power2::lemma_pow2_unfold(k + 1);
    vstd::arithmetic::power2::lemma2_to64();
    assert(pow2(1) == 2);
    assert(shifted(p, 1) == q);
    assert(pow2(k + 1) == 2 * d);
    assert(d * h == 0x200_0000);
    assert(2 * q <= p <= 2 * q + 1);
    assert(-2 * h <= p) by (nonlinear_arith)
        requires
            -0x8000_0000 <= p * (32 * d),
            d * h == 0x200_0000,
            d > 0,
            h > 0,
    ;
    assert(p + 1 <= 2 * h) by (nonlinear_arith)
        requires
            (p + 1) * (32 * d) <= 0x8000_0000,
            d * h == 0x200_0000,
            d > 0,
            h > 0,
    ;
    assert(-h <= q < h);
    assert(-0x8000_0000 <= q * (32 * (2 * d)) && (q + 1) * (32 * (2 * d)) <= 0x8000_0000)
        by (nonlinear_arith)
        requires
            -h <= q < h,
            d * h == 0x200_0000,
            d > 0,
    ;
    assert(q * (32 * (2 * d)) <= p * (32 * d) && (p + 1) * (32 * d) <= (q + 1) * (32 * (2 * d)))
        by (nonlinear_arith)
        requires
            2 * q <= p <= 2 * q + 1,
            d > 0,
    ;
    assert(h <= 0x200_0000) by (nonlinear_arith)
        requires
            d * h == 0x200_0000,
            d >= 1,
            h >= 1,
    ;
}

/// The parent of a chunk of the world is a chunk of the world, and its
/// region contains the chunk's region along every axis.
pub proof fn lemma_parent_contains(id: ChunkID)
    requires
        id.in_world(),
    ensures
        id.parent_lod_spec().in_world(),
        id.parent_lod_spec().world_min_spec().0 <= id.world_min_spec().0,
        id.parent_lod_spec().world_min_spec().1 <= id.world_min_spec().1,
        id.parent_lod_spec().world_min_spec().2 <= id.world_min_spec().2,
        id.world_min_spec().0 + id.world_size_spec() <= id.parent_lod_spec().world_min_spec().0
            + id.parent_lod_spec().world_size_spec(),
        id.world_min_spec().1 + id.world_size_spec() <= id.parent_lod_spec().world_min_spec().1
            + id.parent_lod_spec().world_size_spec(),
        id.world_min_spec().2 + id.world_size_spec() <= id.parent_lod_spec().world_min_spec().2
            + id.parent_lod_spec().world_size_spec(),
{
    if id.lod < MAX_LOD {
        let parent = id.parent_lod_spec();
        let w = 32 * pow2(id.lod as nat);
        let w2 = 32 * pow2((id.lod + 1) as nat);
        lemma_axis_parent(id.pos.x as int, id.lod as nat);
        lemma_axis_parent(id.pos.y as int, id.lod as nat);
        lemma_axis_parent(id.pos.z as int, id.lod as nat);
        assert(id.world_size_spec() == w);
        assert(parent.world_size_spec() == w2);
        assert(parent.pos.x == shifted(id.pos.x as int, 1));
        assert(parent.pos.y == shifted(id.pos.y as int, 1));
        assert(parent.pos.z == shifted(id.pos.z as int, 1));
        assert((id.pos.x + 1) * w == id.pos.x * w + w) by (nonlinear_arith);
        assert((id.pos.y + 1) * w == id.pos.y * w + w) by (nonlinear_arith);
        assert((id.pos.z + 1) * w == id.pos.z * w + w) by (nonlinear_arith);
        assert((parent.pos.x + 1) * w2 == parent.pos.x * w2 + w2) by (nonlinear_arith);
        assert((parent.pos.y + 1) * w2 == parent.pos.y * w2 + w2) by (nonlinear_arith);
        assert((parent.pos.z + 1) * w2 == parent.pos.z * w2 + w2) by (nonlinear_arith);
    }
}

/// A chunk and its parent overlap.
pub proof fn lemma_parent_overlaps(id: ChunkID)
    ensures
        id.parent_lod_spec().overlaps(id),
{
    vstd::arithmetic::power2::lemma2_to64();
    if id.lod >= MAX_LOD {
        assert(pow2(0) == 1);
        assert(shifted(id.pos.x as int, 0) == id.pos.x);
        assert(shifted(id.pos.y as int, 0) == id.pos.y);
        assert(shifted(id.pos.z as int, 0) == id.pos.z);
    } else {
        assert(pow2(1) == 2);
        let parent = id.parent_lod_spec();
        assert((parent.lod - id.lod) as nat == 1);
        assert(i32::MIN <= shifted(id.pos.x as int, 1) <= i32::MAX);
        assert(i32::MIN <= shifted(id.pos.y as int, 1) <= i32::MAX);
        assert(i32::MIN <= shifted(id.pos.z as int, 1) <= i32::MAX);
    }
}

/// Two chunk ids that name the same region of the world are the same id.
pub proof fn lemma_region_determines_id(a: ChunkID, b: ChunkID)
    requires
        a.world_min_spec() == b.world_min_spec(),
        a.world_size_spec() == b.world_size_spec(),
    ensures
        a == b,
{
    let w = a.world_size_spec();
    vstd::arithmetic::power2::lemma_pow2_pos(a.lod as nat);
    vstd::arithmetic::power2::lemma_pow2_pos(b.lod as nat);
    if a.lod < b.lod {
        vstd::arithmetic::power2::lemma_pow2_strictly_increases(a.lod as nat, b.lod as nat);
    } else if b.lod < a.lod {
        vstd::arithmetic::power2::lemma_pow2_strictly_increases(b.lod as nat, a.lod as nat);
    }
    assert(a.lod == b.lod);
    lemma_cancel(a.pos.x as int, b.pos.x as int, w);
    lemma_cancel(a.pos.y as int, b.pos.y as int, w);
    lemma_cancel(a.pos.z as int, b.pos.z as int, w);
}

proof fn lemma_cancel(p: int, q: int, w: int)
    requires
        w > 0,
        p * w == q * w,
    ensures
        p == q,
{
    assert(p == q) by (nonlinear_arith)
        requires
            w > 0,
            p * w == q * w,
    ;
}

/// Along one axis: the position `p` at a level, shifted down by `k` levels,
/// is `q` exactly when the stretch of `p` lies within the stretch of `q` at
/// the level that is `k` levels coarser. `w` is the edge length at the finer
/// level.
pub proof fn lemma_axis_overlap(p: int, q: int, k: nat, w: int)
    requires
        w > 0,
    ensures
        shifted(p, k) == q <==> (q * (w * pow2(k)) <= p * w && p * w + w <= q * (w * pow2(k)) + w
            * pow2(k)),
{
    let d = pow2(k) as int;
    vstd::arithmetic::power2::lemma_pow2_pos(k);
    vstd::arithmetic::div_mod::lemma_fundamental_div_mod(p, d);
    vstd::arithmetic::div_mod::lemma_mod_bound(p, d);
    let s = p / d;
    assert(s * d <= p < s * d + d) by (nonlinear_arith)
        requires
            p == d * s + p % d,
            0 <= p % d < d,
    ;
    if s == q {
        assert(q * (w * d) <= p * w && p * w + w <= q * (w * d) + w * d) by (nonlinear_arith)
            requires
                q * d <= p < q * d + d,
                w > 0,
        ;
    }
    if q * (w * d) <= p * w && p * w + w <= q * (w * d) + w * d {
        assert(q * d <= p < q * d + d) by (nonlinear_arith)
            requires
                q * (w * d) <= p * w,
                p * w + w <= q * (w * d) + w * d,
                w > 0,
                d > 0,
        ;
        assert(s == q) by (nonlinear_arith)
            requires
                q * d <= p < q * d + d,
                s * d <= p < s * d + d,
                d > 0,
        ;
    }
}

/// Two chunks overlap exactly when the region of the finer one lies within
/// the region of the coarser one along every axis.
pub proof fn lemma_overlaps_is_containment(coarse: ChunkID, fine: ChunkID)
    requires
        coarse.lod >= fine.lod,
    ensures
        coarse.overlaps(fine) <==> {
            &&& coarse.world_min_spec().0 <= fine.world_min_spec().0
            &&& coarse.world_min_spec().1 <= fine.world_min_spec().1
            &&& coarse.world_min_spec().2 <= fine.world_min_spec().2
            &&& fine.world_min_spec().0 + fine.world_size_spec() <= coarse.world_min_spec().0
                + coarse.world_size_spec()
            &&& fine.world_min_spec().1 + fine.world_size_spec() <= coarse.world_min_spec().1
                + coarse.world_size_spec()
            &&& fine.world_min_spec().2 + fine.world_size_spec() <= coarse.world_min_spec().2
                + coarse.world_size_spec()
        },
{
    let k = (coarse.lod - fine.lod) as nat;
    let w = fine.world_size_spec();
    vstd::arithmetic::power2::lemma_pow2_pos(fine.lod as nat);
    vstd::arithmetic::power2::lemma_pow2_adds(fine.lod as nat, k);
    assert(coarse.world_size_spec() == w * pow2(k)) by (nonlinear_arith)
        requires
            coarse.world_size_spec() == 32 * pow2(coarse.lod as nat),
            w == 32 * pow2(fine.lod as nat),
            pow2(coarse.lod as nat) == pow2(fine.lod as nat) * pow2(k),
    ;
    lemma_axis_overlap(fine.pos.x as int, coarse.pos.x as int, k, w);
    lemma_axis_overlap(fine.pos.y as int, coarse.pos.y as int, k, w);
    lemma_axis_overlap(fine.pos.z as int, coarse.pos.z as int, k, w);
}

/// The child of a chunk with the given index from 0 to 7: one level finer,
/// at twice the position plus one bit of the index for each axis.
pub open spec fn child_spec(id: ChunkID, index: int) -> ChunkID {
    ChunkID {
        lod: (id.lod - 1) as LodLevel,
        pos: IVec3 {
            x: (2 * id.pos.x + index / 4) as i32,
            y: (2 * id.pos.y + (index / 2) % 2) as i32,
            z: (2 * id.pos.z + index % 2) as i32,
        },
    }
}

/// Each child of a chunk has the chunk as its parent.
pub proof fn lemma_child_has_parent(id: ChunkID, index: int)
    requires
        id.in_world(),
        id.lod > 0,
        0 <= index < 8,
    ensures
        child_spec(id, index).parent_lod_spec() == id,
        i32::MIN <= 2 * id.pos.x <= i32::MAX - 1,
        i32::MIN <= 2 * id.pos.y <= i32::MAX - 1,
        i32::MIN <= 2 * id.pos.z <= i32::MAX - 1,
{
    vstd::arithmetic::power2::lemma2_to64();
    assert(pow2(1) == 2);
    vstd::arithmetic::power2::lemma_pow2_unfold(id.lod as nat);
    vstd::arithmetic::power2::lemma_pow2_pos((id.lod - 1) as nat);
    let d = pow2(id.lod as nat) as int;
    assert(d >= 2);
    lemma_half_fits(id.pos.x as int, d);
    lemma_half_fits(id.pos.y as int, d);
    lemma_half_fits(id.pos.z as int, d);
}

proof fn lemma_half_fits(p: int, d: int)
    requires
        d >= 2,
        i32::MIN <= p * (32 * d),
        (p + 1) * (32 * d) <= i32::MAX + 1,
    ensures
        -0x200_0000 <= p < 0x200_0000,
{
    assert(-0x200_0000 <= p < 0x200_0000) by (nonlinear_arith)
        requires
            d >= 2,
            -0x8000_0000 <= p * (32 * d),
            (p + 1) * (32 * d) <= 0x8000_0000,
    ;
}

/// Whether the regions of `a` and `b` lie on one path of the tree.
pub fn chunk_overlaps(a: &ChunkID, b: ChunkID) -> (r: bool)
    ensures
        r == a.overlaps(b),
{
    if a.lod >= b.lod {
        let k: u8 = a.lod - b.lod;
        shift_down(b.pos.x, k) == a.pos.x && shift_down(b.pos.y, k) == a.pos.y && shift_down(
            b.pos.z,
            k,
        ) == a.pos.z
    } else {
        let k: u8 = b.lod - a.lod;
        shift_down(a.pos.x, k) == b.pos.x && shift_down(a.pos.y, k) == b.pos.y && shift_down(
            a.pos.z,
            k,
        ) == b.pos.z
    }
}

} // verus!
