use vstd::prelude::*;
use vstd::arithmetic::power2::pow2;
use crate::chunk_id::{lemma_axis_overlap, shifted, ChunkID, IVec3};
use crate::frustum::{
    candidate_spec, dominated, drop_overlapping, insert_candidate, lemma_drop_overlapping_members,
    Frustum,
};

verus! {

/// Shifting a position down by `k1` levels and then by `k2` more is shifting
/// it down by `k1 + k2` levels.
pub proof fn lemma_shifted_twice(p: int, k1: nat, k2: nat)
    ensures
        shifted(shifted(p, k1), k2) == shifted(p, k1 + k2),
{
    let q1 = shifted(p, k1);
    let q2 = shifted(q1, k2);
    let d1 = pow2(k1) as int;
    let d2 = pow2(k2) as int;
    vstd::arithmetic::power2::lemma_pow2_pos(k1);
    vstd::arithmetic::power2::lemma_pow2_pos(k2);
    vstd::arithmetic::power2::lemma_pow2_adds(k1, k2);
    lemma_axis_overlap(p, q1, k1, 1);
    lemma_axis_overlap(q1, q2, k2, 1);
    assert(q1 * d1 <= p && p + 1 <= q1 * d1 + d1);
    assert(q2 * d2 <= q1 && q1 + 1 <= q2 * d2 + d2);
    assert(q2 * (d1 * d2) <= p && p + 1 <= q2 * (d1 * d2) + d1 * d2) by (nonlinear_arith)
        requires
            q1 * d1 <= p,
            p + 1 <= q1 * d1 + d1,
            q2 * d2 <= q1,
            q1 + 1 <= q2 * d2 + d2,
            d1 > 0,
            d2 > 0,
    ;
    assert(pow2(k1 + k2) == d1 * d2);
    lemma_axis_overlap(p, q2, k1 + k2, 1);
    assert(q2 * (1 * pow2(k1 + k2)) == q2 * (d1 * d2));
    assert(1 * pow2(k1 + k2) == d1 * d2);
}

/// The region of `outer` holds the region of `inner`: it is as coarse or
/// coarser, and the two overlap.
pub open spec fn holds(outer: ChunkID, inner: ChunkID) -> bool {
    outer.lod >= inner.lod && outer.overlaps(inner)
}

/// A region holds itself.
pub proof fn lemma_holds_itself(id: ChunkID)
    ensures
        holds(id, id),
{
    vstd::arithmetic::power2::lemma2_to64();
    assert(pow2(0) == 1);
    assert(shifted(id.pos.x as int, 0) == id.pos.x);
    assert(shifted(id.pos.y as int, 0) == id.pos.y);
    assert(shifted(id.pos.z as int, 0) == id.pos.z);
}

/// A region holds what a region that it holds holds.
pub proof fn lemma_holds_is_transitive(a: ChunkID, b: ChunkID, c: ChunkID)
    requires
        holds(a, b),
        holds(b, c),
    ensures
        holds(a, c),
{
    let k1 = (b.lod - c.lod) as nat;
    let k2 = (a.lod - b.lod) as nat;
    lemma_shifted_twice(c.pos.x as int, k1, k2);
    lemma_shifted_twice(c.pos.y as int, k1, k2);
    lemma_shifted_twice(c.pos.z as int, k1, k2);
    assert(k1 + k2 == (a.lod - c.lod) as nat);
}

/// An id that an id of the list holds is still held by an id of the list
/// after another id has been offered, and the offered id is held too.
pub proof fn lemma_offer_keeps_cover(list: Seq<ChunkID>, offered: ChunkID, c: ChunkID)
    ensures
        dominated(list, c) ==> dominated(insert_candidate(list, offered), c),
        dominated(insert_candidate(list, offered), offered),
{
    let after = insert_candidate(list, offered);
    lemma_holds_itself(offered);
    if !dominated(list, offered) {
        let last = after.len() - 1;
        assert(after[last] == offered);
        assert(after[last].overlaps(offered) && after[last].lod >= offered.lod);
    }
    if dominated(list, c) && !dominated(list, offered) {
        let i = choose|i: int| 0 <= i < list.len() && (#[trigger] list[i]).overlaps(c) && list[i].lod
            >= c.lod;
        let e = list[i];
        if e.overlaps(offered) {
            assert(e.lod < offered.lod);
            crate::frustum::lemma_overlaps_symmetric(e, offered);
            lemma_holds_is_transitive(offered, e, c);
            let last = after.len() - 1;
            assert(after[last] == offered);
            assert(after[last].overlaps(c) && after[last].lod >= c.lod);
        } else {
            lemma_drop_overlapping_members(list, offered);
            let kept = drop_overlapping(list, offered);
            let k = choose|k: int| 0 <= k < kept.len() && kept[k] == e;
            assert(after[k] == e);
            assert(after[k].overlaps(c) && after[k].lod >= c.lod);
        }
    }
}

impl Frustum {
    /// The id under which a chunk position is shown.
    pub open spec fn shown_as(self, x: int, y: int, z: int) -> ChunkID {
        candidate_spec(
            self.cam_chunk_spec(),
            IVec3 { x: x as i32, y: y as i32, z: z as i32 },
            self.full_detail_range,
        )
    }

    /// Looking at a chunk position keeps every id held that was held
    /// before, and holds the id of the position if the position is accepted.
    pub proof fn lemma_consider_covers(self, list: Seq<ChunkID>, x: int, y: int, z: int, c: ChunkID)
        ensures
            dominated(list, c) ==> dominated(self.consider(list, x, y, z), c),
            self.accepts(x, y, z) ==> dominated(
                self.consider(list, x, y, z),
                self.shown_as(x, y, z),
            ),
    {
        if self.accepts(x, y, z) {
            lemma_offer_keeps_cover(list, self.shown_as(x, y, z), c);
        }
    }

    /// Looking at a row keeps every id held that was held before, and holds
    /// the id of each accepted position of the row.
    pub proof fn lemma_scan_x_covers(self, list: Seq<ChunkID>, y: int, z: int, n: int, c: ChunkID)
        ensures
            dominated(list, c) ==> dominated(self.scan_x(list, y, z, n), c),
            forall|i: int|
                0 <= i < n && self.accepts(self.cam_chunk_spec().x - self.reach() + i, y, z)
                    ==> dominated(
                    self.scan_x(list, y, z, n),
                    #[trigger] self.shown_as(self.cam_chunk_spec().x - self.reach() + i, y, z),
                ),
        decreases n,
    {
        if n > 0 {
            let before = self.scan_x(list, y, z, n - 1);
            let x = self.cam_chunk_spec().x - self.reach() + n - 1;
            self.lemma_scan_x_covers(list, y, z, n - 1, c);
            self.lemma_consider_covers(before, x, y, z, c);
            assert forall|i: int|
                0 <= i < n && self.accepts(
                    self.cam_chunk_spec().x - self.reach() + i,
                    y,
                    z,
                ) implies dominated(
                self.scan_x(list, y, z, n),
                #[trigger] self.shown_as(self.cam_chunk_spec().x - self.reach() + i, y, z),
            ) by {
                let xi = self.cam_chunk_spec().x - self.reach() + i;
                if i < n - 1 {
                    self.lemma_scan_x_covers(list, y, z, n - 1, self.shown_as(xi, y, z));
                    self.lemma_consider_covers(before, x, y, z, self.shown_as(xi, y, z));
                }
            }
        }
    }

    /// Looking at a layer keeps every id held that was held before, and
    /// holds the id of each accepted position of the layer.
    pub proof fn lemma_scan_y_covers(self, list: Seq<ChunkID>, z: int, n: int, c: ChunkID)
        ensures
            dominated(list, c) ==> dominated(self.scan_y(list, z, n), c),
            forall|i: int, j: int|
                0 <= j < n && 0 <= i < 2 * self.reach() + 1 && self.accepts(
                    self.cam_chunk_spec().x - self.reach() + i,
                    self.cam_chunk_spec().y - self.reach() + j,
                    z,
                ) ==> dominated(
                    self.scan_y(list, z, n),
                    #[trigger] self.shown_as(
                        self.cam_chunk_spec().x - self.reach() + i,
                        self.cam_chunk_spec().y - self.reach() + j,
                        z,
                    ),
                ),
        decreases n,
    {
        if n > 0 {
            let before = self.scan_y(list, z, n - 1);
            let y = self.cam_chunk_spec().y - self.reach() + n - 1;
            let width = 2 * self.reach() + 1;
            self.lemma_scan_y_covers(list, z, n - 1, c);
            self.lemma_scan_x_covers(before, y, z, width, c);
            assert forall|i: int, j: int|
                0 <= j < n && 0 <= i < width && self.accepts(
                    self.cam_chunk_spec().x - self.reach() + i,
                    self.cam_chunk_spec().y - self.reach() + j,
                    z,
                ) implies dominated(
                self.scan_y(list, z, n),
                #[trigger] self.shown_as(
                    self.cam_chunk_spec().x - self.reach() + i,
                    self.cam_chunk_spec().y - self.reach() + j,
                    z,
                ),
            ) by {
                let xi = self.cam_chunk_spec().x - self.reach() + i;
                let yj = self.cam_chunk_spec().y - self.reach() + j;
                let shown = self.shown_as(xi, yj, z);
                if j < n - 1 {
                    self.lemma_scan_y_covers(list, z, n - 1, shown);
                    assert(dominated(before, shown));
                    self.lemma_scan_x_covers(before, y, z, width, shown);
                } else {
                    self.lemma_scan_x_covers(before, y, z, width, shown);
                    assert(dominated(
                        self.scan_x(before, y, z, width),
                        self.shown_as(self.cam_chunk_spec().x - self.reach() + i, y, z),
                    ));
                }
            }
        }
    }

    /// Looking at layers keeps every id held that was held before, and
    /// holds the id of each accepted position of the layers.
    pub proof fn lemma_scan_z_covers(self, list: Seq<ChunkID>, n: int, c: ChunkID)
        ensures
            dominated(list, c) ==> dominated(self.scan_z(list, n), c),
            forall|i: int, j: int, k: int|
                0 <= k < n && 0 <= j < 2 * self.reach() + 1 && 0 <= i < 2 * self.reach() + 1
                    && self.accepts(
                    self.cam_chunk_spec().x - self.reach() + i,
                    self.cam_chunk_spec().y - self.reach() + j,
                    self.cam_chunk_spec().z - self.reach() + k,
                ) ==> dominated(
                    self.scan_z(list, n),
                    #[trigger] self.shown_as(
                        self.cam_chunk_spec().x - self.reach() + i,
                        self.cam_chunk_spec().y - self.reach() + j,
                        self.cam_chunk_spec().z - self.reach() + k,
                    ),
                ),
        decreases n,
    {
        if n > 0 {
            let before = self.scan_z(list, n - 1);
            let z = self.cam_chunk_spec().z - self.reach() + n - 1;
            let width = 2 * self.reach() + 1;
            self.lemma_scan_z_covers(list, n - 1, c);
            self.lemma_scan_y_covers(before, z, width, c);
            assert forall|i: int, j: int, k: int|
                0 <= k < n && 0 <= j < width && 0 <= i < width && self.accepts(
                    self.cam_chunk_spec().x - self.reach() + i,
                    self.cam_chunk_spec().y - self.reach() + j,
                    self.cam_chunk_spec().z - self.reach() + k,
                ) implies dominated(
                self.scan_z(list, n),
                #[trigger] self.shown_as(
                    self.cam_chunk_spec().x - self.reach() + i,
                    self.cam_chunk_spec().y - self.reach() + j,
                    self.cam_chunk_spec().z - self.reach() + k,
                ),
            ) by {
                let xi = self.cam_chunk_spec().x - self.reach() + i;
                let yj = self.cam_chunk_spec().y - self.reach() + j;
                let zk = self.cam_chunk_spec().z - self.reach() + k;
                let shown = self.shown_as(xi, yj, zk);
                if k < n - 1 {
                    self.lemma_scan_z_covers(list, n - 1, shown);
                    assert(dominated(before, shown));
                    self.lemma_scan_y_covers(before, z, width, shown);
                } else {
                    self.lemma_scan_y_covers(before, z, width, shown);
                    assert(dominated(
                        self.scan_y(before, z, width),
                        self.shown_as(
                            self.cam_chunk_spec().x - self.reach() + i,
                            self.cam_chunk_spec().y - self.reach() + j,
                            z,
                        ),
                    ));
                }
            }
        }
    }

    /// The selection leaves no hole: every chunk position within reach of
    /// the camera that is accepted lies in the region of a selected id that
    /// is as coarse as the position's level of detail or coarser.
    pub proof fn lemma_selection_covers(self, x: int, y: int, z: int)
        requires
            self.cam_chunk_spec().x - self.reach() <= x <= self.cam_chunk_spec().x + self.reach(),
            self.cam_chunk_spec().y - self.reach() <= y <= self.cam_chunk_spec().y + self.reach(),
            self.cam_chunk_spec().z - self.reach() <= z <= self.cam_chunk_spec().z + self.reach(),
            self.accepts(x, y, z),
        ensures
            dominated(self.scanned(), self.shown_as(x, y, z)),
    {
        let width = 2 * self.reach() + 1;
        let i = x - (self.cam_chunk_spec().x - self.reach());
        let j = y - (self.cam_chunk_spec().y - self.reach());
        let k = z - (self.cam_chunk_spec().z - self.reach());
        self.lemma_scan_z_covers(Seq::empty(), width, self.shown_as(x, y, z));
        assert(self.shown_as(x, y, z) == self.shown_as(
            self.cam_chunk_spec().x - self.reach() + i,
            self.cam_chunk_spec().y - self.reach() + j,
            self.cam_chunk_spec().z - self.reach() + k,
        ));
    }
}

} // verus!
