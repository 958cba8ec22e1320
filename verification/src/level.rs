use vstd::prelude::*;
use std::collections::HashMap;
use crate::chunk_id::{ChunkID, IVec3};
use crate::mesh::{Instance, Mesh};
use crate::meshing::{block_mesh, in_block, solid_at, NeighborPlanes, SolidPlane};
use crate::voxel::{voxel_at, VoxelData3D, VoxelType};

verus! {

broadcast use vstd::std_specs::hash::group_hash_axioms;

/// How far the work on one payload of a chunk has come.
#[derive(Debug, Clone, Copy, PartialEq, Eq, Structural)]
pub enum Progress {
    Missing,
    InFlight,
    Done,
}

impl Progress {
    /// Position in the order `Missing`, `InFlight`, `Done`.
    pub open spec fn rank(self) -> int {
        match self {
            Progress::Missing => 0,
            Progress::InFlight => 1,
            Progress::Done => 2,
        }
    }

    pub fn is_done(&self) -> (r: bool)
        ensures
            r == (*self == Progress::Done),
    {
        match self {
            Progress::Done => true,
            _ => false,
        }
    }
}

/// The two payloads of a chunk.
#[derive(Debug, Clone, Copy, PartialEq, Eq, Structural)]
pub enum Payload {
    Voxel,
    Mesh,
}

/// The value of a slot of the registry.
pub struct Chunk {
    /// The chunk's voxels, once they are generated.
    pub voxel: Option<VoxelData3D>,
    /// The chunk's faces, once they are meshed.
    pub mesh: Mesh,
    /// The neighbour planes that the mesh was made with.
    pub planes: NeighborPlanes,
    pub voxel_state: Progress,
    pub mesh_state: Progress,
}

/// What a slot of the registry holds, as plain values.
pub ghost struct Slot {
    pub voxel_state: Progress,
    pub mesh_state: Progress,
    pub voxel: Option<VoxelData3D>,
    pub planes: Option<NeighborPlanes>,
    pub lists: Seq<Seq<Instance>>,
}

impl Slot {
    /// Nothing is visible of a payload before it is done; a mesh that is done
    /// belongs to voxels that are done, and is the mesher's output on them
    /// and on the planes it was made with.
    pub open spec fn wf(self, id: ChunkID) -> bool {
        &&& self.lists.len() == 6
        &&& (self.voxel_state == Progress::Done <==> self.voxel is Some)
        &&& (self.mesh_state == Progress::Done ==> self.voxel_state == Progress::Done)
        &&& (self.mesh_state == Progress::Done ==> forall|dir: int|
            0 <= dir < 6 ==> #[trigger] self.lists[dir] == block_mesh(
                self.voxel.unwrap(),
                self.planes.unwrap(),
                id,
                dir,
            ))
        &&& (self.mesh_state == Progress::Done <==> self.planes is Some)
        &&& (self.mesh_state != Progress::Done ==> forall|dir: int|
            0 <= dir < 6 ==> (#[trigger] self.lists[dir]).len() == 0)
    }

    /// A slot on which no work has begun.
    pub open spec fn missing() -> Slot {
        Slot {
            voxel_state: Progress::Missing,
            mesh_state: Progress::Missing,
            voxel: None,
            planes: None,
            lists: seq![
                Seq::empty(),
                Seq::empty(),
                Seq::empty(),
                Seq::empty(),
                Seq::empty(),
                Seq::empty(),
            ],
        }
    }

    /// The slot with the state of one payload replaced.
    pub open spec fn with_state(self, which: Payload, state: Progress) -> Slot {
        match which {
            Payload::Voxel => Slot { voxel_state: state, ..self },
            Payload::Mesh => Slot { mesh_state: state, ..self },
        }
    }

    pub open spec fn state(self, which: Payload) -> Progress {
        match which {
            Payload::Voxel => self.voxel_state,
            Payload::Mesh => self.mesh_state,
        }
    }

    /// Each state of `next` is this slot's or a later one, and a payload that
    /// is done in this slot is the same in `next`.
    pub open spec fn evolves_to(self, next: Slot) -> bool {
        &&& self.voxel_state.rank() <= next.voxel_state.rank()
        &&& self.mesh_state.rank() <= next.mesh_state.rank()
        &&& (self.voxel_state == Progress::Done ==> next.voxel == self.voxel)
        &&& (self.mesh_state == Progress::Done ==> next.lists == self.lists && next.planes
            == self.planes)
    }
}

impl Chunk {
    pub open spec fn view(self) -> Slot {
        Slot {
            voxel_state: self.voxel_state,
            mesh_state: self.mesh_state,
            voxel: self.voxel,
            planes: if self.mesh_state == Progress::Done {
                Some(self.planes)
            } else {
                None
            },
            lists: self.mesh.lists(),
        }
    }

    /// A slot on which no work has begun.
    pub fn new() -> (r: Self)
        ensures
            r.voxel_state == Progress::Missing,
            r.mesh_state == Progress::Missing,
            r.voxel is None,
            r.mesh.is_empty_spec(),
            r.view() == Slot::missing(),
    {
        let r = Chunk {
            voxel: None,
            mesh: Mesh::new(),
            planes: [[[false; 32]; 32]; 6],
            voxel_state: Progress::Missing,
            mesh_state: Progress::Missing,
        };
        assert(r.mesh.list(0).len() == 0);
        assert(r.mesh.list(1).len() == 0);
        assert(r.mesh.list(2).len() == 0);
        assert(r.mesh.list(3).len() == 0);
        assert(r.mesh.list(4).len() == 0);
        assert(r.mesh.list(5).len() == 0);
        assert(r.mesh.lists() =~~= Slot::missing().lists);
        r
    }
}

/// The number under which a chunk id is filed: the level and the three
/// coordinates, each moved into the unsigned range, side by side.
pub open spec fn key_spec(id: ChunkID) -> u128 {
    ((((id.lod as int) * 0x1_0000_0000 + (id.pos.x - i32::MIN)) * 0x1_0000_0000 + (id.pos.y
        - i32::MIN)) * 0x1_0000_0000 + (id.pos.z - i32::MIN)) as u128
}

proof fn lemma_digits(a1: int, b1: int, a2: int, b2: int)
    requires
        0 <= b1 < 0x1_0000_0000,
        0 <= b2 < 0x1_0000_0000,
        a1 * 0x1_0000_0000 + b1 == a2 * 0x1_0000_0000 + b2,
    ensures
        a1 == a2,
        b1 == b2,
{
    if a1 < a2 {
        assert(a1 * 0x1_0000_0000 + 0x1_0000_0000 <= a2 * 0x1_0000_0000);
    } else if a2 < a1 {
        assert(a2 * 0x1_0000_0000 + 0x1_0000_0000 <= a1 * 0x1_0000_0000);
    }
}

/// Different ids are filed under different numbers.
pub proof fn lemma_key_injective(a: ChunkID, b: ChunkID)
    requires
        key_spec(a) == key_spec(b),
    ensures
        a == b,
{
    let ax = a.pos.x - i32::MIN;
    let ay = a.pos.y - i32::MIN;
    let az = a.pos.z - i32::MIN;
    let bx = b.pos.x - i32::MIN;
    let by = b.pos.y - i32::MIN;
    let bz = b.pos.z - i32::MIN;
    let a1 = (a.lod as int) * 0x1_0000_0000 + ax;
    let b1 = (b.lod as int) * 0x1_0000_0000 + bx;
    let a2 = a1 * 0x1_0000_0000 + ay;
    let b2 = b1 * 0x1_0000_0000 + by;
    assert(0 <= a1 < 0x100_0000_0000);
    assert(0 <= b1 < 0x100_0000_0000);
    assert(0 <= a2 < 0x100_0000_0000_0000_0000);
    assert(0 <= b2 < 0x100_0000_0000_0000_0000);
    assert(key_spec(a) == a2 * 0x1_0000_0000 + az);
    assert(key_spec(b) == b2 * 0x1_0000_0000 + bz);
    lemma_digits(a2, az, b2, bz);
    lemma_digits(a1, ay, b1, by);
    lemma_digits(a.lod as int, ax, b.lod as int, bx);
}

fn key_of(id: ChunkID) -> (key: u128)
    ensures
        key == key_spec(id),
{
    let ux: u128 = (id.pos.x as i64 - i32::MIN as i64) as u128;
    let uy: u128 = (id.pos.y as i64 - i32::MIN as i64) as u128;
    let uz: u128 = (id.pos.z as i64 - i32::MIN as i64) as u128;
    (((id.lod as u128) * 0x1_0000_0000 + ux) * 0x1_0000_0000 + uy) * 0x1_0000_0000 + uz
}

/// The id of the chunk of the same level that lies next to `id` in direction
/// `dir`, where its position can be written down.
pub open spec fn neighbor_id(id: ChunkID, dir: int) -> Option<ChunkID> {
    let step: int = if dir % 2 == 0 {
        -1
    } else {
        1
    };
    let x = id.pos.x + if dir / 2 == 0 {
        step
    } else {
        0
    };
    let y = id.pos.y + if dir / 2 == 1 {
        step
    } else {
        0
    };
    let z = id.pos.z + if dir / 2 == 2 {
        step
    } else {
        0
    };
    if i32::MIN <= x <= i32::MAX && i32::MIN <= y <= i32::MAX && i32::MIN <= z <= i32::MAX {
        Some(ChunkID { lod: id.lod, pos: IVec3 { x: x as i32, y: y as i32, z: z as i32 } })
    } else {
        None
    }
}

/// The cell of the neighbour in direction `dir` that touches row `[i][j]` of
/// a block: it lies in the neighbour's layer that faces the block.
pub open spec fn facing_cell(dir: int, i: int, j: int) -> (int, int, int) {
    let a: int = if dir % 2 == 0 {
        31
    } else {
        0
    };
    if dir / 2 == 0 {
        (a, i, j)
    } else if dir / 2 == 1 {
        (j, a, i)
    } else {
        (i, j, a)
    }
}

/// The boundary layer of a block that faces its neighbour on the other side
/// of direction `dir`.
pub open spec fn is_facing_layer(plane: SolidPlane, voxels: VoxelData3D, dir: int) -> bool {
    forall|i: int, j: int|
        0 <= i < 32 && 0 <= j < 32 ==> #[trigger] plane[i][j] == solid_at(
            voxels,
            facing_cell(dir, i, j).0,
            facing_cell(dir, i, j).1,
            facing_cell(dir, i, j).2,
        )
}

/// No entry of the plane is solid.
pub open spec fn is_air_plane(plane: SolidPlane) -> bool {
    forall|i: int, j: int| 0 <= i < 32 && 0 <= j < 32 ==> !(#[trigger] plane[i][j])
}

/// The layer of a block that faces the neighbour on the other side of
/// direction `dir`, as a plane of solidity.
fn facing_layer(voxels: &VoxelData3D, dir: usize) -> (plane: SolidPlane)
    requires
        dir < 6,
    ensures
        is_facing_layer(plane, *voxels, dir as int),
{
    let mut plane: SolidPlane = [[false; 32]; 32];
    let a: usize = if dir % 2 == 0 {
        31
    } else {
        0
    };
    let mut i: usize = 0;
    while i < 32
        invariant
            i <= 32,
            dir < 6,
            a == (if dir % 2 == 0 {
                31int
            } else {
                0int
            }),
            forall|i2: int, j2: int|
                0 <= i2 < i && 0 <= j2 < 32 ==> #[trigger] plane[i2][j2] == solid_at(
                    *voxels,
                    facing_cell(dir as int, i2, j2).0,
                    facing_cell(dir as int, i2, j2).1,
                    facing_cell(dir as int, i2, j2).2,
                ),
        decreases 32 - i,
    {
        let mut j: usize = 0;
        while j < 32
            invariant
                i < 32,
                j <= 32,
                dir < 6,
                a == (if dir % 2 == 0 {
                    31int
                } else {
                    0int
                }),
                forall|i2: int, j2: int|
                    0 <= i2 < 32 && 0 <= j2 < 32 && (i2 < i || (i2 == i && j2 < j))
                        ==> #[trigger] plane[i2][j2] == solid_at(
                        *voxels,
                        facing_cell(dir as int, i2, j2).0,
                        facing_cell(dir as int, i2, j2).1,
                        facing_cell(dir as int, i2, j2).2,
                    ),
            decreases 32 - j,
        {
            let voxel = if dir / 2 == 0 {
                voxels[a][i][j]
            } else if dir / 2 == 1 {
                voxels[j][a][i]
            } else {
                voxels[i][j][a]
            };
            let ghost prev = plane;
            plane[i][j] = voxel.is_solid();
            assert forall|i2: int, j2: int|
                0 <= i2 < 32 && 0 <= j2 < 32 && (i2 < i || (i2 == i && j2 < j + 1))
                implies #[trigger] plane[i2][j2] == solid_at(
                *voxels,
                facing_cell(dir as int, i2, j2).0,
                facing_cell(dir as int, i2, j2).1,
                facing_cell(dir as int, i2, j2).2,
            ) by {
                if !(i2 == i && j2 == j) {
                    assert(plane[i2][j2] == prev[i2][j2]);
                }
            }
            j += 1;
        }
        i += 1;
    }
    plane
}

/// The id of the neighbour of the same level in direction `dir`.
fn neighbor_of(id: ChunkID, dir: usize) -> (r: Option<ChunkID>)
    requires
        dir < 6,
    ensures
        r == neighbor_id(id, dir as int),
{
    let low = dir % 2 == 0;
    let axis = dir / 2;
    let c: i32 = if axis == 0 {
        id.pos.x
    } else if axis == 1 {
        id.pos.y
    } else {
        id.pos.z
    };
    if low && c == i32::MIN {
        return None;
    }
    if !low && c == i32::MAX {
        return None;
    }
    let moved: i32 = if low {
        c - 1
    } else {
        c + 1
    };
    let pos = if axis == 0 {
        IVec3 { x: moved, y: id.pos.y, z: id.pos.z }
    } else if axis == 1 {
        IVec3 { x: id.pos.x, y: moved, z: id.pos.z }
    } else {
        IVec3 { x: id.pos.x, y: id.pos.y, z: moved }
    };
    Some(ChunkID { lod: id.lod, pos })
}

/// The chunk registry: a slot for each chunk id, with the progress of its
/// two payloads. A slot that has not been touched reads as missing.
pub struct Level {
    slots: HashMap<u128, Chunk>,
}

impl Level {
    /// What the registry holds for an id.
    pub closed spec fn slot(self, id: ChunkID) -> Slot {
        if self.slots@.contains_key(key_spec(id)) {
            self.slots@[key_spec(id)]@
        } else {
            Slot::missing()
        }
    }

    /// Every slot is well formed.
    pub closed spec fn wf(self) -> bool {
        forall|id: ChunkID| (#[trigger] self.slot(id)).wf(id)
    }

    pub open spec fn voxel_state(self, id: ChunkID) -> Progress {
        self.slot(id).voxel_state
    }

    pub open spec fn mesh_state(self, id: ChunkID) -> Progress {
        self.slot(id).mesh_state
    }

    /// Each slot of `next` has evolved from the slot of this registry.
    pub open spec fn evolves_to(self, next: Level) -> bool {
        forall|id: ChunkID| (#[trigger] self.slot(id)).evolves_to(next.slot(id))
    }

    /// The registries differ at most in the slot of `id`.
    pub open spec fn same_but(self, next: Level, id: ChunkID) -> bool {
        forall|other: ChunkID| other != id ==> #[trigger] next.slot(other) == self.slot(other)
    }

    /// A registry in which every slot is missing.
    pub fn new() -> (r: Self)
        ensures
            r.wf(),
            forall|id: ChunkID| #[trigger] r.slot(id) == Slot::missing(),
    {
        Level { slots: HashMap::new() }
    }

    /// A registry in which every slot is missing, with room for `capacity`
    /// slots.
    pub fn with_capacity(capacity: usize) -> (r: Self)
        ensures
            r.wf(),
            forall|id: ChunkID| #[trigger] r.slot(id) == Slot::missing(),
    {
        Level { slots: HashMap::with_capacity(capacity) }
    }

    /// Takes the slot of `id` out of the registry, where it then reads as
    /// missing.
    fn take(&mut self, id: ChunkID) -> (chunk: Chunk)
        requires
            old(self).wf(),
        ensures
            final(self).wf(),
            chunk@ == old(self).slot(id),
            final(self).slot(id) == Slot::missing(),
            old(self).same_but(*final(self), id),
    {
        let key = key_of(id);
        let found = self.slots.remove(&key);
        proof {
            assert forall|other: ChunkID| other != id implies #[trigger] self.slot(other) == old(
                self,
            ).slot(other) by {
                if key_spec(other) == key_spec(id) {
                    lemma_key_injective(other, id);
                }
            }
            assert forall|other: ChunkID| (#[trigger] self.slot(other)).wf(other) by {
                if other != id {
                    assert(old(self).slot(other).wf(other));
                }
            }
        }
        match found {
            Some(chunk) => chunk,
            None => Chunk::new(),
        }
    }

    /// Puts a slot into the registry under `id`.
    fn put(&mut self, id: ChunkID, chunk: Chunk)
        requires
            old(self).wf(),
            chunk@.wf(id),
        ensures
            final(self).wf(),
            final(self).slot(id) == chunk@,
            old(self).same_but(*final(self), id),
    {
        let key = key_of(id);
        self.slots.insert(key, chunk);
        proof {
            assert forall|other: ChunkID| other != id implies #[trigger] self.slot(other) == old(
                self,
            ).slot(other) by {
                if key_spec(other) == key_spec(id) {
                    lemma_key_injective(other, id);
                }
            }
            assert forall|other: ChunkID| (#[trigger] self.slot(other)).wf(other) by {
                if other != id {
                    assert(old(self).slot(other).wf(other));
                }
            }
        }
    }

    /// Looks up the slot of a chunk, makes an empty one if there is none,
    /// and applies `f` to it. The registry reads the same afterwards.
    pub fn chunk_op<R, F: FnOnce(&Chunk) -> R>(&mut self, id: ChunkID, f: F) -> (r: R)
        requires
            old(self).wf(),
            forall|chunk: &Chunk| chunk@ == old(self).slot(id) ==> f.requires((chunk,)),
        ensures
            final(self).wf(),
            forall|any: ChunkID| #[trigger] final(self).slot(any) == old(self).slot(any),
            exists|chunk: &Chunk| chunk@ == old(self).slot(id) && f.ensures((chunk,), r),
    {
        let chunk = self.take(id);
        let ghost taken = *self;
        assert(old(self).slot(id).wf(id));
        let r = f(&chunk);
        assert(chunk@ == old(self).slot(id) && f.ensures((&chunk,), r));
        self.put(id, chunk);
        proof {
            assert forall|any: ChunkID| #[trigger] self.slot(any) == old(self).slot(any) by {
                if any != id {
                    assert(taken.slot(any) == old(self).slot(any));
                    assert(self.slot(any) == taken.slot(any));
                }
            }
        }
        r
    }

    /// Whether the voxels of a chunk are done.
    pub fn voxel_ready(&self, id: ChunkID) -> (r: bool)
        ensures
            r == (self.voxel_state(id) == Progress::Done),
    {
        let key = key_of(id);
        match self.slots.get(&key) {
            Some(chunk) => chunk.voxel_state.is_done(),
            None => false,
        }
    }

    /// Whether the mesh of a chunk is done.
    pub fn mesh_ready(&self, id: ChunkID) -> (r: bool)
        ensures
            r == (self.mesh_state(id) == Progress::Done),
    {
        let key = key_of(id);
        match self.slots.get(&key) {
            Some(chunk) => chunk.mesh_state.is_done(),
            None => false,
        }
    }

    /// The voxels of a chunk, once they are done.
    pub fn voxels(&self, id: ChunkID) -> (r: Option<&VoxelData3D>)
        requires
            self.wf(),
        ensures
            r is Some == (self.voxel_state(id) == Progress::Done),
            r is Some ==> Some(*r.unwrap()) == self.slot(id).voxel,
    {
        let key = key_of(id);
        assert(self.slot(id).wf(id));
        match self.slots.get(&key) {
            Some(chunk) => chunk.voxel.as_ref(),
            None => None,
        }
    }

    /// The mesh of a chunk, once it is done.
    pub fn mesh(&self, id: ChunkID) -> (r: Option<&Mesh>)
        ensures
            r is Some == (self.mesh_state(id) == Progress::Done),
            r is Some ==> r.unwrap().lists() == self.slot(id).lists,
    {
        let key = key_of(id);
        match self.slots.get(&key) {
            Some(chunk) => {
                if chunk.mesh_state.is_done() {
                    Some(&chunk.mesh)
                } else {
                    None
                }
            },
            None => None,
        }
    }

    /// The voxel at a local position of a chunk, once the chunk's voxels are
    /// done.
    pub fn voxel_at(&self, id: ChunkID, x: usize, y: usize, z: usize) -> (r: Option<VoxelType>)
        requires
            self.wf(),
            x < 32,
            y < 32,
            z < 32,
        ensures
            r is Some == (self.voxel_state(id) == Progress::Done),
            r is Some ==> r.unwrap() == voxel_at(
                self.slot(id).voxel.unwrap(),
                x as int,
                y as int,
                z as int,
            ),
    {
        match self.voxels(id) {
            Some(voxels) => Some(voxels[x][y][z]),
            None => None,
        }
    }

    /// What a chunk sees of its neighbour in direction `dir`: the neighbour's
    /// facing layer where the neighbour's voxels are done, and air where they
    /// are not or where there is no neighbour.
    pub open spec fn sees(self, id: ChunkID, dir: int, plane: SolidPlane) -> bool {
        match neighbor_id(id, dir) {
            Some(n) => match self.slot(n).voxel {
                Some(voxels) => is_facing_layer(plane, voxels, dir),
                None => is_air_plane(plane),
            },
            None => is_air_plane(plane),
        }
    }

    /// The boundary plane of the neighbour of a chunk along `axis` (0 for x,
    /// 1 for y, 2 for z), on the positive or the negative side. A neighbour
    /// whose voxels are not done gives a plane of air.
    pub fn neighbor_solidity(&self, id: ChunkID, axis: usize, positive: bool) -> (plane: SolidPlane)
        requires
            self.wf(),
            axis < 3,
        ensures
            self.sees(
                id,
                2 * axis + if positive {
                    1int
                } else {
                    0int
                },
                plane,
            ),
    {
        let dir: usize = 2 * axis + if positive {
            1
        } else {
            0
        };
        match neighbor_of(id, dir) {
            Some(n) => match self.voxels(n) {
                Some(voxels) => facing_layer(voxels, dir),
                None => {
                    assert(self.slot(n).wf(n));
                    [[false; 32]; 32]
                },
            },
            None => [[false; 32]; 32],
        }
    }

    /// The planes match what the chunk sees of its six neighbours.
    pub open spec fn sees_all(self, id: ChunkID, planes: NeighborPlanes) -> bool {
        forall|dir: int| 0 <= dir < 6 ==> self.sees(id, dir, #[trigger] planes[dir])
    }

    /// The boundary planes of the six neighbours of a chunk.
    pub fn neighbor_planes(&self, id: ChunkID) -> (planes: NeighborPlanes)
        requires
            self.wf(),
        ensures
            self.sees_all(id, planes),
    {
        [
            self.neighbor_solidity(id, 0, false),
            self.neighbor_solidity(id, 0, true),
            self.neighbor_solidity(id, 1, false),
            self.neighbor_solidity(id, 1, true),
            self.neighbor_solidity(id, 2, false),
            self.neighbor_solidity(id, 2, true),
        ]
    }

    /// Hands over the voxels of a chunk whose generation is in flight, and
    /// marks them done. Voxels that are handed over in any other state are
    /// dropped.
    pub fn publish_voxel(&mut self, id: ChunkID, block: VoxelData3D) -> (published: bool)
        requires
            old(self).wf(),
        ensures
            final(self).wf(),
            published == (old(self).voxel_state(id) == Progress::InFlight),
            published ==> final(self).slot(id) == (Slot {
                voxel_state: Progress::Done,
                voxel: Some(block),
                ..old(self).slot(id)
            }),
            !published ==> final(self).slot(id) == old(self).slot(id),
            old(self).same_but(*final(self), id),
            old(self).evolves_to(*final(self)),
    {
        let mut chunk = self.take(id);
        let ghost taken = *self;
        assert(old(self).slot(id).wf(id));
        let published = chunk.voxel_state == Progress::InFlight;
        if published {
            chunk.voxel = Some(block);
            chunk.voxel_state = Progress::Done;
        }
        self.put(id, chunk);
        proof {
            assert forall|other: ChunkID| (#[trigger] old(self).slot(other)).evolves_to(
                self.slot(other),
            ) by {
                if other != id {
                    assert(taken.slot(other) == old(self).slot(other));
                    assert(self.slot(other) == taken.slot(other));
                }
            }
            assert forall|other: ChunkID| other != id implies #[trigger] self.slot(other) == old(
                self,
            ).slot(other) by {
                assert(taken.slot(other) == old(self).slot(other));
                assert(self.slot(other) == taken.slot(other));
            }
        }
        published
    }

    /// Hands over the mesh of a chunk whose meshing is in flight and whose
    /// voxels are done, with the neighbour planes that it was made with, and
    /// marks it done. A mesh that is handed over in any other state is
    /// dropped.
    pub fn publish_mesh(&mut self, id: ChunkID, planes: NeighborPlanes, mesh: Mesh) -> (published:
        bool)
        requires
            old(self).wf(),
            old(self).voxel_state(id) == Progress::Done ==> forall|dir: int|
                0 <= dir < 6 ==> #[trigger] mesh.list(dir) == block_mesh(
                    old(self).slot(id).voxel.unwrap(),
                    planes,
                    id,
                    dir,
                ),
        ensures
            final(self).wf(),
            published == (old(self).mesh_state(id) == Progress::InFlight && old(self).voxel_state(
                id,
            ) == Progress::Done),
            published ==> final(self).slot(id) == (Slot {
                mesh_state: Progress::Done,
                planes: Some(planes),
                lists: mesh.lists(),
                ..old(self).slot(id)
            }),
            !published ==> final(self).slot(id) == old(self).slot(id),
            old(self).same_but(*final(self), id),
            old(self).evolves_to(*final(self)),
    {
        let mut chunk = self.take(id);
        let ghost taken = *self;
        assert(old(self).slot(id).wf(id));
        let published = chunk.mesh_state == Progress::InFlight && chunk.voxel_state
            == Progress::Done;
        if published {
            proof {
                assert forall|dir: int| 0 <= dir < 6 implies #[trigger] mesh.lists()[dir]
                    == block_mesh(chunk.voxel.unwrap(), planes, id, dir) by {
                    assert(mesh.lists()[dir] == mesh.list(dir));
                }
            }
            chunk.mesh = mesh;
            chunk.planes = planes;
            chunk.mesh_state = Progress::Done;
        }
        self.put(id, chunk);
        proof {
            assert forall|other: ChunkID| (#[trigger] old(self).slot(other)).evolves_to(
                self.slot(other),
            ) by {
                if other != id {
                    assert(taken.slot(other) == old(self).slot(other));
                    assert(self.slot(other) == taken.slot(other));
                }
            }
            assert forall|other: ChunkID| other != id implies #[trigger] self.slot(other) == old(
                self,
            ).slot(other) by {
                assert(taken.slot(other) == old(self).slot(other));
                assert(self.slot(other) == taken.slot(other));
            }
        }
        published
    }

    /// Claims the work on one payload of a chunk: moves its state from
    /// `Missing` to `InFlight`. Only the caller that finds it `Missing` wins.
    pub fn try_begin(&mut self, id: ChunkID, which: Payload) -> (won: bool)
        requires
            old(self).wf(),
        ensures
            final(self).wf(),
            won == (old(self).slot(id).state(which) == Progress::Missing),
            won ==> final(self).slot(id) == old(self).slot(id).with_state(which, Progress::InFlight),
            !won ==> final(self).slot(id) == old(self).slot(id),
            old(self).same_but(*final(self), id),
            old(self).evolves_to(*final(self)),
    {
        let mut chunk = self.take(id);
        let ghost taken = *self;
        let won = match which {
            Payload::Voxel => {
                if chunk.voxel_state == Progress::Missing {
                    chunk.voxel_state = Progress::InFlight;
                    true
                } else {
                    false
                }
            },
            Payload::Mesh => {
                if chunk.mesh_state == Progress::Missing {
                    chunk.mesh_state = Progress::InFlight;
                    true
                } else {
                    false
                }
            },
        };
        assert(chunk@.lists =~~= old(self).slot(id).lists);
        assert(old(self).slot(id).wf(id));
        self.put(id, chunk);
        proof {
            assert forall|other: ChunkID| (#[trigger] old(self).slot(other)).evolves_to(
                self.slot(other),
            ) by {
                if other != id {
                    assert(taken.slot(other) == old(self).slot(other));
                    assert(self.slot(other) == taken.slot(other));
                }
            }
            assert forall|other: ChunkID| other != id implies #[trigger] self.slot(other) == old(
                self,
            ).slot(other) by {
                assert(taken.slot(other) == old(self).slot(other));
                assert(self.slot(other) == taken.slot(other));
            }
        }
        won
    }
}

/// A slot evolves to itself.
pub proof fn lemma_evolves_refl(level: Level)
    ensures
        level.evolves_to(level),
{
}

/// Evolution composes: what holds from one registry to a second and from the
/// second to a third holds from the first to the third.
pub proof fn lemma_evolves_trans(first: Level, second: Level, third: Level)
    requires
        first.evolves_to(second),
        second.evolves_to(third),
        second.wf(),
    ensures
        first.evolves_to(third),
{
    assert forall|id: ChunkID| (#[trigger] first.slot(id)).evolves_to(third.slot(id)) by {
        assert(first.slot(id).evolves_to(second.slot(id)));
        assert(second.slot(id).evolves_to(third.slot(id)));
        assert(second.slot(id).wf(id));
    }
}

/// The state of a payload never goes back: whatever happens to a registry, a
/// state that was reached stays reached, and `Done` stays `Done`.
pub proof fn lemma_states_are_monotonic(before: Level, after: Level, id: ChunkID, which: Payload)
    requires
        before.evolves_to(after),
    ensures
        before.slot(id).state(which).rank() <= after.slot(id).state(which).rank(),
        before.slot(id).state(which) == Progress::Done ==> after.slot(id).state(which)
            == Progress::Done,
        before.slot(id).state(which) != Progress::Missing ==> after.slot(id).state(which)
            != Progress::Missing,
{
    assert(before.slot(id).evolves_to(after.slot(id)));
}

/// A payload that is done is never written again: it reads the same in every
/// later registry.
pub proof fn lemma_done_payload_is_frozen(before: Level, after: Level, id: ChunkID)
    requires
        before.evolves_to(after),
    ensures
        before.voxel_state(id) == Progress::Done ==> after.slot(id).voxel == before.slot(id).voxel,
        before.mesh_state(id) == Progress::Done ==> after.slot(id).lists == before.slot(id).lists
            && after.slot(id).planes == before.slot(id).planes,
{
    assert(before.slot(id).evolves_to(after.slot(id)));
}

/// A mesh that is done belongs to voxels that are done, and is the mesher's
/// output on those voxels and on the neighbour planes that were seen when it
/// was made.
pub proof fn lemma_done_mesh_matches_voxels(level: Level, id: ChunkID, dir: int)
    requires
        level.wf(),
        level.mesh_state(id) == Progress::Done,
        0 <= dir < 6,
    ensures
        level.voxel_state(id) == Progress::Done,
        level.slot(id).voxel is Some,
        level.slot(id).planes is Some,
        level.slot(id).lists[dir] == block_mesh(
            level.slot(id).voxel.unwrap(),
            level.slot(id).planes.unwrap(),
            id,
            dir,
        ),
{
    assert(level.slot(id).wf(id));
}

/// Nothing of a payload is visible before it is done, and voxels that are
/// done are there.
pub proof fn lemma_unfinished_payload_is_hidden(level: Level, id: ChunkID, dir: int)
    requires
        level.wf(),
        0 <= dir < 6,
    ensures
        level.voxel_state(id) != Progress::Done <==> level.slot(id).voxel is None,
        level.mesh_state(id) != Progress::Done ==> level.slot(id).lists[dir].len() == 0,
{
    assert(level.slot(id).wf(id));
}

} // verus!
