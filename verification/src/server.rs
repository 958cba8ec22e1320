use vstd::prelude::*;
use vstd::arithmetic::power2::pow2;
use crate::chunk_id::{chunk_overlaps, shift_down, shifted, ChunkID, IVec3, LodLevel, MAX_LOD};
use crate::frustum::{all_in_world, Frustum};
use crate::job::{generated_by, leaves_nothing_in_flight, run_job, same_mesh, same_voxels, Job};
use crate::level::{Level, Payload, Progress, Slot};
use crate::meshing::{block_mesh, NeighborPlanes};
use crate::mesh::{Instance, Mesh};
use crate::texture::Texture;
use crate::threadpool::{after_submit, Lane, Threadpool};
use crate::voxel::{voxel_at, VoxelData3D, VoxelType};
use crate::world_gen::Generator;

verus! {

/// The position of the chunk of level 0 that holds a world voxel, and the
/// voxel's position within that chunk.
pub fn chunk_and_local(world_voxel: IVec3) -> (r: (IVec3, IVec3))
    ensures
        r.0.x == shifted(world_voxel.x as int, 5),
        r.0.y == shifted(world_voxel.y as int, 5),
        r.0.z == shifted(world_voxel.z as int, 5),
        r.1.x == world_voxel.x - 32 * r.0.x,
        r.1.y == world_voxel.y - 32 * r.0.y,
        r.1.z == world_voxel.z - 32 * r.0.z,
        0 <= r.1.x < 32,
        0 <= r.1.y < 32,
        0 <= r.1.z < 32,
{
    let cx = shift_down(world_voxel.x, 5);
    let cy = shift_down(world_voxel.y, 5);
    let cz = shift_down(world_voxel.z, 5);
    proof {
        vstd::arithmetic::power2::lemma2_to64();
        assert(pow2(5) == 32);
    }
    let lx: i64 = world_voxel.x as i64 - 32 * (cx as i64);
    let ly: i64 = world_voxel.y as i64 - 32 * (cy as i64);
    let lz: i64 = world_voxel.z as i64 - 32 * (cz as i64);
    (IVec3 { x: cx, y: cy, z: cz }, IVec3 { x: lx as i32, y: ly as i32, z: lz as i32 })
}

/// The world as the frame loop sees it: a generator and the registry of the
/// chunks made with it.
pub struct Server<G: Generator> {
    generator: G,
    level: Level,
}

impl<G: Generator> Server<G> {
    /// The registry.
    pub closed spec fn level(self) -> Level {
        self.level
    }

    /// The generator.
    pub closed spec fn generator_spec(self) -> G {
        self.generator
    }

    pub open spec fn wf(self) -> bool {
        self.level().wf()
    }

    /// A world in which no chunk has been generated.
    pub fn new(generator: G) -> (r: Self)
        ensures
            r.wf(),
            r.generator_spec() == generator,
            forall|id: ChunkID| #[trigger] r.level().slot(id) == Slot::missing(),
    {
        Server { generator, level: Level::with_capacity(8) }
    }

    /// Whether the mesh of a chunk is done.
    pub fn mesh_ready(&self, chunk_id: ChunkID) -> (r: bool)
        ensures
            r == (self.level().mesh_state(chunk_id) == Progress::Done),
    {
        self.level.mesh_ready(chunk_id)
    }

    /// The voxel at a world position, once the chunk of level 0 that holds
    /// it is generated.
    pub fn voxel_at_world(&self, world_voxel: IVec3) -> (r: Option<VoxelType>)
        requires
            self.wf(),
        ensures
            r is Some == (self.level().voxel_state(home_chunk(world_voxel)) == Progress::Done),
            r is Some ==> r.unwrap() == voxel_at(
                self.level().slot(home_chunk(world_voxel)).voxel.unwrap(),
                world_voxel.x - 32 * shifted(world_voxel.x as int, 5),
                world_voxel.y - 32 * shifted(world_voxel.y as int, 5),
                world_voxel.z - 32 * shifted(world_voxel.z as int, 5),
            ),
    {
        let (chunk_pos, local) = chunk_and_local(world_voxel);
        self.level.voxel_at(
            ChunkID::new(0, chunk_pos),
            local.x as usize,
            local.y as usize,
            local.z as usize,
        )
    }

    /// Whether a moving body is stopped at a world position: by a solid
    /// voxel, and by every position whose chunk is not generated yet.
    pub open spec fn stops(self, world_voxel: IVec3) -> bool {
        match self.level().slot(home_chunk(world_voxel)).voxel {
            Some(voxels) => voxel_at(
                voxels,
                world_voxel.x - 32 * shifted(world_voxel.x as int, 5),
                world_voxel.y - 32 * shifted(world_voxel.y as int, 5),
                world_voxel.z - 32 * shifted(world_voxel.z as int, 5),
            ).solid(),
            None => true,
        }
    }

    /// Whether a moving body is stopped somewhere in the box of world
    /// positions between two corners, both included.
    pub fn check_volume_for_collision(&self, start_corner: IVec3, end_corner: IVec3) -> (r: bool)
        requires
            self.wf(),
        ensures
            r == exists|x: int, y: int, z: int|
                start_corner.x <= x <= end_corner.x && start_corner.y <= y <= end_corner.y
                    && start_corner.z <= z <= end_corner.z && #[trigger] self.stops(
                    IVec3 { x: x as i32, y: y as i32, z: z as i32 },
                ),
    {
        let mut x: i64 = start_corner.x as i64;
        while x <= end_corner.x as i64
            invariant
                self.wf(),
                start_corner.x <= x <= i32::MAX + 1,
                forall|x2: int, y2: int, z2: int|
                    start_corner.x <= x2 < x && start_corner.y <= y2 <= end_corner.y
                        && start_corner.z <= z2 <= end_corner.z ==> !#[trigger] self.stops(
                        IVec3 { x: x2 as i32, y: y2 as i32, z: z2 as i32 },
                    ),
            decreases end_corner.x - x + 1,
        {
            let mut y: i64 = start_corner.y as i64;
            while y <= end_corner.y as i64
                invariant
                    self.wf(),
                    start_corner.x <= x <= end_corner.x,
                    start_corner.y <= y <= i32::MAX + 1,
                    forall|x2: int, y2: int, z2: int|
                        start_corner.x <= x2 <= end_corner.x && start_corner.y <= y2
                            <= end_corner.y && start_corner.z <= z2 <= end_corner.z && (x2 < x || (
                        x2 == x && y2 < y)) ==> !#[trigger] self.stops(
                            IVec3 { x: x2 as i32, y: y2 as i32, z: z2 as i32 },
                        ),
                decreases end_corner.y - y + 1,
            {
                let mut z: i64 = start_corner.z as i64;
                while z <= end_corner.z as i64
                    invariant
                        self.wf(),
                        start_corner.x <= x <= end_corner.x,
                        start_corner.y <= y <= end_corner.y,
                        start_corner.z <= z <= i32::MAX + 1,
                        forall|x2: int, y2: int, z2: int|
                            start_corner.x <= x2 <= end_corner.x && start_corner.y <= y2
                                <= end_corner.y && start_corner.z <= z2 <= end_corner.z && (x2 < x
                                || (x2 == x && (y2 < y || (y2 == y && z2 < z))))
                                ==> !#[trigger] self.stops(
                                IVec3 { x: x2 as i32, y: y2 as i32, z: z2 as i32 },
                            ),
                    decreases end_corner.z - z + 1,
                {
                    if self.is_solid_physically(IVec3 { x: x as i32, y: y as i32, z: z as i32 }) {
                        return true;
                    }
                    z += 1;
                }
                y += 1;
            }
            x += 1;
        }
        false
    }

    /// The positions `(x, y, z0..z0 + n)` that stop a moving body, by rising
    /// z.
    pub open spec fn solid_z(self, x: int, y: int, z0: int, n: int) -> Seq<IVec3>
        decreases n,
    {
        if n <= 0 {
            Seq::empty()
        } else if self.stops(IVec3 { x: x as i32, y: y as i32, z: (z0 + n - 1) as i32 }) {
            self.solid_z(x, y, z0, n - 1).push(
                IVec3 { x: x as i32, y: y as i32, z: (z0 + n - 1) as i32 },
            )
        } else {
            self.solid_z(x, y, z0, n - 1)
        }
    }

    /// The positions `(x, y0..y0 + n, z0..z0 + depth)` that stop a moving
    /// body, by rising y, then z.
    pub open spec fn solid_y(self, x: int, y0: int, z0: int, depth: int, n: int) -> Seq<IVec3>
        decreases n,
    {
        if n <= 0 {
            Seq::empty()
        } else {
            self.solid_y(x, y0, z0, depth, n - 1) + self.solid_z(x, y0 + n - 1, z0, depth)
        }
    }

    /// The positions `(x0..x0 + n, y0..y0 + height, z0..z0 + depth)` that
    /// stop a moving body, by rising x, then y, then z.
    pub open spec fn solid_x(
        self,
        x0: int,
        y0: int,
        z0: int,
        height: int,
        depth: int,
        n: int,
    ) -> Seq<IVec3>
        decreases n,
    {
        if n <= 0 {
            Seq::empty()
        } else {
            self.solid_x(x0, y0, z0, height, depth, n - 1) + self.solid_y(
                x0 + n - 1,
                y0,
                z0,
                depth,
                height,
            )
        }
    }

    /// The world positions in the box between two corners, both included,
    /// that stop a moving body, by rising x, then y, then z. A box with a
    /// start corner beyond its end corner along some axis holds none.
    pub fn solid_voxels_in(&self, start_corner: IVec3, end_corner: IVec3) -> (solid: Vec<IVec3>)
        requires
            self.wf(),
        ensures
            solid@ == self.solid_x(
                start_corner.x as int,
                start_corner.y as int,
                start_corner.z as int,
                end_corner.y - start_corner.y + 1,
                end_corner.z - start_corner.z + 1,
                end_corner.x - start_corner.x + 1,
            ),
    {
        let (x0, y0, z0) = (start_corner.x as i64, start_corner.y as i64, start_corner.z as i64);
        let width: i64 = end_corner.x as i64 - x0 + 1;
        let height: i64 = end_corner.y as i64 - y0 + 1;
        let depth: i64 = end_corner.z as i64 - z0 + 1;
        let mut solid: Vec<IVec3> = Vec::new();
        let mut nx: i64 = 0;
        while nx < width
            invariant
                self.wf(),
                0 <= nx,
                width > 0 ==> nx <= width,
                width <= 0 ==> nx == 0,
                x0 == start_corner.x,
                y0 == start_corner.y,
                z0 == start_corner.z,
                width == end_corner.x - start_corner.x + 1,
                height == end_corner.y - start_corner.y + 1,
                depth == end_corner.z - start_corner.z + 1,
                solid@ == self.solid_x(
                    x0 as int,
                    y0 as int,
                    z0 as int,
                    height as int,
                    depth as int,
                    nx as int,
                ),
            decreases width - nx,
        {
            let ghost done_x = solid@;
            let mut ny: i64 = 0;
            while ny < height
                invariant
                    self.wf(),
                    0 <= nx < width,
                    0 <= ny,
                    height > 0 ==> ny <= height,
                    height <= 0 ==> ny == 0,
                    x0 == start_corner.x,
                    y0 == start_corner.y,
                    z0 == start_corner.z,
                    width == end_corner.x - start_corner.x + 1,
                    height == end_corner.y - start_corner.y + 1,
                    depth == end_corner.z - start_corner.z + 1,
                    solid@ == done_x + self.solid_y(
                        x0 + nx,
                        y0 as int,
                        z0 as int,
                        depth as int,
                        ny as int,
                    ),
                decreases height - ny,
            {
                let ghost done_y = solid@;
                let mut nz: i64 = 0;
                while nz < depth
                    invariant
                        self.wf(),
                        0 <= nx < width,
                        0 <= ny < height,
                        0 <= nz,
                        depth > 0 ==> nz <= depth,
                        depth <= 0 ==> nz == 0,
                        x0 == start_corner.x,
                        y0 == start_corner.y,
                        z0 == start_corner.z,
                        width == end_corner.x - start_corner.x + 1,
                        height == end_corner.y - start_corner.y + 1,
                        depth == end_corner.z - start_corner.z + 1,
                        solid@ == done_y + self.solid_z(x0 + nx, y0 + ny, z0 as int, nz as int),
                    decreases depth - nz,
                {
                    let pos = IVec3 {
                        x: (x0 + nx) as i32,
                        y: (y0 + ny) as i32,
                        z: (z0 + nz) as i32,
                    };
                    if self.is_solid_physically(pos) {
                        solid.push(pos);
                    }
                    assert(solid@ == done_y + self.solid_z(x0 + nx, y0 + ny, z0 as int, nz + 1));
                    nz += 1;
                }
                proof {
                    if depth <= 0 {
                        assert(self.solid_z(x0 + nx, y0 + ny, z0 as int, depth as int)
                            == Seq::<IVec3>::empty());
                    }
                }
                assert(solid@ == done_x + self.solid_y(
                    x0 + nx,
                    y0 as int,
                    z0 as int,
                    depth as int,
                    ny + 1,
                ));
                ny += 1;
            }
            proof {
                if height <= 0 {
                    assert(self.solid_y(x0 + nx, y0 as int, z0 as int, depth as int, height as int)
                        == Seq::<IVec3>::empty());
                }
            }
            nx += 1;
        }
        proof {
            if width <= 0 {
                assert(self.solid_x(
                    x0 as int,
                    y0 as int,
                    z0 as int,
                    height as int,
                    depth as int,
                    width as int,
                ) == Seq::<IVec3>::empty());
            }
        }
        solid
    }

    /// Whether a moving body is stopped at a world position: by a solid
    /// voxel, and by every position whose chunk is not generated yet.
    pub fn is_solid_physically(&self, world_voxel: IVec3) -> (r: bool)
        requires
            self.wf(),
        ensures
            r == self.stops(world_voxel),
    {
        proof {
            crate::level::lemma_unfinished_payload_is_hidden(
                self.level,
                home_chunk(world_voxel),
                0,
            );
        }
        match self.voxel_at_world(world_voxel) {
            Some(voxel) => voxel.is_physically_solid(),
            None => true,
        }
    }

    /// The chunk that is drawn for a desired chunk: the nearest chunk on the
    /// way up to the coarsest level whose mesh is done.
    pub fn resolve(&self, desired: ChunkID) -> (r: Option<ChunkID>)
        ensures
            r == ready_ancestor(self.level(), desired),
    {
        let mut next = desired;
        loop
            invariant
                ready_ancestor(self.level(), next) == ready_ancestor(self.level(), desired),
            decreases MAX_LOD - next.lod,
        {
            if self.mesh_ready(next) {
                return Some(next);
            }
            if next.lod >= MAX_LOD {
                return None;
            }
            next = next.parent_lod();
        }
    }

    /// The chunks to draw for a list of desired chunks. A desired chunk whose
    /// mesh is not done stands in with its nearest ancestor whose mesh is,
    /// and is left out if there is none. A chunk that joins the list drives
    /// out the finer chunks that it overlaps, and no chunk joins twice.
    pub fn select_render_chunks(&self, chunks: &Vec<ChunkID>) -> (selected: Vec<ChunkID>)
        ensures
            selected@ == selected_spec(self.level(), chunks@),
            all_ready(self.level(), selected@),
            all_in_world(chunks@) ==> all_in_world(selected@),
    {
        let mut selected: Vec<ChunkID> = Vec::new();
        let mut n: usize = 0;
        while n < chunks.len()
            invariant
                n <= chunks.len(),
                selected@ == selected_upto(self.level(), chunks@, n as int),
            decreases chunks.len() - n,
        {
            match self.resolve(chunks[n]) {
                Some(c) => {
                    add_selected(&mut selected, c);
                },
                None => {},
            }
            n += 1;
        }
        proof {
            lemma_selected_are_ready(self.level(), chunks@, chunks@.len() as int);
        }
        selected
    }

    /// The six instance streams of a frame: for each direction, the lists of
    /// the chunks in their order, each left out where the chunk's mesh is not
    /// done or its faces towards that direction cannot face the camera.
    pub fn assemble(&self, chunks: &Vec<ChunkID>, cam_chunk: IVec3) -> (mesh: Mesh)
        requires
            all_in_world(chunks@),
        ensures
            forall|dir: int|
                0 <= dir < 6 ==> #[trigger] mesh.list(dir) == stream(
                    self.level(),
                    chunks@,
                    cam_chunk,
                    dir,
                ),
    {
        let mut mesh = Mesh::new();
        let mut n: usize = 0;
        while n < chunks.len()
            invariant
                n <= chunks.len(),
                all_in_world(chunks@),
                forall|dir: int|
                    0 <= dir < 6 ==> #[trigger] mesh.list(dir) == stream(
                        self.level(),
                        chunks@.take(n as int),
                        cam_chunk,
                        dir,
                    ),
            decreases chunks.len() - n,
        {
            let id = chunks[n];
            let ghost before = mesh;
            proof {
                assert(chunks@.take(n + 1).drop_last() == chunks@.take(n as int));
                assert(chunks@.take(n + 1).last() == id);
                assert(id.in_world());
                assert(before.list(0) == before.nx@);
                assert(before.list(1) == before.px@);
                assert(before.list(2) == before.ny@);
                assert(before.list(3) == before.py@);
                assert(before.list(4) == before.nz@);
                assert(before.list(5) == before.pz@);
            }
            match self.level.mesh(id) {
                Some(chunk_mesh) => {
                    proof {
                        assert(chunk_mesh.lists()[0] == chunk_mesh.nx@);
                        assert(chunk_mesh.lists()[1] == chunk_mesh.px@);
                        assert(chunk_mesh.lists()[2] == chunk_mesh.ny@);
                        assert(chunk_mesh.lists()[3] == chunk_mesh.py@);
                        assert(chunk_mesh.lists()[4] == chunk_mesh.nz@);
                        assert(chunk_mesh.lists()[5] == chunk_mesh.pz@);
                    }
                    if is_visible(0, cam_chunk, id) {
                        append_copy(&mut mesh.nx, &chunk_mesh.nx);
                    }
                    if is_visible(1, cam_chunk, id) {
                        append_copy(&mut mesh.px, &chunk_mesh.px);
                    }
                    if is_visible(2, cam_chunk, id) {
                        append_copy(&mut mesh.ny, &chunk_mesh.ny);
                    }
                    if is_visible(3, cam_chunk, id) {
                        append_copy(&mut mesh.py, &chunk_mesh.py);
                    }
                    if is_visible(4, cam_chunk, id) {
                        append_copy(&mut mesh.nz, &chunk_mesh.nz);
                    }
                    if is_visible(5, cam_chunk, id) {
                        append_copy(&mut mesh.pz, &chunk_mesh.pz);
                    }
                },
                None => {},
            }
            proof {
                assert forall|dir: int| 0 <= dir < 6 implies #[trigger] mesh.list(dir) == stream(
                    self.level(),
                    chunks@.take(n + 1),
                    cam_chunk,
                    dir,
                ) by {
                    assert(before.list(dir) == stream(
                        self.level(),
                        chunks@.take(n as int),
                        cam_chunk,
                        dir,
                    ));
                }
            }
            n += 1;
        }
        assert(chunks@.take(chunks.len() as int) == chunks@);
        mesh
    }

    /// Asks for the work on the chunks whose mesh is not done: for each a
    /// job that generates and meshes it is submitted, to the priority lane
    /// for a chunk in full detail and to the first lane for the others.
    pub fn request_chunks(&self, chunks: &Vec<ChunkID>, threadpool: &mut Threadpool)
        requires
            old(threadpool).wf(),
        ensures
            final(threadpool).wf(),
            final(threadpool).first_run() == old(threadpool).first_run(),
            forall|any: Lane| #[trigger] final(threadpool).limit(any) == old(threadpool).limit(any),
            final(threadpool).lane(Lane::Second) == old(threadpool).lane(Lane::Second),
            final(threadpool).lane(Lane::Priority) == requested(
                self.level(),
                chunks@,
                Lane::Priority,
                old(threadpool).lane(Lane::Priority),
                old(threadpool).limit(Lane::Priority),
                chunks@.len() as int,
            ),
            final(threadpool).lane(Lane::First) == requested(
                self.level(),
                chunks@,
                Lane::First,
                old(threadpool).lane(Lane::First),
                old(threadpool).limit(Lane::First),
                chunks@.len() as int,
            ),
    {
        let mut n: usize = 0;
        while n < chunks.len()
            invariant
                n <= chunks.len(),
                threadpool.wf(),
                threadpool.first_run() == old(threadpool).first_run(),
                forall|any: Lane| #[trigger] threadpool.limit(any) == old(threadpool).limit(any),
                threadpool.lane(Lane::Second) == old(threadpool).lane(Lane::Second),
                threadpool.lane(Lane::Priority) == requested(
                    self.level(),
                    chunks@,
                    Lane::Priority,
                    old(threadpool).lane(Lane::Priority),
                    old(threadpool).limit(Lane::Priority),
                    n as int,
                ),
                threadpool.lane(Lane::First) == requested(
                    self.level(),
                    chunks@,
                    Lane::First,
                    old(threadpool).lane(Lane::First),
                    old(threadpool).limit(Lane::First),
                    n as int,
                ),
            decreases chunks.len() - n,
        {
            let id = chunks[n];
            if !self.mesh_ready(id) {
                let lane = if id.lod == 0 {
                    Lane::Priority
                } else {
                    Lane::First
                };
                let ghost before = *threadpool;
                let _ = threadpool.push(lane, Job::GenerateChunkAndMesh(id));
                proof {
                    assert(before.limit(lane) == old(threadpool).limit(lane));
                    if lane == Lane::Priority {
                        assert(threadpool.lane(Lane::First) == before.lane(Lane::First));
                        assert(threadpool.lane(Lane::Second) == before.lane(Lane::Second));
                    } else {
                        assert(threadpool.lane(Lane::Priority) == before.lane(Lane::Priority));
                        assert(threadpool.lane(Lane::Second) == before.lane(Lane::Second));
                    }
                }
            }
            n += 1;
        }
    }

    /// The work of one frame: selects the chunks that the camera sees, asks
    /// for the work on those whose mesh is not done, and assembles the six
    /// instance streams from the meshes that are.
    pub fn get_mesh(&self, frustum: &Frustum, threadpool: &mut Threadpool) -> (mesh: Mesh)
        requires
            old(threadpool).wf(),
        ensures
            final(threadpool).wf(),
            final(threadpool).first_run() == old(threadpool).first_run(),
            forall|any: Lane| #[trigger] final(threadpool).limit(any) == old(threadpool).limit(any),
            final(threadpool).lane(Lane::Second) == old(threadpool).lane(Lane::Second),
            final(threadpool).lane(Lane::Priority) == requested(
                self.level(),
                frustum.selection(),
                Lane::Priority,
                old(threadpool).lane(Lane::Priority),
                old(threadpool).limit(Lane::Priority),
                frustum.selection().len() as int,
            ),
            final(threadpool).lane(Lane::First) == requested(
                self.level(),
                frustum.selection(),
                Lane::First,
                old(threadpool).lane(Lane::First),
                old(threadpool).limit(Lane::First),
                frustum.selection().len() as int,
            ),
            forall|dir: int|
                0 <= dir < 6 ==> #[trigger] mesh.list(dir) == stream(
                    self.level(),
                    selected_spec(self.level(), frustum.selection()),
                    frustum.cam_chunk_spec(),
                    dir,
                ),
    {
        let chunks = frustum.chunk_ids();
        self.request_chunks(&chunks, threadpool);
        let selected = self.select_render_chunks(&chunks);
        proof {
            assert forall|i: int| 0 <= i < chunks@.len() implies (#[trigger] chunks@[i]).in_world() by {}
        }
        self.assemble(&selected, frustum.cam_chunk())
    }

    /// The server's generator.
    pub fn generator(&self) -> (r: &G)
        ensures
            *r == self.generator_spec(),
    {
        &self.generator
    }

    /// Generates the voxels of a chunk with the server's generator. The
    /// registry is not touched: a worker calls this between claiming the
    /// work and publishing its result.
    pub fn generate(&self, id: ChunkID) -> (block: VoxelData3D)
        requires
            id.in_world(),
        ensures
            call_ensures(G::gen, (&self.generator_spec(), id), block),
    {
        self.generator.gen(id)
    }

    /// Claims the work on one payload of a chunk; see `Level::try_begin`.
    pub fn try_begin(&mut self, id: ChunkID, which: Payload) -> (won: bool)
        requires
            old(self).wf(),
        ensures
            final(self).wf(),
            final(self).generator_spec() == old(self).generator_spec(),
            won == (old(self).level().slot(id).state(which) == Progress::Missing),
            won ==> final(self).level().slot(id) == old(self).level().slot(id).with_state(
                which,
                Progress::InFlight,
            ),
            !won ==> final(self).level().slot(id) == old(self).level().slot(id),
            old(self).level().same_but(final(self).level(), id),
            old(self).level().evolves_to(final(self).level()),
    {
        self.level.try_begin(id, which)
    }

    /// Hands over the voxels of a chunk; see `Level::publish_voxel`.
    pub fn publish_voxel(&mut self, id: ChunkID, block: VoxelData3D) -> (published: bool)
        requires
            old(self).wf(),
        ensures
            final(self).wf(),
            final(self).generator_spec() == old(self).generator_spec(),
            published == (old(self).level().voxel_state(id) == Progress::InFlight),
            published ==> final(self).level().slot(id) == (Slot {
                voxel_state: Progress::Done,
                voxel: Some(block),
                ..old(self).level().slot(id)
            }),
            !published ==> final(self).level().slot(id) == old(self).level().slot(id),
            old(self).level().same_but(final(self).level(), id),
            old(self).level().evolves_to(final(self).level()),
    {
        self.level.publish_voxel(id, block)
    }

    /// Hands over the mesh of a chunk; see `Level::publish_mesh`.
    pub fn publish_mesh(&mut self, id: ChunkID, planes: NeighborPlanes, mesh: Mesh) -> (published:
        bool)
        requires
            old(self).wf(),
            old(self).level().voxel_state(id) == Progress::Done ==> forall|dir: int|
                0 <= dir < 6 ==> #[trigger] mesh.list(dir) == block_mesh(
                    old(self).level().slot(id).voxel.unwrap(),
                    planes,
                    id,
                    dir,
                ),
        ensures
            final(self).wf(),
            final(self).generator_spec() == old(self).generator_spec(),
            published == (old(self).level().mesh_state(id) == Progress::InFlight && old(
                self,
            ).level().voxel_state(id) == Progress::Done),
            published ==> final(self).level().slot(id) == (Slot {
                mesh_state: Progress::Done,
                planes: Some(planes),
                lists: mesh.lists(),
                ..old(self).level().slot(id)
            }),
            !published ==> final(self).level().slot(id) == old(self).level().slot(id),
            old(self).level().same_but(final(self).level(), id),
            old(self).level().evolves_to(final(self).level()),
    {
        self.level.publish_mesh(id, planes, mesh)
    }

    /// The boundary planes of the six neighbours of a chunk; see
    /// `Level::neighbor_planes`.
    pub fn neighbor_planes(&self, id: ChunkID) -> (planes: NeighborPlanes)
        requires
            self.wf(),
        ensures
            self.level().sees_all(id, planes),
    {
        self.level.neighbor_planes(id)
    }

    /// The voxels of a chunk, once they are done; see `Level::voxels`.
    pub fn voxels(&self, id: ChunkID) -> (r: Option<&VoxelData3D>)
        requires
            self.wf(),
        ensures
            r is Some == (self.level().voxel_state(id) == Progress::Done),
            r is Some ==> Some(*r.unwrap()) == self.level().slot(id).voxel,
    {
        self.level.voxels(id)
    }

    /// Runs one job with the server's generator against its registry.
    pub fn run(&mut self, job: Job) -> (done: bool)
        requires
            old(self).wf(),
        ensures
            final(self).wf(),
            final(self).generator_spec() == old(self).generator_spec(),
            old(self).level().same_but(final(self).level(), job.target()),
            old(self).level().evolves_to(final(self).level()),
            leaves_nothing_in_flight(old(self).level(), final(self).level()),
            done == job.finds_work(old(self).level()),
            job.generates(old(self).level()) ==> final(self).level().voxel_state(job.target())
                == Progress::Done && generated_by(
                final(self).level(),
                &old(self).generator_spec(),
                job.target(),
            ),
            !job.generates(old(self).level()) ==> same_voxels(
                old(self).level(),
                final(self).level(),
                job.target(),
            ),
            job.meshes(old(self).level()) ==> final(self).level().mesh_state(job.target())
                == Progress::Done && final(self).level().slot(job.target()).planes is Some
                && old(self).level().sees_all(
                job.target(),
                final(self).level().slot(job.target()).planes.unwrap(),
            ),
            !job.meshes(old(self).level()) ==> same_mesh(
                old(self).level(),
                final(self).level(),
                job.target(),
            ),
            done ==> final(self).level().voxel_state(job.target()) == Progress::Done,
    {
        run_job(&mut self.level, &self.generator, job)
    }
}

/// The nearest chunk on the way from `id` up to the coarsest level whose mesh
/// is done, `id` itself included.
pub open spec fn ready_ancestor(level: Level, id: ChunkID) -> Option<ChunkID>
    decreases MAX_LOD - id.lod,
{
    if level.mesh_state(id) == Progress::Done {
        Some(id)
    } else if id.lod >= MAX_LOD {
        None
    } else {
        ready_ancestor(level, id.parent_lod_spec())
    }
}

/// The ids of the list without those that overlap `c` and are finer.
pub open spec fn drop_finer(list: Seq<ChunkID>, c: ChunkID) -> Seq<ChunkID>
    decreases list.len(),
{
    if list.len() == 0 {
        Seq::empty()
    } else if list.last().overlaps(c) && list.last().lod < c.lod {
        drop_finer(list.drop_last(), c)
    } else {
        drop_finer(list.drop_last(), c).push(list.last())
    }
}

/// Some id of the list overlaps `c` and is as fine as `c` or finer.
pub open spec fn shadowed(list: Seq<ChunkID>, c: ChunkID) -> bool {
    exists|i: int| 0 <= i < list.len() && (#[trigger] list[i]).overlaps(c) && list[i].lod <= c.lod
}

/// The list of chunks to draw after `c` has been added: the finer chunks
/// that `c` overlaps leave, and `c` joins unless it is in the list already.
pub open spec fn select_step(list: Seq<ChunkID>, c: ChunkID) -> Seq<ChunkID> {
    let kept = drop_finer(list, c);
    if shadowed(kept, c) {
        kept
    } else {
        kept.push(c)
    }
}

/// The chunks to draw for the first `n` of the desired chunks: each desired
/// chunk stands in with its nearest ancestor whose mesh is done, and is left
/// out if there is none.
pub open spec fn selected_upto(level: Level, desired: Seq<ChunkID>, n: int) -> Seq<ChunkID>
    decreases n,
{
    if n <= 0 {
        Seq::empty()
    } else {
        match ready_ancestor(level, desired[n - 1]) {
            Some(c) => select_step(selected_upto(level, desired, n - 1), c),
            None => selected_upto(level, desired, n - 1),
        }
    }
}

/// The chunks to draw for the desired chunks.
pub open spec fn selected_spec(level: Level, desired: Seq<ChunkID>) -> Seq<ChunkID> {
    selected_upto(level, desired, desired.len() as int)
}

/// The mesh of every chunk of the list is done.
pub open spec fn all_ready(level: Level, list: Seq<ChunkID>) -> bool {
    forall|i: int| 0 <= i < list.len() ==> level.mesh_state(#[trigger] list[i]) == Progress::Done
}

/// The nearest ancestor whose mesh is done has its mesh done, is no finer
/// than the chunk, and is a chunk of the world if the chunk is one. At the
/// coarsest level the chunk stands for itself or for nothing.
pub proof fn lemma_ready_ancestor(level: Level, id: ChunkID)
    ensures
        ready_ancestor(level, id) is Some ==> level.mesh_state(ready_ancestor(level, id).unwrap())
            == Progress::Done,
        ready_ancestor(level, id) is Some ==> ready_ancestor(level, id).unwrap().lod >= id.lod,
        ready_ancestor(level, id) is Some && id.in_world() ==> ready_ancestor(
            level,
            id,
        ).unwrap().in_world(),
        id.lod >= MAX_LOD ==> ready_ancestor(level, id) == if level.mesh_state(id)
            == Progress::Done {
            Some(id)
        } else {
            None::<ChunkID>
        },
    decreases MAX_LOD - id.lod,
{
    if level.mesh_state(id) != Progress::Done && id.lod < MAX_LOD {
        lemma_ready_ancestor(level, id.parent_lod_spec());
        if id.in_world() {
            crate::chunk_id::lemma_parent_contains(id);
        }
    }
}

/// What is left after the finer overlapping ids are dropped are ids of the
/// list.
pub proof fn lemma_drop_finer_members(list: Seq<ChunkID>, c: ChunkID)
    ensures
        forall|i: int|
            0 <= i < drop_finer(list, c).len() ==> list.contains(#[trigger] drop_finer(list, c)[i]),
    decreases list.len(),
{
    if list.len() > 0 {
        let head = list.drop_last();
        lemma_drop_finer_members(head, c);
        let rest = drop_finer(head, c);
        let all = drop_finer(list, c);
        assert forall|i: int| 0 <= i < all.len() implies list.contains(#[trigger] all[i]) by {
            if i < rest.len() {
                assert(all[i] == rest[i]);
                let k = choose|k: int| 0 <= k < head.len() && head[k] == rest[i];
                assert(list[k] == rest[i]);
            } else {
                assert(list[list.len() - 1] == all[i]);
            }
        }
    }
}

/// Adding a chunk whose mesh is done to a list of such chunks leaves a list
/// of such chunks; chunks of the world stay chunks of the world.
pub proof fn lemma_select_step_keeps(level: Level, list: Seq<ChunkID>, c: ChunkID)
    requires
        all_ready(level, list),
        level.mesh_state(c) == Progress::Done,
    ensures
        all_ready(level, select_step(list, c)),
        all_in_world(list) && c.in_world() ==> all_in_world(select_step(list, c)),
{
    lemma_drop_finer_members(list, c);
    let kept = drop_finer(list, c);
    let all = select_step(list, c);
    assert forall|i: int| 0 <= i < all.len() implies level.mesh_state(#[trigger] all[i])
        == Progress::Done && (all_in_world(list) && c.in_world() ==> all[i].in_world()) by {
        if i < kept.len() {
            assert(all[i] == kept[i]);
            let k = choose|k: int| 0 <= k < list.len() && list[k] == kept[i];
            assert(level.mesh_state(list[k]) == Progress::Done);
        }
    }
}

/// Every chunk that is selected for drawing has its mesh done; the selected
/// chunks are chunks of the world if the desired ones are.
pub proof fn lemma_selected_are_ready(level: Level, desired: Seq<ChunkID>, n: int)
    requires
        n <= desired.len(),
    ensures
        all_ready(level, selected_upto(level, desired, n)),
        all_in_world(desired) ==> all_in_world(selected_upto(level, desired, n)),
    decreases n,
{
    if n > 0 {
        lemma_selected_are_ready(level, desired, n - 1);
        lemma_ready_ancestor(level, desired[n - 1]);
        match ready_ancestor(level, desired[n - 1]) {
            Some(c) => {
                lemma_select_step_keeps(level, selected_upto(level, desired, n - 1), c);
            },
            None => {},
        }
    }
}

/// Whether the faces of a chunk towards `dir` can face the camera: those
/// towards negative x unless the camera's chunk lies beyond the chunk's far
/// side along x, those towards positive x unless it lies before the near
/// side, and so on for y and z. Positions are in chunks of level 0.
pub open spec fn visible(dir: int, cam_chunk: IVec3, id: ChunkID) -> bool {
    let size = pow2(id.lod as nat) as int;
    if dir == 0 {
        cam_chunk.x <= id.pos.x * size + size
    } else if dir == 1 {
        cam_chunk.x >= id.pos.x * size
    } else if dir == 2 {
        cam_chunk.y <= id.pos.y * size + size
    } else if dir == 3 {
        cam_chunk.y >= id.pos.y * size
    } else if dir == 4 {
        cam_chunk.z <= id.pos.z * size + size
    } else {
        cam_chunk.z >= id.pos.z * size
    }
}

/// The instances that are drawn towards `dir`: the lists of the chunks in
/// their order, each left out where its mesh is not done or its faces
/// towards `dir` cannot face the camera.
pub open spec fn stream(level: Level, chunks: Seq<ChunkID>, cam_chunk: IVec3, dir: int) -> Seq<
    Instance,
>
    decreases chunks.len(),
{
    if chunks.len() == 0 {
        Seq::empty()
    } else if level.mesh_state(chunks.last()) == Progress::Done && visible(
        dir,
        cam_chunk,
        chunks.last(),
    ) {
        stream(level, chunks.drop_last(), cam_chunk, dir) + level.slot(chunks.last()).lists[dir]
    } else {
        stream(level, chunks.drop_last(), cam_chunk, dir)
    }
}

/// The lane in which the work on a chunk is asked for: the priority lane for
/// a chunk in full detail, the first lane for the others.
pub open spec fn request_lane(id: ChunkID) -> Lane {
    if id.lod == 0 {
        Lane::Priority
    } else {
        Lane::First
    }
}

/// A lane after the work on the first `n` of the chunks has been asked for:
/// for each chunk whose mesh is not done, a job that generates and meshes it
/// has been submitted to the chunk's lane.
pub open spec fn requested(
    level: Level,
    chunks: Seq<ChunkID>,
    lane: Lane,
    queue: Seq<Job>,
    limit: usize,
    n: int,
) -> Seq<Job>
    decreases n,
{
    if n <= 0 {
        queue
    } else if level.mesh_state(chunks[n - 1]) != Progress::Done && request_lane(chunks[n - 1])
        == lane {
        after_submit(
            requested(level, chunks, lane, queue, limit, n - 1),
            limit,
            Job::GenerateChunkAndMesh(chunks[n - 1]),
        )
    } else {
        requested(level, chunks, lane, queue, limit, n - 1)
    }
}

/// Whether some id of the list overlaps `c` and is as fine or finer.
fn is_shadowed(list: &Vec<ChunkID>, c: ChunkID) -> (r: bool)
    ensures
        r == shadowed(list@, c),
{
    let mut i: usize = 0;
    while i < list.len()
        invariant
            i <= list.len(),
            forall|k: int| 0 <= k < i ==> !((#[trigger] list@[k]).overlaps(c) && list@[k].lod <= c.lod),
        decreases list.len() - i,
    {
        if chunk_overlaps(&list[i], c) && list[i].lod <= c.lod {
            return true;
        }
        i += 1;
    }
    false
}

/// Adds a chunk to the list of chunks to draw.
fn add_selected(list: &mut Vec<ChunkID>, c: ChunkID)
    ensures
        final(list)@ == select_step(old(list)@, c),
{
    let mut kept: Vec<ChunkID> = Vec::new();
    let mut i: usize = 0;
    while i < list.len()
        invariant
            i <= list.len(),
            kept@ == drop_finer(list@.take(i as int), c),
        decreases list.len() - i,
    {
        assert(list@.take(i + 1).drop_last() == list@.take(i as int));
        assert(list@.take(i + 1).last() == list@[i as int]);
        if !(chunk_overlaps(&list[i], c) && list[i].lod < c.lod) {
            kept.push(list[i]);
        }
        i += 1;
    }
    assert(list@.take(list.len() as int) == list@);
    if !is_shadowed(&kept, c) {
        kept.push(c);
    }
    *list = kept;
}

/// Appends the instances of one list to another.
fn append_copy(stream: &mut Vec<Instance>, list: &Vec<Instance>)
    ensures
        final(stream)@ == old(stream)@ + list@,
{
    let mut i: usize = 0;
    while i < list.len()
        invariant
            i <= list.len(),
            stream@ == old(stream)@ + list@.take(i as int),
        decreases list.len() - i,
    {
        stream.push(list[i]);
        assert(list@.take(i + 1) == list@.take(i as int).push(list@[i as int]));
        i += 1;
    }
    assert(list@.take(list.len() as int) == list@);
}

/// Whether the faces of a chunk towards `dir` can face the camera.
fn is_visible(dir: usize, cam_chunk: IVec3, id: ChunkID) -> (r: bool)
    requires
        dir < 6,
        id.lod <= MAX_LOD,
    ensures
        r == visible(dir as int, cam_chunk, id),
{
    let size: i64 = id.cell_size() as i64;
    let (cam, pos): (i64, i64) = if dir / 2 == 0 {
        (cam_chunk.x as i64, id.pos.x as i64)
    } else if dir / 2 == 1 {
        (cam_chunk.y as i64, id.pos.y as i64)
    } else {
        (cam_chunk.z as i64, id.pos.z as i64)
    };
    assert(-0x100_0000_0000 <= pos * size <= 0x100_0000_0000) by (nonlinear_arith)
        requires
            -0x8000_0000 <= pos <= 0x7fff_ffff,
            1 <= size <= 256,
    ;
    if dir % 2 == 0 {
        cam <= pos * size + size
    } else {
        cam >= pos * size
    }
}

/// The instances that mark the coarse chunks among the first `n` chunks: for
/// each chunk above level 0, one instance of the debug texture at the
/// chunk's least corner, as large as the chunk's region.
pub open spec fn debug_marks(chunks: Seq<ChunkID>, n: int) -> Seq<Instance>
    decreases n,
{
    if n <= 0 {
        Seq::empty()
    } else if chunks[n - 1].lod == 0 {
        debug_marks(chunks, n - 1)
    } else {
        debug_marks(chunks, n - 1).push(
            Instance::of(
                IVec3 {
                    x: chunks[n - 1].world_min_spec().0 as i32,
                    y: chunks[n - 1].world_min_spec().1 as i32,
                    z: chunks[n - 1].world_min_spec().2 as i32,
                },
                Texture::Debug,
                (chunks[n - 1].lod + 5) as LodLevel,
            ),
        )
    }
}

/// Marks the coarse chunks of a list in a mesh: each chunk above level 0
/// gets a face of the debug texture in each of the six directions, at its
/// least corner and as large as its region.
pub fn debug_chunk_display(chunks: &Vec<ChunkID>, mesh: &mut Mesh)
    requires
        all_in_world(chunks@),
    ensures
        forall|dir: int|
            0 <= dir < 6 ==> #[trigger] final(mesh).list(dir) == old(mesh).list(dir) + debug_marks(
                chunks@,
                chunks@.len() as int,
            ),
{
    let mut n: usize = 0;
    while n < chunks.len()
        invariant
            n <= chunks.len(),
            all_in_world(chunks@),
            forall|dir: int|
                0 <= dir < 6 ==> #[trigger] mesh.list(dir) == old(mesh).list(dir) + debug_marks(
                    chunks@,
                    n as int,
                ),
        decreases chunks.len() - n,
    {
        let id = chunks[n];
        let ghost before = *mesh;
        let ghost mut corner = IVec3 { x: 0, y: 0, z: 0 };
        if id.lod != 0 {
            assert(id.in_world());
            let lo = id.world_min();
            proof {
                corner = lo;
            }
            mesh.debug_cube(lo, id.lod + 5);
        }
        proof {
            assert forall|dir: int| 0 <= dir < 6 implies #[trigger] mesh.list(dir) == old(
                mesh,
            ).list(dir) + debug_marks(chunks@, n + 1) by {
                assert(before.list(dir) == old(mesh).list(dir) + debug_marks(chunks@, n as int));
                if id.lod != 0 {
                    assert(mesh.list(dir) == before.list(dir).push(
                        Instance::of(corner, Texture::Debug, (id.lod + 5) as LodLevel),
                    ));
                }
            }
        }
        n += 1;
    }
}

/// The chunk of level 0 that holds a world voxel.
pub open spec fn home_chunk(world_voxel: IVec3) -> ChunkID {
    ChunkID {
        lod: 0,
        pos: IVec3 {
            x: shifted(world_voxel.x as int, 5) as i32,
            y: shifted(world_voxel.y as int, 5) as i32,
            z: shifted(world_voxel.z as int, 5) as i32,
        },
    }
}

} // verus!
