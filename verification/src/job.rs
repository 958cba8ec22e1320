use vstd::prelude::*;
use crate::chunk_id::ChunkID;
use crate::level::{lemma_evolves_trans, neighbor_id, Level, Payload, Progress};
use crate::meshing::{in_block, mesh_block};
use crate::voxel::{voxel_at, VoxelData3D};
use crate::world_gen::{is_white_noise, lemma_white_noise_deterministic, Generator, WhiteNoise};

verus! {

/// A unit of work of the chunk pipeline.
#[derive(Debug, Clone, Copy, PartialEq, Eq, Structural)]
pub enum Job {
    GenerateVoxel(ChunkID),
    MeshChunk(ChunkID),
    GenerateChunkAndMesh(ChunkID),
}

impl Job {
    /// The chunk that the job works on.
    pub open spec fn target(self) -> ChunkID {
        match self {
            Job::GenerateVoxel(id) => id,
            Job::MeshChunk(id) => id,
            Job::GenerateChunkAndMesh(id) => id,
        }
    }

    /// Whether the job finds its work to do in a registry. The chunk must lie
    /// in the world. Generating needs voxels that are missing, meshing needs
    /// voxels that are done and a mesh that is missing, and the job that does
    /// both needs a mesh that is missing and voxels that are missing or done.
    pub open spec fn finds_work(self, level: Level) -> bool {
        match self {
            Job::GenerateVoxel(id) => id.in_world() && level.voxel_state(id) == Progress::Missing,
            Job::MeshChunk(id) => id.in_world() && level.voxel_state(id) == Progress::Done
                && level.mesh_state(id) == Progress::Missing,
            Job::GenerateChunkAndMesh(id) => id.in_world() && level.mesh_state(id)
                == Progress::Missing && (level.voxel_state(id) == Progress::Missing
                || level.voxel_state(id) == Progress::Done),
        }
    }

    /// Whether the job generates the voxels of its chunk in a registry: it is
    /// a job that generates, the chunk lies in the world, and its voxels are
    /// missing.
    pub open spec fn generates(self, level: Level) -> bool {
        !(self is MeshChunk) && self.target().in_world() && level.voxel_state(self.target())
            == Progress::Missing
    }

    /// Whether the job meshes its chunk in a registry: it is a job that
    /// meshes, and it finds its work to do.
    pub open spec fn meshes(self, level: Level) -> bool {
        !(self is GenerateVoxel) && self.finds_work(level)
    }

    /// The chunk that the job works on.
    pub fn chunk_id(&self) -> (id: ChunkID)
        ensures
            id == self.target(),
    {
        match *self {
            Job::GenerateVoxel(id) => id,
            Job::MeshChunk(id) => id,
            Job::GenerateChunkAndMesh(id) => id,
        }
    }
}

/// The voxels of a chunk and their state are the same in both registries.
pub open spec fn same_voxels(before: Level, after: Level, id: ChunkID) -> bool {
    after.slot(id).voxel_state == before.slot(id).voxel_state && after.slot(id).voxel
        == before.slot(id).voxel
}

/// The mesh of a chunk, its state and the planes it was made with are the
/// same in both registries.
pub open spec fn same_mesh(before: Level, after: Level, id: ChunkID) -> bool {
    after.slot(id).mesh_state == before.slot(id).mesh_state && after.slot(id).lists
        == before.slot(id).lists && after.slot(id).planes == before.slot(id).planes
}

/// No payload is in flight in `after` that was not in flight in `before`.
pub open spec fn leaves_nothing_in_flight(before: Level, after: Level) -> bool {
    forall|id: ChunkID, which: Payload|
        (#[trigger] after.slot(id).state(which)) == Progress::InFlight ==> before.slot(id).state(
            which,
        ) == Progress::InFlight
}

/// The voxels of the chunk are a block that the generator returns for it.
pub open spec fn generated_by<G: Generator>(level: Level, generator: &G, id: ChunkID) -> bool {
    exists|block: VoxelData3D|
        call_ensures(G::gen, (generator, id), block) && level.slot(id).voxel == Some(block)
}

/// Generates the voxels of a chunk, if nobody has begun to: claims the work,
/// calls the generator and publishes what it returns.
pub fn generate_voxel<G: Generator>(level: &mut Level, generator: &G, id: ChunkID) -> (done: bool)
    requires
        old(level).wf(),
    ensures
        final(level).wf(),
        done == (id.in_world() && old(level).voxel_state(id) == Progress::Missing),
        done ==> final(level).voxel_state(id) == Progress::Done,
        done ==> generated_by(*final(level), generator, id),
        done ==> final(level).slot(id).mesh_state == old(level).slot(id).mesh_state,
        done ==> final(level).slot(id).planes == old(level).slot(id).planes,
        done ==> final(level).slot(id).lists == old(level).slot(id).lists,
        !done ==> final(level).slot(id) == old(level).slot(id),
        old(level).same_but(*final(level), id),
        old(level).evolves_to(*final(level)),
        leaves_nothing_in_flight(*old(level), *final(level)),
{
    if !id.is_in_world() {
        return false;
    }
    if !level.try_begin(id, Payload::Voxel) {
        return false;
    }
    let ghost begun = *level;
    let block: VoxelData3D = generator.gen(id);
    let published = level.publish_voxel(id, block);
    assert(call_ensures(G::gen, (generator, id), block) && level.slot(id).voxel == Some(block));
    proof {
        lemma_evolves_trans(*old(level), begun, *level);
        assert forall|other: ChunkID| other != id implies #[trigger] level.slot(other) == old(
            level,
        ).slot(other) by {
            assert(begun.slot(other) == old(level).slot(other));
        }
        assert forall|other: ChunkID, which: Payload|
            (#[trigger] level.slot(other).state(which)) == Progress::InFlight implies old(
            level,
        ).slot(other).state(which) == Progress::InFlight by {
            if other != id {
                assert(level.slot(other) == old(level).slot(other));
            }
        }
    }
    published
}

/// Meshes a chunk whose voxels are done, if nobody has begun to: claims the
/// work, reads the planes of the six neighbours, runs the mesher and
/// publishes its output.
pub fn mesh_chunk(level: &mut Level, id: ChunkID) -> (done: bool)
    requires
        old(level).wf(),
    ensures
        final(level).wf(),
        done == (id.in_world() && old(level).voxel_state(id) == Progress::Done && old(
            level,
        ).mesh_state(id) == Progress::Missing),
        done ==> final(level).mesh_state(id) == Progress::Done,
        done ==> final(level).slot(id).voxel == old(level).slot(id).voxel,
        done ==> final(level).slot(id).planes is Some && old(level).sees_all(
            id,
            final(level).slot(id).planes.unwrap(),
        ),
        !done ==> final(level).slot(id) == old(level).slot(id),
        old(level).same_but(*final(level), id),
        old(level).evolves_to(*final(level)),
        leaves_nothing_in_flight(*old(level), *final(level)),
{
    if !id.is_in_world() {
        return false;
    }
    if !level.voxel_ready(id) {
        return false;
    }
    if !level.try_begin(id, Payload::Mesh) {
        return false;
    }
    let ghost begun = *level;
    let planes = level.neighbor_planes(id);
    proof {
        assert forall|dir: int| 0 <= dir < 6 implies old(level).sees(
            id,
            dir,
            #[trigger] planes[dir],
        ) by {
            assert(begun.sees(id, dir, planes[dir]));
            if let Some(n) = neighbor_id(id, dir) {
                assert(n != id);
                assert(begun.slot(n) == old(level).slot(n));
            }
        }
    }
    let block: VoxelData3D = match level.voxels(id) {
        Some(voxels) => *voxels,
        None => {
            return false;
        },
    };
    let mesh = mesh_block(&block, &planes, id);
    let published = level.publish_mesh(id, planes, mesh);
    proof {
        lemma_evolves_trans(*old(level), begun, *level);
        assert forall|other: ChunkID| other != id implies #[trigger] level.slot(other) == old(
            level,
        ).slot(other) by {
            assert(begun.slot(other) == old(level).slot(other));
        }
        assert forall|other: ChunkID, which: Payload|
            (#[trigger] level.slot(other).state(which)) == Progress::InFlight implies old(
            level,
        ).slot(other).state(which) == Progress::InFlight by {
            if other != id {
                assert(level.slot(other) == old(level).slot(other));
            }
        }
    }
    published
}

/// Generates and then meshes a chunk, each as far as nobody has begun to.
pub fn generate_chunk_and_mesh<G: Generator>(level: &mut Level, generator: &G, id: ChunkID) -> (done:
    bool)
    requires
        old(level).wf(),
    ensures
        final(level).wf(),
        done == (id.in_world() && old(level).mesh_state(id) == Progress::Missing && (old(
            level,
        ).voxel_state(id) == Progress::Missing || old(level).voxel_state(id) == Progress::Done)),
        done ==> final(level).voxel_state(id) == Progress::Done && final(level).mesh_state(id)
            == Progress::Done,
        done && old(level).voxel_state(id) == Progress::Missing ==> generated_by(
            *final(level),
            generator,
            id,
        ),
        done && old(level).voxel_state(id) == Progress::Done ==> final(level).slot(id).voxel == old(
            level,
        ).slot(id).voxel,
        done ==> final(level).slot(id).planes is Some && old(level).sees_all(
            id,
            final(level).slot(id).planes.unwrap(),
        ),
        id.in_world() && old(level).voxel_state(id) == Progress::Missing ==> final(level)
            .voxel_state(id) == Progress::Done && generated_by(*final(level), generator, id),
        !(id.in_world() && old(level).voxel_state(id) == Progress::Missing) ==> same_voxels(
            *old(level),
            *final(level),
            id,
        ),
        !done ==> same_mesh(*old(level), *final(level), id),
        old(level).same_but(*final(level), id),
        old(level).evolves_to(*final(level)),
        leaves_nothing_in_flight(*old(level), *final(level)),
{
    let generated = generate_voxel(level, generator, id);
    let ghost middle = *level;
    let meshed = mesh_chunk(level, id);
    proof {
        if meshed {
            let planes = level.slot(id).planes.unwrap();
            assert forall|dir: int| 0 <= dir < 6 implies old(level).sees(
                id,
                dir,
                #[trigger] planes[dir],
            ) by {
                assert(middle.sees(id, dir, planes[dir]));
                if let Some(n) = neighbor_id(id, dir) {
                    assert(n != id);
                    assert(middle.slot(n) == old(level).slot(n));
                }
            }
        }
        lemma_evolves_trans(*old(level), middle, *level);
        assert forall|other: ChunkID| other != id implies #[trigger] level.slot(other) == old(
            level,
        ).slot(other) by {
            assert(middle.slot(other) == old(level).slot(other));
        }
        assert forall|other: ChunkID, which: Payload|
            (#[trigger] level.slot(other).state(which)) == Progress::InFlight implies old(
            level,
        ).slot(other).state(which) == Progress::InFlight by {
            assert(middle.slot(other).state(which) == Progress::InFlight);
        }
    }
    meshed
}

/// Runs one job against the registry. Whatever the job finds, every state
/// that it moves to `InFlight` it also moves to `Done`.
pub fn run_job<G: Generator>(level: &mut Level, generator: &G, job: Job) -> (done: bool)
    requires
        old(level).wf(),
    ensures
        final(level).wf(),
        old(level).same_but(*final(level), job.target()),
        old(level).evolves_to(*final(level)),
        leaves_nothing_in_flight(*old(level), *final(level)),
        done == job.finds_work(*old(level)),
        job.generates(*old(level)) ==> final(level).voxel_state(job.target()) == Progress::Done
            && generated_by(*final(level), generator, job.target()),
        !job.generates(*old(level)) ==> same_voxels(*old(level), *final(level), job.target()),
        job.meshes(*old(level)) ==> final(level).mesh_state(job.target()) == Progress::Done
            && final(level).slot(job.target()).planes is Some && old(level).sees_all(
            job.target(),
            final(level).slot(job.target()).planes.unwrap(),
        ),
        !job.meshes(*old(level)) ==> same_mesh(*old(level), *final(level), job.target()),
        done ==> final(level).voxel_state(job.target()) == Progress::Done,
{
    match job {
        Job::GenerateVoxel(id) => generate_voxel(level, generator, id),
        Job::MeshChunk(id) => mesh_chunk(level, id),
        Job::GenerateChunkAndMesh(id) => generate_chunk_and_mesh(level, generator, id),
    }
}

/// Voxels that a generator of white noise has generated for a chunk are the
/// white noise of the generator's seed in that chunk.
pub proof fn lemma_generated_white_noise(level: Level, generator: &WhiteNoise, id: ChunkID)
    requires
        generated_by(level, generator, id),
    ensures
        level.slot(id).voxel is Some,
        is_white_noise(level.slot(id).voxel.unwrap(), generator.seed, id),
{
}

/// Two runs with the same seed give a chunk the same voxels: whatever else
/// the two registries went through, and whichever thread did the work, the
/// voxels that generators of white noise with one seed have generated for
/// one chunk are the same.
pub proof fn lemma_runs_agree(
    first: Level,
    second: Level,
    first_generator: &WhiteNoise,
    second_generator: &WhiteNoise,
    id: ChunkID,
)
    requires
        first_generator.seed == second_generator.seed,
        generated_by(first, first_generator, id),
        generated_by(second, second_generator, id),
    ensures
        forall|x: int, y: int, z: int|
            in_block(x, y, z) ==> #[trigger] voxel_at(first.slot(id).voxel.unwrap(), x, y, z)
                == voxel_at(second.slot(id).voxel.unwrap(), x, y, z),
{
    lemma_generated_white_noise(first, first_generator, id);
    lemma_generated_white_noise(second, second_generator, id);
    lemma_white_noise_deterministic(
        first.slot(id).voxel.unwrap(),
        second.slot(id).voxel.unwrap(),
        first_generator.seed,
        id,
    );
}

} // verus!
