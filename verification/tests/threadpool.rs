use voxeled::chunk_id::{ChunkID, IVec3};
use voxeled::job::Job;
use voxeled::threadpool::{
    default_workers, plan_workers, Lane, Threadpool, WorkerChange, DEFAULT_PRIORITY_LIMIT,
    DEFAULT_TASK_LIMIT,
};

fn job(n: i32) -> Job {
    Job::GenerateChunkAndMesh(ChunkID::new(0, IVec3::new(n, 0, 0)))
}

#[test]
fn new_pool_is_idle() {
    let mut pool = Threadpool::new();
    assert!(pool.is_idle());
    assert!(!pool.priority_is_full());
    assert_eq!(pool.len(Lane::Priority), 0);
    assert_eq!(pool.lane_limit(Lane::Priority), DEFAULT_PRIORITY_LIMIT);
    assert_eq!(pool.lane_limit(Lane::First), DEFAULT_TASK_LIMIT);
    assert_eq!(pool.lane_limit(Lane::Second), 10000);
    assert_eq!(pool.next_job(), None);
    assert!(pool.is_idle());
}

#[test]
fn priority_lane_is_drained_first() {
    let mut pool = Threadpool::new();
    assert_eq!(pool.add_to_first(job(1)), None);
    assert_eq!(pool.add_to_second(job(2)), None);
    assert_eq!(pool.add_priority(job(3)), None);
    assert_eq!(pool.add_priority(job(4)), None);
    assert!(!pool.is_idle());
    assert_eq!(pool.next_job(), Some((Lane::Priority, job(3))));
    assert_eq!(pool.next_job(), Some((Lane::Priority, job(4))));
    assert_eq!(pool.next_job(), Some((Lane::First, job(1))));
    assert_eq!(pool.next_job(), Some((Lane::Second, job(2))));
    assert_eq!(pool.next_job(), None);
}

#[test]
fn second_lane_is_served_after_three_of_the_first() {
    let mut pool = Threadpool::new();
    for n in 0..8 {
        assert_eq!(pool.add_to_first(job(n)), None);
    }
    for n in 100..103 {
        assert_eq!(pool.add_to_second(job(n)), None);
    }
    let mut order = Vec::new();
    while let Some((lane, _)) = pool.next_job() {
        order.push(lane);
    }
    let (first, second) = (Lane::First, Lane::Second);
    assert_eq!(
        order,
        vec![first, first, first, second, first, first, first, second, first, first, second]
    );
}

#[test]
fn first_lane_goes_on_while_the_second_is_empty() {
    let mut pool = Threadpool::new();
    for n in 0..5 {
        assert_eq!(pool.add_to_first(job(n)), None);
    }
    for n in 0..5 {
        assert_eq!(pool.next_job(), Some((Lane::First, job(n))));
    }
    assert_eq!(pool.add_to_first(job(7)), None);
    assert_eq!(pool.add_to_second(job(8)), None);
    assert_eq!(pool.next_job(), Some((Lane::Second, job(8))));
    assert_eq!(pool.next_job(), Some((Lane::First, job(7))));
}

#[test]
fn priority_jobs_do_not_count_for_the_first_lane() {
    let mut pool = Threadpool::new();
    for n in 0..3 {
        assert_eq!(pool.add_to_first(job(n)), None);
    }
    assert_eq!(pool.add_to_second(job(9)), None);
    assert_eq!(pool.next_job(), Some((Lane::First, job(0))));
    assert_eq!(pool.next_job(), Some((Lane::First, job(1))));
    assert_eq!(pool.add_priority(job(5)), None);
    assert_eq!(pool.next_job(), Some((Lane::Priority, job(5))));
    assert_eq!(pool.next_job(), Some((Lane::First, job(2))));
    assert_eq!(pool.next_job(), Some((Lane::Second, job(9))));
}

#[test]
fn full_lane_coalesces_or_turns_away() {
    let mut pool = Threadpool::with_limits(2, 3);
    assert_eq!(pool.add_priority(job(1)), None);
    assert!(!pool.priority_is_full());
    assert_eq!(pool.add_priority(job(2)), None);
    assert!(pool.priority_is_full());
    assert_eq!(pool.add_priority(job(3)), Some(job(3)));
    assert_eq!(pool.len(Lane::Priority), 2);
    assert_eq!(pool.add_priority(job(1)), None);
    assert_eq!(pool.len(Lane::Priority), 2);
    assert_eq!(pool.next_job(), Some((Lane::Priority, job(2))));
    assert_eq!(pool.next_job(), Some((Lane::Priority, job(1))));
    assert_eq!(pool.next_job(), None);
}

#[test]
fn coalescing_drops_the_oldest_job_for_the_chunk() {
    let mut pool = Threadpool::with_limits(10, 3);
    let chunk = ChunkID::new(0, IVec3::new(5, 0, 0));
    assert_eq!(pool.push(Lane::Second, Job::GenerateVoxel(chunk)), None);
    assert_eq!(pool.push(Lane::Second, job(6)), None);
    assert_eq!(pool.push(Lane::Second, Job::MeshChunk(chunk)), None);
    assert_eq!(pool.push(Lane::Second, job(7)), Some(job(7)));
    assert_eq!(pool.push(Lane::Second, Job::GenerateChunkAndMesh(chunk)), None);
    assert_eq!(pool.len(Lane::Second), 3);
    assert_eq!(pool.len(Lane::First), 0);
    assert_eq!(pool.next_job(), Some((Lane::Second, job(6))));
    assert_eq!(pool.next_job(), Some((Lane::Second, Job::MeshChunk(chunk))));
    assert_eq!(pool.next_job(), Some((Lane::Second, Job::GenerateChunkAndMesh(chunk))));
}

#[test]
fn below_the_limit_nothing_is_coalesced() {
    let mut pool = Threadpool::with_limits(10, 10);
    assert_eq!(pool.add_to_first(job(1)), None);
    assert_eq!(pool.add_to_first(job(1)), None);
    assert_eq!(pool.len(Lane::First), 2);
    let mut none = Threadpool::with_limits(0, 0);
    assert_eq!(none.add_priority(job(1)), Some(job(1)));
    assert_eq!(none.add_to_first(job(1)), Some(job(1)));
    assert!(none.is_idle());
    assert!(none.priority_is_full());
}

#[test]
fn workers_follow_the_processors() {
    assert_eq!(default_workers(8), 7);
    assert_eq!(default_workers(1), 0);
    assert_eq!(default_workers(0), 0);
    assert_eq!(plan_workers(8, 1, 3), WorkerChange::Launch(3));
    assert_eq!(plan_workers(8, 4, 3), WorkerChange::Keep);
    assert_eq!(plan_workers(8, 6, 3), WorkerChange::Retire(2));
    assert_eq!(plan_workers(8, 9, 3), WorkerChange::Retire(3));
    assert_eq!(plan_workers(9, 0, 0), WorkerChange::Launch(4));
    assert_eq!(plan_workers(0, 0, 5), WorkerChange::Keep);
    assert_eq!(plan_workers(1, 2, 0), WorkerChange::Retire(0));
}
