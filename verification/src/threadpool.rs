use vstd::prelude::*;
use std::collections::VecDeque;
use crate::chunk_id::ChunkID;
use crate::job::Job;

verus! {

/// How many jobs the priority lane takes before it is full.
pub const DEFAULT_PRIORITY_LIMIT: usize = 10000;

/// How many jobs each of the two normal lanes takes before it is full.
pub const DEFAULT_TASK_LIMIT: usize = 10000;

/// How many jobs in a row the first lane is served before the second lane
/// gets its turn.
pub const FIRST_LANE_RUN: usize = 3;

/// The three lanes of the job queue.
#[derive(Debug, Clone, Copy, PartialEq, Eq, Structural)]
pub enum Lane {
    /// Work that cannot wait; it is served before everything else.
    Priority,
    /// Normal work.
    First,
    /// Work that is served when there is time: once after three jobs of the
    /// first lane, and whenever the first lane is empty.
    Second,
}

/// The index `i` is that of the oldest job of the queue for the chunk `id`.
pub open spec fn is_oldest_for(queue: Seq<Job>, id: ChunkID, i: int) -> bool {
    &&& 0 <= i < queue.len()
    &&& queue[i].target() == id
    &&& forall|j: int| 0 <= j < i ==> (#[trigger] queue[j]).target() != id
}

/// The queue holds a job for the chunk `id`.
pub open spec fn holds_job_for(queue: Seq<Job>, id: ChunkID) -> bool {
    exists|i: int| 0 <= i < queue.len() && (#[trigger] queue[i]).target() == id
}

/// The index of the oldest job of the queue for the chunk `id`; the length of
/// the queue if it holds none.
pub open spec fn oldest_index(queue: Seq<Job>, id: ChunkID) -> int
    decreases queue.len(),
{
    if queue.len() == 0 {
        0
    } else if queue[0].target() == id {
        0
    } else {
        1 + oldest_index(queue.drop_first(), id)
    }
}

/// The oldest job for a chunk is found at its index, and a queue without one
/// gives its length.
pub proof fn lemma_oldest_index(queue: Seq<Job>, id: ChunkID)
    ensures
        0 <= oldest_index(queue, id) <= queue.len(),
        holds_job_for(queue, id) <==> oldest_index(queue, id) < queue.len(),
        holds_job_for(queue, id) ==> is_oldest_for(queue, id, oldest_index(queue, id)),
    decreases queue.len(),
{
    if queue.len() > 0 {
        if queue[0].target() != id {
            let tail = queue.drop_first();
            lemma_oldest_index(tail, id);
            let k = oldest_index(tail, id);
            if holds_job_for(queue, id) {
                let w = choose|w: int| 0 <= w < queue.len() && (#[trigger] queue[w]).target() == id;
                assert(tail[w - 1] == queue[w]);
                assert(holds_job_for(tail, id));
                assert(queue[k + 1] == tail[k]);
                assert forall|j: int| 0 <= j < k + 1 implies (#[trigger] queue[j]).target()
                    != id by {
                    if j > 0 {
                        assert(tail[j - 1] == queue[j]);
                    }
                }
            }
            if k < tail.len() {
                assert(queue[k + 1] == tail[k]);
            }
        }
    }
}

/// The oldest job for a chunk has one index only.
pub proof fn lemma_oldest_is_unique(queue: Seq<Job>, id: ChunkID, i: int)
    requires
        is_oldest_for(queue, id, i),
    ensures
        oldest_index(queue, id) == i,
{
    lemma_oldest_index(queue, id);
    let k = oldest_index(queue, id);
    assert(holds_job_for(queue, id));
    assert(is_oldest_for(queue, id, k));
    if k < i {
        assert(queue[k].target() != id);
    } else if i < k {
        assert(queue[i].target() != id);
    }
}

/// What a submission makes of a lane: below the limit the job joins the
/// queue; at the limit it replaces the oldest job for the same chunk, if
/// there is one, and is turned away if there is none.
pub open spec fn after_submit(queue: Seq<Job>, limit: usize, job: Job) -> Seq<Job> {
    if queue.len() < limit {
        queue.push(job)
    } else if oldest_index(queue, job.target()) < queue.len() {
        queue.remove(oldest_index(queue, job.target())).push(job)
    } else {
        queue
    }
}

/// Whether a submission to a lane is taken.
pub open spec fn takes(before: Seq<Job>, limit: usize, job: Job) -> bool {
    before.len() < limit || holds_job_for(before, job.target())
}

/// The index of the oldest job of the queue for a chunk, if there is one.
fn oldest_for(queue: &VecDeque<Job>, id: ChunkID) -> (r: Option<usize>)
    ensures
        r is Some == holds_job_for(queue@, id),
        r is Some ==> r.unwrap() == oldest_index(queue@, id) && r.unwrap() < queue@.len(),
        r is None ==> oldest_index(queue@, id) == queue@.len(),
{
    proof {
        lemma_oldest_index(queue@, id);
    }
    let mut i: usize = 0;
    while i < queue.len()
        invariant
            i <= queue.len(),
            forall|j: int| 0 <= j < i ==> (#[trigger] queue@[j]).target() != id,
        decreases queue.len() - i,
    {
        let job: Job = queue[i];
        if job.chunk_id() == id {
            proof {
                lemma_oldest_is_unique(queue@, id, i as int);
            }
            return Some(i);
        }
        i += 1;
    }
    None
}

/// Submits a job to a lane with a limit.
fn submit(queue: &mut VecDeque<Job>, limit: usize, job: Job) -> (rejected: Option<Job>)
    ensures
        final(queue)@ == after_submit(old(queue)@, limit, job),
        rejected is None == takes(old(queue)@, limit, job),
        rejected is Some ==> rejected == Some(job),
{
    if queue.len() < limit {
        queue.push_back(job);
        return None;
    }
    match oldest_for(queue, job.chunk_id()) {
        Some(i) => {
            queue.remove(i);
            queue.push_back(job);
            None
        },
        None => Some(job),
    }
}

/// The job queue of the worker pool: a priority lane and two normal lanes,
/// each first in, first out.
pub struct Threadpool {
    priority_queue: VecDeque<Job>,
    first_queue: VecDeque<Job>,
    second_queue: VecDeque<Job>,
    /// How many jobs in a row were handed out from the first lane.
    served_first: usize,
    priority_limit: usize,
    task_limit: usize,
}

impl Threadpool {
    /// The jobs that wait in a lane, oldest first.
    pub closed spec fn lane(self, lane: Lane) -> Seq<Job> {
        match lane {
            Lane::Priority => self.priority_queue@,
            Lane::First => self.first_queue@,
            Lane::Second => self.second_queue@,
        }
    }

    /// How many jobs in a row were handed out from the first lane.
    pub closed spec fn first_run(self) -> int {
        self.served_first as int
    }

    /// The first lane has never been served more than three times in a row.
    pub open spec fn wf(self) -> bool {
        self.first_run() <= FIRST_LANE_RUN
    }

    /// The limit of a lane: one for the priority lane, one for both normal
    /// lanes.
    pub closed spec fn limit(self, lane: Lane) -> usize {
        match lane {
            Lane::Priority => self.priority_limit,
            _ => self.task_limit,
        }
    }

    /// The queues of `next` but for the lane `lane` are those of this pool,
    /// and so are the limits and the count of jobs served in a row.
    pub open spec fn same_but(self, next: Threadpool, lane: Lane) -> bool {
        &&& forall|other: Lane| other != lane ==> #[trigger] next.lane(other) == self.lane(other)
        &&& forall|any: Lane| #[trigger] next.limit(any) == self.limit(any)
    }

    /// A pool without jobs, with the default limits.
    pub fn new() -> (r: Self)
        ensures
            r.wf(),
            r.first_run() == 0,
            forall|lane: Lane| #[trigger] r.lane(lane) == Seq::<Job>::empty(),
            r.limit(Lane::Priority) == DEFAULT_PRIORITY_LIMIT,
            r.limit(Lane::First) == DEFAULT_TASK_LIMIT,
            r.limit(Lane::Second) == DEFAULT_TASK_LIMIT,
    {
        Threadpool::with_limits(DEFAULT_PRIORITY_LIMIT, DEFAULT_TASK_LIMIT)
    }

    /// A pool without jobs, with the given limits for the priority lane and
    /// for each of the normal lanes.
    pub fn with_limits(priority_limit: usize, task_limit: usize) -> (r: Self)
        ensures
            r.wf(),
            r.first_run() == 0,
            forall|lane: Lane| #[trigger] r.lane(lane) == Seq::<Job>::empty(),
            r.limit(Lane::Priority) == priority_limit,
            r.limit(Lane::First) == task_limit,
            r.limit(Lane::Second) == task_limit,
    {
        Threadpool {
            priority_queue: VecDeque::new(),
            first_queue: VecDeque::new(),
            second_queue: VecDeque::new(),
            served_first: 0,
            priority_limit,
            task_limit,
        }
    }

    /// The limit of a lane.
    pub fn lane_limit(&self, lane: Lane) -> (n: usize)
        ensures
            n == self.limit(lane),
    {
        match lane {
            Lane::Priority => self.priority_limit,
            _ => self.task_limit,
        }
    }

    /// How many jobs wait in a lane.
    pub fn len(&self, lane: Lane) -> (n: usize)
        ensures
            n == self.lane(lane).len(),
    {
        match lane {
            Lane::Priority => self.priority_queue.len(),
            Lane::First => self.first_queue.len(),
            Lane::Second => self.second_queue.len(),
        }
    }

    /// Whether no job waits in any lane: a worker that finds the pool so
    /// goes to sleep.
    pub fn is_idle(&self) -> (r: bool)
        ensures
            r == (forall|lane: Lane| (#[trigger] self.lane(lane)).len() == 0),
    {
        let r = self.priority_queue.len() == 0 && self.first_queue.len() == 0
            && self.second_queue.len() == 0;
        proof {
            if r {
                assert forall|lane: Lane| (#[trigger] self.lane(lane)).len() == 0 by {}
            } else {
                assert(self.lane(Lane::Priority).len() != 0 || self.lane(Lane::First).len() != 0
                    || self.lane(Lane::Second).len() != 0);
            }
        }
        r
    }

    /// Whether the priority lane has reached its limit.
    pub fn priority_is_full(&self) -> (r: bool)
        ensures
            r == (self.lane(Lane::Priority).len() >= self.limit(Lane::Priority)),
    {
        self.priority_queue.len() >= self.priority_limit
    }

    /// Submits a job to a lane. Below the lane's limit the job joins the
    /// queue. At the limit it replaces the oldest job of the lane for the
    /// same chunk; where there is none it is handed back.
    pub fn push(&mut self, lane: Lane, job: Job) -> (rejected: Option<Job>)
        requires
            old(self).wf(),
        ensures
            final(self).wf(),
            final(self).first_run() == old(self).first_run(),
            old(self).same_but(*final(self), lane),
            final(self).lane(lane) == after_submit(old(self).lane(lane), old(self).limit(lane), job),
            rejected is None == takes(old(self).lane(lane), old(self).limit(lane), job),
            rejected is Some ==> rejected == Some(job),
    {
        match lane {
            Lane::Priority => submit(&mut self.priority_queue, self.priority_limit, job),
            Lane::First => submit(&mut self.first_queue, self.task_limit, job),
            Lane::Second => submit(&mut self.second_queue, self.task_limit, job),
        }
    }

    /// Submits a job to the priority lane. Hands the job back if the lane
    /// could not take it.
    pub fn add_priority(&mut self, job: Job) -> (rejected: Option<Job>)
        requires
            old(self).wf(),
        ensures
            final(self).wf(),
            final(self).first_run() == old(self).first_run(),
            old(self).same_but(*final(self), Lane::Priority),
            final(self).lane(Lane::Priority) == after_submit(
                old(self).lane(Lane::Priority),
                old(self).limit(Lane::Priority),
                job,
            ),
            rejected is None == takes(
                old(self).lane(Lane::Priority),
                old(self).limit(Lane::Priority),
                job,
            ),
            rejected is Some ==> rejected == Some(job),
    {
        self.push(Lane::Priority, job)
    }

    /// Submits a job to the first normal lane. Hands the job back if the
    /// lane could not take it.
    pub fn add_to_first(&mut self, job: Job) -> (rejected: Option<Job>)
        requires
            old(self).wf(),
        ensures
            final(self).wf(),
            final(self).first_run() == old(self).first_run(),
            old(self).same_but(*final(self), Lane::First),
            final(self).lane(Lane::First) == after_submit(
                old(self).lane(Lane::First),
                old(self).limit(Lane::First),
                job,
            ),
            rejected is None == takes(
                old(self).lane(Lane::First),
                old(self).limit(Lane::First),
                job,
            ),
            rejected is Some ==> rejected == Some(job),
    {
        self.push(Lane::First, job)
    }

    /// Submits a job to the second normal lane. Hands the job back if the
    /// lane could not take it.
    pub fn add_to_second(&mut self, job: Job) -> (rejected: Option<Job>)
        requires
            old(self).wf(),
        ensures
            final(self).wf(),
            final(self).first_run() == old(self).first_run(),
            old(self).same_but(*final(self), Lane::Second),
            final(self).lane(Lane::Second) == after_submit(
                old(self).lane(Lane::Second),
                old(self).limit(Lane::Second),
                job,
            ),
            rejected is None == takes(
                old(self).lane(Lane::Second),
                old(self).limit(Lane::Second),
                job,
            ),
            rejected is Some ==> rejected == Some(job),
    {
        self.push(Lane::Second, job)
    }

    /// The lane that a worker takes its next job from: the priority lane
    /// while it holds a job; else the first lane, unless it was served three
    /// times in a row and the second lane holds a job, or is empty itself;
    /// else the second lane.
    pub open spec fn next_lane(self) -> Option<Lane> {
        if self.lane(Lane::Priority).len() > 0 {
            Some(Lane::Priority)
        } else if self.first_run() < FIRST_LANE_RUN {
            if self.lane(Lane::First).len() > 0 {
                Some(Lane::First)
            } else if self.lane(Lane::Second).len() > 0 {
                Some(Lane::Second)
            } else {
                None
            }
        } else {
            if self.lane(Lane::Second).len() > 0 {
                Some(Lane::Second)
            } else if self.lane(Lane::First).len() > 0 {
                Some(Lane::First)
            } else {
                None
            }
        }
    }

    /// Hands out the next job, with the lane it came from: the oldest job of
    /// the lane whose turn it is. Nothing is handed out, and nothing
    /// changes, when all lanes are empty.
    pub fn next_job(&mut self) -> (next: Option<(Lane, Job)>)
        requires
            old(self).wf(),
        ensures
            final(self).wf(),
            forall|any: Lane| #[trigger] final(self).limit(any) == old(self).limit(any),
            match next {
                Some((lane, job)) => {
                    &&& old(self).next_lane() == Some(lane)
                    &&& job == old(self).lane(lane)[0]
                    &&& final(self).lane(lane) == old(self).lane(lane).subrange(
                        1,
                        old(self).lane(lane).len() as int,
                    )
                    &&& old(self).same_but(*final(self), lane)
                    &&& final(self).first_run() == match lane {
                        Lane::Priority => old(self).first_run(),
                        Lane::First => if old(self).first_run() < FIRST_LANE_RUN {
                            old(self).first_run() + 1
                        } else {
                            old(self).first_run()
                        },
                        Lane::Second => 0,
                    }
                },
                None => {
                    &&& old(self).next_lane() is None
                    &&& forall|lane: Lane| #[trigger] final(self).lane(lane) == old(self).lane(lane)
                    &&& final(self).first_run() == old(self).first_run()
                },
            },
    {
        if self.priority_queue.len() > 0 {
            match self.priority_queue.pop_front() {
                Some(job) => {
                    return Some((Lane::Priority, job));
                },
                None => {
                    return None;
                },
            }
        }
        let first_turn = if self.served_first < FIRST_LANE_RUN {
            self.first_queue.len() > 0
        } else {
            self.second_queue.len() == 0 && self.first_queue.len() > 0
        };
        if first_turn {
            match self.first_queue.pop_front() {
                Some(job) => {
                    if self.served_first < FIRST_LANE_RUN {
                        self.served_first = self.served_first + 1;
                    }
                    Some((Lane::First, job))
                },
                None => None,
            }
        } else {
            match self.second_queue.pop_front() {
                Some(job) => {
                    self.served_first = 0;
                    Some((Lane::Second, job))
                },
                None => None,
            }
        }
    }
}

/// While the second lane holds a job and the priority lane is empty, the
/// first lane is served at most three times in a row: after the third job
/// of the first lane the next job comes from the second.
pub proof fn lemma_second_lane_gets_its_turn(pool: Threadpool)
    requires
        pool.wf(),
        pool.lane(Lane::Priority).len() == 0,
        pool.lane(Lane::Second).len() > 0,
    ensures
        pool.first_run() == FIRST_LANE_RUN ==> pool.next_lane() == Some(Lane::Second),
        pool.next_lane() == Some(Lane::First) ==> pool.first_run() < FIRST_LANE_RUN,
        pool.next_lane() is Some,
{
}

/// The priority lane is served before the others, whatever they hold.
pub proof fn lemma_priority_goes_first(pool: Threadpool)
    requires
        pool.lane(Lane::Priority).len() > 0,
    ensures
        pool.next_lane() == Some(Lane::Priority),
{
}

/// A submission never makes a lane longer than its limit, and a lane at its
/// limit keeps its length.
pub proof fn lemma_submission_respects_limit(queue: Seq<Job>, limit: usize, job: Job)
    ensures
        queue.len() <= limit ==> after_submit(queue, limit, job).len() <= limit,
        queue.len() >= limit ==> after_submit(queue, limit, job).len() == queue.len(),
        takes(queue, limit, job) ==> after_submit(queue, limit, job).last() == job,
        !takes(queue, limit, job) ==> after_submit(queue, limit, job) == queue,
{
    lemma_oldest_index(queue, job.target());
}

/// What the pool does to its number of workers.
#[derive(Debug, Clone, Copy, PartialEq, Eq, Structural)]
pub enum WorkerChange {
    Keep,
    /// Start this many workers.
    Launch(usize),
    /// Tell this many workers to stop.
    Retire(usize),
}

/// How many workers a pool starts with on a machine with `cpus` processors:
/// one less than there are processors.
pub fn default_workers(cpus: usize) -> (n: usize)
    ensures
        n == if cpus == 0 {
            0int
        } else {
            cpus - 1
        },
{
    if cpus == 0 {
        0
    } else {
        cpus - 1
    }
}

/// How the number of workers is adapted: the pool aims at half as many
/// sleeping workers as there are processors. It launches as many workers as
/// are missing, and retires as many as are too many, but no more than there
/// are.
pub fn plan_workers(cpus: usize, sleeping: usize, workers: usize) -> (change: WorkerChange)
    ensures
        change == if cpus / 2 > sleeping {
            WorkerChange::Launch((cpus / 2 - sleeping) as usize)
        } else if cpus / 2 < sleeping {
            WorkerChange::Retire(
                if workers <= sleeping - cpus / 2 {
                    workers
                } else {
                    (sleeping - cpus / 2) as usize
                },
            )
        } else {
            WorkerChange::Keep
        },
{
    let wanted = cpus / 2;
    if wanted > sleeping {
        WorkerChange::Launch(wanted - sleeping)
    } else if wanted < sleeping {
        let surplus = sleeping - wanted;
        if workers <= surplus {
            WorkerChange::Retire(workers)
        } else {
            WorkerChange::Retire(surplus)
        }
    } else {
        WorkerChange::Keep
    }
}

} // verus!
