//! The scheduling state of a bounded worker pool.
//!
//! A fixed number of workers take jobs from one first-in first-out queue.
//! This module decides which job a worker runs, when it waits and when it
//! exits; the threads that carry the decisions out live outside it.

use vstd::prelude::*;

verus! {

/// What a worker is doing.
#[derive(Debug, PartialEq, Eq, Structural, Clone, Copy)]
pub enum WorkerState {
    /// Waiting for a job.
    Idle,
    /// Running a job.
    Busy,
    /// Gone after the queue was closed and drained.
    Exited,
}

/// What a worker is told to do next.
pub enum Assignment<T> {
    /// Run this job, then report it complete.
    Run(T),
    /// Block until a job is submitted or the queue is closed.
    Wait,
    /// Leave: the queue is closed and empty.
    Exit,
}

/// Why a pool could not be made or a job was refused.
#[derive(Debug, PartialEq, Eq, Structural, Clone, Copy)]
pub enum PoolError {
    /// A pool needs at least one worker.
    NoWorkers,
    /// The queue was closed before the job came.
    Closed,
}

/// The number of busy workers.
pub open spec fn count_busy(s: Seq<WorkerState>) -> nat
    decreases s.len(),
{
    if s.len() == 0 {
        0
    } else {
        count_busy(s.drop_last()) + if s.last() == WorkerState::Busy {
            1nat
        } else {
            0nat
        }
    }
}

/// Changing one worker's state changes the busy count by what that worker was and becomes.
pub proof fn lemma_count_busy_update(s: Seq<WorkerState>, i: int, v: WorkerState)
    requires
        0 <= i < s.len(),
    ensures
        count_busy(s.update(i, v)) + (if s[i] == WorkerState::Busy {
            1nat
        } else {
            0nat
        }) == count_busy(s) + (if v == WorkerState::Busy {
            1nat
        } else {
            0nat
        }),
    decreases s.len(),
{
    let u = s.update(i, v);
    if i == s.len() - 1 {
        assert(u.drop_last() =~= s.drop_last());
    } else {
        assert(u.drop_last() =~= s.drop_last().update(i, v));
        lemma_count_busy_update(s.drop_last(), i, v);
    }
}

/// The busy count is at most the number of workers; it is zero when no
/// worker is busy, and below the number of workers when one is not busy.
pub proof fn lemma_count_busy_bounds(s: Seq<WorkerState>)
    ensures
        count_busy(s) <= s.len(),
        count_busy(s) == 0 <==> forall|i: int| 0 <= i < s.len() ==> s[i] != WorkerState::Busy,
        count_busy(s) < s.len() <==> exists|i: int| 0 <= i < s.len() && s[i] != WorkerState::Busy,
    decreases s.len(),
{
    if s.len() > 0 {
        let t = s.drop_last();
        lemma_count_busy_bounds(t);
        assert(forall|i: int| 0 <= i < t.len() ==> t[i] == s[i]);
        if count_busy(s) < s.len() && s.last() == WorkerState::Busy {
            let i = choose|i: int| 0 <= i < t.len() && t[i] != WorkerState::Busy;
            assert(s[i] != WorkerState::Busy);
        }
        if s.last() != WorkerState::Busy {
            assert(s[s.len() - 1] != WorkerState::Busy);
        }
    }
}

/// The state of a pool as a value: its workers, the jobs waiting in order,
/// whether the queue is closed, and how many jobs were submitted, started
/// and completed so far.
pub struct PoolView<T> {
    pub workers: Seq<WorkerState>,
    pub queue: Seq<T>,
    pub closed: bool,
    pub submitted: nat,
    pub started: nat,
    pub completed: nat,
}

impl<T> PoolView<T> {
    /// The number of workers.
    pub open spec fn size(self) -> nat {
        self.workers.len()
    }

    /// The number of jobs being run now.
    pub open spec fn running(self) -> nat {
        count_busy(self.workers)
    }

    /// Every job submitted is queued, running or completed; a worker exits
    /// only once the queue is closed and empty.
    pub open spec fn wf(self) -> bool {
        &&& self.size() >= 1
        &&& self.submitted == self.started + self.queue.len()
        &&& self.started == self.completed + self.running()
        &&& forall|i: int|
            0 <= i < self.size() && self.workers[i] == WorkerState::Exited ==> self.closed
                && self.queue.len() == 0
    }

    /// A pool of `size` idle workers with nothing submitted.
    pub open spec fn fresh(size: nat) -> PoolView<T> {
        PoolView {
            workers: Seq::new(size, |i: int| WorkerState::Idle),
            queue: Seq::empty(),
            closed: false,
            submitted: 0,
            started: 0,
            completed: 0,
        }
    }

    /// The state after `job` joins the end of the queue.
    pub open spec fn after_submit(self, job: T) -> PoolView<T> {
        PoolView { queue: self.queue.push(job), submitted: self.submitted + 1, ..self }
    }

    /// What worker `w` is told when it asks for work.
    pub open spec fn next_assignment(self, w: int) -> Assignment<T> {
        if self.queue.len() > 0 {
            Assignment::Run(self.queue[0])
        } else if self.closed {
            Assignment::Exit
        } else {
            Assignment::Wait
        }
    }

    /// The state after worker `w` asks for work.
    pub open spec fn after_next(self, w: int) -> PoolView<T> {
        if self.queue.len() > 0 {
            PoolView {
                workers: self.workers.update(w, WorkerState::Busy),
                queue: self.queue.drop_first(),
                started: self.started + 1,
                ..self
            }
        } else if self.closed {
            PoolView { workers: self.workers.update(w, WorkerState::Exited), ..self }
        } else {
            self
        }
    }

    /// The state after worker `w` finishes its job.
    pub open spec fn after_complete(self, w: int) -> PoolView<T> {
        PoolView {
            workers: self.workers.update(w, WorkerState::Idle),
            completed: self.completed + 1,
            ..self
        }
    }

    /// The state after the queue is closed.
    pub open spec fn after_close(self) -> PoolView<T> {
        PoolView { closed: true, ..self }
    }

    /// Work not yet done: each queued job counts twice (start and finish),
    /// each running job once.
    pub open spec fn work_left(self) -> nat {
        2 * self.queue.len() + self.running()
    }
}

/// At no moment do more jobs run than the pool has workers.
pub proof fn lemma_bounded_concurrency<T>(p: PoolView<T>)
    requires
        p.wf(),
    ensures
        p.running() <= p.size(),
{
    lemma_count_busy_bounds(p.workers);
}

/// Each step shrinks the work left: a worker that takes a queued job, and a
/// worker that finishes its job.
pub proof fn lemma_steps_make_progress<T>(p: PoolView<T>, w: int)
    requires
        p.wf(),
        0 <= w < p.size(),
    ensures
        p.workers[w] != WorkerState::Busy && p.queue.len() > 0 ==> {
            &&& p.next_assignment(w) == Assignment::Run(p.queue[0])
            &&& p.after_next(w).work_left() < p.work_left()
        },
        p.workers[w] == WorkerState::Busy ==> p.after_complete(w).work_left() < p.work_left(),
{
    lemma_count_busy_update(p.workers, w, WorkerState::Busy);
    lemma_count_busy_update(p.workers, w, WorkerState::Idle);
}

/// While work is left, some step is open: a worker that is not busy can take
/// the oldest queued job, or a busy worker can finish. When none is left,
/// every submitted job has completed. With the steps above, every job
/// submitted is therefore eventually completed.
pub proof fn lemma_work_is_never_stuck<T>(p: PoolView<T>)
    requires
        p.wf(),
    ensures
        p.queue.len() > 0 ==> exists|w: int|
            0 <= w < p.size() && (p.workers[w] == WorkerState::Idle || p.workers[w]
                == WorkerState::Busy),
        p.queue.len() > 0 && p.running() < p.size() ==> exists|w: int|
            0 <= w < p.size() && p.workers[w] == WorkerState::Idle,
        p.running() > 0 ==> exists|w: int| 0 <= w < p.size() && p.workers[w] == WorkerState::Busy,
        p.work_left() == 0 ==> p.completed == p.submitted,
{
    lemma_count_busy_bounds(p.workers);
    if p.queue.len() > 0 {
        assert(p.workers[0] != WorkerState::Exited);
        if p.running() < p.size() {
            let w = choose|w: int| 0 <= w < p.size() && p.workers[w] != WorkerState::Busy;
            assert(p.workers[w] == WorkerState::Idle);
        }
    }
}

/// One step of a running pool: a worker that is not busy takes the oldest
/// queued job, or a busy worker finishes its job.
pub open spec fn job_step<T>(p: PoolView<T>, q: PoolView<T>) -> bool {
    exists|w: int|
        0 <= w < p.size() && {
            ||| p.workers[w] != WorkerState::Busy && p.queue.len() > 0 && q == p.after_next(w)
            ||| p.workers[w] == WorkerState::Busy && q == p.after_complete(w)
        }
}

/// Every job submitted is eventually completed, and never do more jobs run
/// than there are workers: while work is left some step is possible, each
/// step keeps the pool well formed and shrinks the work left, and when none
/// is left every submitted job has completed.
pub proof fn lemma_every_job_completes<T>(p: PoolView<T>, q: PoolView<T>)
    requires
        p.wf(),
    ensures
        p.running() <= p.size(),
        p.work_left() > 0 ==> exists|r: PoolView<T>| job_step(p, r),
        job_step(p, q) ==> {
            &&& q.wf()
            &&& q.running() <= q.size()
            &&& q.work_left() < p.work_left()
            &&& q.submitted == p.submitted
        },
        p.work_left() == 0 ==> p.completed == p.submitted,
{
    lemma_bounded_concurrency(p);
    lemma_work_is_never_stuck(p);
    if p.work_left() > 0 {
        if p.running() > 0 {
            let w = choose|w: int| 0 <= w < p.size() && p.workers[w] == WorkerState::Busy;
            assert(job_step(p, p.after_complete(w)));
        } else {
            let w = choose|w: int| 0 <= w < p.size() && p.workers[w] == WorkerState::Idle;
            assert(job_step(p, p.after_next(w)));
        }
    }
    if job_step(p, q) {
        let w = choose|w: int|
            0 <= w < p.size() && {
                ||| p.workers[w] != WorkerState::Busy && p.queue.len() > 0 && q == p.after_next(w)
                ||| p.workers[w] == WorkerState::Busy && q == p.after_complete(w)
            };
        lemma_steps_make_progress(p, w);
        lemma_count_busy_update(p.workers, w, WorkerState::Busy);
        lemma_count_busy_update(p.workers, w, WorkerState::Idle);
        if p.workers[w] == WorkerState::Busy && q == p.after_complete(w) {
            assert forall|i: int| 0 <= i < q.size() && q.workers[i] == WorkerState::Exited implies q.closed
                && q.queue.len() == 0 by {
                assert(p.workers[i] == WorkerState::Exited);
            }
        } else {
            assert forall|i: int| 0 <= i < q.size() && q.workers[i] == WorkerState::Exited implies q.closed
                && q.queue.len() == 0 by {
                assert(i != w);
                assert(p.workers[i] == WorkerState::Exited);
            }
        }
        lemma_bounded_concurrency(q);
    }
}

/// Tearing down a pool to which nothing was submitted cannot block: after
/// the queue is closed no worker is busy, each worker that asks for work is
/// told to exit, and the others are then told the same.
pub proof fn lemma_teardown_without_jobs<T>(p: PoolView<T>, w: int, v: int)
    requires
        p.wf(),
        p.submitted == 0,
        0 <= w < p.size(),
        0 <= v < p.size(),
    ensures
        p.after_close().wf(),
        p.after_close().running() == 0,
        p.after_close().workers[w] != WorkerState::Busy,
        p.after_close().next_assignment(w) is Exit,
        p.after_close().after_next(w).wf(),
        p.after_close().after_next(w).next_assignment(v) is Exit,
        p.after_close().after_next(w).workers[w] == WorkerState::Exited,
{
    let c = p.after_close();
    lemma_count_busy_bounds(c.workers);
    lemma_count_busy_update(c.workers, w, WorkerState::Exited);
    let d = c.after_next(w);
    assert forall|i: int| 0 <= i < d.size() && d.workers[i] == WorkerState::Exited implies d.closed
        && d.queue.len() == 0 by {}
}

/// Relies on `num_cpus::get`: the number of CPUs available to this process,
/// at least one.
#[verifier::external_body]
fn available_cpus() -> (r: usize)
    ensures
        r >= 1,
{
    num_cpus::get()
}

/// The scheduler of a bounded worker pool.
pub struct Scheduler<T> {
    workers: Vec<WorkerState>,
    queue: Vec<T>,
    closed: bool,
    submitted: Ghost<nat>,
    started: Ghost<nat>,
    completed: Ghost<nat>,
}

impl<T> View for Scheduler<T> {
    type V = PoolView<T>;

    closed spec fn view(&self) -> PoolView<T> {
        PoolView {
            workers: self.workers@,
            queue: self.queue@,
            closed: self.closed,
            submitted: self.submitted@,
            started: self.started@,
            completed: self.completed@,
        }
    }
}

impl<T> Scheduler<T> {
    /// A pool of `size` idle workers; a pool of no workers is refused.
    pub fn new(size: usize) -> (r: Result<Scheduler<T>, PoolError>)
        ensures
            r is Err <==> size == 0,
            r matches Err(e) ==> e == PoolError::NoWorkers,
            r matches Ok(s) ==> s@ == PoolView::<T>::fresh(size as nat) && s@.wf(),
    {
        if size == 0 {
            Err(PoolError::NoWorkers)
        } else {
            Ok(Scheduler::idle(size))
        }
    }

    fn idle(size: usize) -> (r: Scheduler<T>)
        requires
            size >= 1,
        ensures
            r@ == PoolView::<T>::fresh(size as nat),
            r@.wf(),
    {
        let mut workers: Vec<WorkerState> = Vec::new();
        let mut i: usize = 0;
        while i < size
            invariant
                i <= size,
                workers@ == Seq::new(i as nat, |j: int| WorkerState::Idle),
            decreases size - i,
        {
            workers.push(WorkerState::Idle);
            i = i + 1;
            assert(workers@ =~= Seq::new(i as nat, |j: int| WorkerState::Idle));
        }
        let s = Scheduler {
            workers,
            queue: Vec::new(),
            closed: false,
            submitted: Ghost(0),
            started: Ghost(0),
            completed: Ghost(0),
        };
        proof {
            lemma_count_busy_bounds(s@.workers);
            assert(s@.queue =~= Seq::<T>::empty());
            assert(s@ == PoolView::<T>::fresh(size as nat));
        }
        s
    }

    /// A pool with one worker for each CPU available to this process.
    pub fn with_available_parallelism() -> (r: Scheduler<T>)
        ensures
            r@.size() >= 1,
            r@ == PoolView::<T>::fresh(r@.size()),
            r@.wf(),
    {
        Scheduler::idle(available_cpus())
    }

    /// The number of workers.
    pub fn size(&self) -> (r: usize)
        ensures
            r == self@.size(),
    {
        self.workers.len()
    }

    /// The number of jobs waiting in the queue.
    pub fn pending(&self) -> (r: usize)
        ensures
            r == self@.queue.len(),
    {
        self.queue.len()
    }

    /// Whether the queue is closed.
    pub fn is_closed(&self) -> (r: bool)
        ensures
            r == self@.closed,
    {
        self.closed
    }

    /// What worker `w` is doing.
    pub fn worker_state(&self, w: usize) -> (r: WorkerState)
        requires
            w < self@.size(),
        ensures
            r == self@.workers[w as int],
    {
        self.workers[w]
    }

    /// Puts `job` at the end of the queue; once the queue is closed the job
    /// is refused and nothing changes. Never waits on capacity.
    pub fn submit(&mut self, job: T) -> (r: Result<(), PoolError>)
        requires
            old(self)@.wf(),
        ensures
            final(self)@.wf(),
            r is Err <==> old(self)@.closed,
            r matches Err(e) ==> e == PoolError::Closed && final(self)@ == old(self)@,
            r is Ok ==> final(self)@ == old(self)@.after_submit(job),
    {
        if self.closed {
            return Err(PoolError::Closed);
        }
        self.queue.push(job);
        self.submitted = Ghost(self.submitted@ + 1);
        Ok(())
    }

    /// Tells worker `w`, which is not running a job, what to do next: run
    /// the oldest queued job, wait while the queue is open and empty, or
    /// exit once it is closed and empty.
    pub fn next_task(&mut self, w: usize) -> (r: Assignment<T>)
        requires
            old(self)@.wf(),
            w < old(self)@.size(),
            old(self)@.workers[w as int] != WorkerState::Busy,
        ensures
            final(self)@.wf(),
            r == old(self)@.next_assignment(w as int),
            final(self)@ == old(self)@.after_next(w as int),
    {
        let ghost before = self@;
        proof {
            lemma_count_busy_update(before.workers, w as int, WorkerState::Busy);
            lemma_count_busy_update(before.workers, w as int, WorkerState::Exited);
        }
        if self.queue.len() > 0 {
            let job = self.queue.remove(0);
            self.workers.set(w, WorkerState::Busy);
            self.started = Ghost(self.started@ + 1);
            proof {
                assert(self@.queue =~= before.queue.drop_first());
                assert(self@ == before.after_next(w as int));
            }
            Assignment::Run(job)
        } else if self.closed {
            self.workers.set(w, WorkerState::Exited);
            proof {
                assert(self@ == before.after_next(w as int));
            }
            Assignment::Exit
        } else {
            Assignment::Wait
        }
    }

    /// Records that worker `w` finished the job it was running.
    pub fn complete(&mut self, w: usize)
        requires
            old(self)@.wf(),
            w < old(self)@.size(),
            old(self)@.workers[w as int] == WorkerState::Busy,
        ensures
            final(self)@.wf(),
            final(self)@ == old(self)@.after_complete(w as int),
    {
        proof {
            lemma_count_busy_update(self@.workers, w as int, WorkerState::Idle);
        }
        self.workers.set(w, WorkerState::Idle);
        self.completed = Ghost(self.completed@ + 1);
    }

    /// Closes the queue: jobs already queued still run, later ones are refused.
    pub fn close(&mut self)
        requires
            old(self)@.wf(),
        ensures
            final(self)@.wf(),
            final(self)@ == old(self)@.after_close(),
    {
        self.closed = true;
    }

    /// Whether every worker has exited, so that joining them cannot block.
    pub fn all_exited(&self) -> (r: bool)
        ensures
            r == forall|i: int| 0 <= i < self@.size() ==> self@.workers[i] == WorkerState::Exited,
    {
        let mut i: usize = 0;
        while i < self.workers.len()
            invariant
                i <= self.workers@.len(),
                forall|j: int| 0 <= j < i ==> self.workers@[j] == WorkerState::Exited,
            decreases self.workers@.len() - i,
        {
            if self.workers[i] != WorkerState::Exited {
                return false;
            }
            i = i + 1;
        }
        true
    }
}

} // verus!
