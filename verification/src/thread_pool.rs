//! The queue of a worker pool.
//!
//! A pool has a fixed number of worker threads and one queue of jobs. The
//! threads themselves are the caller's; here is the queue that they share
//! under a lock: `submit` puts a job at its end and never waits, `claim`
//! hands the oldest job to the one worker that asked.

use std::collections::VecDeque;
use vstd::prelude::*;

verus! {

/// The queue after one more job has been submitted.
pub open spec fn submitted<T>(queue: Seq<T>, job: T) -> Seq<T> {
    queue.push(job)
}

/// What a claim returns and what it leaves in the queue: the oldest job, if
/// there is one, leaves the queue.
pub open spec fn claimed<T>(queue: Seq<T>) -> (Option<T>, Seq<T>) {
    if queue.len() > 0 {
        (Some(queue[0]), queue.drop_first())
    } else {
        (None, queue)
    }
}

/// The jobs that wait for a worker, oldest first.
pub struct JobQueue<T> {
    jobs: VecDeque<T>,
}

impl<T> View for JobQueue<T> {
    type V = Seq<T>;

    closed spec fn view(&self) -> Seq<T> {
        self.jobs@
    }
}

impl<T> JobQueue<T> {
    /// The empty queue.
    pub fn new() -> (queue: JobQueue<T>)
        ensures
            queue@ == Seq::<T>::empty(),
    {
        JobQueue { jobs: VecDeque::new() }
    }

    /// Puts a job at the end of the queue.
    pub fn submit(&mut self, job: T)
        ensures
            final(self)@ == submitted(old(self)@, job),
    {
        self.jobs.push_back(job);
    }

    /// Takes the oldest job out of the queue; `None` where the queue is empty.
    pub fn claim(&mut self) -> (job: Option<T>)
        ensures
            (job, final(self)@) == claimed(old(self)@),
    {
        let job = self.jobs.pop_front();
        assert(self.jobs@ =~= claimed(old(self)@).1);
        job
    }

    /// The number of jobs that wait.
    pub fn len(&self) -> (n: usize)
        ensures
            n == self@.len(),
    {
        self.jobs.len()
    }

    /// Whether no job waits.
    pub fn is_empty(&self) -> (r: bool)
        ensures
            r == (self@.len() == 0),
    {
        self.jobs.len() == 0
    }
}

/// One use of the queue: a job is submitted, or one of the workers asks for
/// a job.
pub enum QueueOp<T> {
    Submit(T),
    Claim { worker: nat },
}

/// What has become of the jobs after some uses of the queue.
pub struct QueueHistory<T> {
    /// The jobs that workers have claimed, each with the worker that claimed
    /// it, in the order of the claims.
    pub done: Seq<(nat, T)>,
    /// The jobs that wait in the queue, oldest first.
    pub waiting: Seq<T>,
}

/// The history after one more use of the queue. A worker that asks while
/// nothing waits gets nothing, and nothing changes.
pub open spec fn history_after<T>(history: QueueHistory<T>, op: QueueOp<T>) -> QueueHistory<T> {
    match op {
        QueueOp::Submit(job) => QueueHistory {
            done: history.done,
            waiting: submitted(history.waiting, job),
        },
        QueueOp::Claim { worker } => match claimed(history.waiting).0 {
            Some(job) => QueueHistory {
                done: history.done.push((worker, job)),
                waiting: claimed(history.waiting).1,
            },
            None => history,
        },
    }
}

/// The history of a queue that was empty at first, after the given uses.
pub open spec fn history_of<T>(ops: Seq<QueueOp<T>>) -> QueueHistory<T>
    decreases ops.len(),
{
    if ops.len() == 0 {
        QueueHistory { done: Seq::empty(), waiting: Seq::empty() }
    } else {
        history_after(history_of(ops.drop_last()), ops.last())
    }
}

/// The jobs that the given uses submit, in their order.
pub open spec fn jobs_of<T>(ops: Seq<QueueOp<T>>) -> Seq<T>
    decreases ops.len(),
{
    if ops.len() == 0 {
        Seq::empty()
    } else {
        match ops.last() {
            QueueOp::Submit(job) => jobs_of(ops.drop_last()).push(job),
            QueueOp::Claim { worker } => jobs_of(ops.drop_last()),
        }
    }
}

/// The jobs of a sequence of claims, without the workers.
pub open spec fn jobs_done<T>(done: Seq<(nat, T)>) -> Seq<T> {
    done.map_values(|claim: (nat, T)| claim.1)
}

/// However many workers there are, and however submissions and claims follow
/// each other, the jobs claimed and the jobs waiting are together the jobs
/// submitted, each once and in the order of submission: no job is lost, and
/// none is handed to two workers or twice to one. Once nothing waits, every
/// job submitted has been claimed.
pub proof fn lemma_every_job_once<T>(ops: Seq<QueueOp<T>>)
    ensures
        jobs_done(history_of(ops).done) + history_of(ops).waiting == jobs_of(ops),
        history_of(ops).waiting.len() == 0 ==> jobs_done(history_of(ops).done) == jobs_of(ops),
    decreases ops.len(),
{
    let after = history_of(ops);
    if ops.len() == 0 {
        assert(jobs_done(after.done) + after.waiting =~= jobs_of(ops));
    } else {
        lemma_every_job_once(ops.drop_last());
        let before = history_of(ops.drop_last());
        match ops.last() {
            QueueOp::Submit(job) => {
                assert(jobs_done(after.done) + after.waiting =~= (jobs_done(before.done)
                    + before.waiting).push(job));
            },
            QueueOp::Claim { worker } => {
                assert(jobs_done(after.done) + after.waiting =~= jobs_done(before.done)
                    + before.waiting);
            },
        }
    }
    assert(after.waiting.len() == 0 ==> jobs_done(after.done) + after.waiting =~= jobs_done(
        after.done,
    ));
}

/// The uses of the queue that submit the given jobs in turn.
pub open spec fn submissions<T>(jobs: Seq<T>) -> Seq<QueueOp<T>> {
    jobs.map_values(|job: T| QueueOp::Submit(job))
}

/// The uses of the queue by which the given workers ask for a job in turn.
/// A worker may stand in the sequence as often as it asks.
pub open spec fn claims<T>(workers: Seq<nat>) -> Seq<QueueOp<T>> {
    workers.map_values(|worker: nat| QueueOp::<T>::Claim { worker })
}

/// Jobs that are submitted wait in the order of their submission.
pub proof fn lemma_submitted_jobs_wait<T>(jobs: Seq<T>)
    ensures
        history_of(submissions(jobs)).done == Seq::<(nat, T)>::empty(),
        history_of(submissions(jobs)).waiting == jobs,
    decreases jobs.len(),
{
    if jobs.len() == 0 {
        assert(history_of(submissions(jobs)).waiting =~= jobs);
    } else {
        lemma_submitted_jobs_wait(jobs.drop_last());
        assert(submissions(jobs).drop_last() =~= submissions(jobs.drop_last()));
        assert(jobs.drop_last().push(jobs.last()) =~= jobs);
    }
}

/// After `jobs` have been submitted and the workers have asked in turn, the
/// first jobs have gone, one for each time a worker asked and each to the
/// worker that asked in its turn, and the others wait.
proof fn lemma_claims_in_turn<T>(jobs: Seq<T>, workers: Seq<nat>)
    ensures
        ({
            let history = history_of(submissions(jobs) + claims(workers));
            let gone = if workers.len() <= jobs.len() {
                workers.len()
            } else {
                jobs.len()
            };
            &&& history.done.len() == gone
            &&& forall|k: int| 0 <= k < gone ==> history.done[k] == (workers[k], jobs[k])
            &&& history.waiting == jobs.skip(gone as int)
        }),
    decreases workers.len(),
{
    let ops = submissions(jobs) + claims::<T>(workers);
    if workers.len() == 0 {
        assert(ops =~= submissions(jobs));
        lemma_submitted_jobs_wait(jobs);
        assert(jobs.skip(0) =~= jobs);
    } else {
        let before = workers.drop_last();
        lemma_claims_in_turn(jobs, before);
        assert(ops.drop_last() =~= submissions(jobs) + claims::<T>(before));
        assert(ops.last() == QueueOp::<T>::Claim { worker: workers.last() });
        let earlier = history_of(ops.drop_last());
        if before.len() < jobs.len() {
            let k = before.len() as int;
            assert(earlier.waiting[0] == jobs[k]);
            assert(earlier.waiting.drop_first() =~= jobs.skip(k + 1));
        }
    }
}

/// Where `jobs` are submitted and workers then ask for a job at least as
/// often as there are jobs, every job is handed out exactly once, in the order
/// of submission, to the worker that asked in its turn, however many workers
/// there are and however the asking is shared among them. Nothing waits
/// afterwards, and a worker that asks once more gets nothing.
pub proof fn lemma_all_jobs_claimed<T>(jobs: Seq<T>, workers: Seq<nat>)
    requires
        workers.len() >= jobs.len(),
    ensures
        history_of(submissions(jobs) + claims(workers)).waiting.len() == 0,
        jobs_done(history_of(submissions(jobs) + claims(workers)).done) == jobs,
        forall|k: int|
            0 <= k < jobs.len() ==> (#[trigger] history_of(
                submissions(jobs) + claims(workers),
            ).done[k]).0 == workers[k],
        claimed(history_of(submissions(jobs) + claims(workers)).waiting).0 is None,
{
    lemma_claims_in_turn(jobs, workers);
    let history = history_of(submissions(jobs) + claims::<T>(workers));
    assert(jobs_done(history.done) =~= jobs);
}

} // verus!
