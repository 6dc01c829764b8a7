//! The engine as a state machine over mathematical values.
//!
//! Every operation of the processor is a total function from a state (and
//! the operation's arguments) to the next state. The executable processor
//! is specified by these functions.

use crate::batch_processing::config::BatchError;
use crate::batch_processing::config::BatchProcessorConfig;
use crate::batch_processing::config::QueueStats;
use crate::batch_processing::job::index_of;
use crate::batch_processing::lookup::position;
use crate::batch_processing::job::record;
use crate::batch_processing::job::timeout_message;
use crate::batch_processing::job::tracks;
use crate::batch_processing::job::JobModel;
use crate::batch_processing::job::JobPriority;
use crate::batch_processing::job::JobProgress;
use crate::batch_processing::job::JobStatus;
use crate::batch_processing::job::Outcome;
use crate::time::Timestamp;
use vstd::prelude::*;

verus! {

/// A worker slot in use: which job runs in it, since when, and whether the
/// caller has asked for the job to stop.
pub struct Slot {
    pub id: Seq<char>,
    pub started: Timestamp,
    pub cancel_requested: bool,
}

/// The ids of a sequence of slots, in order.
pub open spec fn slot_ids(slots: Seq<Slot>) -> Seq<Seq<char>> {
    Seq::new(slots.len(), |i: int| slots[i].id)
}

/// Whether the queue entry `id` is a tracked job of strictly lower priority
/// than `priority`.
pub open spec fn yields_to(jobs: Seq<JobModel>, id: Seq<char>, priority: JobPriority) -> bool {
    tracks(jobs, id) && record(jobs, id).priority.rank() < priority.rank()
}

/// Index of the first queue entry at or after `from` that yields to
/// `priority`, or the length of the queue if there is none.
pub open spec fn insertion_point_from(
    jobs: Seq<JobModel>,
    queue: Seq<Seq<char>>,
    priority: JobPriority,
    from: int,
) -> int
    decreases queue.len() - from,
{
    if from < 0 || from >= queue.len() {
        queue.len() as int
    } else if yields_to(jobs, queue[from], priority) {
        from
    } else {
        insertion_point_from(jobs, queue, priority, from + 1)
    }
}

/// Where a newcomer of priority `priority` goes: immediately before the first
/// entry of strictly lower priority, or at the back.
pub open spec fn insertion_point(
    jobs: Seq<JobModel>,
    queue: Seq<Seq<char>>,
    priority: JobPriority,
) -> int {
    insertion_point_from(jobs, queue, priority, 0)
}

/// The queue after `id` joined it.
pub open spec fn enqueue(
    jobs: Seq<JobModel>,
    queue: Seq<Seq<char>>,
    id: Seq<char>,
    priority: JobPriority,
    by_priority: bool,
) -> Seq<Seq<char>> {
    if by_priority {
        queue.insert(insertion_point(jobs, queue, priority), id)
    } else {
        queue.push(id)
    }
}

/// The queue without the first entry equal to `id`.
pub open spec fn without(queue: Seq<Seq<char>>, id: Seq<char>) -> Seq<Seq<char>> {
    if position(queue, id) < queue.len() {
        queue.remove(position(queue, id))
    } else {
        queue
    }
}

/// Number of records among the first `upto` of `jobs` whose status is
/// `status`.
pub open spec fn count_upto(jobs: Seq<JobModel>, status: JobStatus, upto: int) -> nat
    decreases upto,
{
    if upto <= 0 || upto > jobs.len() {
        0
    } else {
        count_upto(jobs, status, upto - 1) + if jobs[upto - 1].status == status {
            1nat
        } else {
            0nat
        }
    }
}

/// Number of records of `jobs` whose status is `status`.
pub open spec fn count_of(jobs: Seq<JobModel>, status: JobStatus) -> nat {
    count_upto(jobs, status, jobs.len() as int)
}

/// Number of records of `jobs` that ran to an end: `Completed` or `Failed`.
pub open spec fn finished_count(jobs: Seq<JobModel>) -> nat {
    count_of(jobs, JobStatus::Completed) + count_of(jobs, JobStatus::Failed)
}

/// The running mean after a run of `duration_ms` was folded in as the
/// `n`-th: `(average * (n - 1) + duration_ms) / n`, rounded down.
pub open spec fn folded_average(average: u64, n: nat, duration_ms: u64) -> u64 {
    if n == 0 {
        average
    } else {
        ((average * (n - 1) + duration_ms) / (n as int)) as u64
    }
}

/// Whether a record is finished and has been so for more than `hours` hours.
pub open spec fn is_stale(job: JobModel, now: Timestamp, hours: u32) -> bool {
    &&& job.status.spec_is_terminal()
    &&& job.completed_at is Some
    &&& job.completed_at->0.spec_older_than_hours(now, hours)
}

/// The first `upto` records of `jobs` without the stale ones, in order.
pub open spec fn retained_upto(jobs: Seq<JobModel>, now: Timestamp, hours: u32, upto: int) -> Seq<
    JobModel,
>
    decreases upto,
{
    if upto <= 0 || upto > jobs.len() {
        Seq::empty()
    } else if is_stale(jobs[upto - 1], now, hours) {
        retained_upto(jobs, now, hours, upto - 1)
    } else {
        retained_upto(jobs, now, hours, upto - 1).push(jobs[upto - 1])
    }
}

/// The records of `jobs` without the stale ones, in order.
pub open spec fn retained(jobs: Seq<JobModel>, now: Timestamp, hours: u32) -> Seq<JobModel> {
    retained_upto(jobs, now, hours, jobs.len() as int)
}

/// Whole percent of `capacity` that `used` makes up, rounded down; zero when
/// there is no capacity, and never more than a `u64` holds.
pub open spec fn utilization(used: nat, capacity: nat) -> nat {
    if capacity == 0 {
        0
    } else if used * 100 / capacity > u64::MAX {
        u64::MAX as nat
    } else {
        (used * 100 / capacity) as nat
    }
}

/// The records among the first `upto` of `jobs` that pass `filter`, in
/// order: all of them for `None`, those of the given status for `Some`.
pub open spec fn selected_upto(jobs: Seq<JobModel>, filter: Option<JobStatus>, upto: int) -> Seq<
    JobModel,
>
    decreases upto,
{
    if upto <= 0 || upto > jobs.len() {
        Seq::empty()
    } else if filter is Some && jobs[upto - 1].status != filter->0 {
        selected_upto(jobs, filter, upto - 1)
    } else {
        selected_upto(jobs, filter, upto - 1).push(jobs[upto - 1])
    }
}

/// The records of `jobs` that pass `filter`, in order.
pub open spec fn selected(jobs: Seq<JobModel>, filter: Option<JobStatus>) -> Seq<JobModel> {
    selected_upto(jobs, filter, jobs.len() as int)
}

/// What follows for the caller from a handler's report.
#[derive(Debug, Clone, Copy, PartialEq, Eq, Structural)]
pub enum Completion {
    /// The report was for a job that is not running; nothing changed.
    Ignored,
    /// The job reached a final state.
    Finished,
    /// The job is queued again.
    Requeued,
    /// The job is pending again and must be handed to `requeue_job` once the
    /// given number of seconds has passed.
    RequeueAfter(u64),
}

/// Everything the engine knows.
pub struct EngineState {
    /// The tracked jobs, in order of admission.
    pub jobs: Seq<JobModel>,
    /// The ids of the jobs that wait for a worker, next first.
    pub queue: Seq<Seq<char>>,
    /// The worker slots in use, in order of dispatch.
    pub running: Seq<Slot>,
    pub config: BatchProcessorConfig,
    pub average_processing_time_ms: u64,
}

impl EngineState {
    /// The state of an engine that has seen nothing yet.
    pub open spec fn initial(config: BatchProcessorConfig) -> EngineState {
        EngineState {
            jobs: Seq::empty(),
            queue: Seq::empty(),
            running: Seq::empty(),
            config,
            average_processing_time_ms: 0,
        }
    }

    pub open spec fn tracks(self, id: Seq<char>) -> bool {
        tracks(self.jobs, id)
    }

    /// The record of the job `id`; meaningful when the job is tracked.
    pub open spec fn job(self, id: Seq<char>) -> JobModel {
        record(self.jobs, id)
    }

    /// Index of the slot in which `id` runs, or the number of slots.
    pub open spec fn slot_of(self, id: Seq<char>) -> int {
        position(slot_ids(self.running), id)
    }

    pub open spec fn occupies_slot(self, id: Seq<char>) -> bool {
        self.slot_of(id) < self.running.len()
    }

    pub open spec fn has_capacity(self) -> bool {
        self.running.len() < self.config.max_concurrent_jobs
    }

    // ----- admission -----

    /// Why a submission of `job` is turned down, if it is.
    pub open spec fn submit_error(self, job: JobModel) -> Option<BatchError> {
        if self.jobs.len() >= self.config.max_queue_size {
            Some(BatchError::QueueFull)
        } else if self.tracks(job.id) {
            Some(BatchError::DuplicateJob)
        } else {
            None
        }
    }

    /// The state after `job` was submitted.
    pub open spec fn submit(self, job: JobModel) -> EngineState {
        if self.submit_error(job) is Some {
            self
        } else {
            let jobs = self.jobs.push(job.admitted());
            EngineState {
                jobs,
                queue: enqueue(
                    jobs,
                    self.queue,
                    job.id,
                    job.priority,
                    self.config.priority_scheduling,
                ),
                ..self
            }
        }
    }

    // ----- cancellation -----

    /// Why a request to cancel `id` is turned down, if it is.
    pub open spec fn cancel_error(self, id: Seq<char>) -> Option<BatchError> {
        if !self.tracks(id) {
            Some(BatchError::NotFound)
        } else if self.job(id).status == JobStatus::Queued || self.job(id).status
            == JobStatus::Running {
            None
        } else {
            Some(BatchError::InvalidState)
        }
    }

    /// The state after the caller asked at `now` to cancel `id`. A pending job
    /// is cancelled on the spot; for a running job the request is noted on
    /// its slot, where its handler can see it.
    pub open spec fn cancel(self, id: Seq<char>, now: Timestamp) -> EngineState {
        if !self.tracks(id) {
            self
        } else if self.job(id).status == JobStatus::Queued {
            EngineState {
                jobs: self.jobs.update(index_of(self.jobs, id), self.job(id).cancelled(now)),
                queue: without(self.queue, id),
                ..self
            }
        } else if self.job(id).status == JobStatus::Running && self.occupies_slot(id) {
            let k = self.slot_of(id);
            EngineState {
                running: self.running.update(
                    k,
                    Slot { cancel_requested: true, ..self.running[k] },
                ),
                ..self
            }
        } else {
            self
        }
    }

    /// Whether the handler of `id` has been asked to stop.
    pub open spec fn cancel_requested(self, id: Seq<char>) -> bool {
        self.occupies_slot(id) && self.running[self.slot_of(id)].cancel_requested
    }

    // ----- scheduling -----

    /// The job that a tick dispatches, if it dispatches one: the head of the
    /// queue, when a slot is free and the head is ready.
    pub open spec fn next_dispatch(self) -> Option<Seq<char>> {
        if self.has_capacity() && self.queue.len() > 0 && self.tracks(self.queue[0]) && self.job(
            self.queue[0],
        ).is_ready(self.jobs) {
            Some(self.queue[0])
        } else {
            None
        }
    }

    /// The state after one tick of the scheduler at `now`. With no free slot
    /// or an empty queue nothing happens. Otherwise the head leaves the
    /// queue: into a slot if it is ready, to the back of the queue if not.
    pub open spec fn tick(self, now: Timestamp) -> EngineState {
        if !self.has_capacity() || self.queue.len() == 0 {
            self
        } else {
            let id = self.queue[0];
            let rest = self.queue.drop_first();
            if !self.tracks(id) {
                EngineState { queue: rest, ..self }
            } else if self.job(id).is_ready(self.jobs) {
                EngineState {
                    jobs: self.jobs.update(index_of(self.jobs, id), self.job(id).dispatched(now)),
                    queue: rest,
                    running: self.running.push(
                        Slot { id, started: now, cancel_requested: false },
                    ),
                    ..self
                }
            } else {
                EngineState { queue: rest.push(id), ..self }
            }
        }
    }

    // ----- outcomes -----

    /// What the caller is told about a report of `outcome` for `id`.
    pub open spec fn completion(self, id: Seq<char>, outcome: Outcome) -> Completion {
        if !self.occupies_slot(id) || !self.tracks(id) {
            Completion::Ignored
        } else if outcome is Retry && self.job(id).may_retry() {
            if self.config.retry_delay_seconds == 0 {
                Completion::Requeued
            } else {
                Completion::RequeueAfter(self.config.retry_delay_seconds)
            }
        } else {
            Completion::Finished
        }
    }

    /// The state after the handler of `id` reported `outcome` at `now`. A
    /// report for a job that occupies no slot changes nothing.
    pub open spec fn complete(self, id: Seq<char>, outcome: Outcome, now: Timestamp) -> EngineState {
        if !self.occupies_slot(id) || !self.tracks(id) {
            self
        } else {
            let k = self.slot_of(id);
            let i = index_of(self.jobs, id);
            let job = self.jobs[i].finished(outcome, now);
            let jobs = self.jobs.update(i, job);
            let duration = now.spec_millis_since(self.running[k].started) as u64;
            EngineState {
                jobs,
                queue: if self.completion(id, outcome) == Completion::Requeued {
                    enqueue(jobs, self.queue, id, job.priority, self.config.priority_scheduling)
                } else {
                    self.queue
                },
                running: self.running.remove(k),
                average_processing_time_ms: if job.status == JobStatus::Completed || job.status
                    == JobStatus::Failed {
                    folded_average(self.average_processing_time_ms, finished_count(jobs), duration)
                } else {
                    self.average_processing_time_ms
                },
                ..self
            }
        }
    }

    /// Whether `id` may be queued again: it is tracked, pending, and not in
    /// the queue.
    pub open spec fn awaits_requeue(self, id: Seq<char>) -> bool {
        &&& self.tracks(id)
        &&& self.job(id).status == JobStatus::Queued
        &&& !self.queue.contains(id)
    }

    /// The state after the pause of a retried job has passed.
    pub open spec fn requeue(self, id: Seq<char>) -> EngineState {
        if self.awaits_requeue(id) {
            EngineState {
                queue: enqueue(
                    self.jobs,
                    self.queue,
                    id,
                    self.job(id).priority,
                    self.config.priority_scheduling,
                ),
                ..self
            }
        } else {
            self
        }
    }

    // ----- timeouts -----

    /// Whether `id` runs and has done so for longer than its time limit,
    /// counted from its first dispatch.
    pub open spec fn timed_out(self, id: Seq<char>, now: Timestamp) -> bool {
        &&& self.occupies_slot(id)
        &&& self.tracks(id)
        &&& self.job(id).started_at is Some
        &&& self.job(id).started_at->0.spec_older_than_seconds(now, self.job(id).timeout_seconds)
    }

    /// The state after the engine checked the time limit of `id` at `now`:
    /// a job past its limit fails with the timeout message, whatever its
    /// handler does.
    pub open spec fn expire(self, id: Seq<char>, now: Timestamp) -> EngineState {
        if self.timed_out(id, now) {
            self.complete(id, Outcome::Failure(timeout_message()), now)
        } else {
            self
        }
    }

    /// The state after the time limits of `ids` were enforced at `now`, one
    /// after the other.
    pub open spec fn expire_each(self, ids: Seq<Seq<char>>, now: Timestamp) -> EngineState
        decreases ids.len(),
    {
        if ids.len() == 0 {
            self
        } else {
            self.expire_each(ids.drop_last(), now).expire(ids.last(), now)
        }
    }

    /// Those of `ids` whose jobs failed when their time limits were enforced
    /// at `now`, one after the other.
    pub open spec fn expired_among(self, ids: Seq<Seq<char>>, now: Timestamp) -> Seq<Seq<char>>
        decreases ids.len(),
    {
        if ids.len() == 0 {
            Seq::empty()
        } else if self.expire_each(ids.drop_last(), now).timed_out(ids.last(), now) {
            self.expired_among(ids.drop_last(), now).push(ids.last())
        } else {
            self.expired_among(ids.drop_last(), now)
        }
    }

    /// The state after the time limit of every running job was enforced at
    /// `now`, in the order of the slots.
    pub open spec fn enforce_timeouts(self, now: Timestamp) -> EngineState {
        self.expire_each(slot_ids(self.running), now)
    }

    // ----- progress -----

    /// The state after the handler of `id` reported `progress`. Only a
    /// running job takes progress.
    pub open spec fn report_progress(self, id: Seq<char>, progress: JobProgress) -> EngineState {
        if self.tracks(id) && self.job(id).status == JobStatus::Running {
            EngineState {
                jobs: self.jobs.update(
                    index_of(self.jobs, id),
                    JobModel { progress, ..self.job(id) },
                ),
                ..self
            }
        } else {
            self
        }
    }

    // ----- retention -----

    /// The state after the stale records were dropped at `now`.
    pub open spec fn sweep(self, now: Timestamp) -> EngineState {
        EngineState {
            jobs: retained(self.jobs, now, self.config.cleanup_completed_jobs_after_hours),
            ..self
        }
    }

    // ----- statistics -----

    /// Age in seconds of the job at the head of the queue; zero when the
    /// queue is empty.
    pub open spec fn oldest_queued_age(self, now: Timestamp) -> int {
        if self.queue.len() > 0 && self.tracks(self.queue[0]) {
            now.spec_seconds_since(self.job(self.queue[0]).created_at)
        } else {
            0
        }
    }

    /// The statistics at `now`.
    pub open spec fn stats(self, now: Timestamp) -> QueueStats {
        QueueStats {
            total_jobs: self.jobs.len() as usize,
            queued_jobs: count_of(self.jobs, JobStatus::Queued) as usize,
            running_jobs: self.running.len() as usize,
            completed_jobs: count_of(self.jobs, JobStatus::Completed) as usize,
            failed_jobs: count_of(self.jobs, JobStatus::Failed) as usize,
            cancelled_jobs: count_of(self.jobs, JobStatus::Cancelled) as usize,
            average_processing_time_ms: self.average_processing_time_ms,
            queue_length: self.queue.len() as usize,
            oldest_queued_job_age_seconds: self.oldest_queued_age(now) as u64,
            worker_utilization: utilization(
                self.running.len(),
                self.config.max_concurrent_jobs as nat,
            ) as u64,
        }
    }

    // ----- consistency -----

    /// What holds of every state the engine reaches.
    pub open spec fn inv(self) -> bool {
        &&& job_ids_distinct(self.jobs)
        &&& self.queue.no_duplicates()
        &&& slot_ids(self.running).no_duplicates()
        &&& forall|k: int|
            0 <= k < self.queue.len() ==> self.tracks(#[trigger] self.queue[k]) && self.job(
                self.queue[k],
            ).status == JobStatus::Queued
        &&& forall|k: int|
            0 <= k < self.running.len() ==> self.tracks((#[trigger] self.running[k]).id)
                && self.job(self.running[k].id).status == JobStatus::Running
        &&& forall|i: int|
            0 <= i < self.jobs.len() && (#[trigger] self.jobs[i]).status == JobStatus::Running
                ==> self.occupies_slot(self.jobs[i].id)
        &&& forall|i: int| 0 <= i < self.jobs.len() ==> (#[trigger] self.jobs[i]).well_formed()
        &&& self.running.len() <= self.config.max_concurrent_jobs
        &&& self.jobs.len() <= self.config.max_queue_size
    }
}

/// No two records share an id.
pub open spec fn job_ids_distinct(jobs: Seq<JobModel>) -> bool {
    crate::batch_processing::job::job_ids(jobs).no_duplicates()
}

/// Something that happens to the engine.
pub enum Event {
    /// A job is submitted.
    Submit(JobModel),
    /// The caller asks to cancel a job.
    Cancel(Seq<char>, Timestamp),
    /// The scheduler ticks.
    Tick(Timestamp),
    /// A handler reports how its job went.
    Report(Seq<char>, Outcome, Timestamp),
    /// The pause of a retried job has passed.
    Requeue(Seq<char>),
    /// The time limit of a job is enforced.
    Expire(Seq<char>, Timestamp),
    /// The time limit of every running job is enforced.
    EnforceTimeouts(Timestamp),
    /// A handler reports progress.
    Progress(Seq<char>, JobProgress),
    /// The stale records are dropped.
    Sweep(Timestamp),
}

impl EngineState {
    /// The state after `event`.
    pub open spec fn step(self, event: Event) -> EngineState {
        match event {
            Event::Submit(job) => self.submit(job),
            Event::Cancel(id, now) => self.cancel(id, now),
            Event::Tick(now) => self.tick(now),
            Event::Report(id, outcome, now) => self.complete(id, outcome, now),
            Event::Requeue(id) => self.requeue(id),
            Event::Expire(id, now) => self.expire(id, now),
            Event::EnforceTimeouts(now) => self.enforce_timeouts(now),
            Event::Progress(id, progress) => self.report_progress(id, progress),
            Event::Sweep(now) => self.sweep(now),
        }
    }

    /// The state after `events`, taken in order.
    pub open spec fn run(self, events: Seq<Event>) -> EngineState
        decreases events.len(),
    {
        if events.len() == 0 {
            self
        } else {
            self.run(events.drop_last()).step(events.last())
        }
    }
}

} // verus!
