//! The executable batch processor.

use crate::batch_processing::config::BatchError;
use crate::batch_processing::config::BatchProcessorConfig;
use crate::batch_processing::config::QueueStats;
use crate::batch_processing::engine::count_of;
use crate::batch_processing::engine::enqueue;
use crate::batch_processing::engine::finished_count;
use crate::batch_processing::engine::retained_upto;
use crate::batch_processing::engine::selected;
use crate::batch_processing::engine::slot_ids;
use crate::batch_processing::engine::selected_upto;
use crate::batch_processing::engine::utilization;
use crate::batch_processing::engine::Completion;
use crate::batch_processing::engine::count_upto;
use crate::batch_processing::engine::folded_average;
use crate::batch_processing::engine::insertion_point;
use crate::batch_processing::engine::insertion_point_from;
use crate::batch_processing::engine::EngineState;
use crate::batch_processing::engine::Slot;
use crate::batch_processing::invariants::lemma_cancel_inv;
use crate::batch_processing::invariants::lemma_complete_inv;
use crate::batch_processing::invariants::lemma_expire_each_inv;
use crate::batch_processing::invariants::lemma_expire_inv;
use crate::batch_processing::invariants::lemma_initial_inv;
use crate::batch_processing::invariants::lemma_report_progress_inv;
use crate::batch_processing::invariants::lemma_requeue_inv;
use crate::batch_processing::invariants::lemma_submit_inv;
use crate::batch_processing::invariants::lemma_sweep_inv;
use crate::batch_processing::invariants::lemma_tick_inv;
use crate::batch_processing::job::find_job;
use crate::batch_processing::lookup::lemma_position;
use crate::batch_processing::job::models;
use crate::batch_processing::job::opt_text;
use crate::batch_processing::lookup::position;
use crate::batch_processing::lookup::position_from;
use crate::batch_processing::job::texts;
use crate::batch_processing::job::BatchJob;
use crate::batch_processing::job::JobModel;
use crate::batch_processing::job::JobProgress;
use crate::batch_processing::job::JobResult;
use crate::batch_processing::job::JobPriority;
use crate::batch_processing::job::JobStatus;
use crate::time::current_time;
use crate::time::Timestamp;
use std::collections::VecDeque;
use vstd::prelude::*;

verus! {

/// A worker slot in use.
#[derive(Debug, Clone)]
pub struct RunningJob {
    pub id: String,
    pub started: Timestamp,
    pub cancel_requested: bool,
}

impl View for RunningJob {
    type V = Slot;

    open spec fn view(&self) -> Slot {
        Slot { id: self.id@, started: self.started, cancel_requested: self.cancel_requested }
    }
}

/// The slots of a sequence of running jobs.
pub open spec fn slots(running: Seq<RunningJob>) -> Seq<Slot> {
    Seq::new(running.len(), |i: int| running[i]@)
}

/// The batch processor: the tracked jobs, the queue of pending ids, the
/// worker slots in use and the running mean of processing times.
pub struct BatchProcessor {
    jobs: Vec<BatchJob>,
    queue: VecDeque<String>,
    running_jobs: Vec<RunningJob>,
    config: BatchProcessorConfig,
    average_processing_time_ms: u64,
}

impl View for BatchProcessor {
    type V = EngineState;

    closed spec fn view(&self) -> EngineState {
        EngineState {
            jobs: models(self.jobs@),
            queue: texts(self.queue@),
            running: slots(self.running_jobs@),
            config: self.config,
            average_processing_time_ms: self.average_processing_time_ms,
        }
    }
}

/// Index of the first entry of `keys` whose text is that of `key`, or the
/// length of `keys`.
fn find_text(keys: &VecDeque<String>, key: &String) -> (r: usize)
    ensures
        r == position(texts(keys@), key@),
{
    let mut i: usize = 0;
    while i < keys.len()
        invariant
            i <= keys.len(),
            position(texts(keys@), key@) == position_from(texts(keys@), key@, i as int),
        decreases keys.len() - i,
    {
        if keys[i] == *key {
            return i;
        }
        i += 1;
    }
    i
}

/// Index of the slot of `running` that holds `id`, or the length of
/// `running`.
fn find_slot(running: &Vec<RunningJob>, id: &String) -> (r: usize)
    ensures
        r == position(slot_ids(slots(running@)), id@),
{
    let mut i: usize = 0;
    while i < running.len()
        invariant
            i <= running.len(),
            position(slot_ids(slots(running@)), id@)
                == position_from(
                slot_ids(slots(running@)),
                id@,
                i as int,
            ),
        decreases running.len() - i,
    {
        if running[i].id == *id {
            return i;
        }
        i += 1;
    }
    i
}

/// Where a newcomer of priority `priority` joins `queue`.
fn insertion_index(jobs: &Vec<BatchJob>, queue: &VecDeque<String>, priority: JobPriority) -> (r:
    usize)
    ensures
        r == insertion_point(models(jobs@), texts(queue@), priority),
        r <= queue.len(),
{
    let mut i: usize = 0;
    while i < queue.len()
        invariant
            i <= queue.len(),
            insertion_point(models(jobs@), texts(queue@), priority) == insertion_point_from(
                models(jobs@),
                texts(queue@),
                priority,
                i as int,
            ),
        decreases queue.len() - i,
    {
        let at: usize = find_job(jobs, &queue[i]);
        if at < jobs.len() && jobs[at].priority.value() < priority.value() {
            return i;
        }
        i += 1;
    }
    i
}

/// Number of records of `jobs` whose status is `status`.
fn count_status(jobs: &Vec<BatchJob>, status: JobStatus) -> (n: usize)
    ensures
        n == count_of(models(jobs@), status),
        n <= jobs.len(),
{
    let mut n: usize = 0;
    let mut i: usize = 0;
    while i < jobs.len()
        invariant
            i <= jobs.len(),
            n <= i,
            n == count_upto(models(jobs@), status, i as int),
        decreases jobs.len() - i,
    {
        if jobs[i].status == status {
            n += 1;
        }
        i += 1;
    }
    n
}

/// Number of records of `jobs` that are `Completed` or `Failed`.
fn count_finished(jobs: &Vec<BatchJob>) -> (n: usize)
    ensures
        n == finished_count(models(jobs@)),
{
    let mut n: usize = 0;
    let mut i: usize = 0;
    while i < jobs.len()
        invariant
            i <= jobs.len(),
            n <= i,
            n == count_upto(models(jobs@), JobStatus::Completed, i as int) + count_upto(
                models(jobs@),
                JobStatus::Failed,
                i as int,
            ),
        decreases jobs.len() - i,
    {
        if jobs[i].status == JobStatus::Completed || jobs[i].status == JobStatus::Failed {
            n += 1;
        }
        i += 1;
    }
    n
}

/// The running mean with one more duration folded in as the `n`-th.
fn fold_average(average: u64, n: usize, duration_ms: u64) -> (r: u64)
    ensures
        r == folded_average(average, n as nat, duration_ms),
{
    if n == 0 {
        return average;
    }
    let earlier: u128 = (n - 1) as u128;
    assert(average * earlier <= 0xffff_ffff_ffff_ffff * 0xffff_ffff_ffff_ffff) by (nonlinear_arith)
        requires
            0 <= average <= 0xffff_ffff_ffff_ffff,
            0 <= earlier <= 0xffff_ffff_ffff_ffff,
    ;
    let total: u128 = (average as u128) * earlier + (duration_ms as u128);
    let mean: u128 = total / (n as u128);
    assert(mean <= 0xffff_ffff_ffff_ffff) by (nonlinear_arith)
        requires
            mean == (average * (n - 1) + duration_ms) / (n as int),
            n >= 1,
            0 <= average <= 0xffff_ffff_ffff_ffff,
            0 <= duration_ms <= 0xffff_ffff_ffff_ffff,
    {
        let top: int = 0xffff_ffff_ffff_ffff;
        assert(average * (n - 1) <= top * (n - 1));
        assert(average * (n - 1) + duration_ms <= top * n);
        assert((top * n) / (n as int) == top);
    }
    mean as u64
}

/// Whole percent of `capacity` that `used` makes up.
fn percent_used(used: usize, capacity: usize) -> (r: u64)
    ensures
        r == utilization(used as nat, capacity as nat),
{
    if capacity == 0 {
        return 0;
    }
    let percent: u128 = (used as u128) * 100 / (capacity as u128);
    if percent > u64::MAX as u128 {
        u64::MAX
    } else {
        percent as u64
    }
}

impl BatchProcessor {
    /// A processor that tracks no job yet.
    pub fn new(config: BatchProcessorConfig) -> (p: BatchProcessor)
        ensures
            p@ == EngineState::initial(config),
            p@.inv(),
    {
        proof {
            lemma_initial_inv(config);
        }
        let p = BatchProcessor {
            jobs: Vec::new(),
            queue: VecDeque::new(),
            running_jobs: Vec::new(),
            config,
            average_processing_time_ms: 0,
        };
        assert(p@.jobs =~= Seq::empty());
        assert(p@.queue =~= Seq::empty());
        assert(p@.running =~= Seq::empty());
        p
    }

    /// Takes `job` in: the record is reset to a pending one and its id joins
    /// the queue, before the first entry of strictly lower priority or, when
    /// the queue is not ordered by priority, at the back. A submission is
    /// turned down when the processor already tracks as many jobs as it may,
    /// or a job with the same id.
    pub fn submit_job(&mut self, job: BatchJob) -> (r: Result<String, String>)
        ensures
            final(self)@ == old(self)@.submit(job@),
            match r {
                Ok(id) => old(self)@.submit_error(job@) is None && id@ == job.id@,
                Err(e) => old(self)@.submit_error(job@) is Some && e@ == old(self)@.submit_error(
                    job@,
                )->0.text(),
            },
            old(self)@.inv() ==> final(self)@.inv(),
    {
        proof {
            if self@.inv() {
                lemma_submit_inv(self@, job@);
            }
        }
        if self.jobs.len() >= self.config.max_queue_size {
            return Err(BatchError::QueueFull.message());
        }
        if find_job(&self.jobs, &job.id) < self.jobs.len() {
            return Err(BatchError::DuplicateJob.message());
        }
        let mut job = job;
        let ghost submitted = job@;
        job.status = JobStatus::Queued;
        job.started_at = None;
        job.completed_at = None;
        job.error_message = None;
        job.retry_count = 0;
        job.result_data = None;
        assert(job@ == submitted.admitted());
        let id = job.id.clone();
        let queue_id = job.id.clone();
        let priority = job.priority;
        self.jobs.push(job);
        assert(models(self.jobs@) =~= models(old(self).jobs@).push(submitted.admitted()));
        if self.config.priority_scheduling {
            let at: usize = insertion_index(&self.jobs, &self.queue, priority);
            self.queue.insert(at, queue_id);
            assert(texts(self.queue@) =~= texts(old(self).queue@).insert(at as int, submitted.id));
        } else {
            self.queue.push_back(queue_id);
            assert(texts(self.queue@) =~= texts(old(self).queue@).push(submitted.id));
        }
        Ok(id)
    }

    /// The record of the job `job_id`, if it is tracked.
    pub fn get_job_status(&self, job_id: &str) -> (r: Option<&BatchJob>)
        ensures
            match r {
                Some(job) => self@.tracks(job_id@) && job@ == self@.job(job_id@),
                None => !self@.tracks(job_id@),
            },
    {
        let key = job_id.to_owned();
        let at: usize = find_job(&self.jobs, &key);
        if at < self.jobs.len() {
            Some(&self.jobs[at])
        } else {
            None
        }
    }

    /// Whether the caller has asked for the running job `job_id` to stop.
    /// Handlers poll this while they work.
    pub fn is_cancel_requested(&self, job_id: &str) -> (r: bool)
        ensures
            r == self@.cancel_requested(job_id@),
    {
        let key = job_id.to_owned();
        let k: usize = find_slot(&self.running_jobs, &key);
        k < self.running_jobs.len() && self.running_jobs[k].cancel_requested
    }

    /// Cancels `job_id` as of `now`. A pending job becomes `Cancelled` and
    /// leaves the queue at once. For a running job the request is noted for
    /// its handler and the job stays `Running` until the handler returns.
    /// An unknown id and a job in any other state are turned down.
    pub fn cancel_job_at(&mut self, job_id: &str, now: Timestamp) -> (r: Result<(), String>)
        ensures
            final(self)@ == old(self)@.cancel(job_id@, now),
            match r {
                Ok(_) => old(self)@.cancel_error(job_id@) is None,
                Err(e) => old(self)@.cancel_error(job_id@) is Some && e@ == old(self)@.cancel_error(
                    job_id@,
                )->0.text(),
            },
            old(self)@.inv() ==> final(self)@.inv(),
    {
        proof {
            if self@.inv() {
                lemma_cancel_inv(self@, job_id@, now);
            }
        }
        let key = job_id.to_owned();
        let at: usize = find_job(&self.jobs, &key);
        if at >= self.jobs.len() {
            return Err(BatchError::NotFound.message());
        }
        match self.jobs[at].status {
            JobStatus::Queued => {
                self.jobs[at].status = JobStatus::Cancelled;
                self.jobs[at].completed_at = Some(now);
                assert(models(self.jobs@) =~= models(old(self).jobs@).update(
                    at as int,
                    old(self)@.job(job_id@).cancelled(now),
                ));
                let q: usize = find_text(&self.queue, &key);
                if q < self.queue.len() {
                    self.queue.remove(q);
                    assert(texts(self.queue@) =~= texts(old(self).queue@).remove(q as int));
                }
                Ok(())
            },
            JobStatus::Running => {
                let k: usize = find_slot(&self.running_jobs, &key);
                if k < self.running_jobs.len() {
                    self.running_jobs[k].cancel_requested = true;
                    assert(slots(self.running_jobs@) =~= slots(old(self).running_jobs@).update(
                        k as int,
                        Slot { cancel_requested: true, ..old(self)@.running[k as int] },
                    ));
                }
                Ok(())
            },
            _ => Err(BatchError::InvalidState.message()),
        }
    }

    /// Cancels `job_id` as of the current reading of the clock; see
    /// [`BatchProcessor::cancel_job_at`].
    pub fn cancel_job(&mut self, job_id: &str) -> (r: Result<(), String>)
        ensures
            exists|now: Timestamp| final(self)@ == old(self)@.cancel(job_id@, now),
            match r {
                Ok(_) => old(self)@.cancel_error(job_id@) is None,
                Err(e) => old(self)@.cancel_error(job_id@) is Some && e@ == old(self)@.cancel_error(
                    job_id@,
                )->0.text(),
            },
            old(self)@.inv() ==> final(self)@.inv(),
    {
        let now = current_time();
        self.cancel_job_at(job_id, now)
    }

    /// One tick of the scheduler at `now`. While every slot is taken or the
    /// queue is empty nothing happens. Otherwise the head of the queue is
    /// taken off: if it is ready it becomes `Running`, occupies a slot, and
    /// its id is returned for the caller to start its handler; if not it goes
    /// to the back of the queue.
    pub fn dispatch_next_at(&mut self, now: Timestamp) -> (r: Option<String>)
        ensures
            final(self)@ == old(self)@.tick(now),
            opt_text(r) == old(self)@.next_dispatch(),
            old(self)@.inv() ==> final(self)@.inv(),
    {
        proof {
            if self@.inv() {
                lemma_tick_inv(self@, now);
            }
        }
        if self.running_jobs.len() >= self.config.max_concurrent_jobs || self.queue.len() == 0 {
            return None;
        }
        let id = self.queue.pop_front().unwrap();
        assert(texts(self.queue@) =~= texts(old(self).queue@).drop_first());
        assert(id@ == texts(old(self).queue@)[0]);
        let at: usize = find_job(&self.jobs, &id);
        if at >= self.jobs.len() {
            return None;
        }
        if self.jobs[at].is_ready_to_run(&self.jobs) {
            self.jobs[at].status = JobStatus::Running;
            if self.jobs[at].started_at.is_none() {
                self.jobs[at].started_at = Some(now);
            }
            assert(models(self.jobs@) =~= models(old(self).jobs@).update(
                at as int,
                old(self)@.job(id@).dispatched(now),
            ));
            self.running_jobs.push(
                RunningJob { id: id.clone(), started: now, cancel_requested: false },
            );
            assert(slots(self.running_jobs@) =~= slots(old(self).running_jobs@).push(
                Slot { id: id@, started: now, cancel_requested: false },
            ));
            Some(id)
        } else {
            let back = id.clone();
            self.queue.push_back(back);
            assert(texts(self.queue@) =~= texts(old(self).queue@).drop_first().push(id@));
            None
        }
    }

    /// One tick of the scheduler at the current reading of the clock; see
    /// [`BatchProcessor::dispatch_next_at`].
    pub fn dispatch_next(&mut self) -> (r: Option<String>)
        ensures
            exists|now: Timestamp| final(self)@ == old(self)@.tick(now),
            opt_text(r) == old(self)@.next_dispatch(),
            old(self)@.inv() ==> final(self)@.inv(),
    {
        let now = current_time();
        self.dispatch_next_at(now)
    }

    /// Puts a job that was granted a retry back into the queue once its
    /// pause has passed. Nothing happens unless the job is tracked, pending
    /// and absent from the queue.
    pub fn requeue_job(&mut self, job_id: &str) -> (r: bool)
        ensures
            final(self)@ == old(self)@.requeue(job_id@),
            r == old(self)@.awaits_requeue(job_id@),
            old(self)@.inv() ==> final(self)@.inv(),
    {
        proof {
            if self@.inv() {
                lemma_requeue_inv(self@, job_id@);
            }
        }
        let key = job_id.to_owned();
        let at: usize = find_job(&self.jobs, &key);
        if at >= self.jobs.len() || self.jobs[at].status != JobStatus::Queued {
            return false;
        }
        let q: usize = find_text(&self.queue, &key);
        proof {
            lemma_position(texts(self.queue@), key@);
        }
        if q < self.queue.len() {
            return false;
        }
        let priority = self.jobs[at].priority;
        self.enqueue_id(key, priority);
        true
    }

    /// Applies what the handler of `job_id` reported at `now`. A report for a
    /// job that occupies no slot is ignored. Otherwise the slot is freed and
    /// the record moves on: to `Completed` on success, to `Failed` on
    /// failure, to `Cancelled` when the handler honoured a cancellation, and
    /// on a retry request back to `Queued` with one more retry counted, or to
    /// `Failed` when no retry is left. A job that ends `Completed` or
    /// `Failed` has the time since its dispatch folded into the running
    /// mean. The result says whether the job was queued again, or after how
    /// many seconds the caller is to call [`BatchProcessor::requeue_job`].
    pub fn complete_job_at(&mut self, job_id: &str, result: JobResult, now: Timestamp) -> (r:
        Completion)
        ensures
            final(self)@ == old(self)@.complete(job_id@, result@, now),
            r == old(self)@.completion(job_id@, result@),
            old(self)@.inv() ==> final(self)@.inv(),
    {
        proof {
            if self@.inv() {
                lemma_complete_inv(self@, job_id@, result@, now);
            }
        }
        let key = job_id.to_owned();
        let k: usize = find_slot(&self.running_jobs, &key);
        let at: usize = find_job(&self.jobs, &key);
        if k >= self.running_jobs.len() || at >= self.jobs.len() {
            return Completion::Ignored;
        }
        let duration: u64 = now.millis_since(self.running_jobs[k].started);
        self.running_jobs.remove(k);
        assert(slots(self.running_jobs@) =~= slots(old(self).running_jobs@).remove(k as int));
        let ghost before = old(self)@.job(job_id@);
        let ghost outcome = result@;
        let mut completion = Completion::Finished;
        match result {
            JobResult::Success(data) => {
                self.jobs[at].status = JobStatus::Completed;
                self.jobs[at].completed_at = Some(now);
                self.jobs[at].result_data = data;
                self.jobs[at].progress.percentage = 100;
            },
            JobResult::Failure(reason) => {
                self.jobs[at].status = JobStatus::Failed;
                self.jobs[at].completed_at = Some(now);
                self.jobs[at].error_message = Some(reason);
            },
            JobResult::Retry(reason) => {
                if self.jobs[at].retry_count < self.jobs[at].max_retries {
                    self.jobs[at].status = JobStatus::Queued;
                    self.jobs[at].retry_count = self.jobs[at].retry_count + 1;
                    self.jobs[at].error_message = Some(reason);
                    if self.config.retry_delay_seconds == 0 {
                        completion = Completion::Requeued;
                    } else {
                        completion = Completion::RequeueAfter(self.config.retry_delay_seconds);
                    }
                } else {
                    let mut message = "Max retries exceeded: ".to_owned();
                    message.append(reason.as_str());
                    self.jobs[at].status = JobStatus::Failed;
                    self.jobs[at].completed_at = Some(now);
                    self.jobs[at].error_message = Some(message);
                }
            },
            JobResult::Cancel => {
                self.jobs[at].status = JobStatus::Cancelled;
                self.jobs[at].completed_at = Some(now);
            },
        }
        assert(self.jobs@[at as int]@ == before.finished(outcome, now));
        assert(models(self.jobs@) =~= models(old(self).jobs@).update(
            at as int,
            before.finished(outcome, now),
        ));
        let status = self.jobs[at].status;
        if status == JobStatus::Completed || status == JobStatus::Failed {
            let n: usize = count_finished(&self.jobs);
            self.average_processing_time_ms = fold_average(
                self.average_processing_time_ms,
                n,
                duration,
            );
        }
        if completion == Completion::Requeued {
            let priority = self.jobs[at].priority;
            self.enqueue_id(key, priority);
        }
        completion
    }

    /// Applies what the handler of `job_id` reported, as of the current
    /// reading of the clock; see [`BatchProcessor::complete_job_at`].
    pub fn complete_job(&mut self, job_id: &str, result: JobResult) -> (r: Completion)
        ensures
            exists|now: Timestamp| final(self)@ == old(self)@.complete(job_id@, result@, now),
            r == old(self)@.completion(job_id@, result@),
            old(self)@.inv() ==> final(self)@.inv(),
    {
        let now = current_time();
        self.complete_job_at(job_id, result, now)
    }

    /// Enforces the time limit of `job_id` at `now`: a running job whose
    /// first dispatch lies more than its `timeout_seconds` back fails with
    /// the timeout message and gives up its slot, whatever its handler does.
    /// Returns whether it did.
    pub fn expire_job_at(&mut self, job_id: &str, now: Timestamp) -> (r: bool)
        ensures
            final(self)@ == old(self)@.expire(job_id@, now),
            r == old(self)@.timed_out(job_id@, now),
            old(self)@.inv() ==> final(self)@.inv(),
    {
        proof {
            if self@.inv() {
                lemma_expire_inv(self@, job_id@, now);
            }
        }
        let key = job_id.to_owned();
        let k: usize = find_slot(&self.running_jobs, &key);
        let at: usize = find_job(&self.jobs, &key);
        if k >= self.running_jobs.len() || at >= self.jobs.len() {
            return false;
        }
        let overdue = match self.jobs[at].started_at {
            Some(started) => started.older_than_seconds(now, self.jobs[at].timeout_seconds),
            None => false,
        };
        if !overdue {
            return false;
        }
        let reason = "Job timed out".to_owned();
        self.complete_job_at(job_id, JobResult::Failure(reason), now);
        true
    }

    /// Enforces the time limit of `job_id` at the current reading of the
    /// clock; see [`BatchProcessor::expire_job_at`].
    pub fn expire_job(&mut self, job_id: &str) -> (r: bool)
        ensures
            exists|now: Timestamp|
                final(self)@ == old(self)@.expire(job_id@, now) && r == old(self)@.timed_out(
                    job_id@,
                    now,
                ),
            old(self)@.inv() ==> final(self)@.inv(),
    {
        let now = current_time();
        self.expire_job_at(job_id, now)
    }

    /// Enforces the time limit of every running job at `now`, in the order
    /// of the slots, and returns the ids of the jobs that failed for it, for
    /// the caller to stop their handlers.
    pub fn enforce_timeouts_at(&mut self, now: Timestamp) -> (expired: Vec<String>)
        ensures
            final(self)@ == old(self)@.enforce_timeouts(now),
            texts(expired@) == old(self)@.expired_among(slot_ids(old(self)@.running), now),
            old(self)@.inv() ==> final(self)@.inv(),
    {
        proof {
            if self@.inv() {
                lemma_expire_each_inv(self@, slot_ids(self@.running), now);
            }
        }
        let mut ids: Vec<String> = Vec::new();
        let mut k: usize = 0;
        while k < self.running_jobs.len()
            invariant
                k <= self.running_jobs.len(),
                texts(ids@) == slot_ids(slots(self.running_jobs@)).take(k as int),
            decreases self.running_jobs.len() - k,
        {
            let ghost listed = texts(ids@);
            let id = self.running_jobs[k].id.clone();
            assert(id@ == slot_ids(slots(self.running_jobs@))[k as int]);
            ids.push(id);
            assert(texts(ids@) =~= listed.push(id@));
            assert(texts(ids@) =~= slot_ids(slots(self.running_jobs@)).take(k + 1));
            k += 1;
        }
        assert(texts(ids@) =~= slot_ids(self@.running));
        let mut expired: Vec<String> = Vec::new();
        let mut i: usize = 0;
        assert(texts(ids@).take(0) =~= Seq::<Seq<char>>::empty());
        assert(texts(expired@) =~= Seq::<Seq<char>>::empty());
        while i < ids.len()
            invariant
                i <= ids.len(),
                self@ == old(self)@.expire_each(texts(ids@).take(i as int), now),
                texts(expired@) == old(self)@.expired_among(texts(ids@).take(i as int), now),
            decreases ids.len() - i,
        {
            let ghost done = texts(ids@).take(i as int);
            let ghost next = texts(ids@).take(i + 1);
            assert(next.drop_last() =~= done);
            assert(next.last() == ids@[i as int]@);
            let ghost listed = texts(expired@);
            if self.expire_job_at(ids[i].as_str(), now) {
                expired.push(ids[i].clone());
                assert(texts(expired@) =~= listed.push(ids@[i as int]@));
            }
            i += 1;
        }
        assert(texts(ids@).take(ids@.len() as int) =~= texts(ids@));
        expired
    }

    /// Enforces the time limit of every running job at the current reading
    /// of the clock; see [`BatchProcessor::enforce_timeouts_at`].
    pub fn enforce_timeouts(&mut self) -> (expired: Vec<String>)
        ensures
            exists|now: Timestamp|
                final(self)@ == old(self)@.enforce_timeouts(now) && texts(expired@) == old(self)@.expired_among(slot_ids(old(self)@.running), now),
            old(self)@.inv() ==> final(self)@.inv(),
    {
        let now = current_time();
        self.enforce_timeouts_at(now)
    }

    /// Records the progress that the handler of `job_id` reported. Only a
    /// running job takes progress; returns whether it was taken.
    pub fn update_job_progress(&mut self, job_id: &str, progress: JobProgress) -> (r: bool)
        ensures
            final(self)@ == old(self)@.report_progress(job_id@, progress),
            r == (old(self)@.tracks(job_id@) && old(self)@.job(job_id@).status
                == JobStatus::Running),
            old(self)@.inv() ==> final(self)@.inv(),
    {
        proof {
            if self@.inv() {
                lemma_report_progress_inv(self@, job_id@, progress);
            }
        }
        let key = job_id.to_owned();
        let at: usize = find_job(&self.jobs, &key);
        if at >= self.jobs.len() || self.jobs[at].status != JobStatus::Running {
            return false;
        }
        self.jobs[at].progress = progress;
        assert(models(self.jobs@) =~= models(old(self).jobs@).update(
            at as int,
            JobModel { progress, ..old(self)@.job(job_id@) },
        ));
        true
    }

    /// The statistics at `now`, all derived from the jobs, the queue and the
    /// slots as they are.
    pub fn get_stats_at(&self, now: Timestamp) -> (stats: QueueStats)
        ensures
            stats == self@.stats(now),
    {
        let age: u64 = if self.queue.len() > 0 {
            let at: usize = find_job(&self.jobs, &self.queue[0]);
            if at < self.jobs.len() {
                now.seconds_since(self.jobs[at].created_at)
            } else {
                0
            }
        } else {
            0
        };
        QueueStats {
            total_jobs: self.jobs.len(),
            queued_jobs: count_status(&self.jobs, JobStatus::Queued),
            running_jobs: self.running_jobs.len(),
            completed_jobs: count_status(&self.jobs, JobStatus::Completed),
            failed_jobs: count_status(&self.jobs, JobStatus::Failed),
            cancelled_jobs: count_status(&self.jobs, JobStatus::Cancelled),
            average_processing_time_ms: self.average_processing_time_ms,
            queue_length: self.queue.len(),
            oldest_queued_job_age_seconds: age,
            worker_utilization: percent_used(
                self.running_jobs.len(),
                self.config.max_concurrent_jobs,
            ),
        }
    }

    /// The statistics at the current reading of the clock; see
    /// [`BatchProcessor::get_stats_at`].
    pub fn get_stats(&self) -> (stats: QueueStats)
        ensures
            exists|now: Timestamp| stats == self@.stats(now),
    {
        let now = current_time();
        self.get_stats_at(now)
    }

    /// The tracked jobs in order of admission: all of them, or those whose
    /// status is the given one.
    pub fn get_jobs(&self, status_filter: Option<JobStatus>) -> (r: Vec<&BatchJob>)
        ensures
            r@.len() == selected(self@.jobs, status_filter).len(),
            forall|i: int| 0 <= i < r@.len() ==> (#[trigger] r@[i])@ == selected(
                self@.jobs,
                status_filter,
            )[i],
    {
        let mut found: Vec<&BatchJob> = Vec::new();
        let mut i: usize = 0;
        while i < self.jobs.len()
            invariant
                i <= self.jobs.len(),
                found@.len() == selected_upto(models(self.jobs@), status_filter, i as int).len(),
                forall|j: int|
                    0 <= j < found@.len() ==> (#[trigger] found@[j])@ == selected_upto(
                        models(self.jobs@),
                        status_filter,
                        i as int,
                    )[j],
            decreases self.jobs.len() - i,
        {
            let keep = match status_filter {
                Some(status) => self.jobs[i].status == status,
                None => true,
            };
            if keep {
                found.push(&self.jobs[i]);
            }
            i += 1;
        }
        found
    }

    /// Drops the stale records as of `now`: those in a final state whose end
    /// lies more than `cleanup_completed_jobs_after_hours` back. Returns how
    /// many were dropped.
    pub fn cleanup_completed_jobs_at(&mut self, now: Timestamp) -> (removed: usize)
        ensures
            final(self)@ == old(self)@.sweep(now),
            removed == old(self)@.jobs.len() - final(self)@.jobs.len(),
            old(self)@.inv() ==> final(self)@.inv(),
    {
        proof {
            if self@.inv() {
                lemma_sweep_inv(self@, now);
            }
        }
        let hours: u32 = self.config.cleanup_completed_jobs_after_hours;
        let ghost before = models(self.jobs@);
        assert(before.len() == self.jobs.len());
        let mut removed: usize = 0;
        let mut i: usize = 0;
        while i < self.jobs.len()
            invariant
                before.len() <= usize::MAX,
                i + removed == before.len() - (self.jobs.len() - i),
                i <= self.jobs.len(),
                self.queue == old(self).queue,
                self.running_jobs == old(self).running_jobs,
                self.config == old(self).config,
                self.average_processing_time_ms == old(self).average_processing_time_ms,
                models(self.jobs@).take(i as int) == retained_upto(
                    before,
                    now,
                    hours,
                    i + removed,
                ),
                models(self.jobs@).skip(i as int) == before.skip(i + removed),
            decreases self.jobs.len() - i,
        {
            let stale = self.jobs[i].status.is_terminal() && match self.jobs[i].completed_at {
                Some(ended) => ended.older_than_hours(now, hours),
                None => false,
            };
            let ghost current = models(self.jobs@);
            assert(current[i as int] == current.skip(i as int)[0]);
            assert(current[i as int] == before[i + removed]);
            if stale {
                self.jobs.remove(i);
                assert(models(self.jobs@) =~= current.remove(i as int));
                assert(models(self.jobs@).take(i as int) =~= current.take(i as int));
                let ghost tail = models(self.jobs@).skip(i as int);
                assert forall|j: int| 0 <= j < self.jobs@.len() - i implies #[trigger] tail[j]
                    == before.skip(i + removed + 1)[j] by {
                    assert(current.skip(i as int)[j + 1] == before.skip(i + removed)[j + 1]);
                }
                assert(models(self.jobs@).skip(i as int) =~= before.skip(i + removed + 1));
                removed += 1;
            } else {
                assert(current.take(i + 1) =~= current.take(i as int).push(current[i as int]));
                let ghost tail = current.skip(i + 1);
                assert forall|j: int| 0 <= j < current.len() - i - 1 implies #[trigger] tail[j]
                    == before.skip(i + removed + 1)[j] by {
                    assert(current.skip(i as int)[j + 1] == before.skip(i + removed)[j + 1]);
                }
                assert(current.skip(i + 1) =~= before.skip(i + removed + 1));
                i += 1;
            }
        }
        assert(models(self.jobs@) =~= models(self.jobs@).take(i as int));
        removed
    }

    /// Drops the stale records as of the current reading of the clock; see
    /// [`BatchProcessor::cleanup_completed_jobs_at`].
    pub fn cleanup_completed_jobs(&mut self) -> (removed: usize)
        ensures
            exists|now: Timestamp| final(self)@ == old(self)@.sweep(now),
            removed == old(self)@.jobs.len() - final(self)@.jobs.len(),
            old(self)@.inv() ==> final(self)@.inv(),
    {
        let now = current_time();
        self.cleanup_completed_jobs_at(now)
    }

    /// Adds `id` to the queue by the rule in force.
    fn enqueue_id(&mut self, id: String, priority: JobPriority)
        ensures
            final(self)@ == (EngineState {
                queue: enqueue(
                    old(self)@.jobs,
                    old(self)@.queue,
                    id@,
                    priority,
                    old(self)@.config.priority_scheduling,
                ),
                ..old(self)@
            }),
    {
        if self.config.priority_scheduling {
            let at: usize = insertion_index(&self.jobs, &self.queue, priority);
            self.queue.insert(at, id);
            assert(texts(self.queue@) =~= texts(old(self).queue@).insert(at as int, id@));
        } else {
            self.queue.push_back(id);
            assert(texts(self.queue@) =~= texts(old(self).queue@).push(id@));
        }
    }
}

} // verus!
