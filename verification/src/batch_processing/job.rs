//! Job records and their lifecycle.

use crate::ids::fresh_id;
use crate::text::decimal;
use crate::text::decimal_text;
use crate::ids::GENERATED_ID_LEN;
use crate::time::current_time;
use crate::time::Timestamp;
use crate::batch_processing::lookup::position_from;
use crate::batch_processing::lookup::position;
use crate::batch_processing::lookup::lemma_position;
use crate::batch_processing::lookup::lemma_position_unique;
use vstd::prelude::*;

verus! {

/// A closed interval of time.
#[derive(Debug, Clone, Copy, PartialEq, Eq, Structural)]
pub struct TimeRange {
    pub start: Timestamp,
    pub end: Timestamp,
}

/// What a job does. The engine only stores the payload and hands it to the
/// handler registered for the variant.
#[derive(Debug, Clone)]
pub enum JobType {
    DataExport { session_ids: Vec<String>, export_format: String, output_path: String },
    DataAnalysis {
        session_ids: Vec<String>,
        analysis_type: String,
        parameters: Vec<(String, String)>,
    },
    DataValidation { session_ids: Vec<String>, validation_rules: Vec<String> },
    DataCleanup { older_than_days: u32, preserve_important: bool },
    BufferOptimization { device_ids: Vec<String>, optimization_type: String },
    BackupOperation { backup_type: String, include_sessions: bool, include_config: bool },
    ReportGeneration {
        report_type: String,
        time_range: TimeRange,
        recipients: Vec<String>,
    },
}

impl JobType {
    /// What a handler reports when the work was done.
    pub open spec fn success_text(&self) -> Seq<char> {
        match *self {
            JobType::DataExport { session_ids, export_format, output_path } => "Exported "@
                + decimal(session_ids@.len()) + " sessions to "@ + output_path@,
            JobType::DataAnalysis { session_ids, analysis_type, parameters } => "Analyzed "@
                + decimal(session_ids@.len()) + " sessions with "@ + analysis_type@,
            JobType::DataValidation { session_ids, validation_rules } => "Validated "@ + decimal(
                session_ids@.len(),
            ) + " sessions"@,
            JobType::DataCleanup { older_than_days, preserve_important } =>
                "Cleaned up data older than "@ + decimal(older_than_days as nat) + " days"@,
            JobType::BufferOptimization { device_ids, optimization_type } => "Optimized "@
                + decimal(device_ids@.len()) + " device buffers"@,
            JobType::BackupOperation { backup_type, include_sessions, include_config } =>
                "Created "@ + backup_type@ + " backup"@,
            JobType::ReportGeneration { report_type, time_range, recipients } => "Generated "@
                + report_type@ + " report for "@ + decimal(recipients@.len()) + " recipients"@,
        }
    }

    /// The message with which the handler of this kind of job reports
    /// success.
    pub fn success_message(&self) -> (message: String)
        ensures
            message@ == self.success_text(),
    {
        match self {
            JobType::DataExport { session_ids, export_format: _, output_path } => {
                let mut message = "Exported ".to_owned();
                message.append(decimal_text(session_ids.len() as u64).as_str());
                message.append(" sessions to ");
                message.append(output_path.as_str());
                message
            },
            JobType::DataAnalysis { session_ids, analysis_type, parameters: _ } => {
                let mut message = "Analyzed ".to_owned();
                message.append(decimal_text(session_ids.len() as u64).as_str());
                message.append(" sessions with ");
                message.append(analysis_type.as_str());
                message
            },
            JobType::DataValidation { session_ids, validation_rules: _ } => {
                let mut message = "Validated ".to_owned();
                message.append(decimal_text(session_ids.len() as u64).as_str());
                message.append(" sessions");
                message
            },
            JobType::DataCleanup { older_than_days, preserve_important: _ } => {
                let mut message = "Cleaned up data older than ".to_owned();
                message.append(decimal_text(*older_than_days as u64).as_str());
                message.append(" days");
                message
            },
            JobType::BufferOptimization { device_ids, optimization_type: _ } => {
                let mut message = "Optimized ".to_owned();
                message.append(decimal_text(device_ids.len() as u64).as_str());
                message.append(" device buffers");
                message
            },
            JobType::BackupOperation { backup_type, include_sessions: _, include_config: _ } => {
                let mut message = "Created ".to_owned();
                message.append(backup_type.as_str());
                message.append(" backup");
                message
            },
            JobType::ReportGeneration { report_type, time_range: _, recipients } => {
                let mut message = "Generated ".to_owned();
                message.append(report_type.as_str());
                message.append(" report for ");
                message.append(decimal_text(recipients.len() as u64).as_str());
                message.append(" recipients");
                message
            },
        }
    }
}

/// Where a job is in its lifecycle.
#[derive(Debug, Clone, Copy, PartialEq, Eq, Structural, Hash)]
pub enum JobStatus {
    Queued,
    Running,
    Completed,
    Failed,
    Cancelled,
    Paused,
}

impl JobStatus {
    /// `Completed`, `Failed` and `Cancelled` are final.
    pub open spec fn spec_is_terminal(self) -> bool {
        self == JobStatus::Completed || self == JobStatus::Failed || self == JobStatus::Cancelled
    }

    #[verifier::when_used_as_spec(spec_is_terminal)]
    pub fn is_terminal(self) -> (r: bool)
        ensures
            r == self.spec_is_terminal(),
    {
        match self {
            JobStatus::Completed | JobStatus::Failed | JobStatus::Cancelled => true,
            _ => false,
        }
    }
}

/// Scheduling priority, from least to most urgent.
#[derive(Debug, Clone, Copy, PartialEq, Eq, Structural, PartialOrd, Ord, Hash)]
pub enum JobPriority {
    Low,
    Normal,
    High,
    Critical,
}

impl JobPriority {
    /// Numeric level: 1 for `Low` up to 4 for `Critical`.
    pub open spec fn rank(self) -> int {
        match self {
            JobPriority::Low => 1,
            JobPriority::Normal => 2,
            JobPriority::High => 3,
            JobPriority::Critical => 4,
        }
    }

    pub fn value(self) -> (r: u8)
        ensures
            r == self.rank(),
    {
        match self {
            JobPriority::Low => 1,
            JobPriority::Normal => 2,
            JobPriority::High => 3,
            JobPriority::Critical => 4,
        }
    }
}

/// Progress of a job as last reported by its handler.
#[derive(Debug, Clone)]
pub struct JobProgress {
    pub current_step: u32,
    pub total_steps: u32,
    pub current_item: String,
    pub items_processed: u32,
    pub total_items: u32,
    /// Whole percent of the items processed, rounded down.
    pub percentage: u64,
    pub estimated_remaining_seconds: u64,
    /// Whole items per second, rounded down.
    pub throughput_items_per_second: u64,
    pub last_update: Timestamp,
}

impl JobProgress {
    /// The progress of a job on which no work has been reported.
    pub open spec fn is_initial(self, now: Timestamp) -> bool {
        &&& self.current_step == 0
        &&& self.total_steps == 1
        &&& self.current_item@ == Seq::<char>::empty()
        &&& self.items_processed == 0
        &&& self.total_items == 0
        &&& self.percentage == 0
        &&& self.estimated_remaining_seconds == 0
        &&& self.throughput_items_per_second == 0
        &&& self.last_update == now
    }

    pub fn starting_at(now: Timestamp) -> (p: JobProgress)
        ensures
            p.is_initial(now),
    {
        JobProgress {
            current_step: 0,
            total_steps: 1,
            current_item: String::new(),
            items_processed: 0,
            total_items: 0,
            percentage: 0,
            estimated_remaining_seconds: 0,
            throughput_items_per_second: 0,
            last_update: now,
        }
    }
}

impl Default for JobProgress {
    /// Initial progress, stamped with the current reading of the clock.
    fn default() -> (p: JobProgress)
        ensures
            p.is_initial(p.last_update),
    {
        JobProgress::starting_at(current_time())
    }
}

/// What a handler reports when it returns.
#[derive(Debug, Clone)]
pub enum JobResult {
    /// The work is done; optional result data.
    Success(Option<String>),
    /// The work failed for good; the reason.
    Failure(String),
    /// The work failed but may be tried again; the reason.
    Retry(String),
    /// The handler honoured a cancellation request.
    Cancel,
}

/// A handler's report with every text taken as a sequence of characters.
pub enum Outcome {
    Success(Option<Seq<char>>),
    Failure(Seq<char>),
    Retry(Seq<char>),
    Cancel,
}

impl View for JobResult {
    type V = Outcome;

    open spec fn view(&self) -> Outcome {
        match *self {
            JobResult::Success(data) => Outcome::Success(
                match data {
                    Some(d) => Some(d@),
                    None => None,
                },
            ),
            JobResult::Failure(reason) => Outcome::Failure(reason@),
            JobResult::Retry(reason) => Outcome::Retry(reason@),
            JobResult::Cancel => Outcome::Cancel,
        }
    }
}

/// The character sequences of a sequence of strings.
pub open spec fn texts(v: Seq<String>) -> Seq<Seq<char>> {
    Seq::new(v.len(), |i: int| v[i]@)
}

/// The character sequences of a sequence of pairs of strings.
pub open spec fn text_pairs(v: Seq<(String, String)>) -> Seq<(Seq<char>, Seq<char>)> {
    Seq::new(v.len(), |i: int| (v[i].0@, v[i].1@))
}

/// The character sequence of an optional string.
pub open spec fn opt_text(s: Option<String>) -> Option<Seq<char>> {
    match s {
        Some(t) => Some(t@),
        None => None,
    }
}

/// One unit of work and everything the engine records about it.
#[derive(Debug, Clone)]
pub struct BatchJob {
    pub id: String,
    pub job_type: JobType,
    pub priority: JobPriority,
    pub status: JobStatus,
    pub progress: JobProgress,
    pub created_at: Timestamp,
    pub started_at: Option<Timestamp>,
    pub completed_at: Option<Timestamp>,
    pub error_message: Option<String>,
    pub retry_count: u32,
    pub max_retries: u32,
    pub timeout_seconds: u64,
    /// Free-form annotations; at most one entry per key once built with
    /// [`BatchJob::with_metadata`].
    pub metadata: Vec<(String, String)>,
    /// Ids of the jobs that must be `Completed` before this one may start.
    pub dependencies: Vec<String>,
    pub result_data: Option<String>,
}

/// The mathematical content of a [`BatchJob`]: identifiers and messages are
/// sequences of characters, the payload and the progress are carried as they
/// are.
pub struct JobModel {
    pub id: Seq<char>,
    pub job_type: JobType,
    pub priority: JobPriority,
    pub status: JobStatus,
    pub progress: JobProgress,
    pub created_at: Timestamp,
    pub started_at: Option<Timestamp>,
    pub completed_at: Option<Timestamp>,
    pub error_message: Option<Seq<char>>,
    pub retry_count: u32,
    pub max_retries: u32,
    pub timeout_seconds: u64,
    pub metadata: Seq<(Seq<char>, Seq<char>)>,
    pub dependencies: Seq<Seq<char>>,
    pub result_data: Option<Seq<char>>,
}

impl View for BatchJob {
    type V = JobModel;

    open spec fn view(&self) -> JobModel {
        JobModel {
            id: self.id@,
            job_type: self.job_type,
            priority: self.priority,
            status: self.status,
            progress: self.progress,
            created_at: self.created_at,
            started_at: self.started_at,
            completed_at: self.completed_at,
            error_message: opt_text(self.error_message),
            retry_count: self.retry_count,
            max_retries: self.max_retries,
            timeout_seconds: self.timeout_seconds,
            metadata: text_pairs(self.metadata@),
            dependencies: texts(self.dependencies@),
            result_data: opt_text(self.result_data),
        }
    }
}

/// Retries granted to a job unless it says otherwise.
pub const DEFAULT_MAX_RETRIES: u32 = 3;

/// Seconds a job may run unless it says otherwise.
pub const DEFAULT_TIMEOUT_SECONDS: u64 = 3600;

/// The models of a sequence of job records.
pub open spec fn models(jobs: Seq<BatchJob>) -> Seq<JobModel> {
    Seq::new(jobs.len(), |i: int| jobs[i]@)
}

/// The ids of a sequence of job models, in order.
pub open spec fn job_ids(jobs: Seq<JobModel>) -> Seq<Seq<char>> {
    Seq::new(jobs.len(), |i: int| jobs[i].id)
}

/// Index of the first record whose id is `id`, or the length of `jobs` if
/// there is none.
pub open spec fn index_of(jobs: Seq<JobModel>, id: Seq<char>) -> int {
    position(job_ids(jobs), id)
}

/// Whether some record in `jobs` has the id `id`.
pub open spec fn tracks(jobs: Seq<JobModel>, id: Seq<char>) -> bool {
    index_of(jobs, id) < jobs.len()
}

/// The first record of `jobs` whose id is `id`; meaningful when there is one.
pub open spec fn record(jobs: Seq<JobModel>, id: Seq<char>) -> JobModel {
    jobs[index_of(jobs, id)]
}

/// Whether `jobs` holds a record for `id` and the first such record is
/// `Completed`.
pub open spec fn completed_in(jobs: Seq<JobModel>, id: Seq<char>) -> bool {
    tracks(jobs, id) && record(jobs, id).status == JobStatus::Completed
}

/// What `index_of` finds.
pub proof fn lemma_index_of(jobs: Seq<JobModel>, id: Seq<char>)
    ensures
        0 <= index_of(jobs, id) <= jobs.len(),
        tracks(jobs, id) ==> jobs[index_of(jobs, id)].id == id,
        forall|j: int| 0 <= j < index_of(jobs, id) ==> (#[trigger] jobs[j]).id != id,
        tracks(jobs, id) <==> exists|j: int| 0 <= j < jobs.len() && (#[trigger] jobs[j]).id == id,
{
    let keys = job_ids(jobs);
    lemma_position(keys, id);
    assert forall|j: int| 0 <= j < index_of(jobs, id) implies (#[trigger] jobs[j]).id != id by {
        assert(keys[j] != id);
    }
    if tracks(jobs, id) {
        assert(keys[index_of(jobs, id)] == id);
    }
    if exists|j: int| 0 <= j < jobs.len() && (#[trigger] jobs[j]).id == id {
        let j = choose|j: int| 0 <= j < jobs.len() && (#[trigger] jobs[j]).id == id;
        assert(keys[j] == id);
    }
}

/// With pairwise distinct ids, the record at `i` is the one found for its id.
pub proof fn lemma_index_of_unique(jobs: Seq<JobModel>, i: int)
    requires
        job_ids(jobs).no_duplicates(),
        0 <= i < jobs.len(),
    ensures
        tracks(jobs, jobs[i].id),
        index_of(jobs, jobs[i].id) == i,
{
    assert(job_ids(jobs)[i] == jobs[i].id);
    lemma_position_unique(job_ids(jobs), i);
}

/// Whole percent that `done` makes up of `total`, rounded down; zero when
/// `total` is zero.
pub open spec fn percentage_of(done: u32, total: u32) -> u64 {
    if total > 0 {
        (done * 100 / total as int) as u64
    } else {
        0
    }
}

/// Whole items per second when `done` items took `elapsed` seconds, rounded
/// down.
pub open spec fn throughput_of(done: u32, elapsed: u64) -> u64 {
    if elapsed > 0 {
        (done as int / elapsed as int) as u64
    } else {
        0
    }
}

/// Seconds that the items still to do will take at the pace so far:
/// `(total - done) * elapsed / done`, rounded down, at most `u64::MAX`, and
/// zero when nothing is left to do.
pub open spec fn remaining_seconds(done: u32, total: u32, elapsed: u64) -> u64 {
    if done == 0 || total <= done {
        0
    } else if (total - done) * elapsed / done as int > u64::MAX {
        u64::MAX
    } else {
        ((total - done) * elapsed / done as int) as u64
    }
}

/// The keys of a sequence of entries, in order.
pub open spec fn entry_keys(entries: Seq<(Seq<char>, Seq<char>)>) -> Seq<Seq<char>> {
    Seq::new(entries.len(), |i: int| entries[i].0)
}

/// The entries after `value` was stored under `key`: in place of the first
/// entry with that key, or at the end if there is none.
pub open spec fn with_entry(
    entries: Seq<(Seq<char>, Seq<char>)>,
    key: Seq<char>,
    value: Seq<char>,
) -> Seq<(Seq<char>, Seq<char>)> {
    if position(entry_keys(entries), key) < entries.len() {
        entries.update(position(entry_keys(entries), key), (key, value))
    } else {
        entries.push((key, value))
    }
}

impl JobModel {
    /// The moment from which the pace of a job is measured: its first
    /// dispatch, or its creation if it was never dispatched.
    pub open spec fn pace_origin(self) -> Timestamp {
        match self.started_at {
            Some(t) => t,
            None => self.created_at,
        }
    }

    /// The record after its handler reported at `now` that `done` of `total`
    /// items are processed and `item` is the current one. Throughput and
    /// remaining time are computed anew when at least one item is done and
    /// at least one second has passed, and kept otherwise.
    pub open spec fn progressed(self, done: u32, total: u32, item: String, now: Timestamp) -> JobModel {
        let elapsed = now.spec_seconds_since(self.pace_origin()) as u64;
        let measurable = done > 0 && elapsed > 0;
        JobModel {
            progress: JobProgress {
                items_processed: done,
                total_items: total,
                current_item: item,
                percentage: percentage_of(done, total),
                throughput_items_per_second: if measurable {
                    throughput_of(done, elapsed)
                } else {
                    self.progress.throughput_items_per_second
                },
                estimated_remaining_seconds: if measurable {
                    remaining_seconds(done, total, elapsed)
                } else {
                    self.progress.estimated_remaining_seconds
                },
                last_update: now,
                ..self.progress
            },
            ..self
        }
    }

    /// A job is ready when it is `Queued` and each of its dependencies is
    /// tracked in `jobs` and `Completed` there.
    pub open spec fn is_ready(self, jobs: Seq<JobModel>) -> bool {
        &&& self.status == JobStatus::Queued
        &&& forall|k: int|
            0 <= k < self.dependencies.len() ==> completed_in(jobs, #[trigger] self.dependencies[k])
    }

    /// The record as the engine takes it in: queued, with the traces of any
    /// earlier run wiped.
    pub open spec fn admitted(self) -> JobModel {
        JobModel {
            status: JobStatus::Queued,
            started_at: None,
            completed_at: None,
            error_message: None,
            retry_count: 0,
            result_data: None,
            ..self
        }
    }

    /// The record once a worker has taken the job at `now`. The start time is
    /// that of the first dispatch.
    pub open spec fn dispatched(self, now: Timestamp) -> JobModel {
        JobModel {
            status: JobStatus::Running,
            started_at: Some(
                match self.started_at {
                    Some(t) => t,
                    None => now,
                },
            ),
            ..self
        }
    }

    /// The record after a pending job was cancelled at `now`.
    pub open spec fn cancelled(self, now: Timestamp) -> JobModel {
        JobModel { status: JobStatus::Cancelled, completed_at: Some(now), ..self }
    }

    /// What holds of every record the engine keeps: it is never paused, it
    /// has not used more retries than it was granted, a running or finished
    /// job has a start time unless it was cancelled while pending, and a job
    /// has an end time exactly when it is in a final state.
    pub open spec fn well_formed(self) -> bool {
        &&& self.status != JobStatus::Paused
        &&& self.retry_count <= self.max_retries
        &&& self.status == JobStatus::Running ==> self.started_at is Some
        &&& self.status.spec_is_terminal() <==> self.completed_at is Some
    }

    /// Whether a retry request can still be granted.
    pub open spec fn may_retry(self) -> bool {
        self.retry_count < self.max_retries
    }

    /// The record after its handler returned `outcome` at `now`.
    pub open spec fn finished(self, outcome: Outcome, now: Timestamp) -> JobModel {
        match outcome {
            Outcome::Success(data) => JobModel {
                status: JobStatus::Completed,
                completed_at: Some(now),
                result_data: data,
                progress: JobProgress { percentage: 100, ..self.progress },
                ..self
            },
            Outcome::Failure(reason) => JobModel {
                status: JobStatus::Failed,
                completed_at: Some(now),
                error_message: Some(reason),
                ..self
            },
            Outcome::Retry(reason) => if self.may_retry() {
                JobModel {
                    status: JobStatus::Queued,
                    retry_count: (self.retry_count + 1) as u32,
                    error_message: Some(reason),
                    ..self
                }
            } else {
                JobModel {
                    status: JobStatus::Failed,
                    completed_at: Some(now),
                    error_message: Some(retries_exhausted_message(reason)),
                    ..self
                }
            },
            Outcome::Cancel => JobModel {
                status: JobStatus::Cancelled,
                completed_at: Some(now),
                ..self
            },
        }
    }
}

/// Index of the first record of `jobs` whose id is `id`, or the length of
/// `jobs`.
pub fn find_job(jobs: &Vec<BatchJob>, id: &String) -> (r: usize)
    ensures
        r == index_of(models(jobs@), id@),
{
    let mut i: usize = 0;
    while i < jobs.len()
        invariant
            i <= jobs.len(),
            index_of(models(jobs@), id@) == position_from(job_ids(models(jobs@)), id@, i as int),
        decreases jobs.len() - i,
    {
        if jobs[i].id == *id {
            return i;
        }
        i += 1;
    }
    i
}

impl BatchJob {
    /// A pending job with the given id, created at `now`, with the default
    /// retry and time limits and nothing else set.
    pub open spec fn is_fresh(
        self,
        id: Seq<char>,
        job_type: JobType,
        priority: JobPriority,
        now: Timestamp,
    ) -> bool {
        &&& self.id@ == id
        &&& self.job_type == job_type
        &&& self.priority == priority
        &&& self.status == JobStatus::Queued
        &&& self.progress.is_initial(now)
        &&& self.created_at == now
        &&& self.started_at is None
        &&& self.completed_at is None
        &&& self.error_message is None
        &&& self.retry_count == 0
        &&& self.max_retries == DEFAULT_MAX_RETRIES
        &&& self.timeout_seconds == DEFAULT_TIMEOUT_SECONDS
        &&& self.metadata@.len() == 0
        &&& self.dependencies@.len() == 0
        &&& self.result_data is None
    }

    /// A pending job with the id `id`, created at `now`.
    pub fn with_id(id: String, job_type: JobType, priority: JobPriority, now: Timestamp) -> (job:
        BatchJob)
        ensures
            job.is_fresh(id@, job_type, priority, now),
    {
        BatchJob {
            id,
            job_type,
            priority,
            status: JobStatus::Queued,
            progress: JobProgress::starting_at(now),
            created_at: now,
            started_at: None,
            completed_at: None,
            error_message: None,
            retry_count: 0,
            max_retries: DEFAULT_MAX_RETRIES,
            timeout_seconds: DEFAULT_TIMEOUT_SECONDS,
            metadata: Vec::new(),
            dependencies: Vec::new(),
            result_data: None,
        }
    }

    /// A pending job with a newly drawn id of 36 characters, created at the
    /// current reading of the clock.
    pub fn new(job_type: JobType, priority: JobPriority) -> (job: BatchJob)
        ensures
            job.is_fresh(job.id@, job_type, priority, job.created_at),
            job.id@.len() == GENERATED_ID_LEN,
    {
        BatchJob::with_id(fresh_id(), job_type, priority, current_time())
    }

    /// The job with the time limit `timeout_seconds`.
    pub fn with_timeout(self, timeout_seconds: u64) -> (job: BatchJob)
        ensures
            job@ == (JobModel { timeout_seconds, ..self@ }),
    {
        let mut job = self;
        job.timeout_seconds = timeout_seconds;
        job
    }

    /// The job with `max_retries` retries granted.
    pub fn with_retries(self, max_retries: u32) -> (job: BatchJob)
        ensures
            job@ == (JobModel { max_retries, ..self@ }),
    {
        let mut job = self;
        job.max_retries = max_retries;
        job
    }

    /// The job with `dependencies` as the ids it waits for.
    pub fn with_dependencies(self, dependencies: Vec<String>) -> (job: BatchJob)
        ensures
            job@ == (JobModel { dependencies: texts(dependencies@), ..self@ }),
    {
        let mut job = self;
        job.dependencies = dependencies;
        job
    }

    /// The job with `value` stored under `key` in its metadata, in place of
    /// what was stored under that key before.
    pub fn with_metadata(self, key: String, value: String) -> (job: BatchJob)
        ensures
            job@ == (JobModel { metadata: with_entry(self@.metadata, key@, value@), ..self@ }),
    {
        let mut job = self;
        let ghost keys = entry_keys(self@.metadata);
        let mut i: usize = 0;
        while i < job.metadata.len()
            invariant
                job == self,
                i <= job.metadata.len(),
                position(keys, key@) == position_from(keys, key@, i as int),
                keys == entry_keys(text_pairs(job.metadata@)),
            decreases job.metadata.len() - i,
        {
            if job.metadata[i].0 == key {
                job.metadata[i] = (key, value);
                assert(text_pairs(job.metadata@) =~= self@.metadata.update(
                    i as int,
                    (key@, value@),
                ));
                return job;
            }
            i += 1;
        }
        job.metadata.push((key, value));
        assert(text_pairs(job.metadata@) =~= self@.metadata.push((key@, value@)));
        job
    }

    /// Records at `now` that `items_processed` of `total_items` items are
    /// done and `current_item` is being worked on, and derives percentage,
    /// throughput and remaining time from the seconds since the job started.
    pub fn update_progress_at(
        &mut self,
        items_processed: u32,
        total_items: u32,
        current_item: String,
        now: Timestamp,
    )
        ensures
            final(self)@ == old(self)@.progressed(items_processed, total_items, current_item, now),
    {
        let origin = match self.started_at {
            Some(t) => t,
            None => self.created_at,
        };
        let elapsed: u64 = now.seconds_since(origin);
        self.progress.items_processed = items_processed;
        self.progress.total_items = total_items;
        self.progress.current_item = current_item;
        self.progress.percentage = if total_items > 0 {
            (items_processed as u64) * 100 / (total_items as u64)
        } else {
            0
        };
        if items_processed > 0 && elapsed > 0 {
            self.progress.throughput_items_per_second = (items_processed as u64) / elapsed;
            self.progress.estimated_remaining_seconds = if total_items <= items_processed {
                0
            } else {
                let left: u128 = (total_items - items_processed) as u128;
                assert(left * elapsed <= 0xffff_ffff * 0xffff_ffff_ffff_ffff) by (nonlinear_arith)
                    requires
                        0 <= left <= 0xffff_ffff,
                        0 <= elapsed <= 0xffff_ffff_ffff_ffff,
                ;
                let estimate: u128 = left * (elapsed as u128) / (items_processed as u128);
                if estimate > u64::MAX as u128 {
                    u64::MAX
                } else {
                    estimate as u64
                }
            };
        }
        self.progress.last_update = now;
    }

    /// Records progress as of the current reading of the clock; see
    /// [`BatchJob::update_progress_at`].
    pub fn update_progress(&mut self, items_processed: u32, total_items: u32, current_item: String)
        ensures
            exists|now: Timestamp|
                final(self)@ == old(self)@.progressed(
                    items_processed,
                    total_items,
                    current_item,
                    now,
                ),
    {
        let now = current_time();
        self.update_progress_at(items_processed, total_items, current_item, now)
    }

    /// Whether the job may start: it is `Queued`, and each of its
    /// dependencies has a record in `jobs` that is `Completed`.
    pub fn is_ready_to_run(&self, jobs: &Vec<BatchJob>) -> (r: bool)
        ensures
            r == self@.is_ready(models(jobs@)),
    {
        if self.status != JobStatus::Queued {
            return false;
        }
        let mut k: usize = 0;
        while k < self.dependencies.len()
            invariant
                k <= self.dependencies.len(),
                forall|j: int|
                    0 <= j < k ==> completed_in(models(jobs@), #[trigger] self@.dependencies[j]),
            decreases self.dependencies.len() - k,
        {
            let at: usize = find_job(jobs, &self.dependencies[k]);
            if at >= jobs.len() || jobs[at].status != JobStatus::Completed {
                assert(!completed_in(models(jobs@), self@.dependencies[k as int]));
                return false;
            }
            k += 1;
        }
        true
    }
}

/// Text recorded on a job that asked for one retry too many.
pub open spec fn retries_exhausted_message(reason: Seq<char>) -> Seq<char> {
    "Max retries exceeded: "@ + reason
}

/// Text recorded on a job that ran past its time limit.
pub open spec fn timeout_message() -> Seq<char> {
    "Job timed out"@
}

} // verus!
