//! Engine configuration, errors and statistics.

use vstd::prelude::*;

verus! {

/// Settings of a batch processor.
#[derive(Debug, Clone, Copy, PartialEq, Eq, Structural)]
pub struct BatchProcessorConfig {
    /// Upper bound on the jobs that run at the same time.
    pub max_concurrent_jobs: usize,
    /// Time limit suggested for jobs that do not set their own.
    pub job_timeout_seconds: u64,
    /// Pause before a job that asked for a retry is queued again.
    pub retry_delay_seconds: u64,
    /// Upper bound on the jobs that are tracked, whatever their status.
    pub max_queue_size: usize,
    /// Age past which finished jobs are dropped.
    pub cleanup_completed_jobs_after_hours: u32,
    /// Reserved; the engine keeps its state in memory only.
    pub enable_job_persistence: bool,
    /// Sizing hint for the worker pool.
    pub worker_thread_count: usize,
    /// Whether the queue is ordered by priority rather than by arrival.
    pub priority_scheduling: bool,
}

impl BatchProcessorConfig {
    /// The settings used when none are given.
    pub open spec fn standard() -> BatchProcessorConfig {
        BatchProcessorConfig {
            max_concurrent_jobs: 4,
            job_timeout_seconds: 3600,
            retry_delay_seconds: 60,
            max_queue_size: 1000,
            cleanup_completed_jobs_after_hours: 24,
            enable_job_persistence: true,
            worker_thread_count: 2,
            priority_scheduling: true,
        }
    }
}

impl Default for BatchProcessorConfig {
    fn default() -> (c: BatchProcessorConfig)
        ensures
            c == BatchProcessorConfig::standard(),
    {
        BatchProcessorConfig {
            max_concurrent_jobs: 4,
            job_timeout_seconds: 3600,
            retry_delay_seconds: 60,
            max_queue_size: 1000,
            cleanup_completed_jobs_after_hours: 24,
            enable_job_persistence: true,
            worker_thread_count: 2,
            priority_scheduling: true,
        }
    }
}

/// Why the engine turned a request down.
#[derive(Debug, Clone, Copy, PartialEq, Eq, Structural)]
pub enum BatchError {
    /// The engine already tracks as many jobs as it may.
    QueueFull,
    /// The engine already tracks a job with the submitted id.
    DuplicateJob,
    /// No job with the given id is tracked.
    NotFound,
    /// The job is in a state that does not allow the request.
    InvalidState,
}

impl BatchError {
    /// The text reported to callers.
    pub open spec fn text(self) -> Seq<char> {
        match self {
            BatchError::QueueFull => "Job queue is full"@,
            BatchError::DuplicateJob => "Job id is already tracked"@,
            BatchError::NotFound => "Job not found"@,
            BatchError::InvalidState => "Job cannot be cancelled in current state"@,
        }
    }

    pub fn message(self) -> (m: String)
        ensures
            m@ == self.text(),
    {
        match self {
            BatchError::QueueFull => "Job queue is full".to_owned(),
            BatchError::DuplicateJob => "Job id is already tracked".to_owned(),
            BatchError::NotFound => "Job not found".to_owned(),
            BatchError::InvalidState => "Job cannot be cancelled in current state".to_owned(),
        }
    }
}

/// Counters and gauges of a batch processor, all derived from its jobs and
/// its queue at the moment they are asked for.
#[derive(Debug, Clone, Copy, PartialEq, Eq, Structural)]
pub struct QueueStats {
    pub total_jobs: usize,
    pub queued_jobs: usize,
    pub running_jobs: usize,
    pub completed_jobs: usize,
    pub failed_jobs: usize,
    pub cancelled_jobs: usize,
    /// Running mean of the time that finished jobs took, in milliseconds.
    pub average_processing_time_ms: u64,
    pub queue_length: usize,
    /// Seconds since the job at the head of the queue was created.
    pub oldest_queued_job_age_seconds: u64,
    /// Whole percent of the worker slots in use, rounded down.
    pub worker_utilization: u64,
}

} // verus!
