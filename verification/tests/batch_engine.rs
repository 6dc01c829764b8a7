use gait_monitor::batch_processing::config::BatchError;
use gait_monitor::batch_processing::config::BatchProcessorConfig;
use gait_monitor::batch_processing::engine::Completion;
use gait_monitor::batch_processing::job::BatchJob;
use gait_monitor::batch_processing::job::JobPriority;
use gait_monitor::batch_processing::job::JobProgress;
use gait_monitor::batch_processing::job::JobResult;
use gait_monitor::batch_processing::job::JobStatus;
use gait_monitor::batch_processing::job::JobType;
use gait_monitor::batch_processing::processor::BatchProcessor;
use gait_monitor::time::Timestamp;

fn cleanup_job(id: &str, priority: JobPriority) -> BatchJob {
    BatchJob::with_id(
        id.to_string(),
        JobType::DataCleanup { older_than_days: 30, preserve_important: true },
        priority,
        Timestamp::from_millis(0),
    )
}

fn at(millis: i64) -> Timestamp {
    Timestamp::from_millis(millis)
}

fn config(max_concurrent_jobs: usize, max_queue_size: usize, retry_delay_seconds: u64) -> BatchProcessorConfig {
    let mut config = BatchProcessorConfig::default();
    config.max_concurrent_jobs = max_concurrent_jobs;
    config.max_queue_size = max_queue_size;
    config.retry_delay_seconds = retry_delay_seconds;
    config
}

#[test]
fn test_batch_job_creation() {
    let job_type = JobType::DataExport {
        session_ids: vec!["session1".to_string()],
        export_format: "CSV".to_string(),
        output_path: "/tmp/export.csv".to_string(),
    };

    let job = BatchJob::new(job_type, JobPriority::Normal).with_timeout(1800).with_retries(5);

    assert_eq!(job.priority, JobPriority::Normal);
    assert_eq!(job.timeout_seconds, 1800);
    assert_eq!(job.max_retries, 5);
    assert_eq!(job.status, JobStatus::Queued);
}

#[test]
fn test_batch_processor_submit() {
    let config = BatchProcessorConfig::default();
    let mut processor = BatchProcessor::new(config);

    let job_type = JobType::DataValidation {
        session_ids: vec!["session1".to_string()],
        validation_rules: vec!["rule1".to_string()],
    };

    let job = BatchJob::new(job_type, JobPriority::High);
    let job_id = processor.submit_job(job).unwrap();

    assert!(!job_id.is_empty());

    let stats = processor.get_stats();
    assert!(stats.total_jobs > 0);
}

#[test]
fn test_job_priority_scheduling() {
    let mut config = BatchProcessorConfig::default();
    config.priority_scheduling = true;
    config.max_concurrent_jobs = 1; // Process one at a time to test ordering

    let mut processor = BatchProcessor::new(config);

    let low_job = BatchJob::new(
        JobType::DataCleanup { older_than_days: 30, preserve_important: true },
        JobPriority::Low,
    );
    let high_job = BatchJob::new(
        JobType::DataValidation {
            session_ids: vec!["urgent".to_string()],
            validation_rules: vec!["critical".to_string()],
        },
        JobPriority::High,
    );

    let low_id = processor.submit_job(low_job).unwrap();
    let high_id = processor.submit_job(high_job).unwrap();

    assert_eq!(processor.dispatch_next(), Some(high_id.clone()));

    let low_status = processor.get_job_status(&low_id).unwrap();
    let high_status = processor.get_job_status(&high_id).unwrap();

    assert!(high_status.started_at.is_some() || high_status.status == JobStatus::Completed);
    assert_eq!(low_status.status, JobStatus::Queued);
    assert!(low_status.started_at.is_none());
}

#[test]
fn new_jobs_have_distinct_ids_of_36_characters() {
    let a = BatchJob::new(JobType::DataCleanup { older_than_days: 1, preserve_important: false }, JobPriority::Low);
    let b = BatchJob::new(JobType::DataCleanup { older_than_days: 1, preserve_important: false }, JobPriority::Low);
    assert_eq!(a.id.len(), 36);
    assert_eq!(b.id.len(), 36);
    assert_ne!(a.id, b.id);
    assert_eq!(a.max_retries, 3);
    assert_eq!(a.timeout_seconds, 3600);
    assert_eq!(a.retry_count, 0);
    assert!(a.dependencies.is_empty());
    assert!(a.metadata.is_empty());
    assert!(a.started_at.is_none() && a.completed_at.is_none());
    assert!(a.error_message.is_none() && a.result_data.is_none());
    assert_eq!(a.progress.total_steps, 1);
    assert_eq!(a.progress.last_update, a.created_at);
    assert!(a.created_at.millis > 1_500_000_000_000);
}

#[test]
fn dispatch_follows_priority_then_submission_order() {
    // three jobs with priorities Low, Critical, Normal and one worker
    let mut processor = BatchProcessor::new(config(1, 1000, 60));
    processor.submit_job(cleanup_job("low", JobPriority::Low)).unwrap();
    processor.submit_job(cleanup_job("critical", JobPriority::Critical)).unwrap();
    processor.submit_job(cleanup_job("normal", JobPriority::Normal)).unwrap();

    let mut order = Vec::new();
    for tick in 0..3 {
        let id = processor.dispatch_next_at(at(tick)).unwrap();
        assert_eq!(processor.dispatch_next_at(at(tick)), None); // the only slot is taken
        assert_eq!(processor.complete_job_at(&id, JobResult::Success(None), at(tick)), Completion::Finished);
        order.push(id);
    }
    assert_eq!(order, vec!["critical", "normal", "low"]);
    assert_eq!(processor.dispatch_next_at(at(9)), None);
}

#[test]
fn equal_priorities_dispatch_in_submission_order() {
    let mut processor = BatchProcessor::new(config(10, 1000, 60));
    for (id, priority) in [
        ("n1", JobPriority::Normal),
        ("h1", JobPriority::High),
        ("n2", JobPriority::Normal),
        ("l1", JobPriority::Low),
        ("h2", JobPriority::High),
        ("c1", JobPriority::Critical),
        ("n3", JobPriority::Normal),
    ] {
        processor.submit_job(cleanup_job(id, priority)).unwrap();
    }
    let mut order = Vec::new();
    while let Some(id) = processor.dispatch_next_at(at(1)) {
        order.push(id);
    }
    assert_eq!(order, vec!["c1", "h1", "h2", "n1", "n2", "n3", "l1"]);
    assert_eq!(processor.get_stats_at(at(1)).running_jobs, 7);
}

#[test]
fn without_priority_scheduling_the_queue_is_first_in_first_out() {
    let mut config = config(10, 1000, 60);
    config.priority_scheduling = false;
    let mut processor = BatchProcessor::new(config);
    processor.submit_job(cleanup_job("low", JobPriority::Low)).unwrap();
    processor.submit_job(cleanup_job("critical", JobPriority::Critical)).unwrap();
    assert_eq!(processor.dispatch_next_at(at(1)), Some("low".to_string()));
    assert_eq!(processor.dispatch_next_at(at(1)), Some("critical".to_string()));
}

#[test]
fn dependent_job_waits_for_its_dependency() {
    let a = cleanup_job("a", JobPriority::Normal);
    let b = cleanup_job("b", JobPriority::Normal).with_dependencies(vec!["a".to_string()]);
    let mut processor = BatchProcessor::new(config(4, 1000, 60));
    processor.submit_job(b).unwrap();
    processor.submit_job(a).unwrap();

    // b heads the queue but is not ready: it goes to the back
    assert_eq!(processor.dispatch_next_at(at(1)), None);
    assert_eq!(processor.get_job_status("b").unwrap().status, JobStatus::Queued);
    // a is dispatched first
    assert_eq!(processor.dispatch_next_at(at(2)), Some("a".to_string()));
    // b stays pending while a runs
    assert_eq!(processor.dispatch_next_at(at(3)), None);
    assert_eq!(processor.dispatch_next_at(at(4)), None);
    assert_eq!(processor.get_job_status("b").unwrap().status, JobStatus::Queued);
    assert_eq!(processor.get_stats_at(at(4)).queue_length, 1);

    processor.complete_job_at("a", JobResult::Success(Some("done".to_string())), at(5));
    assert_eq!(processor.get_job_status("a").unwrap().status, JobStatus::Completed);
    assert_eq!(processor.dispatch_next_at(at(6)), Some("b".to_string()));
    let b = processor.get_job_status("b").unwrap();
    assert_eq!(b.status, JobStatus::Running);
    assert_eq!(b.started_at, Some(at(6)));
}

#[test]
fn job_with_failed_or_unknown_dependency_stays_queued() {
    let mut processor = BatchProcessor::new(config(4, 1000, 60));
    processor.submit_job(cleanup_job("a", JobPriority::Normal)).unwrap();
    processor
        .submit_job(cleanup_job("b", JobPriority::Low).with_dependencies(vec!["a".to_string()]))
        .unwrap();
    processor
        .submit_job(cleanup_job("c", JobPriority::Low).with_dependencies(vec!["ghost".to_string()]))
        .unwrap();
    assert_eq!(processor.dispatch_next_at(at(1)), Some("a".to_string()));
    processor.complete_job_at("a", JobResult::Failure("broken".to_string()), at(2));
    for tick in 3..10 {
        assert_eq!(processor.dispatch_next_at(at(tick)), None);
    }
    assert_eq!(processor.get_job_status("b").unwrap().status, JobStatus::Queued);
    assert_eq!(processor.get_job_status("c").unwrap().status, JobStatus::Queued);
    assert_eq!(processor.get_stats_at(at(10)).queue_length, 2);
}

#[test]
fn blocked_head_does_not_starve_ready_jobs() {
    let mut processor = BatchProcessor::new(config(4, 1000, 60));
    processor
        .submit_job(cleanup_job("blocked", JobPriority::Critical).with_dependencies(vec!["none".to_string()]))
        .unwrap();
    processor.submit_job(cleanup_job("ready", JobPriority::Low)).unwrap();
    assert_eq!(processor.dispatch_next_at(at(1)), None);
    assert_eq!(processor.dispatch_next_at(at(2)), Some("ready".to_string()));
}

#[test]
fn full_queue_turns_submissions_down() {
    let mut processor = BatchProcessor::new(config(4, 2, 60));
    assert_eq!(processor.submit_job(cleanup_job("a", JobPriority::Normal)), Ok("a".to_string()));
    assert_eq!(processor.submit_job(cleanup_job("b", JobPriority::Normal)), Ok("b".to_string()));
    assert_eq!(
        processor.submit_job(cleanup_job("c", JobPriority::Critical)),
        Err("Job queue is full".to_string())
    );
    assert!(processor.get_job_status("c").is_none());
    assert_eq!(processor.get_stats_at(at(0)).total_jobs, 2);

    // finished jobs count against the bound until they are swept
    processor.dispatch_next_at(at(1));
    processor.complete_job_at("a", JobResult::Success(None), at(2));
    assert_eq!(
        processor.submit_job(cleanup_job("c", JobPriority::Critical)),
        Err(BatchError::QueueFull.message())
    );
    let hour = 3_600_000;
    assert_eq!(processor.cleanup_completed_jobs_at(at(2 + 24 * hour + 1)), 1);
    assert_eq!(processor.submit_job(cleanup_job("c", JobPriority::Critical)), Ok("c".to_string()));
}

#[test]
fn zero_sized_queue_accepts_nothing() {
    let mut processor = BatchProcessor::new(config(4, 0, 60));
    assert_eq!(
        processor.submit_job(cleanup_job("a", JobPriority::Normal)),
        Err("Job queue is full".to_string())
    );
}

#[test]
fn duplicate_id_is_turned_down() {
    let mut processor = BatchProcessor::new(config(4, 10, 60));
    processor.submit_job(cleanup_job("a", JobPriority::Normal)).unwrap();
    assert_eq!(
        processor.submit_job(cleanup_job("a", JobPriority::High)),
        Err("Job id is already tracked".to_string())
    );
    assert_eq!(processor.get_job_status("a").unwrap().priority, JobPriority::Normal);
    assert_eq!(processor.get_stats_at(at(0)).queue_length, 1);
}

#[test]
fn submission_resets_the_lifecycle_fields() {
    let mut job = cleanup_job("a", JobPriority::Normal).with_retries(7).with_timeout(5);
    job.status = JobStatus::Failed;
    job.started_at = Some(at(1));
    job.completed_at = Some(at(2));
    job.retry_count = 4;
    job.error_message = Some("old".to_string());
    job.result_data = Some("old".to_string());
    let mut processor = BatchProcessor::new(config(4, 10, 60));
    processor.submit_job(job).unwrap();
    let stored = processor.get_job_status("a").unwrap();
    assert_eq!(stored.status, JobStatus::Queued);
    assert_eq!(stored.started_at, None);
    assert_eq!(stored.completed_at, None);
    assert_eq!(stored.retry_count, 0);
    assert_eq!(stored.error_message, None);
    assert_eq!(stored.result_data, None);
    assert_eq!(stored.max_retries, 7);
    assert_eq!(stored.timeout_seconds, 5);
}

#[test]
fn always_retrying_job_fails_after_max_retries_plus_one_attempts() {
    let mut processor = BatchProcessor::new(config(1, 10, 0));
    processor.submit_job(cleanup_job("r", JobPriority::Normal).with_retries(2)).unwrap();
    let mut attempts = 0;
    while let Some(id) = processor.dispatch_next_at(at(attempts)) {
        attempts += 1;
        let completion = processor.complete_job_at(&id, JobResult::Retry("busy".to_string()), at(attempts));
        if attempts <= 2 {
            assert_eq!(completion, Completion::Requeued);
            let job = processor.get_job_status("r").unwrap();
            assert_eq!(job.status, JobStatus::Queued);
            assert_eq!(job.retry_count as i64, attempts);
            assert_eq!(job.error_message, Some("busy".to_string()));
            assert_eq!(job.completed_at, None);
        } else {
            assert_eq!(completion, Completion::Finished);
        }
    }
    assert_eq!(attempts, 3);
    let job = processor.get_job_status("r").unwrap();
    assert_eq!(job.status, JobStatus::Failed);
    assert_eq!(job.retry_count, 2);
    assert_eq!(job.error_message, Some("Max retries exceeded: busy".to_string()));
    assert_eq!(job.completed_at, Some(at(3)));
    assert_eq!(job.started_at, Some(at(0)));
    assert_eq!(processor.get_stats_at(at(3)).failed_jobs, 1);
}

#[test]
fn job_without_retries_fails_on_first_retry_request() {
    let mut processor = BatchProcessor::new(config(1, 10, 0));
    processor.submit_job(cleanup_job("r", JobPriority::Normal).with_retries(0)).unwrap();
    processor.dispatch_next_at(at(0));
    assert_eq!(
        processor.complete_job_at("r", JobResult::Retry("x".to_string()), at(1)),
        Completion::Finished
    );
    let job = processor.get_job_status("r").unwrap();
    assert_eq!(job.status, JobStatus::Failed);
    assert_eq!(job.retry_count, 0);
    assert_eq!(processor.dispatch_next_at(at(2)), None);
}

#[test]
fn retry_with_delay_waits_for_requeue() {
    let mut processor = BatchProcessor::new(config(1, 10, 60));
    processor.submit_job(cleanup_job("r", JobPriority::Normal)).unwrap();
    assert!(!processor.requeue_job("r")); // already in the queue
    processor.dispatch_next_at(at(0));
    assert!(!processor.requeue_job("r")); // running
    assert_eq!(
        processor.complete_job_at("r", JobResult::Retry("busy".to_string()), at(1)),
        Completion::RequeueAfter(60)
    );
    let stats = processor.get_stats_at(at(1));
    assert_eq!(stats.queued_jobs, 1);
    assert_eq!(stats.queue_length, 0);
    assert_eq!(stats.running_jobs, 0);
    assert_eq!(processor.dispatch_next_at(at(2)), None);
    assert!(processor.requeue_job("r"));
    assert!(!processor.requeue_job("r"));
    assert!(!processor.requeue_job("unknown"));
    assert_eq!(processor.get_stats_at(at(3)).queue_length, 1);
    assert_eq!(processor.dispatch_next_at(at(61_000)), Some("r".to_string()));
    // the start time is that of the first dispatch
    assert_eq!(processor.get_job_status("r").unwrap().started_at, Some(at(0)));
}

#[test]
fn requeued_job_goes_behind_its_peers() {
    let mut processor = BatchProcessor::new(config(1, 10, 0));
    processor.submit_job(cleanup_job("first", JobPriority::Normal)).unwrap();
    processor.submit_job(cleanup_job("second", JobPriority::Normal)).unwrap();
    processor.submit_job(cleanup_job("low", JobPriority::Low)).unwrap();
    assert_eq!(processor.dispatch_next_at(at(0)), Some("first".to_string()));
    processor.complete_job_at("first", JobResult::Retry("again".to_string()), at(1));
    assert_eq!(processor.dispatch_next_at(at(2)), Some("second".to_string()));
    processor.complete_job_at("second", JobResult::Success(None), at(3));
    assert_eq!(processor.dispatch_next_at(at(4)), Some("first".to_string()));
    processor.complete_job_at("first", JobResult::Success(None), at(5));
    assert_eq!(processor.dispatch_next_at(at(6)), Some("low".to_string()));
}

#[test]
fn terminal_jobs_never_change() {
    let mut processor = BatchProcessor::new(config(2, 10, 0));
    processor.submit_job(cleanup_job("done", JobPriority::Normal)).unwrap();
    processor.submit_job(cleanup_job("gone", JobPriority::Normal)).unwrap();
    processor.dispatch_next_at(at(1));
    processor.complete_job_at("done", JobResult::Success(Some("ok".to_string())), at(2));
    processor.cancel_job_at("gone", at(3)).unwrap();

    for id in ["done", "gone"] {
        let before = format!("{:?}", processor.get_job_status(id).unwrap());
        assert_eq!(
            processor.cancel_job_at(id, at(4)),
            Err("Job cannot be cancelled in current state".to_string())
        );
        assert_eq!(
            processor.complete_job_at(id, JobResult::Failure("late".to_string()), at(5)),
            Completion::Ignored
        );
        assert_eq!(processor.complete_job_at(id, JobResult::Retry("late".to_string()), at(5)), Completion::Ignored);
        assert!(!processor.expire_job_at(id, at(i64::MAX)));
        assert!(!processor.requeue_job(id));
        assert!(!processor.update_job_progress(id, JobProgress::starting_at(at(6))));
        assert_eq!(
            processor.submit_job(cleanup_job(id, JobPriority::Critical)),
            Err("Job id is already tracked".to_string())
        );
        assert_eq!(processor.dispatch_next_at(at(7)), None);
        assert_eq!(processor.cleanup_completed_jobs_at(at(8)), 0);
        assert_eq!(format!("{:?}", processor.get_job_status(id).unwrap()), before);
    }
    assert_eq!(processor.get_job_status("done").unwrap().status, JobStatus::Completed);
    assert_eq!(processor.get_job_status("gone").unwrap().status, JobStatus::Cancelled);
}

#[test]
fn running_jobs_never_exceed_the_limit() {
    let mut processor = BatchProcessor::new(config(2, 100, 0));
    for i in 0..6 {
        processor.submit_job(cleanup_job(&format!("job{}", i), JobPriority::Normal)).unwrap();
    }
    let mut started = Vec::new();
    for tick in 0..10 {
        if let Some(id) = processor.dispatch_next_at(at(tick)) {
            started.push(id);
        }
        let stats = processor.get_stats_at(at(tick));
        assert!(stats.running_jobs <= 2);
        assert!(stats.worker_utilization <= 100);
    }
    assert_eq!(started, vec!["job0", "job1"]);
    assert_eq!(processor.get_stats_at(at(10)).worker_utilization, 100);
    processor.complete_job_at("job0", JobResult::Success(None), at(11));
    assert_eq!(processor.get_stats_at(at(11)).worker_utilization, 50);
    assert_eq!(processor.dispatch_next_at(at(12)), Some("job2".to_string()));
    assert_eq!(processor.dispatch_next_at(at(13)), None);
}

#[test]
fn no_workers_means_no_dispatch() {
    let mut processor = BatchProcessor::new(config(0, 100, 0));
    processor.submit_job(cleanup_job("a", JobPriority::Normal)).unwrap();
    assert_eq!(processor.dispatch_next_at(at(1)), None);
    let stats = processor.get_stats_at(at(1));
    assert_eq!(stats.worker_utilization, 0);
    assert_eq!(stats.queue_length, 1);
}

#[test]
fn cancelling_a_pending_job_is_immediate() {
    let mut processor = BatchProcessor::new(config(1, 10, 0));
    processor.submit_job(cleanup_job("a", JobPriority::Normal)).unwrap();
    processor.submit_job(cleanup_job("b", JobPriority::Normal)).unwrap();
    assert_eq!(processor.cancel_job_at("a", at(5)), Ok(()));
    let a = processor.get_job_status("a").unwrap();
    assert_eq!(a.status, JobStatus::Cancelled);
    assert_eq!(a.completed_at, Some(at(5)));
    assert_eq!(a.started_at, None);
    let stats = processor.get_stats_at(at(5));
    assert_eq!(stats.queue_length, 1);
    assert_eq!(stats.cancelled_jobs, 1);
    assert_eq!(stats.queued_jobs, 1);
    assert_eq!(processor.dispatch_next_at(at(6)), Some("b".to_string()));
    assert_eq!(processor.cancel_job("a"), Err("Job cannot be cancelled in current state".to_string()));
}

#[test]
fn cancelling_a_running_job_is_cooperative() {
    let mut processor = BatchProcessor::new(config(1, 10, 0));
    processor.submit_job(cleanup_job("a", JobPriority::Normal)).unwrap();
    assert!(!processor.is_cancel_requested("a"));
    processor.dispatch_next_at(at(1));
    assert!(!processor.is_cancel_requested("a"));
    assert_eq!(processor.cancel_job_at("a", at(2)), Ok(()));
    assert!(processor.is_cancel_requested("a"));
    // the job is still running and holds its slot until its handler returns
    assert_eq!(processor.get_job_status("a").unwrap().status, JobStatus::Running);
    assert_eq!(processor.get_stats_at(at(2)).running_jobs, 1);
    assert_eq!(processor.cancel_job_at("a", at(3)), Ok(()));
    assert_eq!(processor.complete_job_at("a", JobResult::Cancel, at(4)), Completion::Finished);
    let a = processor.get_job_status("a").unwrap();
    assert_eq!(a.status, JobStatus::Cancelled);
    assert_eq!(a.completed_at, Some(at(4)));
    assert!(!processor.is_cancel_requested("a"));
    let stats = processor.get_stats_at(at(4));
    assert_eq!(stats.running_jobs, 0);
    assert_eq!(stats.cancelled_jobs, 1);
    assert_eq!(stats.average_processing_time_ms, 0);
}

#[test]
fn cancelling_an_unknown_job_is_an_error() {
    let mut processor = BatchProcessor::new(BatchProcessorConfig::default());
    assert_eq!(processor.cancel_job("nope"), Err("Job not found".to_string()));
    assert_eq!(processor.cancel_job_at("nope", at(1)), Err(BatchError::NotFound.message()));
    assert!(processor.get_job_status("nope").is_none());
}

#[test]
fn error_messages() {
    assert_eq!(BatchError::QueueFull.message(), "Job queue is full");
    assert_eq!(BatchError::DuplicateJob.message(), "Job id is already tracked");
    assert_eq!(BatchError::NotFound.message(), "Job not found");
    assert_eq!(BatchError::InvalidState.message(), "Job cannot be cancelled in current state");
}

#[test]
fn outcomes_are_recorded_on_the_job() {
    let mut processor = BatchProcessor::new(config(3, 10, 0));
    for id in ["ok", "bad", "stop"] {
        processor.submit_job(cleanup_job(id, JobPriority::Normal)).unwrap();
        processor.dispatch_next_at(at(10));
    }
    processor.complete_job_at("ok", JobResult::Success(Some("42 rows".to_string())), at(20));
    processor.complete_job_at("bad", JobResult::Failure("disk full".to_string()), at(30));
    processor.complete_job_at("stop", JobResult::Cancel, at(40));

    let ok = processor.get_job_status("ok").unwrap();
    assert_eq!(ok.status, JobStatus::Completed);
    assert_eq!(ok.result_data, Some("42 rows".to_string()));
    assert_eq!(ok.progress.percentage, 100);
    assert_eq!(ok.completed_at, Some(at(20)));
    assert_eq!(ok.error_message, None);

    let bad = processor.get_job_status("bad").unwrap();
    assert_eq!(bad.status, JobStatus::Failed);
    assert_eq!(bad.error_message, Some("disk full".to_string()));
    assert_eq!(bad.completed_at, Some(at(30)));

    let stop = processor.get_job_status("stop").unwrap();
    assert_eq!(stop.status, JobStatus::Cancelled);
    assert_eq!(stop.completed_at, Some(at(40)));

    let stats = processor.get_stats_at(at(50));
    assert_eq!(stats.completed_jobs, 1);
    assert_eq!(stats.failed_jobs, 1);
    assert_eq!(stats.cancelled_jobs, 1);
    assert_eq!(stats.running_jobs, 0);
    assert_eq!(stats.total_jobs, 3);
    // (0 * 0 + 10) / 1 = 10, then (10 * 1 + 20) / 2 = 15; the cancelled run is not folded in
    assert_eq!(stats.average_processing_time_ms, 15);
}

#[test]
fn running_mean_rounds_down() {
    let mut processor = BatchProcessor::new(config(3, 10, 0));
    for id in ["a", "b", "c"] {
        processor.submit_job(cleanup_job(id, JobPriority::Normal)).unwrap();
        processor.dispatch_next_at(at(0));
    }
    processor.complete_job_at("a", JobResult::Success(None), at(10));
    assert_eq!(processor.get_stats_at(at(10)).average_processing_time_ms, 10);
    processor.complete_job_at("b", JobResult::Failure("x".to_string()), at(15));
    // (10 * 1 + 15) / 2 = 12
    assert_eq!(processor.get_stats_at(at(15)).average_processing_time_ms, 12);
    processor.complete_job_at("c", JobResult::Success(None), at(100));
    // (12 * 2 + 100) / 3 = 41
    assert_eq!(processor.get_stats_at(at(100)).average_processing_time_ms, 41);
}

#[test]
fn report_for_a_job_that_is_not_running_is_ignored() {
    let mut processor = BatchProcessor::new(config(1, 10, 0));
    processor.submit_job(cleanup_job("a", JobPriority::Normal)).unwrap();
    assert_eq!(processor.complete_job_at("a", JobResult::Success(None), at(1)), Completion::Ignored);
    assert_eq!(processor.complete_job_at("zzz", JobResult::Success(None), at(1)), Completion::Ignored);
    assert_eq!(processor.complete_job("zzz", JobResult::Cancel), Completion::Ignored);
    assert_eq!(processor.get_job_status("a").unwrap().status, JobStatus::Queued);
}

#[test]
fn jobs_past_their_time_limit_fail() {
    let mut processor = BatchProcessor::new(config(2, 10, 0));
    processor.submit_job(cleanup_job("slow", JobPriority::Normal).with_timeout(10)).unwrap();
    processor.submit_job(cleanup_job("idle", JobPriority::Low).with_timeout(0)).unwrap();
    assert!(!processor.expire_job_at("slow", at(1_000_000))); // not running yet
    assert_eq!(processor.dispatch_next_at(at(1_000)), Some("slow".to_string()));
    assert!(!processor.expire_job_at("slow", at(1_000)));
    assert!(!processor.expire_job_at("slow", at(11_000))); // exactly ten seconds: not exceeded
    assert_eq!(processor.get_job_status("slow").unwrap().status, JobStatus::Running);
    assert!(processor.expire_job_at("slow", at(11_001)));
    let slow = processor.get_job_status("slow").unwrap();
    assert_eq!(slow.status, JobStatus::Failed);
    assert_eq!(slow.error_message, Some("Job timed out".to_string()));
    assert_eq!(slow.completed_at, Some(at(11_001)));
    let stats = processor.get_stats_at(at(11_001));
    assert_eq!(stats.running_jobs, 0);
    assert_eq!(stats.failed_jobs, 1);
    assert_eq!(stats.average_processing_time_ms, 10_001);
    // the handler's late report changes nothing
    assert_eq!(
        processor.complete_job_at("slow", JobResult::Success(None), at(12_000)),
        Completion::Ignored
    );
    assert_eq!(processor.get_job_status("slow").unwrap().status, JobStatus::Failed);
    assert!(!processor.expire_job_at("slow", at(20_000)));
    assert!(!processor.expire_job("unknown"));
    assert!(!processor.expire_job_at("idle", at(20_000))); // never dispatched
}

#[test]
fn sweep_drops_only_stale_finished_jobs() {
    let hour: i64 = 3_600_000;
    let mut config = config(4, 10, 0);
    config.cleanup_completed_jobs_after_hours = 1;
    let mut processor = BatchProcessor::new(config);
    for id in ["old", "fresh", "running", "queued", "cancelled"] {
        processor.submit_job(cleanup_job(id, JobPriority::Normal)).unwrap();
    }
    processor.dispatch_next_at(at(0));
    processor.dispatch_next_at(at(0));
    processor.dispatch_next_at(at(0));
    processor.cancel_job_at("cancelled", at(0)).unwrap();
    processor.complete_job_at("old", JobResult::Success(None), at(1_000));
    processor.complete_job_at("fresh", JobResult::Failure("x".to_string()), at(hour));

    // exactly one hour after `old` ended: not yet older than an hour
    assert_eq!(processor.cleanup_completed_jobs_at(at(1_000 + hour)), 1);
    assert!(processor.get_job_status("cancelled").is_none());
    assert!(processor.get_job_status("old").is_some());
    assert_eq!(processor.cleanup_completed_jobs_at(at(1_001 + hour)), 1);
    assert!(processor.get_job_status("old").is_none());
    let left: Vec<String> = processor.get_jobs(None).into_iter().map(|job| job.id.clone()).collect();
    assert_eq!(left, vec!["fresh", "running", "queued"]);
    let stats = processor.get_stats_at(at(1_001 + hour));
    assert_eq!(stats.total_jobs, 3);
    assert_eq!(stats.completed_jobs, 0);
    assert_eq!(stats.cancelled_jobs, 0);
    assert_eq!(stats.failed_jobs, 1);
    assert_eq!(stats.running_jobs, 1);
    assert_eq!(stats.queued_jobs, 1);
    assert_eq!(processor.cleanup_completed_jobs_at(at(100 * hour)), 1);
    assert_eq!(processor.cleanup_completed_jobs(), 0);
    assert_eq!(processor.get_jobs(None).len(), 2);
    // the running job still completes
    assert_eq!(
        processor.complete_job_at("running", JobResult::Success(None), at(100 * hour)),
        Completion::Finished
    );
}

#[test]
fn jobs_can_be_listed_by_status() {
    let mut processor = BatchProcessor::new(config(1, 10, 0));
    for id in ["a", "b", "c"] {
        processor.submit_job(cleanup_job(id, JobPriority::Normal)).unwrap();
    }
    processor.dispatch_next_at(at(1));
    let ids = |jobs: Vec<&BatchJob>| jobs.into_iter().map(|job| job.id.clone()).collect::<Vec<String>>();
    assert_eq!(ids(processor.get_jobs(None)), vec!["a", "b", "c"]);
    assert_eq!(ids(processor.get_jobs(Some(JobStatus::Queued))), vec!["b", "c"]);
    assert_eq!(ids(processor.get_jobs(Some(JobStatus::Running))), vec!["a"]);
    assert_eq!(ids(processor.get_jobs(Some(JobStatus::Completed))), Vec::<String>::new());
    assert_eq!(ids(processor.get_jobs(Some(JobStatus::Paused))), Vec::<String>::new());
}

#[test]
fn statistics_are_derived() {
    let mut processor = BatchProcessor::new(config(4, 10, 0));
    let empty = processor.get_stats_at(at(5_000));
    assert_eq!(empty.total_jobs, 0);
    assert_eq!(empty.oldest_queued_job_age_seconds, 0);
    assert_eq!(empty.worker_utilization, 0);
    assert_eq!(empty.average_processing_time_ms, 0);

    processor
        .submit_job(BatchJob::with_id(
            "old".to_string(),
            JobType::DataCleanup { older_than_days: 1, preserve_important: false },
            JobPriority::Normal,
            at(1_000),
        ))
        .unwrap();
    processor
        .submit_job(BatchJob::with_id(
            "new".to_string(),
            JobType::DataCleanup { older_than_days: 1, preserve_important: false },
            JobPriority::Normal,
            at(4_000),
        ))
        .unwrap();
    let stats = processor.get_stats_at(at(8_999));
    assert_eq!(stats.total_jobs, 2);
    assert_eq!(stats.queued_jobs, 2);
    assert_eq!(stats.queue_length, 2);
    assert_eq!(stats.oldest_queued_job_age_seconds, 7);
    // a clock that reads earlier than the creation gives age zero
    assert_eq!(processor.get_stats_at(at(0)).oldest_queued_job_age_seconds, 0);

    processor.dispatch_next_at(at(9_000));
    let stats = processor.get_stats_at(at(9_000));
    assert_eq!(stats.running_jobs, 1);
    assert_eq!(stats.queued_jobs, 1);
    assert_eq!(stats.queue_length, 1);
    assert_eq!(stats.worker_utilization, 25);
    assert_eq!(stats.oldest_queued_job_age_seconds, 5);
}

#[test]
fn progress_is_taken_from_running_jobs_only() {
    let mut processor = BatchProcessor::new(config(1, 10, 0));
    processor.submit_job(cleanup_job("a", JobPriority::Normal)).unwrap();
    let mut progress = JobProgress::starting_at(at(3));
    progress.current_step = 2;
    progress.total_steps = 5;
    assert!(!processor.update_job_progress("a", progress.clone()));
    assert_eq!(processor.get_job_status("a").unwrap().progress.current_step, 0);
    processor.dispatch_next_at(at(1));
    assert!(processor.update_job_progress("a", progress));
    let stored = processor.get_job_status("a").unwrap();
    assert_eq!(stored.progress.current_step, 2);
    assert_eq!(stored.progress.total_steps, 5);
    assert_eq!(stored.progress.last_update, at(3));
    assert!(!processor.update_job_progress("zzz", JobProgress::default()));
}

#[test]
fn job_progress_formulas() {
    let mut job = cleanup_job("a", JobPriority::Normal);
    job.started_at = Some(at(10_000));
    job.update_progress_at(25, 200, "item 25".to_string(), at(20_000));
    assert_eq!(job.progress.items_processed, 25);
    assert_eq!(job.progress.total_items, 200);
    assert_eq!(job.progress.current_item, "item 25");
    assert_eq!(job.progress.percentage, 12); // 25 * 100 / 200 = 12.5
    assert_eq!(job.progress.throughput_items_per_second, 2); // 25 / 10 = 2.5
    assert_eq!(job.progress.estimated_remaining_seconds, 70); // 175 * 10 / 25
    assert_eq!(job.progress.last_update, at(20_000));

    // less than a second elapsed: throughput and estimate stay
    job.update_progress_at(30, 200, "item 30".to_string(), at(10_999));
    assert_eq!(job.progress.percentage, 15);
    assert_eq!(job.progress.throughput_items_per_second, 2);
    assert_eq!(job.progress.estimated_remaining_seconds, 70);

    // nothing to do: zero percent
    job.update_progress_at(0, 0, "".to_string(), at(30_000));
    assert_eq!(job.progress.percentage, 0);
    assert_eq!(job.progress.estimated_remaining_seconds, 70);

    // more done than planned: nothing remains
    job.update_progress_at(300, 200, "x".to_string(), at(40_000));
    assert_eq!(job.progress.percentage, 150);
    assert_eq!(job.progress.throughput_items_per_second, 10);
    assert_eq!(job.progress.estimated_remaining_seconds, 0);

    // without a start time the creation time counts
    let mut fresh = cleanup_job("b", JobPriority::Normal);
    fresh.update_progress_at(1, 4, "one".to_string(), at(8_000));
    assert_eq!(fresh.progress.percentage, 25);
    assert_eq!(fresh.progress.throughput_items_per_second, 0); // 1 / 8
    assert_eq!(fresh.progress.estimated_remaining_seconds, 24); // 3 * 8 / 1

    fresh.update_progress(2, 4, "two".to_string());
    assert_eq!(fresh.progress.percentage, 50);
    assert!(fresh.progress.last_update.millis > 1_500_000_000_000);
}

#[test]
fn metadata_keeps_one_value_per_key() {
    let job = cleanup_job("a", JobPriority::Normal)
        .with_metadata("owner".to_string(), "ann".to_string())
        .with_metadata("room".to_string(), "7".to_string())
        .with_metadata("owner".to_string(), "bob".to_string());
    assert_eq!(
        job.metadata,
        vec![("owner".to_string(), "bob".to_string()), ("room".to_string(), "7".to_string())]
    );
}

#[test]
fn readiness_looks_at_the_first_record_of_each_dependency() {
    let mut done = cleanup_job("a", JobPriority::Normal);
    done.status = JobStatus::Completed;
    let running = {
        let mut job = cleanup_job("b", JobPriority::Normal);
        job.status = JobStatus::Running;
        job
    };
    let jobs = vec![done, running];
    let free = cleanup_job("x", JobPriority::Normal);
    assert!(free.is_ready_to_run(&jobs));
    assert!(free.is_ready_to_run(&Vec::new()));
    let on_a = cleanup_job("y", JobPriority::Normal).with_dependencies(vec!["a".to_string()]);
    assert!(on_a.is_ready_to_run(&jobs));
    assert!(!on_a.is_ready_to_run(&Vec::new()));
    let on_both = cleanup_job("z", JobPriority::Normal)
        .with_dependencies(vec!["a".to_string(), "b".to_string()]);
    assert!(!on_both.is_ready_to_run(&jobs));
    let mut started = cleanup_job("w", JobPriority::Normal);
    started.status = JobStatus::Running;
    assert!(!started.is_ready_to_run(&jobs));
}

#[test]
fn status_and_priority_helpers() {
    assert!(JobStatus::Completed.is_terminal());
    assert!(JobStatus::Failed.is_terminal());
    assert!(JobStatus::Cancelled.is_terminal());
    assert!(!JobStatus::Queued.is_terminal());
    assert!(!JobStatus::Running.is_terminal());
    assert!(!JobStatus::Paused.is_terminal());
    assert_eq!(JobPriority::Low.value(), 1);
    assert_eq!(JobPriority::Normal.value(), 2);
    assert_eq!(JobPriority::High.value(), 3);
    assert_eq!(JobPriority::Critical.value(), 4);
    assert!(JobPriority::Critical > JobPriority::High);
    assert!(JobPriority::Normal > JobPriority::Low);
}

#[test]
fn timestamps_measure_whole_units() {
    assert_eq!(at(2_999).millis_since(at(1_000)), 1_999);
    assert_eq!(at(2_999).seconds_since(at(1_000)), 1);
    assert_eq!(at(1_000).seconds_since(at(2_999)), 0);
    assert_eq!(at(i64::MAX).millis_since(at(i64::MIN)), u64::MAX);
    assert!(at(0).older_than_seconds(at(1_001), 1));
    assert!(!at(0).older_than_seconds(at(1_000), 1));
    assert!(at(0).older_than_hours(at(3_600_001), 1));
    assert!(!at(0).older_than_hours(at(3_600_000), 1));
    assert!(!at(i64::MAX).older_than_seconds(at(i64::MAX), u64::MAX));
}

#[test]
fn success_messages_name_the_work_done() {
    let sessions = vec!["s1".to_string(), "s2".to_string(), "s3".to_string()];
    assert_eq!(
        JobType::DataExport {
            session_ids: sessions.clone(),
            export_format: "CSV".to_string(),
            output_path: "/tmp/export.csv".to_string(),
        }
        .success_message(),
        "Exported 3 sessions to /tmp/export.csv"
    );
    assert_eq!(
        JobType::DataAnalysis {
            session_ids: vec![],
            analysis_type: "gait".to_string(),
            parameters: vec![("window".to_string(), "5".to_string())],
        }
        .success_message(),
        "Analyzed 0 sessions with gait"
    );
    assert_eq!(
        JobType::DataValidation {
            session_ids: (0..12).map(|i| i.to_string()).collect(),
            validation_rules: vec![],
        }
        .success_message(),
        "Validated 12 sessions"
    );
    assert_eq!(
        JobType::DataCleanup { older_than_days: 30, preserve_important: true }.success_message(),
        "Cleaned up data older than 30 days"
    );
    assert_eq!(
        JobType::BufferOptimization {
            device_ids: vec!["a".to_string()],
            optimization_type: "compact".to_string(),
        }
        .success_message(),
        "Optimized 1 device buffers"
    );
    assert_eq!(
        JobType::BackupOperation {
            backup_type: "full".to_string(),
            include_sessions: true,
            include_config: false,
        }
        .success_message(),
        "Created full backup"
    );
    assert_eq!(
        JobType::ReportGeneration {
            report_type: "weekly".to_string(),
            time_range: gait_monitor::batch_processing::job::TimeRange { start: at(0), end: at(7) },
            recipients: sessions,
        }
        .success_message(),
        "Generated weekly report for 3 recipients"
    );
}

#[test]
fn timeouts_are_enforced_for_all_running_jobs() {
    let mut processor = BatchProcessor::new(config(3, 10, 0));
    processor.submit_job(cleanup_job("short", JobPriority::High).with_timeout(1)).unwrap();
    processor.submit_job(cleanup_job("long", JobPriority::Normal).with_timeout(100)).unwrap();
    processor.submit_job(cleanup_job("none", JobPriority::Low).with_timeout(0)).unwrap();
    for _ in 0..3 {
        processor.dispatch_next_at(at(0));
    }
    assert_eq!(processor.enforce_timeouts_at(at(0)), Vec::<String>::new());
    assert_eq!(processor.enforce_timeouts_at(at(1_000)), vec!["none"]);
    assert_eq!(processor.enforce_timeouts_at(at(1_001)), vec!["short"]);
    assert_eq!(processor.enforce_timeouts_at(at(1_001)), Vec::<String>::new());
    assert_eq!(processor.get_stats_at(at(1_001)).running_jobs, 1);
    assert_eq!(processor.get_stats_at(at(1_001)).failed_jobs, 2);
    assert_eq!(processor.enforce_timeouts_at(at(100_001)), vec!["long"]);
    assert_eq!(processor.get_job_status("long").unwrap().error_message, Some("Job timed out".to_string()));
    assert_eq!(processor.enforce_timeouts(), Vec::<String>::new());
}
