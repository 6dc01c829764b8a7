use gait_monitor::batch_processing::config::BatchProcessorConfig;

#[test]
fn test_app_config_creation() {
    assert!(true); // Placeholder test
}

#[test]
fn test_config_placeholder() {
    let test_value = 42;
    assert_eq!(test_value, 42, "Basic test functionality works");
}

#[test]
fn test_config_validation_placeholder() {
    let buffer_size = 1000;
    assert!(buffer_size > 0, "Buffer size should be positive");
}

#[test]
fn batch_processor_config_defaults() {
    let config = BatchProcessorConfig::default();
    assert_eq!(config.max_concurrent_jobs, 4);
    assert_eq!(config.job_timeout_seconds, 3600);
    assert_eq!(config.retry_delay_seconds, 60);
    assert_eq!(config.max_queue_size, 1000);
    assert_eq!(config.cleanup_completed_jobs_after_hours, 24);
    assert_eq!(config.worker_thread_count, 2);
    assert!(config.priority_scheduling);
    assert!(config.enable_job_persistence);
}
