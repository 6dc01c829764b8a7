use gait_monitor::path_manager::PathConfig;

#[test]
fn test_filename_sanitization() {
    let test_cases = vec![
        ("valid_filename.txt", "valid_filename.txt"),
        ("file with spaces.txt", "file with spaces.txt"),
        ("file/with\\dangerous:chars?.txt", "file_with_dangerous_chars_.txt"),
        ("file<with>more|dangerous\"chars*.txt", "file_with_more_dangerous_chars_.txt"),
    ];

    for (input, expected) in test_cases {
        let result = PathConfig::sanitize_filename(input);
        assert_eq!(result, expected, "Sanitization failed for input: {}", input);
    }
}

#[test]
fn sanitization_trims_and_replaces_control_characters() {
    assert_eq!(PathConfig::sanitize_filename("  report.csv  "), "report.csv");
    assert_eq!(PathConfig::sanitize_filename("\u{a0}a b\u{3000}"), "a b");
    assert_eq!(PathConfig::sanitize_filename("a\tb\n"), "a_b_");
    assert_eq!(PathConfig::sanitize_filename("\u{7f}x\u{85}"), "_x_");
    assert_eq!(PathConfig::sanitize_filename("   "), "");
    assert_eq!(PathConfig::sanitize_filename(""), "");
    assert_eq!(PathConfig::sanitize_filename("gr\u{fc}n.txt"), "gr\u{fc}n.txt");
}

fn sample_config() -> PathConfig {
    PathConfig {
        app_data_dir: "/data/app".to_string(),
        user_downloads_dir: Some("/home/user/Downloads".to_string()),
        allowed_base_dirs: vec!["/data/app".to_string(), "/home/user/Downloads".to_string()],
    }
}

#[test]
fn default_storage_path_is_sessions_below_app_data() {
    let config = sample_config();
    let path = config.get_default_storage_path();
    assert_eq!(std::path::Path::new(&path), std::path::Path::new("/data/app").join("sessions"));
    assert!(path.ends_with("sessions"));
    assert!(path.starts_with(&config.app_data_dir));
    assert_ne!(path, config.app_data_dir);
}

#[test]
fn path_is_allowed_below_a_base_directory_only() {
    let config = sample_config();
    assert!(config.is_path_allowed("/data/app/sessions/a.csv"));
    assert!(config.is_path_allowed("/home/user/Downloads"));
    assert!(!config.is_path_allowed("/data/application/a.csv"));
    assert!(!config.is_path_allowed("/etc/passwd"));
    assert!(!config.is_path_allowed("/data"));
    let none = PathConfig {
        app_data_dir: "/data/app".to_string(),
        user_downloads_dir: None,
        allowed_base_dirs: vec![],
    };
    assert!(!none.is_path_allowed("/data/app/a.csv"));
}

#[test]
fn safe_download_path_prefers_usable_downloads() {
    let config = sample_config();
    let expected = std::path::Path::new("/home/user/Downloads").join("a_b.csv");
    assert_eq!(
        config.get_safe_download_path("a/b.csv", true).map(std::path::PathBuf::from),
        Some(expected)
    );
    let fallback = std::path::Path::new("/data/app").join("downloads").join("a_b.csv");
    assert_eq!(
        config.get_safe_download_path("a/b.csv", false).map(std::path::PathBuf::from),
        Some(fallback.clone())
    );
    let none = PathConfig {
        app_data_dir: "/data/app".to_string(),
        user_downloads_dir: None,
        allowed_base_dirs: vec![],
    };
    assert_eq!(
        none.get_safe_download_path("a/b.csv", true).map(std::path::PathBuf::from),
        Some(fallback)
    );
}
