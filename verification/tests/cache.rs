use gait_monitor::cache::CacheEntry;
use gait_monitor::cache::generate_hash;
use gait_monitor::cache::CacheKey;
use gait_monitor::text::decimal_text;
use gait_monitor::text::number_text;
use gait_monitor::time::Timestamp;

#[test]
fn cache_key_text() {
    assert_eq!(CacheKey::SessionData("s1".to_string()).to_string(), "session:s1");
    assert_eq!(CacheKey::GaitData("dev".to_string(), "abc".to_string()).to_string(), "gait:dev:abc");
    assert_eq!(CacheKey::AnalyticsResult("h".to_string()).to_string(), "analytics:h");
    assert_eq!(CacheKey::ExportData("h".to_string()).to_string(), "export:h");
    assert_eq!(CacheKey::SystemMetrics("cpu".to_string()).to_string(), "metrics:cpu");
    assert_eq!(CacheKey::DeviceBuffer("d".to_string()).to_string(), "buffer:d");
    assert_eq!(CacheKey::ConfigData("ui".to_string()).to_string(), "config:ui");
    assert_eq!(CacheKey::ValidationResult("".to_string()).to_string(), "validation:");
}

#[test]
fn cache_entry_expires_after_its_time_to_live() {
    let created = Timestamp::from_millis(1_000);
    let entry = CacheEntry::new_at(vec![1u8, 2, 3], Some(10), created);
    assert_eq!(entry.access_count, 1);
    assert_eq!(entry.created_at, created);
    assert_eq!(entry.last_accessed, created);
    assert_eq!(entry.size_bytes, std::mem::size_of::<Vec<u8>>());
    assert!(!entry.is_expired_at(Timestamp::from_millis(1_000)));
    assert!(!entry.is_expired_at(Timestamp::from_millis(1_010)));
    assert!(entry.is_expired_at(Timestamp::from_millis(1_011)));
    assert!(!entry.is_expired_at(Timestamp::from_millis(5)));
}

#[test]
fn cache_entry_without_time_to_live_never_expires() {
    let entry = CacheEntry::new("data".to_string(), None);
    assert!(!entry.is_expired());
    assert!(!entry.is_expired_at(Timestamp::from_millis(i64::MAX)));
    let lasting = CacheEntry::new(7u32, Some(u64::MAX));
    assert!(!lasting.is_expired());
}

#[test]
fn cache_entry_access_counts() {
    let mut entry = CacheEntry::new_at(5u32, None, Timestamp::from_millis(0));
    assert_eq!(*entry.access_at(Timestamp::from_millis(40)), 5);
    assert_eq!(entry.access_count, 2);
    assert_eq!(entry.last_accessed, Timestamp::from_millis(40));
    assert_eq!(entry.created_at, Timestamp::from_millis(0));
    assert_eq!(*entry.access(), 5);
    assert_eq!(entry.access_count, 3);
}

#[test]
fn numbers_in_hexadecimal_and_decimal() {
    assert_eq!(number_text(0, 16), "0");
    assert_eq!(number_text(9, 16), "9");
    assert_eq!(number_text(10, 16), "a");
    assert_eq!(number_text(255, 16), "ff");
    assert_eq!(number_text(4096, 16), "1000");
    assert_eq!(number_text(0xdead_beef, 16), "deadbeef");
    assert_eq!(number_text(u64::MAX, 16), "ffffffffffffffff");
    assert_eq!(number_text(5, 2), "101");
    assert_eq!(decimal_text(0), "0");
    assert_eq!(decimal_text(7), "7");
    assert_eq!(decimal_text(10), "10");
    assert_eq!(decimal_text(1_000), "1000");
    assert_eq!(decimal_text(u64::MAX), "18446744073709551615");
}

#[test]
fn generated_hash_is_hexadecimal() {
    let hash = generate_hash(&"gait data");
    assert!(!hash.is_empty() && hash.len() <= 16);
    assert!(hash.chars().all(|c| c.is_ascii_digit() || ('a'..='f').contains(&c)));
    assert!(hash == "0" || !hash.starts_with('0'));
    assert_eq!(generate_hash(&"gait data"), hash);
    assert_ne!(generate_hash(&"other data"), hash);
    assert_eq!(u64::from_str_radix(&hash, 16).map(|value| format!("{:x}", value)), Ok(hash));
}
