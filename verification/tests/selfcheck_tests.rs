use watchdogfs::digest::calculate_checksum;
use watchdogfs::selfcheck::verify;
use watchdogfs::config::{job_config_eq, JobConfig, WatcherConfig};

#[test]
fn mismatched_hash_errors() {
    let recorded = "abcdef123456\n".to_string();
    let err = verify(&recorded, &b"some binary".to_vec()).unwrap_err();
    let msg = err.message();
    assert!(
        msg.contains("self-integrity failure"),
        "unexpected message: {}",
        msg
    );
    assert_eq!(err.expected, "abcdef123456");
}

#[test]
fn matching_hash_passes() {
    let exe = b"some binary".to_vec();
    let recorded = format!("  {}\n", calculate_checksum(&exe));
    assert!(verify(&recorded, &exe).is_ok());
}

#[test]
fn configuration_defaults() {
    let w = WatcherConfig::default();
    assert_eq!(w.mode, "inotify");
    assert_eq!(w.poll_interval, Some(5));
    assert_eq!(w.debounce_ms, Some(500));
    assert_eq!(w.poll_interval_secs(), 5);
    assert_eq!(w.debounce_window_ms(), 500);
    let j1 = JobConfig::default();
    let j2 = JobConfig::default();
    assert!(job_config_eq(&j1, &j2));
    let mut j3 = JobConfig::default();
    j3.watcher.mode = "poll".to_string();
    assert!(!job_config_eq(&j1, &j3));
}

#[test]
fn effective_settings_use_configured_values() {
    let w = WatcherConfig {
        mode: "poll".to_string(),
        poll_interval: Some(0),
        debounce_ms: None,
    };
    // a configured 0 is kept: the poll loop runs without sleeping
    assert_eq!(w.poll_interval_secs(), 0);
    assert_eq!(w.debounce_window_ms(), 500);
}
