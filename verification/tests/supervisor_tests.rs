use watchdogfs::config::{AlertsConfig, Config, JobConfig, WatcherConfig};
use watchdogfs::supervisor::{reconcile, Supervisor};

fn job(paths: &[&str], mode: &str, poll_interval: Option<u64>) -> JobConfig {
    JobConfig {
        watch_paths: paths.iter().map(|s| s.to_string()).collect(),
        ignore_patterns: Vec::new(),
        alerts: AlertsConfig::default(),
        watcher: WatcherConfig {
            mode: mode.to_string(),
            poll_interval,
            debounce_ms: Some(500),
        },
    }
}

fn config(jobs: Vec<(&str, JobConfig)>) -> Config {
    Config {
        jobs: jobs.into_iter().map(|(n, j)| (n.to_string(), j)).collect(),
        self_integrity_path: None,
    }
}

#[test]
fn hot_add_spawns_only_the_new_job() {
    // The file is rewritten to hold jobs A and B: a worker for B is added
    // and A is neither stopped nor restarted.
    let old_cfg = config(vec![("A", job(&["/tmp/t/a"], "inotify", None))]);
    let new_cfg = config(vec![
        ("A", job(&["/tmp/t/a"], "inotify", None)),
        ("B", job(&["/tmp/t/b"], "inotify", None)),
    ]);
    let plan = reconcile(&old_cfg, &new_cfg);
    assert!(plan.remove.is_empty());
    assert!(plan.restart.is_empty());
    assert_eq!(plan.add, vec!["B".to_string()]);
}

#[test]
fn hot_restart_on_change() {
    // A switches from event mode to poll mode with a one-second interval:
    // its worker is stopped and a new one spawned.
    let old_cfg = config(vec![("A", job(&["/tmp/t/a"], "inotify", None))]);
    let new_cfg = config(vec![("A", job(&["/tmp/t/a"], "poll", Some(1)))]);
    let plan = reconcile(&old_cfg, &new_cfg);
    assert!(plan.remove.is_empty());
    assert_eq!(plan.restart, vec!["A".to_string()]);
    assert!(plan.add.is_empty());
}

#[test]
fn removed_job_is_stopped() {
    let old_cfg = config(vec![
        ("A", job(&["/a"], "inotify", None)),
        ("B", job(&["/b"], "poll", Some(5))),
    ]);
    let new_cfg = config(vec![("A", job(&["/a"], "inotify", None))]);
    let plan = reconcile(&old_cfg, &new_cfg);
    assert_eq!(plan.remove, vec!["B".to_string()]);
    assert!(plan.restart.is_empty());
    assert!(plan.add.is_empty());
}

#[test]
fn unchanged_jobs_are_left_alone() {
    let old_cfg = config(vec![("A", job(&["/a"], "inotify", None))]);
    let new_cfg = config(vec![("A", job(&["/a"], "inotify", None))]);
    let plan = reconcile(&old_cfg, &new_cfg);
    assert!(plan.remove.is_empty());
    assert!(plan.restart.is_empty());
    assert!(plan.add.is_empty());
}

#[test]
fn watch_path_change_forces_restart() {
    let old_cfg = config(vec![("A", job(&["/a"], "inotify", None))]);
    let new_cfg = config(vec![("A", job(&["/a", "/b"], "inotify", None))]);
    let plan = reconcile(&old_cfg, &new_cfg);
    assert_eq!(plan.restart, vec!["A".to_string()]);
}

#[test]
fn supervisor_tracks_running_workers() {
    let cfg = config(vec![("A", job(&["/a"], "inotify", None))]);
    let mut sup = Supervisor::new(cfg);
    let a = "A".to_string();
    let b = "B".to_string();
    assert!(!sup.is_running(&a));
    sup.record_started(&a);
    sup.record_started(&b);
    assert!(sup.is_running(&a));
    assert!(sup.is_running(&b));
    sup.record_stopped(&a);
    assert!(!sup.is_running(&a));
    assert!(sup.is_running(&b));
}
