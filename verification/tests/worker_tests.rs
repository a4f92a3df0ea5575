use watchdogfs::baseline::generate;
use watchdogfs::digest::calculate_checksum;
use watchdogfs::worker::{parse_mode, Mode, Phase, Worker};

fn baseline_of(entries: &[(&str, &[u8])]) -> watchdogfs::baseline::Baseline {
    let reads: Vec<(String, Option<Vec<u8>>)> = entries
        .iter()
        .map(|(p, c)| (p.to_string(), Some(c.to_vec())))
        .collect();
    generate(&reads).unwrap()
}

#[test]
fn mode_strings() {
    assert_eq!(parse_mode(&"inotify".to_string()), Mode::Event);
    assert_eq!(parse_mode(&"poll".to_string()), Mode::Poll);
    assert_eq!(parse_mode(&"fsevents".to_string()), Mode::Unknown);
}

#[test]
fn unknown_mode_stops_on_arm() {
    let mut w = Worker::new(Mode::Unknown, baseline_of(&[]), 500);
    assert_eq!(w.phase(), Phase::Starting);
    w.arm();
    assert_eq!(w.phase(), Phase::Stopped);
}

#[test]
fn single_edit_event_mode() {
    // Job `etc` watches /tmp/t/a whose accepted content was "one"; the file
    // now reads "two": exactly one dispatch, old/new digests as expected,
    // and the baseline holds the new digest afterwards.
    let path = "/tmp/t/a".to_string();
    let mut w = Worker::new(Mode::Event, baseline_of(&[("/tmp/t/a", b"one")]), 500);
    w.arm();
    assert_eq!(w.phase(), Phase::Armed);
    assert!(w.observe_precheck(&path, 1_000));
    let alert = w.apply_digest(&path, &calculate_checksum(&b"two".to_vec())).unwrap();
    assert_eq!(alert.path, "/tmp/t/a");
    assert_eq!(alert.old, calculate_checksum(&b"one".to_vec()));
    assert_eq!(alert.new, calculate_checksum(&b"two".to_vec()));
    assert_eq!(
        w.baseline_ref().get(&path).unwrap(),
        &calculate_checksum(&b"two".to_vec())
    );
}

#[test]
fn debounce_coalesces() {
    // Two writes 100 ms apart with a 500 ms window: only the first
    // observation is accepted, and by the time its digest is read the file
    // already holds the later content — exactly one dispatch, new digest
    // that of "three".
    let path = "/tmp/t/a".to_string();
    let mut w = Worker::new(Mode::Event, baseline_of(&[("/tmp/t/a", b"one")]), 500);
    w.arm();
    assert!(w.observe_precheck(&path, 1_000));
    let alert = w.apply_digest(&path, &calculate_checksum(&b"three".to_vec())).unwrap();
    assert_eq!(alert.new, calculate_checksum(&b"three".to_vec()));
    // the second write's event, 100 ms later, is suppressed
    assert!(!w.observe_precheck(&path, 1_100));
    // well clear of the window it is accepted again, but the content is
    // unchanged, so nothing is dispatched
    assert!(w.observe_precheck(&path, 2_000));
    assert!(w
        .apply_digest(&path, &calculate_checksum(&b"three".to_vec()))
        .is_none());
}

#[test]
fn unknown_path_is_ignored() {
    // The job watches /tmp/t/a only; an event arrives for /tmp/t/b: no
    // dispatch, baseline unchanged.
    let known = "/tmp/t/a".to_string();
    let other = "/tmp/t/b".to_string();
    let mut w = Worker::new(Mode::Event, baseline_of(&[("/tmp/t/a", b"one")]), 500);
    w.arm();
    assert!(w.observe_precheck(&other, 1_000));
    assert!(w.apply_digest(&other, &calculate_checksum(&b"x".to_vec())).is_none());
    assert_eq!(w.baseline_ref().len(), 1);
    assert_eq!(
        w.baseline_ref().get(&known).unwrap(),
        &calculate_checksum(&b"one".to_vec())
    );
    assert!(w.baseline_ref().get(&other).is_none());
}

#[test]
fn no_dispatch_after_stop() {
    let path = "/tmp/t/a".to_string();
    let mut w = Worker::new(Mode::Poll, baseline_of(&[("/tmp/t/a", b"one")]), 0);
    w.arm();
    w.request_stop();
    assert_eq!(w.phase(), Phase::Stopping);
    assert!(!w.observe_precheck(&path, 5_000));
    assert!(w.apply_digest(&path, &calculate_checksum(&b"two".to_vec())).is_none());
    w.confirm_stopped();
    assert_eq!(w.phase(), Phase::Stopped);
    assert!(!w.observe_precheck(&path, 9_000));
}

#[test]
fn equal_digest_updates_nothing() {
    let path = "/tmp/t/a".to_string();
    let mut w = Worker::new(Mode::Poll, baseline_of(&[("/tmp/t/a", b"one")]), 0);
    w.arm();
    assert!(w.observe_precheck(&path, 1));
    assert!(w.apply_digest(&path, &calculate_checksum(&b"one".to_vec())).is_none());
    assert_eq!(
        w.baseline_ref().get(&path).unwrap(),
        &calculate_checksum(&b"one".to_vec())
    );
}

#[test]
fn empty_baseline_never_dispatches() {
    // A job with an empty watch list has an empty baseline and a worker
    // that never dispatches.
    let mut w = Worker::new(Mode::Poll, baseline_of(&[]), 0);
    w.arm();
    for (i, p) in ["a", "b", "c"].iter().enumerate() {
        let path = p.to_string();
        assert!(w.observe_precheck(&path, i as u64));
        assert!(w.apply_digest(&path, &calculate_checksum(&b"x".to_vec())).is_none());
    }
    assert_eq!(w.baseline_ref().len(), 0);
}
