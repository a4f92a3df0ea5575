use watchdogfs::debounce::Debouncer;

#[test]
fn first_observation_is_accepted() {
    let mut d = Debouncer::new(500);
    assert!(d.should_accept(&"/a".to_string(), 10_000));
}

#[test]
fn window_suppresses_repeats() {
    let mut d = Debouncer::new(500);
    let p = "/a".to_string();
    assert!(d.should_accept(&p, 1_000));
    assert!(!d.should_accept(&p, 1_100));
    assert!(!d.should_accept(&p, 1_499));
    assert!(d.should_accept(&p, 1_500));
    assert!(!d.should_accept(&p, 1_900));
}

#[test]
fn paths_are_debounced_independently() {
    let mut d = Debouncer::new(500);
    assert!(d.should_accept(&"/a".to_string(), 1_000));
    assert!(d.should_accept(&"/b".to_string(), 1_001));
    assert!(!d.should_accept(&"/a".to_string(), 1_002));
}

#[test]
fn zero_window_admits_everything() {
    let mut d = Debouncer::new(0);
    let p = "/a".to_string();
    assert!(d.should_accept(&p, 1_000));
    assert!(d.should_accept(&p, 1_000));
    assert!(d.should_accept(&p, 1_001));
}
