use watchdogfs::baseline::{generate, Baseline};
use watchdogfs::digest::calculate_checksum;

fn reads(list: &[(&str, Option<&[u8]>)]) -> Vec<(String, Option<Vec<u8>>)> {
    list.iter()
        .map(|(p, c)| (p.to_string(), c.map(|b| b.to_vec())))
        .collect()
}

#[test]
fn baseline_two_files() {
    let paths = vec!["a.txt".to_string(), "b.txt".to_string()];
    let baseline = generate(&reads(&[("a.txt", Some(b"foo")), ("b.txt", Some(b"bar"))])).unwrap();
    assert_eq!(baseline.len(), 2);
    // Ensure keys match
    assert!(baseline.get(&paths[0]).is_some());
    assert!(baseline.get(&paths[1]).is_some());
    assert_eq!(
        baseline.get(&paths[0]).unwrap(),
        &calculate_checksum(&b"foo".to_vec())
    );
    assert_eq!(
        baseline.get(&paths[1]).unwrap(),
        &calculate_checksum(&b"bar".to_vec())
    );
}

#[test]
fn empty_watch_paths_give_empty_baseline() {
    let baseline = generate(&reads(&[])).unwrap();
    assert_eq!(baseline.len(), 0);
}

#[test]
fn unreadable_path_aborts_generation() {
    let err = generate(&reads(&[
        ("a.txt", Some(b"foo")),
        ("missing", None),
        ("late", None),
    ]))
    .unwrap_err();
    assert_eq!(err.path, "missing");
}

#[test]
fn set_replaces_existing_entry() {
    let mut b = Baseline::new();
    let k = "k".to_string();
    b.set(&k, &"one".to_string());
    b.set(&k, &"two".to_string());
    assert_eq!(b.len(), 1);
    assert_eq!(b.get(&k).unwrap(), "two");
    assert!(b.get(&"absent".to_string()).is_none());
}

#[test]
fn repeated_path_keeps_last_content() {
    let baseline =
        generate(&reads(&[("a", Some(b"one")), ("a", Some(b"two"))])).unwrap();
    assert_eq!(baseline.len(), 1);
    assert_eq!(
        baseline.get(&"a".to_string()).unwrap(),
        &calculate_checksum(&b"two".to_vec())
    );
}
