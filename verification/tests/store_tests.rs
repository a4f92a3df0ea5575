use watchdogfs::digest::calculate_checksum;
use watchdogfs::store::{baseline_filename, load_or_generate, StoreError, StoreOutcome};

fn reads(list: &[(&str, Option<&[u8]>)]) -> Vec<(String, Option<Vec<u8>>)> {
    list.iter()
        .map(|(p, c)| (p.to_string(), c.map(|b| b.to_vec())))
        .collect()
}

#[test]
fn generate_then_load_is_idempotent() {
    // First call: no persisted file — a baseline is generated and its text
    // handed back for writing. Second call on the unchanged filesystem
    // finds that text and loads the very same baseline.
    let r = reads(&[("/tmp/t/a", Some(b"one")), ("/tmp/t/b", Some(b"two"))]);
    let (first, text) = match load_or_generate(None, &r).unwrap() {
        StoreOutcome::Generated(b, t) => (b, t),
        _ => panic!("expected a generated baseline"),
    };
    let second = match load_or_generate(Some(&text), &r).unwrap() {
        StoreOutcome::Loaded(b) => b,
        _ => panic!("expected the persisted baseline to be loaded"),
    };
    assert_eq!(first.len(), second.len());
    for p in ["/tmp/t/a", "/tmp/t/b"] {
        assert_eq!(first.get(&p.to_string()), second.get(&p.to_string()));
    }
    assert_eq!(
        second.get(&"/tmp/t/a".to_string()).unwrap(),
        &calculate_checksum(&b"one".to_vec())
    );
}

#[test]
fn persisted_file_wins_over_current_content() {
    // The persisted baseline is the source of truth even when the files
    // have changed since; re-hashing happens in the worker, not here.
    let text = "{\n  \"/tmp/t/a\": \"0123\"\n}".to_string();
    let r = reads(&[("/tmp/t/a", Some(b"different now"))]);
    match load_or_generate(Some(&text), &r).unwrap() {
        StoreOutcome::Loaded(b) => {
            assert_eq!(b.get(&"/tmp/t/a".to_string()).unwrap(), "0123");
        }
        _ => panic!("expected the persisted baseline to be loaded"),
    }
}

#[test]
fn malformed_persisted_file_errors() {
    let text = "not json at all".to_string();
    match load_or_generate(Some(&text), &reads(&[])) {
        Err(StoreError::Malformed) => (),
        _ => panic!("expected a parse failure"),
    }
}

#[test]
fn unreadable_watch_path_fails_generation() {
    // A watch path missing at start fails baseline generation for this job
    // only; the error names the path.
    let r = reads(&[("/tmp/t/a", Some(b"one")), ("/tmp/t/gone", None)]);
    match load_or_generate(None, &r) {
        Err(StoreError::Unreadable { path }) => assert_eq!(path, "/tmp/t/gone"),
        _ => panic!("expected a read failure"),
    }
}

#[test]
fn baseline_filename_is_canonical() {
    assert_eq!(baseline_filename(&"etc".to_string()), "baseline_etc.json");
}
