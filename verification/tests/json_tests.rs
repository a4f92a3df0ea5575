use watchdogfs::baseline::Baseline;
use watchdogfs::json::{parse_baseline, parse_baseline_string, serialize_baseline_string};

fn chars(s: &str) -> Vec<char> {
    s.chars().collect()
}

fn sample(entries: &[(&str, &str)]) -> Baseline {
    let mut b = Baseline::new();
    for (k, v) in entries {
        b.set(&k.to_string(), &v.to_string());
    }
    b
}

#[test]
fn serialize_empty_is_braces() {
    assert_eq!(serialize_baseline_string(&Baseline::new()), "{}");
}

#[test]
fn serialize_is_pretty_printed() {
    let b = sample(&[("/tmp/t/a", "abc"), ("/tmp/t/b", "def")]);
    assert_eq!(
        serialize_baseline_string(&b),
        "{\n  \"/tmp/t/a\": \"abc\",\n  \"/tmp/t/b\": \"def\"\n}"
    );
}

#[test]
fn roundtrip_plain_entries() {
    let b = sample(&[("/etc/passwd", "00ff"), ("/etc/hosts", "a1b2")]);
    let text = serialize_baseline_string(&b);
    let parsed = parse_baseline_string(&text).unwrap();
    assert_eq!(parsed.len(), 2);
    assert_eq!(parsed.get(&"/etc/passwd".to_string()), b.get(&"/etc/passwd".to_string()));
    assert_eq!(parsed.get(&"/etc/hosts".to_string()), b.get(&"/etc/hosts".to_string()));
}

#[test]
fn roundtrip_with_escapes() {
    let wild = "we\"ird\\path\nwith\tcontrol\u{1}chars";
    let b = sample(&[(wild, "cafe"), ("plain", "beef")]);
    let text = serialize_baseline_string(&b);
    let parsed = parse_baseline_string(&text).unwrap();
    assert_eq!(parsed.len(), 2);
    assert_eq!(parsed.get(&wild.to_string()).unwrap(), "cafe");
}

#[test]
fn parse_accepts_whitespace_and_named_escapes() {
    let text = "  {  \"a\\u0041b\" :\t\"x\\n\" , \"c\\/d\" : \"y\" }  ";
    let parsed = parse_baseline(&chars(text)).unwrap();
    assert_eq!(parsed.len(), 2);
    assert_eq!(parsed.get(&"aAb".to_string()).unwrap(), "x\n");
    assert_eq!(parsed.get(&"c/d".to_string()).unwrap(), "y");
}

#[test]
fn parse_rejects_non_objects() {
    assert!(parse_baseline(&chars("")).is_none());
    assert!(parse_baseline(&chars("[]")).is_none());
    assert!(parse_baseline(&chars("{\"a\": 1}")).is_none());
    assert!(parse_baseline(&chars("{\"a\": \"b\"")).is_none());
    assert!(parse_baseline(&chars("{\"a\": \"b\"} trailing")).is_none());
    assert!(parse_baseline(&chars("{\"a\" \"b\"}")).is_none());
}

#[test]
fn parse_keeps_last_value_of_repeated_key() {
    let parsed = parse_baseline(&chars("{\"a\": \"1\", \"a\": \"2\"}")).unwrap();
    assert_eq!(parsed.len(), 1);
    assert_eq!(parsed.get(&"a".to_string()).unwrap(), "2");
}
