use watchdogfs::digest::{calculate_checksum, to_hex};

#[test]
fn checksum_empty_file() {
    let sum = calculate_checksum(&Vec::new());
    // SHA256 of empty content
    assert_eq!(
        sum,
        "e3b0c44298fc1c149afbf4c8996fb924\
         27ae41e4649b934ca495991b7852b855"
    );
}

#[test]
fn checksum_hello_world() {
    let sum = calculate_checksum(&b"hello world".to_vec());
    assert_eq!(
        sum,
        "b94d27b9934d3e08a52e52d7da7dabfa\
         c484efe37a5380ee9088f7ace2efcde9"
    );
}

#[test]
fn checksum_is_64_lowercase_hex_chars() {
    let sum = calculate_checksum(&b"one".to_vec());
    assert_eq!(sum.len(), 64);
    assert!(sum.chars().all(|c| c.is_ascii_hexdigit() && !c.is_ascii_uppercase()));
    // different content, different digest
    assert_ne!(sum, calculate_checksum(&b"two".to_vec()));
}

#[test]
fn hex_rendering_is_exact() {
    let hex: String = to_hex(&vec![0x00u8, 0x0f, 0xa5, 0xff]).into_iter().collect();
    assert_eq!(hex, "000fa5ff");
}
