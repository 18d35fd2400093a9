use fleet_attention::text::{same_chars, same_chars_ascii_ci};

#[test]
fn exact_label_comparison() {
    assert!(same_chars("coding", "coding"));
    assert!(!same_chars("Coding", "coding"));
    assert!(!same_chars("codin", "coding"));
    assert!(same_chars("", ""));
    assert!(same_chars("héllo", "héllo"));
}

#[test]
fn ascii_case_insensitive_comparison() {
    assert!(same_chars_ascii_ci("HiGh", "high"));
    assert!(same_chars_ascii_ci("high", "high"));
    assert!(!same_chars_ascii_ci("hig", "high"));
    assert!(!same_chars_ascii_ci("HIGH!", "high"));
    assert!(!same_chars_ascii_ci("[", "{"));
}
