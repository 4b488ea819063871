use duskterm::remote_checks::{SizeCheck, WriteCheck};

#[test]
fn write_check_passes_on_matching_read_back() {
    let mut check = WriteCheck::new(3);
    assert!(!check.observe(None, b"hello"));
    assert!(!check.observe(Some(b"hel"), b"hello"));
    assert_eq!(check.last_observed_len, 3);
    assert!(check.observe(Some(b"hello"), b"hello"));
    assert_eq!(check.attempts_left, 0);
}

#[test]
fn write_check_failure_reports_lengths() {
    let mut check = WriteCheck::new(2);
    assert!(!check.observe(Some(b"ab"), b"abcd"));
    assert!(!check.observe(None, b"abcd"));
    assert_eq!(check.attempts_left, 0);
    assert_eq!(
        check.failure(4),
        "Write verification failed after retry: observed length 2, expected length 4".to_string()
    );
    let untouched = WriteCheck::new(0);
    assert_eq!(
        untouched.failure(7),
        "Write verification failed after retry: observed length 0, expected length 7".to_string()
    );
}

#[test]
fn size_check_takes_first_answer() {
    let mut check = SizeCheck::new(3);
    assert_eq!(check.observe(None), None);
    assert_eq!(check.observe(Some(Some(42))), Some(42));
    assert_eq!(check.attempts_left, 1);
    let mut unknown = SizeCheck::new(1);
    assert_eq!(unknown.observe(Some(None)), Some(0));
    assert_eq!(SizeCheck::new(0).failure("/tmp/x"), "Stat Error: /tmp/x".to_string());
}
