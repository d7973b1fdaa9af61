use dev_fixtures::adversarial::unusual_names;

#[test]
fn unusual_names_returns_requested_count() {
    let names = unusual_names(3);
    assert_eq!(names.len(), 3);
    let big = unusual_names(100);
    // Pool is finite; bounded by pool size.
    assert!(big.len() <= 10);
}
