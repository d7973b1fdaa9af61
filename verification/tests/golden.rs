use dev_fixtures::golden::{first_diff_offset, line_diff};

#[test]
fn line_diff_marks_added_and_removed() {
    let d = line_diff("a\nb\nc\n", "a\nx\nc\n");
    assert!(d.contains(" a"));
    assert!(d.contains("-b"));
    assert!(d.contains("+x"));
    assert!(d.contains(" c"));
}

#[test]
fn first_diff_offset_handles_equal_and_unequal() {
    assert_eq!(first_diff_offset(&[1, 2, 3], &[1, 2, 3]), 3);
    assert_eq!(first_diff_offset(&[1, 2, 3], &[1, 2, 9]), 2);
    assert_eq!(first_diff_offset(&[], &[]), 0);
    // Different lengths: takes the prefix length.
    assert_eq!(first_diff_offset(&[1, 2], &[1, 2, 3]), 2);
}
