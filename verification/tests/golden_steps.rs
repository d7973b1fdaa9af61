use dev_fixtures::golden::{update_mode_enabled, CompareStep, Golden, Snapshot, SnapshotWrite};
use dev_fixtures::report::Verdict;

#[test]
fn smoke_golden_first_run_creates_then_matches() {
    let g = Golden::new("snap.txt");
    // First run: no snapshot on disk, so it is written and the check is skipped.
    let first = match g.decide("greet", "hello\n", &Snapshot::Missing, false) {
        CompareStep::Write(purpose) => {
            assert_eq!(purpose, SnapshotWrite::Create);
            g.after_write("greet", "hello\n", purpose, Ok(()))
        }
        CompareStep::Done(_) => panic!("a missing snapshot is written first"),
    };
    assert!(matches!(first.verdict, Verdict::Skip));
    // Second run: the snapshot now holds what was written.
    let second = match g.decide("greet", "hello\n", &Snapshot::Stored("hello\n".to_string()), false) {
        CompareStep::Done(c) => c,
        CompareStep::Write(_) => panic!("a matching snapshot is not rewritten"),
    };
    assert!(matches!(second.verdict, Verdict::Pass));
}

#[test]
fn update_mode_needs_a_non_empty_value() {
    assert!(!update_mode_enabled(None));
    assert!(!update_mode_enabled(Some("")));
    assert!(update_mode_enabled(Some("1")));
    assert!(update_mode_enabled(Some("no")));
}

fn binary_outcome(
    stored: dev_fixtures::golden::Snapshot<Vec<u8>>,
    update: bool,
    written: Result<(), String>,
) -> dev_fixtures::report::Check {
    let g = dev_fixtures::golden::BinaryGolden::new("snap.bin");
    match g.decide("frame", &[1u8, 2, 3], &stored, update) {
        CompareStep::Done(c) => c,
        CompareStep::Write(purpose) => g.after_write("frame", &[1u8, 2, 3], purpose, written),
    }
}

#[test]
fn binary_compare_outcomes() {
    let pass = binary_outcome(Snapshot::Stored(vec![1, 2, 3]), true, Err("x".to_string()));
    assert_eq!(pass.verdict, Verdict::Pass);
    let created = binary_outcome(Snapshot::Missing, false, Ok(()));
    assert_eq!(created.verdict, Verdict::Skip);
    assert!(created.has_tag("created") && created.has_tag("binary"));
    let not_created = binary_outcome(Snapshot::Missing, false, Err("ro".to_string()));
    assert_eq!(not_created.verdict, Verdict::Fail);
    assert!(not_created.has_tag("io_error") && not_created.has_tag("regression"));
    let updated = binary_outcome(Snapshot::Stored(vec![9]), true, Ok(()));
    assert!(updated.verdict == Verdict::Skip && updated.has_tag("updated"));
    let mismatch = binary_outcome(Snapshot::Stored(vec![9]), false, Ok(()));
    assert_eq!(mismatch.verdict, Verdict::Fail);
    assert!(!mismatch.has_tag("io_error") && mismatch.has_tag("regression"));
    let unreadable = binary_outcome(Snapshot::Unreadable("denied".to_string()), false, Ok(()));
    assert!(unreadable.verdict == Verdict::Fail && unreadable.has_tag("io_error"));
}
