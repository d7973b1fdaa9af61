use dev_fixtures::report::{Severity, Verdict};
use dev_fixtures::{Fixture, FixtureProducer};
use std::io;

struct OkFixture;
impl Fixture for OkFixture {
    type Output = ();
    fn set_up(&mut self) -> io::Result<()> {
        Ok(())
    }
    fn tear_down(&mut self) -> io::Result<()> {
        Ok(())
    }
}

struct FailingFixture;
impl Fixture for FailingFixture {
    type Output = ();
    fn set_up(&mut self) -> io::Result<()> {
        Err(io::Error::other("boom"))
    }
    fn tear_down(&mut self) -> io::Result<()> {
        Ok(())
    }
}

#[test]
fn set_up_checked_pass_path() {
    let c = OkFixture.set_up_checked("ok");
    assert_eq!(c.verdict, Verdict::Pass);
    assert!(c.has_tag("fixtures"));
}

#[test]
fn set_up_checked_fail_path() {
    let c = FailingFixture.set_up_checked("bad");
    assert_eq!(c.verdict, Verdict::Fail);
    assert!(c.has_tag("setup_failed"));
    assert!(c.has_tag("regression"));
}

#[test]
fn smoke_set_up_checked_carries_tags() {
    let c = OkFixture.set_up_checked("ok");
    assert!(c.has_tag("fixtures"));
    assert!(matches!(c.verdict, Verdict::Pass));
}

#[test]
fn set_up_checked_carries_name_detail_and_message() {
    let ok = OkFixture.set_up_checked("ok");
    assert_eq!(ok.name, "fixtures::ok");
    assert_eq!(ok.detail.as_deref(), Some("set_up succeeded"));
    assert_eq!(ok.severity, None);
    let bad = FailingFixture.set_up_checked("bad");
    assert_eq!(bad.name, "fixtures::bad");
    assert_eq!(bad.severity, Some(Severity::Critical));
    assert_eq!(bad.detail.as_deref(), Some("set_up failed: boom"));
    assert_eq!(bad.tags, vec!["fixtures", "setup_failed", "regression"]);
}

#[test]
fn fixture_producer_failed_setup_yields_fail() {
    let producer = FixtureProducer::new("broken", "0.1.0", || {
        Err(io::Error::new(io::ErrorKind::PermissionDenied, "nope"))
    });
    let outcome = producer.run_lifecycle();
    assert_eq!(outcome, Err("nope".to_string()));
    let check = producer.lifecycle_check(outcome, 0);
    assert_eq!(check.verdict, Verdict::Fail);
    assert_eq!(check.detail.as_deref(), Some("fixture lifecycle failed: nope"));
}

#[test]
fn fixture_producer_clean_run_passes() {
    let producer = FixtureProducer::new("smoke", "0.1.0", || Ok(()));
    assert_eq!(producer.name(), "smoke");
    assert_eq!(producer.subject_version(), "0.1.0");
    let outcome = producer.run_lifecycle();
    assert!(outcome.is_ok());
    let check = producer.lifecycle_check(outcome, 7);
    assert_eq!(check.verdict, Verdict::Pass);
    assert_eq!(check.duration_ms, Some(7));
    assert!(check.has_tag("fixtures"));
}
