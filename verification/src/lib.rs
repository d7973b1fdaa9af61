//! Repeatable test environments, sample data and controlled inputs.
//!
//! The verified core of the library: deterministic generators, the CSV and
//! JSON codecs, snapshot comparison decisions, staged file trees and the
//! checks reported for fixture set-up. Everything that touches the file
//! system, the clock or the environment is done by the caller with the plain
//! values this crate computes.
use vstd::prelude::*;
use vstd::string::StringExecFns;
use vstd::utf8::encode_utf8;
use vstd::string::StrSliceExecFns;

pub mod text;
pub mod mock;
pub mod report;
pub mod golden;
pub mod tree;
pub mod adversarial;

use crate::report::{Check, CheckView, EvidenceView, Verdict, Severity, numeric, well_tagged};

verus! {

/// `std::io::Error`, the error type of a fixture's lifecycle closure.
#[verifier::external_type_specification]
#[verifier::external_body]
pub struct ExIoError(std::io::Error);

/// Builder for a temporary project: the files staged so far, as relative path and bytes.
pub struct TempProjectBuilder {
    files: Vec<(String, Vec<u8>)>,
}

impl View for TempProjectBuilder {
    type V = Seq<(Seq<char>, Seq<u8>)>;

    closed spec fn view(&self) -> Seq<(Seq<char>, Seq<u8>)> {
        self.files@.map_values(|f: (String, Vec<u8>)| (f.0@, f.1@))
    }
}

impl Default for TempProjectBuilder {
    /// A builder with nothing staged.
    fn default() -> (b: TempProjectBuilder)
        ensures
            b@ == Seq::<(Seq<char>, Seq<u8>)>::empty(),
    {
        let b = TempProjectBuilder { files: Vec::new() };
        assert(b@ =~= Seq::<(Seq<char>, Seq<u8>)>::empty());
        b
    }
}

impl TempProjectBuilder {
    fn stage(self, path: String, contents: Vec<u8>) -> (b: TempProjectBuilder)
        ensures
            b@ == self@.push((path@, contents@)),
    {
        let mut b = self;
        let ghost before = b.files@;
        let ghost entry = (path@, contents@);
        b.files.push((path, contents));
        assert(b.files@.map_values(|f: (String, Vec<u8>)| (f.0@, f.1@)) =~= before.map_values(
            |f: (String, Vec<u8>)| (f.0@, f.1@),
        ).push(entry));
        b
    }

    /// Stage a UTF-8 text file at `relative_path` inside the temp project.
    pub fn with_file(self, relative_path: &str, contents: &str) -> (b: TempProjectBuilder)
        ensures
            b@ == self@.push((relative_path@, encode_utf8(contents@))),
    {
        self.stage(relative_path.to_string(), contents.as_bytes_vec())
    }

    /// Stage a binary file at `relative_path` inside the temp project.
    pub fn with_bytes(self, relative_path: &str, contents: Vec<u8>) -> (b: TempProjectBuilder)
        ensures
            b@ == self@.push((relative_path@, contents@)),
    {
        self.stage(relative_path.to_string(), contents)
    }

    /// The staged files, in staging order: relative path and contents.
    pub fn files(&self) -> (fs: &[(String, Vec<u8>)])
        ensures
            fs@.map_values(|f: (String, Vec<u8>)| (f.0@, f.1@)) == self@,
    {
        self.files.as_slice()
    }
}

/// The name under which fixture checks are reported.
pub open spec fn fixture_check_name(name: Seq<char>) -> Seq<char> {
    "fixtures::"@ + name
}

/// The `setup_ok` evidence.
pub open spec fn setup_ok(ok: bool) -> EvidenceView {
    EvidenceView::Numeric { label: "setup_ok"@, value: if ok { 1 } else { 0 } }
}

/// The failing check of a fixture whose set-up failed with `message`.
pub open spec fn failed_setup_check(name: Seq<char>, detail: Seq<char>) -> CheckView {
    CheckView {
        name: fixture_check_name(name),
        verdict: Verdict::Fail,
        severity: Some(Severity::Critical),
        detail: Some(detail),
        duration_ms: None,
        tags: seq!["fixtures"@, "setup_failed"@, "regression"@],
        evidence: seq![setup_ok(false)],
    }
}

/// The check reported for running a fixture's `set_up` under `name`.
pub open spec fn setup_check_spec(name: Seq<char>, outcome: Result<(), Seq<char>>) -> CheckView {
    match outcome {
        Ok(()) => CheckView {
            name: fixture_check_name(name),
            verdict: Verdict::Pass,
            severity: None,
            detail: Some("set_up succeeded"@),
            duration_ms: None,
            tags: seq!["fixtures"@],
            evidence: seq![setup_ok(true)],
        },
        Err(e) => failed_setup_check(name, "set_up failed: "@ + e),
    }
}

/// The check reported for a fixture lifecycle run under `name`.
pub open spec fn lifecycle_check_spec(
    name: Seq<char>,
    outcome: Result<(), Seq<char>>,
    elapsed_ms: u64,
) -> CheckView {
    match outcome {
        Ok(()) => CheckView {
            name: fixture_check_name(name),
            verdict: Verdict::Pass,
            severity: None,
            detail: Some("fixture lifecycle completed cleanly"@),
            duration_ms: Some(elapsed_ms),
            tags: seq!["fixtures"@],
            evidence: seq![
                setup_ok(true),
                EvidenceView::Numeric { label: "elapsed_ms"@, value: elapsed_ms as nat },
            ],
        },
        Err(e) => failed_setup_check(name, "fixture lifecycle failed: "@ + e),
    }
}

/// Maps an outcome's error message to its characters.
pub open spec fn outcome_view(outcome: Result<(), String>) -> Result<(), Seq<char>> {
    match outcome {
        Ok(()) => Ok(()),
        Err(e) => Err(e@),
    }
}

fn one_tag(t: &str) -> (v: Vec<String>)
    ensures
        v.deep_view() == seq![t@],
{
    let mut v: Vec<String> = Vec::new();
    v.push(t.to_string());
    assert(v.deep_view() =~= seq![t@]);
    v
}

fn failed_setup(name: &str, detail: String) -> (c: Check)
    ensures
        c@ == failed_setup_check(name@, detail@),
        well_tagged(c@),
{
    let mut tags: Vec<String> = Vec::new();
    tags.push("fixtures".to_string());
    tags.push("setup_failed".to_string());
    tags.push("regression".to_string());
    let mut full = "fixtures::".to_string();
    full.append(name);
    let c = Check {
        name: full,
        verdict: Verdict::Fail,
        severity: Some(Severity::Critical),
        detail: Some(detail),
        duration_ms: None,
        tags,
        evidence: vec![numeric("setup_ok", 0)],
    };
    assert(c@.tags =~= seq!["fixtures"@, "setup_failed"@, "regression"@]);
    assert(c@.evidence =~= seq![setup_ok(false)]);
    assert(c@.tags[0] == "fixtures"@ && c@.tags[1] == "setup_failed"@ && c@.tags[2]
        == "regression"@);
    c
}

/// The check for running a fixture's `set_up` under `name`, given its outcome (the
/// error's message on failure): `Pass` tagged `fixtures` with `setup_ok = 1`; or
/// `Fail (Critical)` tagged `fixtures`, `setup_failed`, `regression` with `setup_ok = 0`.
pub fn setup_check(name: &str, outcome: Result<(), String>) -> (c: Check)
    ensures
        c@ == setup_check_spec(name@, outcome_view(outcome)),
        well_tagged(c@),
{
    match outcome {
        Ok(()) => {
            let mut full = "fixtures::".to_string();
            full.append(name);
            let c = Check {
                name: full,
                verdict: Verdict::Pass,
                severity: None,
                detail: Some("set_up succeeded".to_string()),
                duration_ms: None,
                tags: one_tag("fixtures"),
                evidence: vec![numeric("setup_ok", 1)],
            };
            assert(c@.evidence =~= seq![setup_ok(true)]);
            assert(c@.tags[0] == "fixtures"@);
            c
        },
        Err(e) => {
            let mut detail = "set_up failed: ".to_string();
            detail.append(e.as_str());
            failed_setup(name, detail)
        },
    }
}

/// A fixture that can be set up and torn down.
///
/// Implementors should make `tear_down` idempotent, and `set_up` followed by
/// `tear_down` should return the system to a clean state.
pub trait Fixture: Sized {
    /// Output produced when the fixture is set up (a path, a handle).
    type Output;

    /// Set the fixture up.
    fn set_up(&mut self) -> std::io::Result<Self::Output>;

    /// Tear the fixture down. Must be idempotent.
    fn tear_down(&mut self) -> std::io::Result<()>;

    /// Run `set_up`, discard its output, and report the outcome as [`setup_check`] does:
    /// `Pass` tagged `fixtures`, or `Fail (Critical)` tagged `fixtures`, `setup_failed`,
    /// `regression` with the error's message in the detail.
    fn set_up_checked(&mut self, name: &str) -> (c: Check)
        ensures
            exists|s: &mut Self, r: std::io::Result<Self::Output>, outcome: Result<(), Seq<char>>|
                #![trigger call_ensures(Self::set_up, (s,), r), setup_check_spec(name@, outcome)]
                {
                    &&& *s == *old(self)
                    &&& *final(s) == *final(self)
                    &&& call_ensures(Self::set_up, (s,), r)
                    &&& (outcome is Ok <==> r is Ok)
                    &&& (outcome matches Err(m) ==> exists|e: std::io::Error, text: String|
                        r == Err::<Self::Output, std::io::Error>(e) && text@ == m
                            && vstd::string::to_string_from_display_ensures::<std::io::Error>(
                            &e,
                            text,
                        ))
                    &&& c@ == setup_check_spec(name@, outcome)
                },
            c@.verdict == Verdict::Pass || c@.verdict == Verdict::Fail,
            well_tagged(c@),
    {
        let ghost before = *self;
        let res = self.set_up();
        assert(exists|s: &mut Self|
            *s == before && *final(s) == *self && #[trigger] call_ensures(Self::set_up, (s,), res));
        let outcome = match res {
            Ok(_) => Ok(()),
            Err(e) => Err(e.to_string()),
        };
        setup_check(name, outcome)
    }
}

/// A fixture lifecycle self-test: a name, the version of the subject under test, and
/// the closure that builds and tears the fixture down.
pub struct FixtureProducer<F> where F: Fn() -> std::io::Result<()> {
    name: String,
    subject_version: String,
    run: F,
}

impl<F> FixtureProducer<F> where F: Fn() -> std::io::Result<()> {
    /// Build a new producer.
    pub fn new(name: &str, subject_version: &str, run: F) -> (p: Self)
        ensures
            p.name_view() == name@,
            p.version_view() == subject_version@,
            p.run_fn() == run,
    {
        FixtureProducer { name: name.to_string(), subject_version: subject_version.to_string(), run }
    }

    /// The producer's name.
    pub closed spec fn name_view(&self) -> Seq<char> {
        self.name@
    }

    /// The version of the subject under test.
    pub closed spec fn version_view(&self) -> Seq<char> {
        self.subject_version@
    }

    /// The lifecycle closure.
    pub closed spec fn run_fn(&self) -> F {
        self.run
    }

    /// The producer's name.
    pub fn name(&self) -> (s: &str)
        ensures
            s@ == self.name_view(),
    {
        self.name.as_str()
    }

    /// The version of the subject under test.
    pub fn subject_version(&self) -> (s: &str)
        ensures
            s@ == self.version_view(),
    {
        self.subject_version.as_str()
    }

    /// The lifecycle closure, for the caller to run and time.
    pub fn run(&self) -> (f: &F)
        ensures
            *f == self.run_fn(),
    {
        &self.run
    }

    /// Run the lifecycle closure once: `Ok` when it succeeded, else the error's message.
    pub fn run_lifecycle(&self) -> (outcome: Result<(), String>)
        requires
            call_requires(self.run_fn(), ()),
        ensures
            exists|r: std::io::Result<()>|
                #[trigger] call_ensures(self.run_fn(), (), r) && (outcome is Ok <==> r is Ok) && (
                outcome matches Err(m) ==> exists|e: std::io::Error, text: String|
                    r == Err::<(), std::io::Error>(e) && text@ == m@
                        && vstd::string::to_string_from_display_ensures::<std::io::Error>(
                        &e,
                        text,
                    )),
    {
        let f = &self.run;
        match f() {
            Ok(()) => Ok(()),
            Err(e) => Err(e.to_string()),
        }
    }

    /// The check for one run of the lifecycle closure, given its outcome (the error's
    /// message on failure) and how long it took: `Pass` tagged `fixtures` with the
    /// duration and `setup_ok = 1`, `elapsed_ms` evidence; or `Fail (Critical)` tagged
    /// `fixtures`, `setup_failed`, `regression` with `setup_ok = 0`.
    pub fn lifecycle_check(&self, outcome: Result<(), String>, elapsed_ms: u64) -> (c: Check)
        ensures
            c@ == lifecycle_check_spec(self.name_view(), outcome_view(outcome), elapsed_ms),
            well_tagged(c@),
    {
        match outcome {
            Ok(()) => {
                let mut full = "fixtures::".to_string();
                full.append(self.name.as_str());
                let c = Check {
                    name: full,
                    verdict: Verdict::Pass,
                    severity: None,
                    detail: Some("fixture lifecycle completed cleanly".to_string()),
                    duration_ms: Some(elapsed_ms),
                    tags: one_tag("fixtures"),
                    evidence: vec![numeric("setup_ok", 1), numeric("elapsed_ms", elapsed_ms)],
                };
                assert(c@.evidence =~= seq![
                    setup_ok(true),
                    EvidenceView::Numeric { label: "elapsed_ms"@, value: elapsed_ms as nat },
                ]);
                assert(c@.tags[0] == "fixtures"@);
                c
            },
            Err(e) => {
                let mut detail = "fixture lifecycle failed: ".to_string();
                detail.append(e.as_str());
                failed_setup(self.name.as_str(), detail)
            },
        }
    }
}

} // verus!
