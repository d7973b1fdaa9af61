//! The check results the library computes: verdict, severity, detail, tags and
//! evidence, as plain values. Callers turn them into their reporting format.
use vstd::prelude::*;

verus! {

/// The outcome of one check.
#[derive(Clone, Copy, Debug, PartialEq, Eq, Structural)]
pub enum Verdict {
    Pass,
    Fail,
    Warn,
    Skip,
}

/// How serious a failing check is.
#[derive(Clone, Copy, Debug, PartialEq, Eq, Structural)]
pub enum Severity {
    Info,
    Warning,
    Error,
    Critical,
}

/// One piece of evidence attached to a check.
#[derive(Debug)]
pub enum Evidence {
    /// A labelled count (bytes, milliseconds, 0/1 flags).
    Numeric { label: String, value: u64 },
    /// A labelled text excerpt.
    Snippet { label: String, text: String },
}

/// The mathematical form of [`Evidence`].
pub ghost enum EvidenceView {
    Numeric { label: Seq<char>, value: nat },
    Snippet { label: Seq<char>, text: Seq<char> },
}

impl View for Evidence {
    type V = EvidenceView;

    open spec fn view(&self) -> EvidenceView {
        match self {
            Evidence::Numeric { label, value } => EvidenceView::Numeric {
                label: label@,
                value: *value as nat,
            },
            Evidence::Snippet { label, text } => EvidenceView::Snippet { label: label@, text: text@ },
        }
    }
}

/// A check result: named, with verdict, optional severity, detail and duration, tags and
/// evidence.
#[derive(Debug)]
pub struct Check {
    pub name: String,
    pub verdict: Verdict,
    pub severity: Option<Severity>,
    pub detail: Option<String>,
    pub duration_ms: Option<u64>,
    pub tags: Vec<String>,
    pub evidence: Vec<Evidence>,
}

/// The mathematical form of [`Check`].
pub ghost struct CheckView {
    pub name: Seq<char>,
    pub verdict: Verdict,
    pub severity: Option<Severity>,
    pub detail: Option<Seq<char>>,
    pub duration_ms: Option<u64>,
    pub tags: Seq<Seq<char>>,
    pub evidence: Seq<EvidenceView>,
}

impl View for Check {
    type V = CheckView;

    open spec fn view(&self) -> CheckView {
        CheckView {
            name: self.name@,
            verdict: self.verdict,
            severity: self.severity,
            detail: match self.detail {
                Some(d) => Some(d@),
                None => None,
            },
            duration_ms: self.duration_ms,
            tags: self.tags.deep_view(),
            evidence: self.evidence@.map_values(|e: Evidence| e@),
        }
    }
}

/// `c` carries the tag `t`.
pub open spec fn carries_tag(c: CheckView, t: Seq<char>) -> bool {
    exists|i: int| 0 <= i < c.tags.len() && #[trigger] c.tags[i] == t
}

/// The tags every check of this library carries, and the failure convention: a failing
/// check is tagged `regression` and with its cause (`setup_failed`, `golden` or
/// `io_error`).
pub open spec fn well_tagged(c: CheckView) -> bool {
    &&& carries_tag(c, "fixtures"@)
    &&& c.verdict == Verdict::Fail ==> carries_tag(c, "regression"@) && (carries_tag(
        c,
        "setup_failed"@,
    ) || carries_tag(c, "golden"@) || carries_tag(c, "io_error"@))
}

impl Check {
    /// Whether the check carries `tag`.
    pub fn has_tag(&self, tag: &str) -> (r: bool)
        ensures
            r == carries_tag(self@, tag@),
    {
        let mut i: usize = 0;
        while i < self.tags.len()
            invariant
                i <= self.tags.len(),
                forall|j: int| 0 <= j < i ==> self.tags@[j]@ != tag@,
            decreases self.tags.len() - i,
        {
            if str_eq(self.tags[i].as_str(), tag) {
                assert(self@.tags[i as int] == tag@);
                return true;
            }
            i = i + 1;
        }
        false
    }
}

/// Whether two string slices hold the same characters.
pub fn str_eq(a: &str, b: &str) -> (r: bool)
    ensures
        r == (a@ == b@),
{
    let x = a.to_string();
    let y = b.to_string();
    x == y
}

/// A numeric evidence item.
pub fn numeric(label: &str, value: u64) -> (e: Evidence)
    ensures
        e@ == (EvidenceView::Numeric { label: label@, value: value as nat }),
{
    Evidence::Numeric { label: label.to_string(), value }
}

/// A text evidence item.
pub fn snippet(label: &str, text: String) -> (e: Evidence)
    ensures
        e@ == (EvidenceView::Snippet { label: label@, text: text@ }),
{
    Evidence::Snippet { label: label.to_string(), text }
}

} // verus!
