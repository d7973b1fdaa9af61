//! Golden-file snapshot verification.
//!
//! [`Golden`] and [`BinaryGolden`] decide what comparing an actual value with a
//! stored snapshot yields: a check to report, or a snapshot to write first
//! (missing snapshot, or mismatch in update mode). The caller reads and writes
//! the snapshot file and hands the outcome back.
use vstd::prelude::*;
use vstd::string::StringExecFns;
use vstd::string::StrSliceExecFns;
use vstd::utf8::encode_utf8;
use crate::report::{Check, CheckView, Evidence, EvidenceView, Verdict, Severity, numeric, snippet, well_tagged, carries_tag};
use crate::text::{push_char, push_decimal, decimal};

pub mod diff;

pub use self::diff::{line_diff, line_diff_spec, lines};

verus! {

// ---------------------------------------------------------------------------
// Binary helpers
// ---------------------------------------------------------------------------

/// The length of the longest common prefix of `a` and `b`.
pub open spec fn common_prefix_len(a: Seq<u8>, b: Seq<u8>, r: int) -> bool {
    &&& 0 <= r <= a.len()
    &&& r <= b.len()
    &&& forall|i: int| 0 <= i < r ==> a[i] == b[i]
    &&& (r < a.len() && r < b.len() ==> a[r] != b[r])
}

/// Offset of the first differing byte: the length of the common prefix.
pub fn first_diff_offset(a: &[u8], b: &[u8]) -> (r: usize)
    ensures
        common_prefix_len(a@, b@, r as int),
{
    let mut i: usize = 0;
    while i < a.len() && i < b.len() && a[i] == b[i]
        invariant
            i <= a.len(),
            i <= b.len(),
            forall|j: int| 0 <= j < i ==> a@[j] == b@[j],
        decreases a.len() - i,
    {
        i = i + 1;
    }
    i
}

/// The lowercase hex digit for `d < 16`.
pub open spec fn hex_digit(d: nat) -> char {
    if d < 10 {
        (48 + d) as char
    } else {
        (87 + d) as char
    }
}

/// The two lowercase hex digits of a byte.
pub open spec fn hex_byte(b: u8) -> Seq<char> {
    seq![hex_digit((b / 16) as nat), hex_digit((b % 16) as nat)]
}

/// Bytes as two-digit lowercase hex, separated by single spaces.
pub open spec fn hex_join(s: Seq<u8>) -> Seq<char>
    decreases s.len(),
{
    if s.len() == 0 {
        Seq::empty()
    } else if s.len() == 1 {
        hex_byte(s[0])
    } else {
        hex_join(s.drop_last()) + seq![' '] + hex_byte(s.last())
    }
}

/// The preview text of `bytes[from .. min(from + len, bytes.len())]`.
pub open spec fn hex_preview_spec(bytes: Seq<u8>, from: nat, len: nat) -> Seq<char> {
    let end = if from + len <= bytes.len() { from + len } else { bytes.len() as nat };
    "offset "@ + decimal(from) + ": "@ + hex_join(bytes.subrange(from as int, end as int))
}

fn hex_digit_char(d: u8) -> (c: char)
    requires
        d < 16,
    ensures
        c == hex_digit(d as nat),
{
    if d < 10 {
        (48u8 + d) as char
    } else {
        (87u8 + d) as char
    }
}

/// Hex preview of up to `len` bytes starting at `from`: `offset <from>: <hex bytes>`.
pub fn hex_preview(bytes: &[u8], from: usize, len: usize) -> (out: String)
    requires
        from <= bytes@.len(),
        from + len <= usize::MAX,
    ensures
        out@ == hex_preview_spec(bytes@, from as nat, len as nat),
{
    let end = if from + len <= bytes.len() { from + len } else { bytes.len() };
    let ghost sl = bytes@.subrange(from as int, end as int);
    let mut out = "offset ".to_string();
    push_decimal(&mut out, from);
    out.append(": ");
    let ghost head = out@;
    let mut k: usize = from;
    while k < end
        invariant
            from <= k <= end <= bytes@.len(),
            sl == bytes@.subrange(from as int, end as int),
            out@ == head + hex_join(sl.take(k - from)),
        decreases end - k,
    {
        let b = bytes[k];
        if k > from {
            push_char(&mut out, ' ');
        }
        push_char(&mut out, hex_digit_char(b / 16));
        push_char(&mut out, hex_digit_char(b % 16));
        proof {
            let t = sl.take(k - from + 1);
            assert(t.drop_last() =~= sl.take(k - from));
            assert(t.last() == b);
            if k == from {
                assert(hex_join(sl.take(0)) =~= Seq::<char>::empty());
            }
        }
        k = k + 1;
    }
    assert(sl.take(end - from) =~= sl);
    out
}

} // verus!

verus! {

// ---------------------------------------------------------------------------
// Snapshot comparison decisions
// ---------------------------------------------------------------------------

/// What reading the snapshot file gave.
#[derive(Debug)]
pub enum Snapshot<T> {
    /// No file at the snapshot path.
    Missing,
    /// The file exists but could not be read; the error's message.
    Unreadable(String),
    /// The stored content.
    Stored(T),
}

/// The mathematical form of [`Snapshot`].
pub ghost enum SnapshotView<V> {
    Missing,
    Unreadable(Seq<char>),
    Stored(V),
}

impl<T: View> View for Snapshot<T> {
    type V = SnapshotView<T::V>;

    open spec fn view(&self) -> SnapshotView<T::V> {
        match self {
            Snapshot::Missing => SnapshotView::Missing,
            Snapshot::Unreadable(e) => SnapshotView::Unreadable(e@),
            Snapshot::Stored(t) => SnapshotView::Stored(t@),
        }
    }
}

/// Why the snapshot is to be written.
#[derive(Clone, Copy, Debug, PartialEq, Eq, Structural)]
pub enum SnapshotWrite {
    /// First run: the snapshot did not exist.
    Create,
    /// Mismatch in update mode: the snapshot is overwritten.
    Update,
}

/// The next step of a comparison.
#[derive(Debug)]
pub enum CompareStep {
    /// The comparison is decided: report this check.
    Done(Check),
    /// Write the actual value to the snapshot path, then hand the result to `after_write`.
    Write(SnapshotWrite),
}

/// The mathematical form of [`CompareStep`].
pub ghost enum StepView {
    Done(CheckView),
    Write(SnapshotWrite),
}

impl View for CompareStep {
    type V = StepView;

    open spec fn view(&self) -> StepView {
        match self {
            CompareStep::Done(c) => StepView::Done(c@),
            CompareStep::Write(w) => StepView::Write(*w),
        }
    }
}

/// The name under which a golden check is reported.
pub open spec fn golden_check_name(name: Seq<char>) -> Seq<char> {
    "fixtures::golden::"@ + name
}

/// `fixtures`, `golden`, then `binary` for binary snapshots, then `extra`.
pub open spec fn golden_tags(binary: bool, extra: Seq<Seq<char>>) -> Seq<Seq<char>> {
    seq!["fixtures"@, "golden"@] + (if binary {
        seq!["binary"@]
    } else {
        Seq::empty()
    }) + extra
}

/// The `actual_bytes` evidence.
pub open spec fn actual_bytes(n: nat) -> EvidenceView {
    EvidenceView::Numeric { label: "actual_bytes"@, value: n }
}

/// The `expected_bytes` evidence.
pub open spec fn expected_bytes(n: nat) -> EvidenceView {
    EvidenceView::Numeric { label: "expected_bytes"@, value: n }
}

/// The failing check for a snapshot that could not be read or written.
pub open spec fn io_error_check(name: Seq<char>, binary: bool, message: Seq<char>, actual_len: nat) -> CheckView {
    CheckView {
        name: golden_check_name(name),
        verdict: Verdict::Fail,
        severity: Some(Severity::Error),
        detail: Some(message),
        duration_ms: None,
        tags: golden_tags(binary, seq!["io_error"@, "regression"@]),
        evidence: seq![actual_bytes(actual_len)],
    }
}

/// The skipped check after a snapshot was written.
pub open spec fn written_check(
    name: Seq<char>,
    binary: bool,
    path: Seq<char>,
    purpose: SnapshotWrite,
    actual_len: nat,
) -> CheckView {
    CheckView {
        name: golden_check_name(name),
        verdict: Verdict::Skip,
        severity: None,
        detail: Some(
            (if purpose == SnapshotWrite::Create { "created"@ } else { "updated"@ }) + " snapshot at "@
                + path,
        ),
        duration_ms: None,
        tags: golden_tags(
            binary,
            seq![if purpose == SnapshotWrite::Create { "created"@ } else { "updated"@ }],
        ),
        evidence: seq![actual_bytes(actual_len)],
    }
}

/// The check after writing the snapshot, from the write's outcome.
pub open spec fn after_write_check(
    name: Seq<char>,
    binary: bool,
    path: Seq<char>,
    purpose: SnapshotWrite,
    actual_len: nat,
    result: Result<(), Seq<char>>,
) -> CheckView {
    match result {
        Ok(()) => written_check(name, binary, path, purpose, actual_len),
        Err(e) => io_error_check(
            name,
            binary,
            (if purpose == SnapshotWrite::Create {
                "could not create snapshot: "@
            } else {
                "could not update snapshot: "@
            }) + e,
            actual_len,
        ),
    }
}

/// The passing check for a matching snapshot.
pub open spec fn matched_check(name: Seq<char>, binary: bool, actual_len: nat, expected_len: nat) -> CheckView {
    CheckView {
        name: golden_check_name(name),
        verdict: Verdict::Pass,
        severity: None,
        detail: Some("snapshot matched"@),
        duration_ms: None,
        tags: golden_tags(binary, Seq::empty()),
        evidence: seq![actual_bytes(actual_len), expected_bytes(expected_len)],
    }
}

/// The failing check for a text snapshot that differs from the actual text.
pub open spec fn text_mismatch_check(name: Seq<char>, expected: Seq<char>, actual: Seq<char>) -> CheckView {
    let diff = line_diff_spec(expected, actual);
    CheckView {
        name: golden_check_name(name),
        verdict: Verdict::Fail,
        severity: Some(Severity::Error),
        detail: Some("snapshot mismatch:\n"@ + diff),
        duration_ms: None,
        tags: golden_tags(false, seq!["regression"@]),
        evidence: seq![
            actual_bytes(encode_utf8(actual).len()),
            expected_bytes(encode_utf8(expected).len()),
            EvidenceView::Snippet { label: "expected"@, text: expected },
            EvidenceView::Snippet { label: "actual"@, text: actual },
            EvidenceView::Snippet { label: "diff"@, text: diff },
        ],
    }
}

/// The decision for a text snapshot.
pub open spec fn text_decision(
    name: Seq<char>,
    actual: Seq<char>,
    stored: SnapshotView<Seq<char>>,
    update_mode: bool,
) -> StepView {
    match stored {
        SnapshotView::Missing => StepView::Write(SnapshotWrite::Create),
        SnapshotView::Unreadable(e) => StepView::Done(
            io_error_check(name, false, "could not read snapshot: "@ + e, encode_utf8(actual).len()),
        ),
        SnapshotView::Stored(expected) => if actual == expected {
            StepView::Done(
                matched_check(name, false, encode_utf8(actual).len(), encode_utf8(expected).len()),
            )
        } else if update_mode {
            StepView::Write(SnapshotWrite::Update)
        } else {
            StepView::Done(text_mismatch_check(name, expected, actual))
        },
    }
}

/// A check built with the golden tags is well tagged when, failing, its extra tags
/// include `regression` at index `reg`.
proof fn lemma_well_tagged(c: CheckView, binary: bool, extra: Seq<Seq<char>>, reg: int)
    requires
        c.tags == golden_tags(binary, extra),
        c.verdict == Verdict::Fail ==> 0 <= reg < extra.len() && extra[reg] == "regression"@,
    ensures
        well_tagged(c),
        carries_tag(c, "golden"@),
{
    assert(c.tags[0] == "fixtures"@);
    assert(c.tags[1] == "golden"@);
    if c.verdict == Verdict::Fail {
        let off = c.tags.len() - extra.len();
        assert(c.tags[off + reg] == extra[reg]);
    }
}

fn golden_tag_list(binary: bool, extra: &[&str]) -> (out: Vec<String>)
    ensures
        out.deep_view() == golden_tags(binary, extra.deep_view()),
{
    let mut out: Vec<String> = Vec::new();
    out.push("fixtures".to_string());
    out.push("golden".to_string());
    if binary {
        out.push("binary".to_string());
    }
    let ghost head = out.deep_view();
    let mut i: usize = 0;
    while i < extra.len()
        invariant
            i <= extra.len(),
            out.deep_view() == head + extra.deep_view().take(i as int),
        decreases extra.len() - i,
    {
        let ghost before = out.deep_view();
        out.push(extra[i].to_string());
        assert(out.deep_view() =~= before.push(extra[i as int]@));
        assert(extra.deep_view().take(i + 1) =~= extra.deep_view().take(i as int).push(
            extra[i as int]@,
        ));
        i = i + 1;
    }
    assert(extra.deep_view().take(extra.len() as int) =~= extra.deep_view());
    assert(head =~= seq!["fixtures"@, "golden"@] + (if binary {
        seq!["binary"@]
    } else {
        Seq::<Seq<char>>::empty()
    }));
    out
}

fn golden_name(name: &str) -> (out: String)
    ensures
        out@ == golden_check_name(name@),
{
    let mut out = "fixtures::golden::".to_string();
    out.append(name);
    out
}

fn io_error(name: &str, binary: bool, message: String, actual_len: usize) -> (c: Check)
    ensures
        c@ == io_error_check(name@, binary, message@, actual_len as nat),
        well_tagged(c@),
        carries_tag(c@, "golden"@),
{
    let extra: [&str; 2] = ["io_error", "regression"];
    let xs: &[&str] = &extra;
    assert(xs.deep_view() =~= seq!["io_error"@, "regression"@]);
    let tags = golden_tag_list(binary, xs);
    let evidence = vec![numeric("actual_bytes", actual_len as u64)];
    let c = Check {
        name: golden_name(name),
        verdict: Verdict::Fail,
        severity: Some(Severity::Error),
        detail: Some(message),
        duration_ms: None,
        tags,
        evidence,
    };
    assert(c@.evidence =~= seq![actual_bytes(actual_len as nat)]);
    proof {
        lemma_well_tagged(c@, binary, seq!["io_error"@, "regression"@], 1);
    }
    c
}

fn after_write_impl(
    name: &str,
    binary: bool,
    path: &str,
    purpose: SnapshotWrite,
    actual_len: usize,
    result: Result<(), String>,
) -> (c: Check)
    ensures
        c@ == after_write_check(
            name@,
            binary,
            path@,
            purpose,
            actual_len as nat,
            match result {
                Ok(()) => Ok(()),
                Err(e) => Err(e@),
            },
        ),
        well_tagged(c@),
        carries_tag(c@, "golden"@),
{
    match result {
        Ok(()) => {
            let word = match purpose {
                SnapshotWrite::Create => "created",
                SnapshotWrite::Update => "updated",
            };
            let mut detail = word.to_string();
            detail.append(" snapshot at ");
            detail.append(path);
            let extra: [&str; 1] = [word];
            let xs: &[&str] = &extra;
            assert(xs.deep_view() =~= seq![word@]);
            let tags = golden_tag_list(binary, xs);
            let evidence = vec![numeric("actual_bytes", actual_len as u64)];
            let c = Check {
                name: golden_name(name),
                verdict: Verdict::Skip,
                severity: None,
                detail: Some(detail),
                duration_ms: None,
                tags,
                evidence,
            };
            assert(c@.evidence =~= seq![actual_bytes(actual_len as nat)]);
            proof {
                lemma_well_tagged(c@, binary, seq![word@], 0);
            }
            c
        },
        Err(e) => {
            let mut message = match purpose {
                SnapshotWrite::Create => "could not create snapshot: ".to_string(),
                SnapshotWrite::Update => "could not update snapshot: ".to_string(),
            };
            message.append(e.as_str());
            io_error(name, binary, message, actual_len)
        },
    }
}

/// Whether snapshots are overwritten on mismatch, from the value of the
/// `DEV_FIXTURES_UPDATE_GOLDEN` environment variable (`None` when it is unset or not
/// Unicode): on exactly when it is set to a non-empty value.
pub fn update_mode_enabled(value: Option<&str>) -> (on: bool)
    ensures
        on == (value matches Some(v) && v@.len() > 0),
{
    match value {
        Some(v) => v.unicode_len() > 0,
        None => false,
    }
}

/// A text snapshot bound to a path.
pub struct Golden {
    path: String,
}

impl View for Golden {
    type V = Seq<char>;

    closed spec fn view(&self) -> Seq<char> {
        self.path@
    }
}

impl Golden {
    /// Bind a golden snapshot to a path; the file need not exist yet.
    pub fn new(path: &str) -> (g: Golden)
        ensures
            g@ == path@,
    {
        Golden { path: path.to_string() }
    }

    /// The path this golden is bound to.
    pub fn path(&self) -> (p: &str)
        ensures
            p@ == self@,
    {
        self.path.as_str()
    }

    /// The next step of comparing `actual` with the snapshot as read (`stored`), with
    /// update mode on or off:
    /// - missing snapshot: write it (`Create`);
    /// - unreadable: `Fail (Error)` tagged `io_error` and `regression`;
    /// - equal to `actual`: `Pass` with byte-count evidence;
    /// - different, update mode: overwrite it (`Update`);
    /// - different: `Fail (Error)` tagged `regression`, the line diff in the detail and
    ///   expected / actual / diff snippets.
    pub fn decide(&self, name: &str, actual: &str, stored: &Snapshot<String>, update_mode: bool) -> (step: CompareStep)
        ensures
            step@ == text_decision(name@, actual@, stored@, update_mode),
            step@ matches StepView::Done(c) ==> well_tagged(c) && carries_tag(c, "golden"@),
    {
        let actual_len = byte_len(actual);
        let step = match stored {
            Snapshot::Missing => CompareStep::Write(SnapshotWrite::Create),
            Snapshot::Unreadable(e) => {
                let mut message = "could not read snapshot: ".to_string();
                message.append(e.as_str());
                CompareStep::Done(io_error(name, false, message, actual_len))
            },
            Snapshot::Stored(expected) => {
                if str_eq_string(actual, expected) {
                    let extra: [&str; 0] = [];
                    let xs: &[&str] = &extra;
                    assert(xs.deep_view() =~= Seq::<Seq<char>>::empty());
                    let tags = golden_tag_list(false, xs);
                    let evidence = vec![
                        numeric("actual_bytes", actual_len as u64),
                        numeric("expected_bytes", byte_len(expected.as_str()) as u64),
                    ];
                    let c = Check {
                        name: golden_name(name),
                        verdict: Verdict::Pass,
                        severity: None,
                        detail: Some("snapshot matched".to_string()),
                        duration_ms: None,
                        tags,
                        evidence,
                    };
                    assert(c@.evidence =~= seq![
                        actual_bytes(encode_utf8(actual@).len()),
                        expected_bytes(encode_utf8(expected@).len()),
                    ]);
                    assert(c@.tags =~= golden_tags(false, Seq::empty()));
                    proof {
                        lemma_well_tagged(c@, false, Seq::empty(), 0);
                    }
                    CompareStep::Done(c)
                } else if update_mode {
                    CompareStep::Write(SnapshotWrite::Update)
                } else {
                    let diff = line_diff(expected.as_str(), actual);
                    let mut detail = "snapshot mismatch:\n".to_string();
                    detail.append(diff.as_str());
                    let extra: [&str; 1] = ["regression"];
                    let xs: &[&str] = &extra;
                    assert(xs.deep_view() =~= seq!["regression"@]);
                    let tags = golden_tag_list(false, xs);
                    let evidence = vec![
                        numeric("actual_bytes", actual_len as u64),
                        numeric("expected_bytes", byte_len(expected.as_str()) as u64),
                        snippet("expected", expected.clone()),
                        snippet("actual", actual.to_string()),
                        snippet("diff", diff),
                    ];
                    let c = Check {
                        name: golden_name(name),
                        verdict: Verdict::Fail,
                        severity: Some(Severity::Error),
                        detail: Some(detail),
                        duration_ms: None,
                        tags,
                        evidence,
                    };
                    assert(c@.evidence =~= text_mismatch_check(name@, expected@, actual@).evidence);
                    proof {
                        lemma_well_tagged(c@, false, seq!["regression"@], 0);
                    }
                    CompareStep::Done(c)
                }
            },
        };
        step
    }

    /// The check after the snapshot was written for `purpose`: `Skip` tagged `created` or
    /// `updated` on success; `Fail (Error)` tagged `io_error` and `regression` otherwise.
    pub fn after_write(&self, name: &str, actual: &str, purpose: SnapshotWrite, result: Result<(), String>) -> (c: Check)
        ensures
            c@ == after_write_check(
                name@,
                false,
                self@,
                purpose,
                encode_utf8(actual@).len(),
                match result {
                    Ok(()) => Ok(()),
                    Err(e) => Err(e@),
                },
            ),
            well_tagged(c@),
            carries_tag(c@, "golden"@),
    {
        after_write_impl(name, false, self.path.as_str(), purpose, byte_len(actual), result)
    }
}

/// The number of bytes of the UTF-8 encoding of `s`.
fn byte_len(s: &str) -> (n: usize)
    ensures
        n as nat == encode_utf8(s@).len(),
{
    s.as_bytes().len()
}

/// Whether a string slice and a string hold the same characters.
fn str_eq_string(a: &str, b: &String) -> (r: bool)
    ensures
        r == (a@ == b@),
{
    let x = a.to_string();
    x == *b
}

} // verus!

verus! {

/// The length of the common prefix of `a` and `b`.
pub open spec fn prefix_len(a: Seq<u8>, b: Seq<u8>) -> nat
    decreases a.len(),
{
    if a.len() == 0 || b.len() == 0 || a[0] != b[0] {
        0
    } else {
        1 + prefix_len(a.drop_first(), b.drop_first())
    }
}

proof fn lemma_prefix_len_unique(a: Seq<u8>, b: Seq<u8>, r: int)
    requires
        common_prefix_len(a, b, r),
    ensures
        r == prefix_len(a, b),
    decreases a.len(),
{
    if a.len() == 0 || b.len() == 0 {
    } else if a[0] != b[0] {
        assert(r == 0) by {
            if r > 0 {
                assert(a[0] == b[0]);
            }
        }
    } else {
        assert(r > 0) by {
            if r == 0 {
                assert(a[0] != b[0]);
            }
        }
        let a1 = a.drop_first();
        let b1 = b.drop_first();
        assert forall|i: int| 0 <= i < r - 1 implies a1[i] == b1[i] by {
            assert(a[i + 1] == b[i + 1]);
        }
        if r - 1 < a1.len() && r - 1 < b1.len() {
            assert(a1[r - 1] == a[r] && b1[r - 1] == b[r]);
        }
        lemma_prefix_len_unique(a1, b1, r - 1);
    }
}

/// The failing check for a binary snapshot that differs from the actual bytes.
pub open spec fn binary_mismatch_check(name: Seq<char>, expected: Seq<u8>, actual: Seq<u8>) -> CheckView {
    let first = prefix_len(expected, actual);
    CheckView {
        name: golden_check_name(name),
        verdict: Verdict::Fail,
        severity: Some(Severity::Error),
        detail: Some(
            "binary mismatch (expected "@ + decimal(expected.len()) + " bytes, actual "@ + decimal(
                actual.len(),
            ) + " bytes, first diff at offset "@ + decimal(first) + ")"@,
        ),
        duration_ms: None,
        tags: golden_tags(true, seq!["regression"@]),
        evidence: seq![
            actual_bytes(actual.len()),
            expected_bytes(expected.len()),
            EvidenceView::Numeric { label: "first_diff_offset"@, value: first },
            EvidenceView::Snippet {
                label: "expected_hex_preview"@,
                text: hex_preview_spec(expected, first, 32),
            },
            EvidenceView::Snippet {
                label: "actual_hex_preview"@,
                text: hex_preview_spec(actual, first, 32),
            },
        ],
    }
}

/// The decision for a binary snapshot.
pub open spec fn binary_decision(
    name: Seq<char>,
    actual: Seq<u8>,
    stored: SnapshotView<Seq<u8>>,
    update_mode: bool,
) -> StepView {
    match stored {
        SnapshotView::Missing => StepView::Write(SnapshotWrite::Create),
        SnapshotView::Unreadable(e) => StepView::Done(
            io_error_check(name, true, "could not read snapshot: "@ + e, actual.len()),
        ),
        SnapshotView::Stored(expected) => if actual == expected {
            StepView::Done(matched_check(name, true, actual.len(), expected.len()))
        } else if update_mode {
            StepView::Write(SnapshotWrite::Update)
        } else {
            StepView::Done(binary_mismatch_check(name, expected, actual))
        },
    }
}

/// Whether two byte slices are equal.
fn bytes_eq(a: &[u8], b: &[u8]) -> (r: bool)
    ensures
        r == (a@ == b@),
{
    if a.len() != b.len() {
        return false;
    }
    let mut i: usize = 0;
    while i < a.len()
        invariant
            a.len() == b.len(),
            i <= a.len(),
            forall|j: int| 0 <= j < i ==> a@[j] == b@[j],
        decreases a.len() - i,
    {
        if a[i] != b[i] {
            return false;
        }
        i = i + 1;
    }
    assert(a@ =~= b@);
    true
}

/// A binary snapshot bound to a path.
pub struct BinaryGolden {
    path: String,
}

impl View for BinaryGolden {
    type V = Seq<char>;

    closed spec fn view(&self) -> Seq<char> {
        self.path@
    }
}

impl BinaryGolden {
    /// Bind a binary golden snapshot to a path; the file need not exist yet.
    pub fn new(path: &str) -> (g: BinaryGolden)
        ensures
            g@ == path@,
    {
        BinaryGolden { path: path.to_string() }
    }

    /// The path this golden is bound to.
    pub fn path(&self) -> (p: &str)
        ensures
            p@ == self@,
    {
        self.path.as_str()
    }

    /// The next step of comparing `actual` with the snapshot as read, tagged `binary`
    /// besides `fixtures` and `golden`; as [`Golden::decide`], but a mismatch reports the
    /// byte counts, the first differing offset and hex previews of both sides from there.
    pub fn decide(&self, name: &str, actual: &[u8], stored: &Snapshot<Vec<u8>>, update_mode: bool) -> (step: CompareStep)
        requires
            actual@.len() <= isize::MAX,
        ensures
            step@ == binary_decision(name@, actual@, stored@, update_mode),
            step@ matches StepView::Done(c) ==> well_tagged(c) && carries_tag(c, "golden"@),
    {
        let actual_len = actual.len();
        match stored {
            Snapshot::Missing => CompareStep::Write(SnapshotWrite::Create),
            Snapshot::Unreadable(e) => {
                let mut message = "could not read snapshot: ".to_string();
                message.append(e.as_str());
                CompareStep::Done(io_error(name, true, message, actual_len))
            },
            Snapshot::Stored(expected) => {
                let exp = expected.as_slice();
                if bytes_eq(actual, exp) {
                    let extra: [&str; 0] = [];
                    let xs: &[&str] = &extra;
                    assert(xs.deep_view() =~= Seq::<Seq<char>>::empty());
                    let tags = golden_tag_list(true, xs);
                    let evidence = vec![
                        numeric("actual_bytes", actual_len as u64),
                        numeric("expected_bytes", exp.len() as u64),
                    ];
                    let c = Check {
                        name: golden_name(name),
                        verdict: Verdict::Pass,
                        severity: None,
                        detail: Some("snapshot matched".to_string()),
                        duration_ms: None,
                        tags,
                        evidence,
                    };
                    assert(c@.evidence =~= seq![
                        actual_bytes(actual@.len()),
                        expected_bytes(expected@.len()),
                    ]);
                    proof {
                        lemma_well_tagged(c@, true, Seq::empty(), 0);
                    }
                    CompareStep::Done(c)
                } else if update_mode {
                    CompareStep::Write(SnapshotWrite::Update)
                } else {
                    let first = first_diff_offset(exp, actual);
                    proof {
                        lemma_prefix_len_unique(exp@, actual@, first as int);
                    }
                    let preview_expected = hex_preview(exp, first, 32);
                    let preview_actual = hex_preview(actual, first, 32);
                    let mut detail = "binary mismatch (expected ".to_string();
                    push_decimal(&mut detail, exp.len());
                    detail.append(" bytes, actual ");
                    push_decimal(&mut detail, actual_len);
                    detail.append(" bytes, first diff at offset ");
                    push_decimal(&mut detail, first);
                    detail.append(")");
                    let extra: [&str; 1] = ["regression"];
                    let xs: &[&str] = &extra;
                    assert(xs.deep_view() =~= seq!["regression"@]);
                    let tags = golden_tag_list(true, xs);
                    let evidence = vec![
                        numeric("actual_bytes", actual_len as u64),
                        numeric("expected_bytes", exp.len() as u64),
                        numeric("first_diff_offset", first as u64),
                        snippet("expected_hex_preview", preview_expected),
                        snippet("actual_hex_preview", preview_actual),
                    ];
                    let c = Check {
                        name: golden_name(name),
                        verdict: Verdict::Fail,
                        severity: Some(Severity::Error),
                        detail: Some(detail),
                        duration_ms: None,
                        tags,
                        evidence,
                    };
                    assert(c@.evidence =~= binary_mismatch_check(name@, expected@, actual@).evidence);
                    assert(c@.detail == binary_mismatch_check(name@, expected@, actual@).detail);
                    proof {
                        lemma_well_tagged(c@, true, seq!["regression"@], 0);
                    }
                    CompareStep::Done(c)
                }
            },
        }
    }

    /// The check after the snapshot was written for `purpose`, tagged `binary`; as
    /// [`Golden::after_write`].
    pub fn after_write(&self, name: &str, actual: &[u8], purpose: SnapshotWrite, result: Result<(), String>) -> (c: Check)
        ensures
            c@ == after_write_check(
                name@,
                true,
                self@,
                purpose,
                actual@.len(),
                match result {
                    Ok(()) => Ok(()),
                    Err(e) => Err(e@),
                },
            ),
            well_tagged(c@),
            carries_tag(c@, "golden"@),
    {
        after_write_impl(name, true, self.path.as_str(), purpose, actual.len(), result)
    }
}

} // verus!

verus! {

/// A snapshot equal to the actual text passes, in update mode or not.
pub proof fn lemma_text_match_passes(name: Seq<char>, actual: Seq<char>, update_mode: bool)
    ensures
        text_decision(name, actual, SnapshotView::Stored(actual), update_mode) matches StepView::Done(c)
            && c.verdict == Verdict::Pass,
{
}

/// A snapshot equal to the actual bytes passes, in update mode or not.
pub proof fn lemma_binary_match_passes(name: Seq<char>, actual: Seq<u8>, update_mode: bool)
    ensures
        binary_decision(name, actual, SnapshotView::Stored(actual), update_mode) matches StepView::Done(
            c,
        ) && c.verdict == Verdict::Pass,
{
}

/// First run: a missing snapshot is written, the check is skipped and tagged `created`;
/// comparing the same text with the written snapshot then passes.
pub proof fn lemma_text_first_run_then_match(
    name: Seq<char>,
    path: Seq<char>,
    actual: Seq<char>,
    update_mode: bool,
)
    ensures
        text_decision(name, actual, SnapshotView::Missing, update_mode) == StepView::Write(
            SnapshotWrite::Create,
        ),
        after_write_check(
            name,
            false,
            path,
            SnapshotWrite::Create,
            encode_utf8(actual).len(),
            Ok(()),
        ).verdict == Verdict::Skip,
        carries_tag(
            after_write_check(
                name,
                false,
                path,
                SnapshotWrite::Create,
                encode_utf8(actual).len(),
                Ok(()),
            ),
            "created"@,
        ),
        text_decision(name, actual, SnapshotView::Stored(actual), update_mode) matches StepView::Done(c)
            && c.verdict == Verdict::Pass,
{
    let c = after_write_check(name, false, path, SnapshotWrite::Create, encode_utf8(actual).len(), Ok(()));
    assert(c.tags[2] == "created"@);
}

/// Mismatch: in update mode the snapshot is overwritten and the check skipped with the
/// `updated` tag; otherwise the check fails with the `regression` tag and the line diff.
pub proof fn lemma_text_mismatch(name: Seq<char>, path: Seq<char>, expected: Seq<char>, actual: Seq<char>)
    requires
        expected != actual,
    ensures
        text_decision(name, actual, SnapshotView::Stored(expected), true) == StepView::Write(
            SnapshotWrite::Update,
        ),
        carries_tag(
            after_write_check(
                name,
                false,
                path,
                SnapshotWrite::Update,
                encode_utf8(actual).len(),
                Ok(()),
            ),
            "updated"@,
        ),
        text_decision(name, actual, SnapshotView::Stored(expected), false) == StepView::Done(
            text_mismatch_check(name, expected, actual),
        ),
        text_mismatch_check(name, expected, actual).verdict == Verdict::Fail,
        carries_tag(text_mismatch_check(name, expected, actual), "regression"@),
        text_mismatch_check(name, expected, actual).detail == Some(
            "snapshot mismatch:\n"@ + line_diff_spec(expected, actual),
        ),
{
    let c = after_write_check(name, false, path, SnapshotWrite::Update, encode_utf8(actual).len(), Ok(()));
    assert(c.tags[2] == "updated"@);
    assert(text_mismatch_check(name, expected, actual).tags[2] == "regression"@);
}


/// Whether comparing `actual` with `stored` writes the snapshot: it is missing, or it
/// differs and update mode is on.
pub open spec fn writes_snapshot<V>(stored: SnapshotView<V>, differs: bool, update_mode: bool) -> bool {
    match stored {
        SnapshotView::Missing => true,
        SnapshotView::Unreadable(_) => false,
        SnapshotView::Stored(_) => differs && update_mode,
    }
}

/// The check a whole binary comparison reports: the decision on the snapshot as read,
/// or, when it asks for a write, the check for the write's outcome `written`.
pub open spec fn binary_compare_check(
    name: Seq<char>,
    path: Seq<char>,
    actual: Seq<u8>,
    stored: SnapshotView<Seq<u8>>,
    update_mode: bool,
    written: Result<(), Seq<char>>,
) -> CheckView {
    match binary_decision(name, actual, stored, update_mode) {
        StepView::Done(c) => c,
        StepView::Write(purpose) => after_write_check(name, true, path, purpose, actual.len(), written),
    }
}

/// The binary comparison as a whole: tagged `fixtures`, `golden`, `binary` with the actual
/// byte count as first evidence; `Pass` exactly when the stored bytes equal the actual
/// ones; `Skip` exactly when a needed write (missing snapshot, or a mismatch in update
/// mode) succeeded, tagged `created` or `updated`; `Fail (Error)` tagged `regression`
/// otherwise, and tagged `io_error` exactly when the read or the write failed.
pub proof fn lemma_binary_compare(
    name: Seq<char>,
    path: Seq<char>,
    actual: Seq<u8>,
    stored: SnapshotView<Seq<u8>>,
    update_mode: bool,
    written: Result<(), Seq<char>>,
)
    ensures
        ({
            let c = binary_compare_check(name, path, actual, stored, update_mode, written);
            let differs = !(stored == SnapshotView::Stored(actual));
            let writes = writes_snapshot(stored, differs, update_mode);
            &&& c.tags.len() >= 3
            &&& c.tags.take(3) == seq!["fixtures"@, "golden"@, "binary"@]
            &&& c.evidence.len() > 0 && c.evidence[0] == actual_bytes(actual.len())
            &&& (c.verdict == Verdict::Pass <==> stored == SnapshotView::Stored(actual))
            &&& (c.verdict == Verdict::Skip <==> writes && written is Ok)
            &&& (c.verdict == Verdict::Fail <==> !(stored == SnapshotView::Stored(actual)) && !(
            writes && written is Ok))
            &&& (c.verdict == Verdict::Fail ==> c.severity == Some(Severity::Error) && carries_tag(
                c,
                "regression"@,
            ))
            &&& (carries_tag(c, "io_error"@) <==> stored is Unreadable || (writes && written is Err))
            &&& (carries_tag(c, "created"@) <==> stored is Missing && written is Ok)
            &&& (carries_tag(c, "updated"@) <==> writes && !(stored is Missing) && written is Ok)
        }),
{
    reveal_strlit("fixtures");
    reveal_strlit("golden");
    reveal_strlit("binary");
    reveal_strlit("io_error");
    reveal_strlit("regression");
    reveal_strlit("created");
    reveal_strlit("updated");
    let c = binary_compare_check(name, path, actual, stored, update_mode, written);
    // The tags differ in their first letters.
    assert("fixtures"@[0] == 'f' && "golden"@[0] == 'g' && "binary"@[0] == 'b' && "io_error"@[0]
        == 'i' && "regression"@[0] == 'r' && "created"@[0] == 'c' && "updated"@[0] == 'u');
    let f = "fixtures"@;
    let g = "golden"@;
    let b = "binary"@;
    match stored {
        SnapshotView::Missing => {
            if written is Ok {
                assert(c.tags =~= seq![f, g, b, "created"@]);
            } else {
                assert(c.tags =~= seq![f, g, b, "io_error"@, "regression"@]);
            }
        },
        SnapshotView::Unreadable(_) => {
            assert(c.tags =~= seq![f, g, b, "io_error"@, "regression"@]);
        },
        SnapshotView::Stored(e) => {
            if actual == e {
                assert(c.tags =~= seq![f, g, b]);
            } else if update_mode {
                if written is Ok {
                    assert(c.tags =~= seq![f, g, b, "updated"@]);
                } else {
                    assert(c.tags =~= seq![f, g, b, "io_error"@, "regression"@]);
                }
            } else {
                assert(c.tags =~= seq![f, g, b, "regression"@]);
            }
        },
    }
    assert(c.tags.take(3) =~= seq![f, g, b]);
    if c.tags.len() > 3 {
        assert(carries_tag(c, c.tags[3]));
    }
    assert forall|t: Seq<char>|
        t[0] == 'i' || t[0] == 'c' || t[0] == 'u' implies (carries_tag(c, t) ==> c.tags.len() > 3
            && c.tags[3] == t) by {
        if carries_tag(c, t) {
            let i = choose|i: int| 0 <= i < c.tags.len() && #[trigger] c.tags[i] == t;
            assert(i >= 3);
            if i == 4 {
                assert(c.tags[4] == "regression"@);
            }
        }
    }
    assert(c.verdict == Verdict::Fail ==> c.tags.len() >= 4 && c.tags[c.tags.len() - 1] == "regression"@);
    let differs = !(stored == SnapshotView::Stored(actual));
    let writes = writes_snapshot(stored, differs, update_mode);
    assert(c.evidence.len() > 0 && c.evidence[0] == actual_bytes(actual.len()));
    assert(c.verdict == Verdict::Pass <==> stored == SnapshotView::Stored(actual));
    assert(c.verdict == Verdict::Skip <==> writes && written is Ok);
    assert(c.verdict == Verdict::Fail ==> c.severity == Some(Severity::Error) && carries_tag(c, "regression"@));
    assert(carries_tag(c, "io_error"@) <==> stored is Unreadable || (writes && written is Err));
    assert(carries_tag(c, "created"@) <==> stored is Missing && written is Ok);
    assert(carries_tag(c, "updated"@) <==> writes && !(stored is Missing) && written is Ok);
}


/// `prefix_len` is the length of the common prefix: equal bytes before it, and a
/// difference (or an end) at it.
proof fn lemma_prefix_len_is_common(a: Seq<u8>, b: Seq<u8>)
    ensures
        prefix_len(a, b) <= a.len(),
        prefix_len(a, b) <= b.len(),
        forall|k: int| 0 <= k < prefix_len(a, b) ==> a[k] == b[k],
        prefix_len(a, b) < a.len() && prefix_len(a, b) < b.len() ==> a[prefix_len(a, b) as int]
            != b[prefix_len(a, b) as int],
    decreases a.len(),
{
    if a.len() > 0 && b.len() > 0 && a[0] == b[0] {
        let a1 = a.drop_first();
        let b1 = b.drop_first();
        lemma_prefix_len_is_common(a1, b1);
        assert forall|k: int| 0 <= k < prefix_len(a, b) implies a[k] == b[k] by {
            if k > 0 {
                assert(a[k] == a1[k - 1] && b[k] == b1[k - 1]);
            }
        }
        let r = prefix_len(a, b) as int;
        if r < a.len() && r < b.len() {
            assert(a[r] == a1[r - 1] && b[r] == b1[r - 1]);
        }
    }
}

/// A text mismatch (update mode off) fails with `Error` and carries the stored snapshot
/// as the `expected` snippet and the text passed in as the `actual` snippet, after the
/// byte counts of each (actual first), and ends with the line diff from the stored
/// snapshot to the actual text.
pub proof fn lemma_text_mismatch_evidence(name: Seq<char>, expected: Seq<char>, actual: Seq<char>)
    requires
        expected != actual,
    ensures
        text_decision(name, actual, SnapshotView::Stored(expected), false) is Done,
        ({
            let c = text_decision(name, actual, SnapshotView::Stored(expected), false)->Done_0;
            &&& c.verdict == Verdict::Fail
            &&& c.severity == Some(Severity::Error)
            &&& c.evidence.len() == 5
            &&& c.evidence[0] == (EvidenceView::Numeric {
                label: "actual_bytes"@,
                value: encode_utf8(actual).len(),
            })
            &&& c.evidence[1] == (EvidenceView::Numeric {
                label: "expected_bytes"@,
                value: encode_utf8(expected).len(),
            })
            &&& c.evidence[2] == (EvidenceView::Snippet { label: "expected"@, text: expected })
            &&& c.evidence[3] == (EvidenceView::Snippet { label: "actual"@, text: actual })
            &&& c.evidence[4] == (EvidenceView::Snippet {
                label: "diff"@,
                text: line_diff_spec(expected, actual),
            })
        }),
{
}

/// A binary mismatch (update mode off) fails with `Error`; its detail gives the stored
/// snapshot's byte count after "expected", the actual value's byte count after "actual",
/// and the first offset where they differ: the length of their common prefix. The same
/// counts and offset stand in the evidence, followed by hex previews from that offset,
/// of the stored snapshot first and of the actual value second.
pub proof fn lemma_binary_mismatch_report(name: Seq<char>, expected: Seq<u8>, actual: Seq<u8>)
    requires
        expected != actual,
    ensures
        binary_decision(name, actual, SnapshotView::Stored(expected), false) is Done,
        ({
            let c = binary_decision(name, actual, SnapshotView::Stored(expected), false)->Done_0;
            &&& c.verdict == Verdict::Fail
            &&& c.severity == Some(Severity::Error)
            &&& c.evidence.len() == 5
            &&& c.evidence[0] == (EvidenceView::Numeric { label: "actual_bytes"@, value: actual.len() })
            &&& c.evidence[1] == (EvidenceView::Numeric {
                label: "expected_bytes"@,
                value: expected.len(),
            })
        }),
        forall|first: nat|
            #![trigger decimal(first)]
            {
                &&& first <= expected.len()
                &&& first <= actual.len()
                &&& forall|k: int| 0 <= k < first ==> expected[k] == actual[k]
                &&& (first < expected.len() && first < actual.len() ==> expected[first as int]
                    != actual[first as int])
            } ==> {
                let c = binary_decision(name, actual, SnapshotView::Stored(expected), false)->Done_0;
                &&& c.detail == Some(
                    "binary mismatch (expected "@ + decimal(expected.len()) + " bytes, actual "@
                        + decimal(actual.len()) + " bytes, first diff at offset "@ + decimal(first)
                        + ")"@,
                )
                &&& c.evidence[2] == (EvidenceView::Numeric {
                    label: "first_diff_offset"@,
                    value: first,
                })
                &&& c.evidence[3] == (EvidenceView::Snippet {
                    label: "expected_hex_preview"@,
                    text: hex_preview_spec(expected, first, 32),
                })
                &&& c.evidence[4] == (EvidenceView::Snippet {
                    label: "actual_hex_preview"@,
                    text: hex_preview_spec(actual, first, 32),
                })
            },
        exists|first: nat|
            #![trigger decimal(first)]
            {
                &&& first <= expected.len()
                &&& first <= actual.len()
                &&& forall|k: int| 0 <= k < first ==> expected[k] == actual[k]
                &&& (first < expected.len() && first < actual.len() ==> expected[first as int]
                    != actual[first as int])
            },
{
    let c = binary_decision(name, actual, SnapshotView::Stored(expected), false)->Done_0;
    lemma_prefix_len_is_common(expected, actual);
    // the common prefix length is the witness of the `exists`
    let _ = decimal(prefix_len(expected, actual));
    assert forall|first: nat|
        #![trigger decimal(first)]
        {
            &&& first <= expected.len()
            &&& first <= actual.len()
            &&& forall|k: int| 0 <= k < first ==> expected[k] == actual[k]
            &&& (first < expected.len() && first < actual.len() ==> expected[first as int]
                != actual[first as int])
        } implies {
            &&& c.detail == Some(
                "binary mismatch (expected "@ + decimal(expected.len()) + " bytes, actual "@
                    + decimal(actual.len()) + " bytes, first diff at offset "@ + decimal(first)
                    + ")"@,
            )
            &&& c.evidence[2] == (EvidenceView::Numeric { label: "first_diff_offset"@, value: first })
            &&& c.evidence[3] == (EvidenceView::Snippet {
                label: "expected_hex_preview"@,
                text: hex_preview_spec(expected, first, 32),
            })
            &&& c.evidence[4] == (EvidenceView::Snippet {
                label: "actual_hex_preview"@,
                text: hex_preview_spec(actual, first, 32),
            })
        } by {
        lemma_prefix_len_unique(expected, actual, first as int);
    }
}
} // verus!
