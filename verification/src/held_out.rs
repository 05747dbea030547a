//! Trusted, content-addressed held-out suites and generic no-effect evaluation.
//!
//! Reports bind suite hashes and outcomes but never expose expressions, expected
//! values, fake responses or transcripts.

use crate::artifact::{CapabilityTier, SkillArtifact};
use crate::digest;
use crate::fakes;
use crate::fakes::{FakeTranscript, FileModel, TranscriptModel, VirtualFile, FAKES_VERSION};
use crate::json;
use crate::json::{Json, JsonValue};
use crate::text;
use vstd::prelude::*;
use vstd::string::*;

verus! {

pub const SUITE_FORMAT_VERSION: u32 = 1;

pub const MAX_CASES: usize = 64;

pub const MAX_EXPRESSION_BYTES: usize = 4096;

pub const MAX_FAKE_FILES: usize = 32;

pub const MAX_FAKE_FILE_BYTES: usize = 65536;

pub const MAX_SELECTOR_VALUES: usize = 32;

pub const MAX_SELECTOR_VALUE_BYTES: usize = 128;

pub const MAX_EXPECTED_STRING_BYTES: usize = 65536;

pub const MAX_TRANSCRIPT_CALLS: usize = 256;

pub const MAX_TRANSCRIPT_VALUE_BYTES: usize = 4096;

pub const MAX_MATCHED_SUITES: usize = 32;

pub const MAX_MATCHED_CASES: usize = 64;

/// Which skills a suite applies to.
#[derive(Debug, Clone, PartialEq, Eq)]
pub struct HeldOutSelector {
    pub tags: Vec<String>,
    pub exports: Vec<String>,
    pub capability_tier: Option<String>,
}

/// The value that an expression must have. A float is held by its IEEE 754 bits.
#[derive(Debug, Clone, PartialEq, Eq)]
pub enum ExpectedJsValue {
    Boolean(bool),
    Text(String),
    Integer(i64),
    Float(u64),
    Null,
}

/// The operations that a case must perform.
#[derive(Debug, Clone, PartialEq, Eq)]
pub struct TranscriptExpectation {
    pub reads: usize,
    pub writes: usize,
    pub spawns: usize,
    pub fetches: usize,
    pub read_paths: Vec<String>,
    pub spawn_programs: Vec<String>,
    pub fetch_urls: Vec<String>,
}

#[derive(Debug, Clone, PartialEq, Eq)]
pub struct HeldOutCase {
    pub expression: String,
    pub expected: ExpectedJsValue,
    /// Files by path, in the order of the paths.
    pub fake_files: Vec<VirtualFile>,
    pub transcript: TranscriptExpectation,
}

/// One path goes before another.
pub open spec fn path_before(a: Seq<char>, b: Seq<char>) -> bool {
    a != b && text::lex_le(a, b)
}

/// The files stand in the order of their paths, and no path occurs twice.
pub open spec fn in_path_order(files: Seq<FileModel>) -> bool {
    forall|i: int, j: int|
        0 <= i < j < files.len() ==> path_before(
            (#[trigger] files[i]).path,
            (#[trigger] files[j]).path,
        )
}

/// Files are other files with one more, which takes the place of the one that had its
/// path.
pub open spec fn adds_file(after: Seq<FileModel>, before: Seq<FileModel>, file: FileModel) -> bool {
    &&& in_path_order(after)
    &&& forall|q: FileModel|
        #[trigger] after.contains(q) <==> q == file || (q.path != file.path && before.contains(q))
}

impl HeldOutCase {
    /// The files of the case are in order.
    pub open spec fn well_formed(self) -> bool {
        in_path_order(fakes::file_views(self.fake_files@))
    }

    /// The case with one more file. A file that has the path already is replaced.
    pub fn with_file(self, path: String, content: String) -> (r: HeldOutCase)
        requires
            self.well_formed(),
        ensures
            r.well_formed(),
            adds_file(
                fakes::file_views(r.fake_files@),
                fakes::file_views(self.fake_files@),
                FileModel { path: path@, content: content@ },
            ),
            r == (HeldOutCase { fake_files: r.fake_files, ..self }),
    {
        let mut case = self;
        let ghost before = fakes::file_views(case.fake_files@);
        let mut at: usize = 0;
        while at < case.fake_files.len() && !text::text_le(&path, &case.fake_files[at].path)
            invariant
                at <= case.fake_files@.len(),
                before == fakes::file_views(case.fake_files@),
                case == self,
                forall|k: int| 0 <= k < at ==> !text::lex_le(path@, (#[trigger] before[k]).path),
            decreases case.fake_files@.len() - at,
        {
            assert(before[at as int].path == case.fake_files@[at as int].path@);
            at = at + 1;
        }
        let ghost file = FileModel { path: path@, content: content@ };
        let replaced = at < case.fake_files.len() && text::same(
            &case.fake_files[at].path,
            &path,
        );
        proof {
            if at < before.len() {
                assert(before[at as int].path == case.fake_files@[at as int].path@);
            }
        }
        let file_here = VirtualFile { path, content };
        if replaced {
            case.fake_files.set(at, file_here);
            assert(fakes::file_views(case.fake_files@) =~= before.update(at as int, file));
        } else {
            case.fake_files.insert(at, file_here);
            assert(fakes::file_views(case.fake_files@) =~= before.insert(at as int, file));
        }
        proof {
            lemma_file_is_placed(before, file, at as int, replaced);
        }
        case
    }
}

proof fn lemma_file_is_placed(before: Seq<FileModel>, file: FileModel, at: int, replaced: bool)
    requires
        in_path_order(before),
        0 <= at <= before.len(),
        forall|k: int| 0 <= k < at ==> !text::lex_le(file.path, (#[trigger] before[k]).path),
        at < before.len() ==> text::lex_le(file.path, before[at].path),
        replaced == (at < before.len() && before[at].path == file.path),
    ensures
        adds_file(
            if replaced {
                before.update(at, file)
            } else {
                before.insert(at, file)
            },
            before,
            file,
        ),
{
    text::lemma_lex_total_ordering();
    let leq = text::lex_order();
    let after = if replaced {
        before.update(at, file)
    } else {
        before.insert(at, file)
    };
    assert forall|k: int| 0 <= k < at implies path_before(
        (#[trigger] before[k]).path,
        file.path,
    ) by {
        assert(leq(before[k].path, file.path) || leq(file.path, before[k].path));
        assert(leq(file.path, file.path));
    }
    assert forall|k: int| at <= k < before.len() && !(replaced && k == at) implies path_before(
        file.path,
        (#[trigger] before[k]).path,
    ) by {
        if k > at {
            assert(path_before(before[at].path, before[k].path));
            assert(leq(file.path, before[at].path));
            assert(leq(before[at].path, before[k].path));
            assert(leq(file.path, before[k].path));
            if file.path == before[k].path {
                assert(leq(before[k].path, before[at].path));
            }
        }
    }
    assert forall|i: int, j: int| 0 <= i < j < after.len() implies path_before(
        (#[trigger] after[i]).path,
        (#[trigger] after[j]).path,
    ) by {
        let ii = if replaced || i < at { i } else { i - 1 };
        let jj = if replaced || j < at { j } else { j - 1 };
        if i != at {
            assert(after[i] == before[ii]);
        }
        if j != at {
            assert(after[j] == before[jj]);
        }
        if i != at && j != at {
            assert(path_before(before[ii].path, before[jj].path));
        }
    }
    assert forall|q: FileModel| #[trigger] after.contains(q) <==> q == file || (q.path
        != file.path && before.contains(q)) by {
        assert(after[at] == file);
        if after.contains(q) {
            let k = after.index_of(q);
            if k != at {
                let kk = if replaced || k < at { k } else { k - 1 };
                assert(after[k] == before[kk]);
                assert(before[kk].path != file.path);
            }
        }
        if q.path != file.path && before.contains(q) {
            let k = before.index_of(q);
            let kk = if replaced || k < at { k } else { k + 1 };
            assert(after[kk] == q);
        }
    }
}

/// The files of a case do not depend on the order in which they were given: two files
/// at different paths, added either way round, leave the same files.
pub proof fn law_files_are_kept_by_path(
    files: Seq<FileModel>,
    a: FileModel,
    b: FileModel,
    with_a: Seq<FileModel>,
    with_a_b: Seq<FileModel>,
    with_b: Seq<FileModel>,
    with_b_a: Seq<FileModel>,
)
    requires
        a.path != b.path,
        adds_file(with_a, files, a),
        adds_file(with_a_b, with_a, b),
        adds_file(with_b, files, b),
        adds_file(with_b_a, with_b, a),
    ensures
        with_a_b == with_b_a,
{
    assert forall|q: FileModel| #[trigger] with_a_b.contains(q) <==> with_b_a.contains(q) by {
        assert(with_a.contains(q) <==> q == a || (q.path != a.path && files.contains(q)));
        assert(with_b.contains(q) <==> q == b || (q.path != b.path && files.contains(q)));
    }
    lemma_same_files(with_a_b, with_b_a);
}

/// Files in order are told by which files they are.
proof fn lemma_same_files(a: Seq<FileModel>, b: Seq<FileModel>)
    requires
        in_path_order(a),
        in_path_order(b),
        forall|q: FileModel| #[trigger] a.contains(q) <==> b.contains(q),
    ensures
        a == b,
    decreases a.len(),
{
    if a.len() == 0 {
        if b.len() > 0 {
            assert(b.contains(b[0]));
            assert(a.contains(b[0]));
        }
        assert(a =~= b);
    } else {
        let x = a.last();
        assert(a.contains(a[a.len() - 1]));
        assert(b.contains(x));
        let y = b.last();
        assert(b.contains(b[b.len() - 1]));
        assert(a.contains(y));
        let i = a.index_of(y);
        let j = b.index_of(x);
        text::lemma_lex_total_ordering();
        let leq = text::lex_order();
        if x != y {
            assert(path_before(a[i].path, a[a.len() - 1].path));
            assert(path_before(b[j].path, b[b.len() - 1].path));
            assert(leq(x.path, y.path) && leq(y.path, x.path));
        }
        let p = a.drop_last();
        let q = b.drop_last();
        assert forall|f: FileModel| #[trigger] p.contains(f) <==> q.contains(f) by {
            if p.contains(f) {
                let k = p.index_of(f);
                assert(a[k] == f);
                assert(path_before(a[k].path, a[a.len() - 1].path));
                assert(a.contains(f));
                let l = b.index_of(f);
                assert(q[l] == f);
            }
            if q.contains(f) {
                let k = q.index_of(f);
                assert(b[k] == f);
                assert(path_before(b[k].path, b[b.len() - 1].path));
                assert(b.contains(f));
                assert(a.contains(f));
                let l = a.index_of(f);
                assert(p[l] == f);
            }
        }
        lemma_same_files(p, q);
        assert(a =~= p.push(x));
        assert(b =~= q.push(y));
    }
}

#[derive(Debug, Clone, PartialEq, Eq)]
pub struct HeldOutSuiteDraft {
    pub selector: HeldOutSelector,
    pub cases: Vec<HeldOutCase>,
}

#[derive(Debug, Clone, PartialEq, Eq)]
pub struct HeldOutSuite {
    pub id: String,
    pub content_hash: String,
    pub selector: HeldOutSelector,
    pub cases: Vec<HeldOutCase>,
    pub approved_by: String,
    pub approved_at: i64,
}

/// A stored suite: the serialized parts and the hash that addresses them.
#[derive(Debug, Clone, PartialEq, Eq)]
pub struct HeldOutSuiteRecord {
    pub suite_id: String,
    pub selector_json: String,
    pub cases_json: String,
    pub content_hash: String,
    pub canonical_payload: String,
    pub approved_by: String,
    pub approved_at: i64,
    pub enabled: bool,
}

/// A canonical payload as it was parsed, with its parts serialized again.
#[derive(Debug, Clone, PartialEq, Eq)]
pub struct ParsedPayload {
    pub version: u32,
    pub draft: HeldOutSuiteDraft,
    pub selector_json: String,
    pub cases_json: String,
}

/// How a test of a skill ended.
#[derive(Debug, Clone, Copy, PartialEq, Eq, Structural)]
pub enum TestResult {
    Failed,
    Timeout,
    OutOfMemory,
    JobLimitExceeded,
}

/// Why a skill could not be verified by running it.
#[derive(Debug, Clone, PartialEq, Eq)]
pub enum VerificationError {
    InfrastructureUnavailable(String),
    TestFailed { outcome: TestResult },
    RuntimeCreationFailed(String),
    ContextCreationFailed(String),
    SourceEvaluationFailed(String),
    MutationPassFailed { reason: String },
    Other(String),
}

/// Why a stored row could not be read or written.
#[derive(Debug, Clone, PartialEq, Eq)]
pub enum StoreFailure {
    /// The row does not hold what its identity says.
    Corrupt(String),
    Other(String),
}

impl StoreFailure {
    /// The sentence that reports the failure.
    pub open spec fn sentence(self) -> Seq<char> {
        match self {
            StoreFailure::Corrupt(s) => s@,
            StoreFailure::Other(s) => s@,
        }
    }
}

/// Why a suite or an evaluation was refused. The text of `Identity` and `Json` is that
/// of the failure behind it.
#[derive(Debug, Clone, PartialEq, Eq)]
pub enum HeldOutError {
    InvalidSuite(String),
    UnsupportedVersion(u32),
    TamperedSuite(String),
    SuiteRequired,
    Identity(String),
    Embedded(VerificationError),
    Inherited(VerificationError),
    Infrastructure(VerificationError),
    CaseFailed { suite_id: String, case_index: usize },
    TranscriptMismatch { suite_id: String, case_index: usize },
    Store(StoreFailure),
    Json(String),
}

/// The contents of a [`HeldOutError`].
#[verifier::ext_equal]
pub enum HeldOutFault {
    InvalidSuite(Seq<char>),
    UnsupportedVersion(u32),
    TamperedSuite(Seq<char>),
    SuiteRequired,
    Identity(Seq<char>),
    Embedded(VerificationError),
    Inherited(VerificationError),
    Infrastructure(VerificationError),
    CaseFailed { suite_id: Seq<char>, case_index: usize },
    TranscriptMismatch { suite_id: Seq<char>, case_index: usize },
    Store(StoreFailure),
    Json(Seq<char>),
}

impl View for HeldOutError {
    type V = HeldOutFault;

    open spec fn view(&self) -> HeldOutFault {
        match *self {
            HeldOutError::InvalidSuite(s) => HeldOutFault::InvalidSuite(s@),
            HeldOutError::UnsupportedVersion(v) => HeldOutFault::UnsupportedVersion(v),
            HeldOutError::TamperedSuite(s) => HeldOutFault::TamperedSuite(s@),
            HeldOutError::SuiteRequired => HeldOutFault::SuiteRequired,
            HeldOutError::Identity(s) => HeldOutFault::Identity(s@),
            HeldOutError::Embedded(e) => HeldOutFault::Embedded(e),
            HeldOutError::Inherited(e) => HeldOutFault::Inherited(e),
            HeldOutError::Infrastructure(e) => HeldOutFault::Infrastructure(e),
            HeldOutError::CaseFailed { suite_id, case_index } => {
                HeldOutFault::CaseFailed { suite_id: suite_id@, case_index }
            },
            HeldOutError::TranscriptMismatch { suite_id, case_index } => {
                HeldOutFault::TranscriptMismatch { suite_id: suite_id@, case_index }
            },
            HeldOutError::Store(e) => HeldOutFault::Store(e),
            HeldOutError::Json(s) => HeldOutFault::Json(s@),
        }
    }
}

impl HeldOutFault {
    /// The sentence that reports the fault.
    pub open spec fn sentence(self) -> Seq<char> {
        match self {
            HeldOutFault::InvalidSuite(s) => "invalid held-out suite: "@ + s,
            HeldOutFault::UnsupportedVersion(v) => {
                "unsupported held-out suite version: "@ + text::decimal(v as nat)
            },
            HeldOutFault::TamperedSuite(s) => "held-out suite was tampered: "@ + s,
            HeldOutFault::SuiteRequired => "held-out_suite_required"@,
            HeldOutFault::Identity(s) => "identity_invalid: "@ + s,
            HeldOutFault::Embedded(_) => "embedded_test_failed"@,
            HeldOutFault::Inherited(_) => "inherited_regression_failed"@,
            HeldOutFault::Infrastructure(_) => "evaluation_infrastructure_unavailable"@,
            HeldOutFault::CaseFailed { suite_id, case_index } => {
                "held_out_failed for suite "@ + suite_id + " case "@ + text::decimal(
                    case_index as nat,
                )
            },
            HeldOutFault::TranscriptMismatch { suite_id, case_index } => {
                "held_out_failed transcript for suite "@ + suite_id + " case "@ + text::decimal(
                    case_index as nat,
                )
            },
            HeldOutFault::Store(e) => e.sentence(),
            HeldOutFault::Json(s) => s,
        }
    }
}

impl HeldOutError {
    /// The sentence that reports the error.
    pub fn message(&self) -> (r: String)
        ensures
            r@ == self@.sentence(),
    {
        match self {
            HeldOutError::InvalidSuite(s) => text::join2("invalid held-out suite: ", s),
            HeldOutError::UnsupportedVersion(v) => {
                let version = text::render_u64(*v as u64);
                text::join2("unsupported held-out suite version: ", &version)
            },
            HeldOutError::TamperedSuite(s) => text::join2("held-out suite was tampered: ", s),
            HeldOutError::SuiteRequired => "held-out_suite_required".to_owned(),
            HeldOutError::Identity(s) => text::join2("identity_invalid: ", s),
            HeldOutError::Embedded(_) => "embedded_test_failed".to_owned(),
            HeldOutError::Inherited(_) => "inherited_regression_failed".to_owned(),
            HeldOutError::Infrastructure(_) => "evaluation_infrastructure_unavailable".to_owned(),
            HeldOutError::CaseFailed { suite_id, case_index } => {
                let index = text::render_u64(*case_index as u64);
                let mut out = text::join3("held_out_failed for suite ", suite_id, " case ");
                out.append(&index);
                out
            },
            HeldOutError::TranscriptMismatch { suite_id, case_index } => {
                let index = text::render_u64(*case_index as u64);
                let mut out = text::join3(
                    "held_out_failed transcript for suite ",
                    suite_id,
                    " case ",
                );
                out.append(&index);
                out
            },
            HeldOutError::Store(e) => match e {
                StoreFailure::Corrupt(s) => s.clone(),
                StoreFailure::Other(s) => s.clone(),
            },
            HeldOutError::Json(s) => s.clone(),
        }
    }
}

/// A text holds the null character.
pub open spec fn has_nul(s: Seq<char>) -> bool {
    s.contains('\0')
}

fn holds_nul(s: &str) -> (r: bool)
    ensures
        r == has_nul(s@),
{
    let chars = text::chars_of(s);
    let mut i: usize = 0;
    while i < chars.len()
        invariant
            i <= chars@.len(),
            chars@ == s@,
            forall|j: int| 0 <= j < i ==> s@[j] != '\0',
        decreases chars@.len() - i,
    {
        if chars[i] == '\0' {
            assert(s@[i as int] == '\0');
            return true;
        }
        i = i + 1;
    }
    false
}

/// A selector value is not blank, short enough and without null characters.
pub open spec fn selector_value_fits(s: Seq<char>) -> bool {
    !text::is_blank(s) && text::utf8_len(s) <= MAX_SELECTOR_VALUE_BYTES && !has_nul(s)
}

pub open spec fn all_selector_values_fit(s: Seq<Seq<char>>) -> bool {
    forall|i: int| 0 <= i < s.len() ==> selector_value_fits(#[trigger] s[i])
}

/// A transcript value is short enough and without null characters.
pub open spec fn transcript_value_fits(s: Seq<char>) -> bool {
    text::utf8_len(s) <= MAX_TRANSCRIPT_VALUE_BYTES && !has_nul(s)
}

pub open spec fn all_transcript_values_fit(s: Seq<Seq<char>>) -> bool {
    forall|i: int| 0 <= i < s.len() ==> transcript_value_fits(#[trigger] s[i])
}

pub open spec fn fake_file_fits(f: VirtualFile) -> bool {
    f.path@.len() > 0 && transcript_value_fits(f.path@) && text::utf8_len(f.content@)
        <= MAX_FAKE_FILE_BYTES
}

/// A float is finite exactly where its exponent bits are not all ones.
pub open spec fn is_finite(bits: u64) -> bool {
    (bits as int / 0x10_0000_0000_0000) % 2048 != 2047
}

/// What is wrong with one case.
pub open spec fn case_fault(case: HeldOutCase) -> Option<Seq<char>> {
    if text::is_blank(case.expression@) || text::utf8_len(case.expression@) > MAX_EXPRESSION_BYTES
        || has_nul(case.expression@) {
        Some("held-out expression is empty or oversized"@)
    } else if case.fake_files@.len() > MAX_FAKE_FILES || !(forall|i: int|
        0 <= i < case.fake_files@.len() ==> fake_file_fits(#[trigger] case.fake_files@[i])) {
        Some("held-out fake file fixture is invalid"@)
    } else if match case.expected {
        ExpectedJsValue::Text(value) => text::utf8_len(value@) > MAX_EXPECTED_STRING_BYTES,
        ExpectedJsValue::Float(bits) => !is_finite(bits),
        _ => false,
    } {
        Some("held-out expected value is invalid"@)
    } else if !expectation_fits(case.transcript) {
        Some("held-out transcript expectation is invalid"@)
    } else {
        None
    }
}

pub open spec fn expectation_fits(t: TranscriptExpectation) -> bool {
    &&& t.reads <= MAX_TRANSCRIPT_CALLS
    &&& t.writes <= MAX_TRANSCRIPT_CALLS
    &&& t.spawns <= MAX_TRANSCRIPT_CALLS
    &&& t.fetches <= MAX_TRANSCRIPT_CALLS
    &&& t.read_paths@.len() <= MAX_TRANSCRIPT_CALLS
    &&& t.spawn_programs@.len() <= MAX_TRANSCRIPT_CALLS
    &&& t.fetch_urls@.len() <= MAX_TRANSCRIPT_CALLS
    &&& all_transcript_values_fit(text::views(t.read_paths@))
    &&& all_transcript_values_fit(text::views(t.spawn_programs@))
    &&& all_transcript_values_fit(text::views(t.fetch_urls@))
}

/// The fault of the first faulty case, from position `i` on.
pub open spec fn cases_fault_from(cases: Seq<HeldOutCase>, i: int) -> Option<Seq<char>>
    decreases cases.len() - i,
{
    if i < 0 || i >= cases.len() {
        None
    } else if case_fault(cases[i]) is Some {
        case_fault(cases[i])
    } else {
        cases_fault_from(cases, i + 1)
    }
}

/// What is wrong with a suite.
pub open spec fn suite_fault(suite: HeldOutSuiteDraft) -> Option<Seq<char>> {
    let tags = text::views(suite.selector.tags@);
    let exports = text::views(suite.selector.exports@);
    if suite.cases@.len() == 0 || suite.cases@.len() > MAX_CASES {
        Some("suite must contain between 1 and 64 cases"@)
    } else if tags.len() > MAX_SELECTOR_VALUES || exports.len() > MAX_SELECTOR_VALUES
        || !all_selector_values_fit(tags) || !all_selector_values_fit(exports) {
        Some("selector contains too many values"@)
    } else if suite.selector.capability_tier is Some && forall|tier: CapabilityTier|
        #[trigger] tier.token() != suite.selector.capability_tier->0@ {
        Some("selector capability tier is invalid"@)
    } else {
        cases_fault_from(suite.cases@, 0)
    }
}

fn selector_values_fit(values: &Vec<String>) -> (r: bool)
    ensures
        r == all_selector_values_fit(text::views(values@)),
{
    let ghost all = text::views(values@);
    let mut i: usize = 0;
    while i < values.len()
        invariant
            i <= values@.len(),
            all == text::views(values@),
            forall|j: int| 0 <= j < i ==> selector_value_fits(#[trigger] all[j]),
        decreases values@.len() - i,
    {
        assert(all[i as int] == values@[i as int]@);
        if text::blank(&values[i]) || text::byte_len(&values[i]) > MAX_SELECTOR_VALUE_BYTES
            || holds_nul(&values[i]) {
            assert(!selector_value_fits(all[i as int]));
            return false;
        }
        i = i + 1;
    }
    true
}

fn transcript_values_fit(values: &Vec<String>) -> (r: bool)
    ensures
        r == all_transcript_values_fit(text::views(values@)),
{
    let ghost all = text::views(values@);
    let mut i: usize = 0;
    while i < values.len()
        invariant
            i <= values@.len(),
            all == text::views(values@),
            forall|j: int| 0 <= j < i ==> transcript_value_fits(#[trigger] all[j]),
        decreases values@.len() - i,
    {
        assert(all[i as int] == values@[i as int]@);
        if text::byte_len(&values[i]) > MAX_TRANSCRIPT_VALUE_BYTES || holds_nul(&values[i]) {
            assert(!transcript_value_fits(all[i as int]));
            return false;
        }
        i = i + 1;
    }
    true
}

fn fake_files_fit(files: &Vec<VirtualFile>) -> (r: bool)
    ensures
        r == (forall|i: int| 0 <= i < files@.len() ==> fake_file_fits(#[trigger] files@[i])),
{
    let mut i: usize = 0;
    while i < files.len()
        invariant
            i <= files@.len(),
            forall|j: int| 0 <= j < i ==> fake_file_fits(#[trigger] files@[j]),
        decreases files@.len() - i,
    {
        let file = &files[i];
        if file.path.as_str().is_empty() || text::byte_len(&file.path) > MAX_TRANSCRIPT_VALUE_BYTES
            || holds_nul(&file.path) || text::byte_len(&file.content) > MAX_FAKE_FILE_BYTES {
            assert(!fake_file_fits(files@[i as int]));
            return false;
        }
        i = i + 1;
    }
    true
}

fn check_case(case: &HeldOutCase) -> (r: Option<&'static str>)
    ensures
        match r {
            None => case_fault(*case) is None,
            Some(s) => case_fault(*case) == Some(s@),
        },
{
    if text::blank(&case.expression) || text::byte_len(&case.expression) > MAX_EXPRESSION_BYTES
        || holds_nul(&case.expression) {
        return Some("held-out expression is empty or oversized");
    }
    if case.fake_files.len() > MAX_FAKE_FILES || !fake_files_fit(&case.fake_files) {
        return Some("held-out fake file fixture is invalid");
    }
    let bad_value = match &case.expected {
        ExpectedJsValue::Text(value) => text::byte_len(value) > MAX_EXPECTED_STRING_BYTES,
        ExpectedJsValue::Float(bits) => (*bits / 0x10_0000_0000_0000) % 2048 == 2047,
        _ => false,
    };
    if bad_value {
        return Some("held-out expected value is invalid");
    }
    let t = &case.transcript;
    if t.reads > MAX_TRANSCRIPT_CALLS || t.writes > MAX_TRANSCRIPT_CALLS || t.spawns
        > MAX_TRANSCRIPT_CALLS || t.fetches > MAX_TRANSCRIPT_CALLS || t.read_paths.len()
        > MAX_TRANSCRIPT_CALLS || t.spawn_programs.len() > MAX_TRANSCRIPT_CALLS
        || t.fetch_urls.len() > MAX_TRANSCRIPT_CALLS || !transcript_values_fit(&t.read_paths)
        || !transcript_values_fit(&t.spawn_programs) || !transcript_values_fit(&t.fetch_urls) {
        return Some("held-out transcript expectation is invalid");
    }
    None
}

/// Checks a suite by itself.
pub fn validate_suite(suite: &HeldOutSuiteDraft) -> (r: Result<(), HeldOutError>)
    ensures
        match suite_fault(*suite) {
            None => r is Ok,
            Some(s) => r is Err && r->Err_0@ == HeldOutFault::InvalidSuite(s),
        },
{
    if suite.cases.len() == 0 || suite.cases.len() > MAX_CASES {
        return Err(
            HeldOutError::InvalidSuite("suite must contain between 1 and 64 cases".to_owned()),
        );
    }
    if suite.selector.tags.len() > MAX_SELECTOR_VALUES || suite.selector.exports.len()
        > MAX_SELECTOR_VALUES || !selector_values_fit(&suite.selector.tags)
        || !selector_values_fit(&suite.selector.exports) {
        return Err(HeldOutError::InvalidSuite("selector contains too many values".to_owned()));
    }
    if let Some(tier) = &suite.selector.capability_tier {
        if CapabilityTier::from_token(tier).is_none() {
            return Err(
                HeldOutError::InvalidSuite("selector capability tier is invalid".to_owned()),
            );
        }
    }
    let mut i: usize = 0;
    while i < suite.cases.len()
        invariant
            i <= suite.cases@.len(),
            suite_fault(*suite) == cases_fault_from(suite.cases@, 0),
            cases_fault_from(suite.cases@, 0) == cases_fault_from(suite.cases@, i as int),
        decreases suite.cases@.len() - i,
    {
        match check_case(&suite.cases[i]) {
            None => {},
            Some(s) => {
                return Err(HeldOutError::InvalidSuite(s.to_owned()));
            },
        }
        i = i + 1;
    }
    Ok(())
}

/// The hash that addresses a payload.
pub open spec fn payload_hash(payload: Seq<char>) -> Seq<char> {
    digest::hex(digest::sha256(vstd::utf8::encode_utf8(payload)))
}

/// Hashes a payload.
pub fn hash_payload(payload: &str) -> (r: String)
    ensures
        r@ == payload_hash(payload@),
        digest::is_full_lower_hex(r@),
{
    let mut bytes: Vec<u8> = Vec::new();
    digest::push_bytes(&mut bytes, payload.as_bytes());
    assert(bytes@ =~= vstd::utf8::encode_utf8(payload@));
    let hashed = digest::sha256_bytes(&bytes);
    proof {
        digest::lemma_hex_is_full(hashed@);
    }
    digest::hex_lower(&hashed)
}

/// The canonical payload of a suite: its version, its selector and its cases, as one JSON
/// object of their texts.
pub open spec fn payload_text(selector_json: Seq<char>, cases_json: Seq<char>) -> Seq<char> {
    "{\"version\":"@ + text::decimal(SUITE_FORMAT_VERSION as nat) + ",\"selector\":"@
        + selector_json + ",\"cases\":"@ + cases_json + "}"@
}

/// Writes the canonical payload of a suite.
pub fn write_payload(selector_json: &str, cases_json: &str) -> (r: String)
    ensures
        r@ == payload_text(selector_json@, cases_json@),
{
    let mut payload = "{\"version\":".to_owned();
    let version = text::render_u64(SUITE_FORMAT_VERSION as u64);
    payload.append(&version);
    payload.append(",\"selector\":");
    payload.append(selector_json);
    payload.append(",\"cases\":");
    payload.append(cases_json);
    payload.append("}");
    payload
}

impl HeldOutSuiteDraft {
    /// Checks the draft and builds the record that stores it under the hash of its
    /// canonical payload. The two texts are its serialized selector and cases.
    pub fn import(&self, selector_json: String, cases_json: String) -> (r: Result<
        HeldOutSuiteRecord,
        HeldOutError,
    >)
        ensures
            match suite_fault(*self) {
                Some(s) => r is Err && r->Err_0@ == HeldOutFault::InvalidSuite(s),
                None => {
                    let payload = payload_text(selector_json@, cases_json@);
                    &&& r is Ok
                    &&& r->Ok_0.suite_id@ == payload_hash(payload)
                    &&& r->Ok_0.content_hash@ == payload_hash(payload)
                    &&& r->Ok_0.canonical_payload@ == payload
                    &&& r->Ok_0.selector_json == selector_json
                    &&& r->Ok_0.cases_json == cases_json
                    &&& r->Ok_0.approved_by@.len() == 0
                    &&& r->Ok_0.approved_at == 0
                    &&& r->Ok_0.enabled
                },
            },
    {
        match validate_suite(self) {
            Ok(()) => {},
            Err(e) => {
                return Err(e);
            },
        }
        let canonical_payload = write_payload(&selector_json, &cases_json);
        let content_hash = hash_payload(&canonical_payload);
        Ok(
            HeldOutSuiteRecord {
                suite_id: content_hash.clone(),
                selector_json,
                cases_json,
                content_hash,
                canonical_payload,
                approved_by: String::new(),
                approved_at: 0,
                enabled: true,
            },
        )
    }

    /// Checks the draft by itself.
    pub fn validate(&self) -> (r: Result<(), HeldOutError>)
        ensures
            match suite_fault(*self) {
                None => r is Ok,
                Some(s) => r is Err && r->Err_0@ == HeldOutFault::InvalidSuite(s),
            },
    {
        validate_suite(self)
    }
}

/// What is wrong with a stored record whose payload was hashed and parsed as given.
pub open spec fn record_fault_against(
    record: HeldOutSuiteRecord,
    hash: Seq<char>,
    parsed: Result<ParsedPayload, String>,
) -> Option<HeldOutFault> {
    if hash != record.suite_id@ || hash != record.content_hash@ {
        Some(HeldOutFault::TamperedSuite(record.suite_id@))
    } else {
        match parsed {
            Err(e) => Some(HeldOutFault::Json(e@)),
            Ok(p) => if p.version != SUITE_FORMAT_VERSION {
                Some(HeldOutFault::UnsupportedVersion(p.version))
            } else if suite_fault(p.draft) is Some {
                Some(HeldOutFault::InvalidSuite(suite_fault(p.draft)->0))
            } else if p.selector_json@ != record.selector_json@ || p.cases_json@
                != record.cases_json@ {
                Some(HeldOutFault::TamperedSuite(record.suite_id@))
            } else {
                None
            },
        }
    }
}

/// What is wrong with a stored record whose payload was parsed as given.
pub open spec fn record_fault(
    record: HeldOutSuiteRecord,
    parsed: Result<ParsedPayload, String>,
) -> Option<HeldOutFault> {
    record_fault_against(record, payload_hash(record.canonical_payload@), parsed)
}

/// A suite is what a record and its parsed payload hold.
pub open spec fn is_opened(
    suite: HeldOutSuite,
    record: HeldOutSuiteRecord,
    draft: HeldOutSuiteDraft,
) -> bool {
    &&& suite.id == record.suite_id
    &&& suite.content_hash == record.content_hash
    &&& suite.selector == draft.selector
    &&& suite.cases == draft.cases
    &&& suite.approved_by == record.approved_by
    &&& suite.approved_at == record.approved_at
}

/// Checks a stored record against its hash and its parts, and opens it. `parsed` is
/// what parsing the canonical payload gave.
pub fn decode_record(record: HeldOutSuiteRecord, parsed: Result<ParsedPayload, String>) -> (r:
    Result<HeldOutSuite, HeldOutError>)
    ensures
        match r {
            Ok(suite) => record_fault(record, parsed) is None && is_opened(
                suite,
                record,
                parsed->Ok_0.draft,
            ),
            Err(e) => record_fault(record, parsed) == Some(e@),
        },
{
    let hash = hash_payload(&record.canonical_payload);
    open_record(record, &hash, parsed)
}

/// Checks a stored record against the hash that was computed for its payload and against
/// its parts, and opens it.
pub fn open_record(
    record: HeldOutSuiteRecord,
    hash: &str,
    parsed: Result<ParsedPayload, String>,
) -> (r: Result<HeldOutSuite, HeldOutError>)
    ensures
        match r {
            Ok(suite) => record_fault_against(record, hash@, parsed) is None && is_opened(
                suite,
                record,
                parsed->Ok_0.draft,
            ),
            Err(e) => record_fault_against(record, hash@, parsed) == Some(e@),
        },
{
    if !text::same(hash, &record.suite_id) || !text::same(hash, &record.content_hash) {
        return Err(HeldOutError::TamperedSuite(record.suite_id));
    }
    let canonical = match parsed {
        Ok(canonical) => canonical,
        Err(e) => {
            return Err(HeldOutError::Json(e));
        },
    };
    if canonical.version != SUITE_FORMAT_VERSION {
        return Err(HeldOutError::UnsupportedVersion(canonical.version));
    }
    match validate_suite(&canonical.draft) {
        Ok(()) => {},
        Err(e) => {
            return Err(e);
        },
    }
    if !text::same(&canonical.selector_json, &record.selector_json) || !text::same(
        &canonical.cases_json,
        &record.cases_json,
    ) {
        return Err(HeldOutError::TamperedSuite(record.suite_id));
    }
    Ok(
        HeldOutSuite {
            id: record.suite_id,
            content_hash: record.content_hash,
            selector: canonical.draft.selector,
            cases: canonical.draft.cases,
            approved_by: record.approved_by,
            approved_at: record.approved_at,
        },
    )
}

/// A record that importing a valid suite built opens again, unless a part of it was
/// changed: any change of the payload that changes its hash is refused.
pub proof fn law_imported_suites_open(record: HeldOutSuiteRecord, parsed: ParsedPayload)
    requires
        record.suite_id@ == payload_hash(record.canonical_payload@),
        record.content_hash@ == payload_hash(record.canonical_payload@),
        parsed.version == SUITE_FORMAT_VERSION,
        suite_fault(parsed.draft) is None,
        parsed.selector_json@ == record.selector_json@,
        parsed.cases_json@ == record.cases_json@,
    ensures
        record_fault(record, Ok(parsed)) is None,
{
}

/// A stored record whose payload no longer hashes to its id is refused, whatever
/// the payload says.
pub proof fn law_tampered_suites_are_refused(
    record: HeldOutSuiteRecord,
    parsed: Result<ParsedPayload, String>,
)
    requires
        payload_hash(record.canonical_payload@) != record.suite_id@,
    ensures
        record_fault(record, parsed) == Some(HeldOutFault::TamperedSuite(record.suite_id@)),
{
}

/// A selector applies to an artifact: every tag is among its tags, every export
/// among its exports, and the tier is its tier.
pub open spec fn selects(selector: HeldOutSelector, artifact: SkillArtifact) -> bool {
    &&& forall|i: int|
        0 <= i < selector.tags@.len() ==> artifact@.tags.contains(
            crate::artifact::folded_tag(#[trigger] selector.tags@[i]@),
        )
    &&& forall|i: int|
        0 <= i < selector.exports@.len() ==> exports_name(
            artifact,
            #[trigger] selector.exports@[i]@,
        )
    &&& selector.capability_tier is Some ==> artifact.capability.tier.token()
        == selector.capability_tier->0@
}

/// One of the exports has the name.
pub open spec fn exports_name(artifact: SkillArtifact, name: Seq<char>) -> bool {
    exists|i: int| 0 <= i < artifact.exports@.len() && (#[trigger] artifact.exports@[i]).name@ == name
}

fn has_export(artifact: &SkillArtifact, name: &str) -> (r: bool)
    ensures
        r == exports_name(*artifact, name@),
{
    let mut i: usize = 0;
    while i < artifact.exports.len()
        invariant
            i <= artifact.exports@.len(),
            forall|j: int| 0 <= j < i ==> (#[trigger] artifact.exports@[j]).name@ != name@,
        decreases artifact.exports@.len() - i,
    {
        if text::same(&artifact.exports[i].name, name) {
            assert(artifact.exports@[i as int].name@ == name@);
            return true;
        }
        i = i + 1;
    }
    false
}

/// Reports whether a selector applies to an artifact.
pub fn selector_matches(selector: &HeldOutSelector, artifact: &SkillArtifact) -> (r: bool)
    ensures
        r == selects(*selector, *artifact),
        crate::artifact::folds_ascii(selector.tags@),
{
    let folded = crate::artifact::fold_tags(&selector.tags);
    let ghost wanted = text::views(selector.tags@).map_values(
        |tag: Seq<char>| crate::artifact::folded_tag(tag),
    );
    assert forall|i: int| 0 <= i < selector.tags@.len() implies wanted[i]
        == crate::artifact::folded_tag(#[trigger] selector.tags@[i]@) by {}
    assert(all_among(wanted, artifact@.tags) ==> forall|i: int|
        0 <= i < selector.tags@.len() ==> artifact@.tags.contains(
            crate::artifact::folded_tag(#[trigger] selector.tags@[i]@),
        ));
    assert((forall|i: int|
        0 <= i < selector.tags@.len() ==> artifact@.tags.contains(
            crate::artifact::folded_tag(#[trigger] selector.tags@[i]@),
        )) ==> all_among(wanted, artifact@.tags)) by {
        if forall|i: int|
            0 <= i < selector.tags@.len() ==> artifact@.tags.contains(
                crate::artifact::folded_tag(#[trigger] selector.tags@[i]@),
            ) {
            assert forall|i: int| 0 <= i < wanted.len() implies artifact@.tags.contains(
                #[trigger] wanted[i],
            ) by {
                assert(wanted[i] == crate::artifact::folded_tag(selector.tags@[i]@));
            }
        }
    }
    selector_applies(&folded, selector, artifact)
}

/// Every one of the texts is among the others.
pub open spec fn all_among(texts: Seq<Seq<char>>, others: Seq<Seq<char>>) -> bool {
    forall|i: int| 0 <= i < texts.len() ==> others.contains(#[trigger] texts[i])
}

/// Reports whether a selector with the given folded tags applies to an artifact.
pub fn selector_applies(
    folded: &Vec<String>,
    selector: &HeldOutSelector,
    artifact: &SkillArtifact,
) -> (r: bool)
    ensures
        r == {
            &&& all_among(text::views(folded@), artifact@.tags)
            &&& forall|i: int|
                0 <= i < selector.exports@.len() ==> exports_name(
                    *artifact,
                    #[trigger] selector.exports@[i]@,
                )
            &&& selector.capability_tier is Some ==> artifact.capability.tier.token()
                == selector.capability_tier->0@
        },
{
    let ghost wanted = text::views(folded@);
    let mut i: usize = 0;
    while i < folded.len()
        invariant
            i <= folded@.len(),
            wanted == text::views(folded@),
            forall|j: int| 0 <= j < i ==> artifact@.tags.contains(#[trigger] wanted[j]),
        decreases folded@.len() - i,
    {
        assert(wanted[i as int] == folded@[i as int]@);
        if !text::contains_text(&artifact.tags, &folded[i]) {
            assert(!artifact@.tags.contains(wanted[i as int]));
            return false;
        }
        i = i + 1;
    }
    let mut k: usize = 0;
    while k < selector.exports.len()
        invariant
            k <= selector.exports@.len(),
            forall|j: int|
                0 <= j < k ==> exports_name(*artifact, #[trigger] selector.exports@[j]@),
        decreases selector.exports@.len() - k,
    {
        if !has_export(artifact, &selector.exports[k]) {
            assert(!exports_name(*artifact, selector.exports@[k as int]@));
            return false;
        }
        k = k + 1;
    }
    match &selector.capability_tier {
        None => true,
        Some(tier) => text::same(artifact.capability.tier.as_token(), tier),
    }
}

/// The position behind every suite whose id does not come after `id`, among suites
/// in order.
pub open spec fn insertion_point(suites: Seq<HeldOutSuite>, id: Seq<char>, from: int) -> int
    decreases suites.len() - from,
{
    if from < 0 || from >= suites.len() || !text::lex_le(suites[from].id@, id) {
        from
    } else {
        insertion_point(suites, id, from + 1)
    }
}

/// The suites ordered by id; suites with one id keep their order.
pub open spec fn by_id(suites: Seq<HeldOutSuite>) -> Seq<HeldOutSuite>
    decreases suites.len(),
{
    if suites.len() == 0 {
        suites
    } else {
        let before = by_id(suites.drop_last());
        before.insert(insertion_point(before, suites.last().id@, 0), suites.last())
    }
}

proof fn lemma_insertion_point(suites: Seq<HeldOutSuite>, id: Seq<char>, from: int)
    requires
        0 <= from <= suites.len(),
    ensures
        from <= insertion_point(suites, id, from) <= suites.len(),
        forall|j: int|
            from <= j < insertion_point(suites, id, from) ==> text::lex_le(
                (#[trigger] suites[j]).id@,
                id,
            ),
        insertion_point(suites, id, from) < suites.len() ==> !text::lex_le(
            suites[insertion_point(suites, id, from)].id@,
            id,
        ),
    decreases suites.len() - from,
{
    if from < suites.len() && text::lex_le(suites[from].id@, id) {
        lemma_insertion_point(suites, id, from + 1);
    }
}

/// Ordering by id gives ascending ids and keeps every suite.
pub proof fn law_by_id_is_sorted(suites: Seq<HeldOutSuite>)
    ensures
        by_id(suites).to_multiset() == suites.to_multiset(),
        forall|i: int, j: int|
            0 <= i < j < by_id(suites).len() ==> text::lex_le(
                (#[trigger] by_id(suites)[i]).id@,
                (#[trigger] by_id(suites)[j]).id@,
            ),
    decreases suites.len(),
{
    if suites.len() > 0 {
        let init = suites.drop_last();
        let last = suites.last();
        let before = by_id(init);
        law_by_id_is_sorted(init);
        lemma_insertion_point(before, last.id@, 0);
        let at = insertion_point(before, last.id@, 0);
        let after = by_id(suites);
        text::lemma_insert_multiset(before, at, last);
        assert(suites =~= init.push(last));
        broadcast use vstd::seq_lib::group_to_multiset_ensures;

        text::lemma_lex_total_ordering();
        let leq = text::lex_order();
        assert forall|i: int, j: int| 0 <= i < j < after.len() implies text::lex_le(
            (#[trigger] after[i]).id@,
            (#[trigger] after[j]).id@,
        ) by {
            if j == at {
                assert(after[i] == before[i]);
            } else if i == at {
                assert(after[j] == before[j - 1]);
                assert(leq(last.id@, before[at].id@) || leq(before[at].id@, last.id@));
                if j - 1 > at {
                    assert(leq(before[at].id@, before[j - 1].id@));
                    assert(leq(last.id@, before[j - 1].id@));
                }
            } else {
                let ii = if i < at {
                    i
                } else {
                    i - 1
                };
                let jj = if j < at {
                    j
                } else {
                    j - 1
                };
                assert(after[i] == before[ii]);
                assert(after[j] == before[jj]);
            }
        }
    }
}

fn insert_by_id(suites: &mut Vec<HeldOutSuite>, suite: HeldOutSuite)
    ensures
        final(suites)@ == old(suites)@.insert(
            insertion_point(old(suites)@, suite.id@, 0),
            suite,
        ),
{
    let mut at: usize = 0;
    while at < suites.len() && text::text_le(&suites[at].id, &suite.id)
        invariant
            at <= suites@.len(),
            suites@ == old(suites)@,
            insertion_point(suites@, suite.id@, 0) == insertion_point(
                suites@,
                suite.id@,
                at as int,
            ),
        decreases suites@.len() - at,
    {
        at = at + 1;
    }
    suites.insert(at, suite);
}

/// Orders suites by id.
pub fn sort_suites(suites: Vec<HeldOutSuite>) -> (r: Vec<HeldOutSuite>)
    ensures
        r@ == by_id(suites@),
{
    let mut rest = suites;
    let ghost all = rest@;
    let mut out: Vec<HeldOutSuite> = Vec::new();
    let ghost mut k: int = 0;
    proof {
        assert(all.skip(0) =~= all);
        assert(all.take(0).len() == 0);
        assert(out@ =~= by_id(all.take(0)));
    }
    while rest.len() > 0
        invariant
            0 <= k <= all.len(),
            rest@ == all.skip(k),
            out@ == by_id(all.take(k)),
        decreases rest@.len(),
    {
        let suite = rest.remove(0);
        proof {
            assert(suite == all[k]);
            assert(rest@ =~= all.skip(k + 1));
            assert(all.take(k + 1).drop_last() =~= all.take(k));
            assert(all.take(k + 1).last() == all[k]);
        }
        insert_by_id(&mut out, suite);
        proof {
            k = k + 1;
        }
    }
    assert(all.take(k) =~= all);
    out
}

/// The suites whose selector applies, in the given order.
pub open spec fn selected(suites: Seq<HeldOutSuite>, artifact: SkillArtifact) -> Seq<HeldOutSuite>
    decreases suites.len(),
{
    if suites.len() == 0 {
        suites
    } else {
        let before = selected(suites.drop_last(), artifact);
        if selects(suites.last().selector, artifact) {
            before.push(suites.last())
        } else {
            before
        }
    }
}

/// Picks the suites whose selector applies to an artifact, ordered by id.
pub fn select_suites(suites: Vec<HeldOutSuite>, artifact: &SkillArtifact) -> (r: Vec<HeldOutSuite>)
    ensures
        r@ == by_id(selected(suites@, *artifact)),
{
    let mut rest = suites;
    let ghost all = rest@;
    let mut out: Vec<HeldOutSuite> = Vec::new();
    let ghost mut k: int = 0;
    proof {
        assert(all.skip(0) =~= all);
        assert(all.take(0).len() == 0);
        assert(out@ =~= selected(all.take(0), *artifact));
    }
    while rest.len() > 0
        invariant
            0 <= k <= all.len(),
            rest@ == all.skip(k),
            out@ == selected(all.take(k), *artifact),
        decreases rest@.len(),
    {
        let suite = rest.remove(0);
        proof {
            assert(suite == all[k]);
            assert(rest@ =~= all.skip(k + 1));
            assert(all.take(k + 1).drop_last() =~= all.take(k));
            assert(all.take(k + 1).last() == all[k]);
        }
        if selector_matches(&suite.selector, artifact) {
            out.push(suite);
        }
        proof {
            k = k + 1;
        }
    }
    assert(all.take(k) =~= all);
    sort_suites(out)
}

/// One of the suites has the id.
pub open spec fn has_suite(suites: Seq<HeldOutSuite>, id: Seq<char>) -> bool {
    exists|i: int| 0 <= i < suites.len() && (#[trigger] suites[i]).id@ == id
}

/// The suites of a candidate, and those of its predecessor that are not among them.
pub open spec fn united(own: Seq<HeldOutSuite>, inherited: Seq<HeldOutSuite>) -> Seq<HeldOutSuite>
    decreases inherited.len(),
{
    if inherited.len() == 0 {
        own
    } else {
        let before = united(own, inherited.drop_last());
        if has_suite(before, inherited.last().id@) {
            before
        } else {
            before.push(inherited.last())
        }
    }
}

/// How many cases the suites hold.
pub open spec fn case_total(suites: Seq<HeldOutSuite>) -> nat
    decreases suites.len(),
{
    if suites.len() == 0 {
        0
    } else {
        case_total(suites.drop_last()) + suites.last().cases@.len()
    }
}

/// What forbids an evaluation over the matched suites.
pub open spec fn plan_fault(suites: Seq<HeldOutSuite>) -> Option<HeldOutFault> {
    if suites.len() > MAX_MATCHED_SUITES || case_total(suites) > MAX_MATCHED_CASES {
        Some(
            HeldOutFault::InvalidSuite("too many held-out suites or cases matched one proposal"@),
        )
    } else if suites.len() == 0 {
        Some(HeldOutFault::SuiteRequired)
    } else {
        None
    }
}

/// The suites that an evaluation runs.
pub open spec fn planned(own: Seq<HeldOutSuite>, inherited: Option<Seq<HeldOutSuite>>) -> Seq<
    HeldOutSuite,
> {
    match inherited {
        None => own,
        Some(more) => by_id(united(own, more)),
    }
}

fn is_planned(suites: &Vec<HeldOutSuite>, id: &str) -> (r: bool)
    ensures
        r == has_suite(suites@, id@),
{
    let mut i: usize = 0;
    while i < suites.len()
        invariant
            i <= suites@.len(),
            forall|j: int| 0 <= j < i ==> (#[trigger] suites@[j]).id@ != id@,
        decreases suites@.len() - i,
    {
        if text::same(&suites[i].id, id) {
            assert(suites@[i as int].id@ == id@);
            return true;
        }
        i = i + 1;
    }
    false
}

fn count_cases(suites: &Vec<HeldOutSuite>) -> (r: usize)
    ensures
        r <= MAX_MATCHED_CASES ==> r == case_total(suites@),
        r > MAX_MATCHED_CASES ==> case_total(suites@) > MAX_MATCHED_CASES,
{
    let mut total: usize = 0;
    let mut i: usize = 0;
    proof {
        assert(suites@.take(0).len() == 0);
    }
    while i < suites.len()
        invariant
            i <= suites@.len(),
            total <= MAX_MATCHED_CASES,
            total == case_total(suites@.take(i as int)),
        decreases suites@.len() - i,
    {
        proof {
            assert(suites@.take(i + 1).drop_last() =~= suites@.take(i as int));
            assert(suites@.take(i + 1).last() == suites@[i as int]);
        }
        let n: usize = suites[i].cases.len();
        if n > MAX_MATCHED_CASES - total {
            proof {
                lemma_case_total_grows(suites@, i + 1);
            }
            return MAX_MATCHED_CASES + 1;
        }
        total = total + n;
        i = i + 1;
    }
    assert(suites@.take(suites@.len() as int) =~= suites@);
    total
}

proof fn lemma_case_total_grows(suites: Seq<HeldOutSuite>, n: int)
    requires
        0 <= n <= suites.len(),
    ensures
        case_total(suites.take(n)) <= case_total(suites),
    decreases suites.len(),
{
    if n < suites.len() {
        lemma_case_total_grows(suites.drop_last(), n);
        assert(suites.drop_last().take(n) =~= suites.take(n));
    } else {
        assert(suites.take(n) =~= suites);
    }
}

/// Unites the suites of a candidate with those of its predecessor and checks that
/// there are some, and not too many.
pub fn plan_suites(own: Vec<HeldOutSuite>, inherited: Option<Vec<HeldOutSuite>>) -> (r: Result<
    Vec<HeldOutSuite>,
    HeldOutError,
>)
    ensures
        ({
            let suites = planned(
                own@,
                match inherited {
                    Some(more) => Some(more@),
                    None => None,
                },
            );
            match plan_fault(suites) {
                None => r is Ok && r->Ok_0@ == suites,
                Some(f) => r is Err && r->Err_0@ == f,
            }
        }),
{
    let ghost first = own@;
    let mut suites = own;
    if let Some(more) = inherited {
        let mut rest = more;
        let ghost all = rest@;
        let ghost mut k: int = 0;
        proof {
            assert(all.skip(0) =~= all);
            assert(all.take(0).len() == 0);
        }
        while rest.len() > 0
            invariant
                0 <= k <= all.len(),
                rest@ == all.skip(k),
                suites@ == united(first, all.take(k)),
            decreases rest@.len(),
        {
            let suite = rest.remove(0);
            proof {
                assert(suite == all[k]);
                assert(rest@ =~= all.skip(k + 1));
                assert(all.take(k + 1).drop_last() =~= all.take(k));
                assert(all.take(k + 1).last() == all[k]);
            }
            if !is_planned(&suites, &suite.id) {
                suites.push(suite);
            }
            proof {
                k = k + 1;
            }
        }
        assert(all.take(k) =~= all);
        suites = sort_suites(suites);
    }
    if suites.len() > MAX_MATCHED_SUITES || count_cases(&suites) > MAX_MATCHED_CASES {
        return Err(
            HeldOutError::InvalidSuite(
                "too many held-out suites or cases matched one proposal".to_owned(),
            ),
        );
    }
    if suites.len() == 0 {
        return Err(HeldOutError::SuiteRequired);
    }
    Ok(suites)
}

/// The paths that were read, in order.
pub open spec fn paths_read(t: TranscriptModel) -> Seq<Seq<char>> {
    t.reads.map_values(|r: crate::fakes::ReadModel| r.path)
}

/// The programs that were spawned, in order.
pub open spec fn programs_spawned(t: TranscriptModel) -> Seq<Seq<char>> {
    t.spawns.map_values(|r: crate::fakes::SpawnModel| r.program)
}

/// The addresses that were fetched, in order.
pub open spec fn urls_fetched(t: TranscriptModel) -> Seq<Seq<char>> {
    t.fetches.map_values(|r: crate::fakes::FetchModel| r.url)
}

/// A transcript is what was expected.
pub open spec fn meets(expected: TranscriptExpectation, t: TranscriptModel) -> bool {
    &&& expected.reads == t.reads.len()
    &&& expected.writes == t.writes.len()
    &&& expected.spawns == t.spawns.len()
    &&& expected.fetches == t.fetches.len()
    &&& text::views(expected.read_paths@) == paths_read(t)
    &&& text::views(expected.spawn_programs@) == programs_spawned(t)
    &&& text::views(expected.fetch_urls@) == urls_fetched(t)
}

/// Reports whether a transcript is what was expected.
pub fn transcript_matches(expected: &TranscriptExpectation, actual: &FakeTranscript) -> (r: bool)
    ensures
        r == meets(*expected, actual@),
{
    if expected.reads != actual.reads.len() || expected.writes != actual.writes.len()
        || expected.spawns != actual.spawns.len() || expected.fetches != actual.fetches.len() {
        return false;
    }
    let ghost t = actual@;
    if expected.read_paths.len() != actual.reads.len() || expected.spawn_programs.len()
        != actual.spawns.len() || expected.fetch_urls.len() != actual.fetches.len() {
        proof {
            assert(text::views(expected.read_paths@).len() == expected.read_paths@.len());
            assert(text::views(expected.spawn_programs@).len() == expected.spawn_programs@.len());
            assert(text::views(expected.fetch_urls@).len() == expected.fetch_urls@.len());
            assert(paths_read(t).len() == actual.reads@.len());
            assert(programs_spawned(t).len() == actual.spawns@.len());
            assert(urls_fetched(t).len() == actual.fetches@.len());
        }
        return false;
    }
    let mut i: usize = 0;
    while i < actual.reads.len()
        invariant
            i <= actual.reads@.len(),
            t == actual@,
            expected.read_paths@.len() == actual.reads@.len(),
            forall|j: int|
                0 <= j < i ==> text::views(expected.read_paths@)[j] == #[trigger] paths_read(t)[j],
        decreases actual.reads@.len() - i,
    {
        assert(paths_read(t)[i as int] == actual.reads@[i as int].path@);
        if !text::same(&expected.read_paths[i], &actual.reads[i].path) {
            assert(text::views(expected.read_paths@)[i as int] != paths_read(t)[i as int]);
            return false;
        }
        i = i + 1;
    }
    assert(text::views(expected.read_paths@) =~= paths_read(t));
    let mut k: usize = 0;
    while k < actual.spawns.len()
        invariant
            k <= actual.spawns@.len(),
            t == actual@,
            expected.spawn_programs@.len() == actual.spawns@.len(),
            forall|j: int|
                0 <= j < k ==> text::views(expected.spawn_programs@)[j]
                    == #[trigger] programs_spawned(t)[j],
        decreases actual.spawns@.len() - k,
    {
        assert(programs_spawned(t)[k as int] == actual.spawns@[k as int].program@);
        if !text::same(&expected.spawn_programs[k], &actual.spawns[k].program) {
            assert(text::views(expected.spawn_programs@)[k as int] != programs_spawned(
                t,
            )[k as int]);
            return false;
        }
        k = k + 1;
    }
    assert(text::views(expected.spawn_programs@) =~= programs_spawned(t));
    let mut l: usize = 0;
    while l < actual.fetches.len()
        invariant
            l <= actual.fetches@.len(),
            t == actual@,
            expected.fetch_urls@.len() == actual.fetches@.len(),
            forall|j: int|
                0 <= j < l ==> text::views(expected.fetch_urls@)[j] == #[trigger] urls_fetched(
                    t,
                )[j],
        decreases actual.fetches@.len() - l,
    {
        assert(urls_fetched(t)[l as int] == actual.fetches@[l as int].url@);
        if !text::same(&expected.fetch_urls[l], &actual.fetches[l].url) {
            assert(text::views(expected.fetch_urls@)[l as int] != urls_fetched(t)[l as int]);
            return false;
        }
        l = l + 1;
    }
    assert(text::views(expected.fetch_urls@) =~= urls_fetched(t));
    true
}

/// A case that passed.
#[derive(Debug, Clone, PartialEq, Eq)]
pub struct HeldOutCaseReport {
    pub suite_id: String,
    pub case_index: usize,
    pub passed: bool,
}

/// The contents of a [`HeldOutCaseReport`].
#[verifier::ext_equal]
pub struct CaseReportModel {
    pub suite_id: Seq<char>,
    pub case_index: usize,
    pub passed: bool,
}

impl View for HeldOutCaseReport {
    type V = CaseReportModel;

    open spec fn view(&self) -> CaseReportModel {
        CaseReportModel {
            suite_id: self.suite_id@,
            case_index: self.case_index,
            passed: self.passed,
        }
    }
}

pub open spec fn case_report_views(s: Seq<HeldOutCaseReport>) -> Seq<CaseReportModel> {
    s.map_values(|c: HeldOutCaseReport| c@)
}

#[derive(Debug, Clone, PartialEq, Eq)]
pub struct HeldOutEvaluationReport {
    pub report_id: String,
    pub skill_id: String,
    pub predecessor_id: Option<String>,
    pub suite_hashes: Vec<String>,
    pub verifier_version: u32,
    pub fakes_version: u32,
    pub embedded_passed: bool,
    pub inherited_passed: bool,
    pub cases: Vec<HeldOutCaseReport>,
}

/// How a run of one case ended, at position `at` of the runs in order. A run that
/// is not there did not succeed.
pub open spec fn run_at(runs: Seq<Option<FakeTranscript>>, at: int) -> Option<TranscriptModel> {
    if 0 <= at < runs.len() {
        match runs[at] {
            Some(t) => Some(t@),
            None => None,
        }
    } else {
        None
    }
}

/// The verdict on the cases of one suite from `i` on, whose runs begin at `at`.
pub open spec fn suite_verdict(
    suite: HeldOutSuite,
    i: int,
    runs: Seq<Option<FakeTranscript>>,
    at: int,
) -> Option<HeldOutFault>
    decreases suite.cases@.len() - i,
{
    if i < 0 || i >= suite.cases@.len() {
        None
    } else {
        match run_at(runs, at) {
            None => Some(
                HeldOutFault::CaseFailed { suite_id: suite.id@, case_index: i as usize },
            ),
            Some(t) => if !meets(suite.cases@[i].transcript, t) {
                Some(
                    HeldOutFault::TranscriptMismatch {
                        suite_id: suite.id@,
                        case_index: i as usize,
                    },
                )
            } else {
                suite_verdict(suite, i + 1, runs, at + 1)
            },
        }
    }
}

/// The verdict on all cases of the suites from `s` on, whose runs begin at `at`:
/// the first case that failed or whose transcript is not what was expected.
pub open spec fn verdict(
    suites: Seq<HeldOutSuite>,
    s: int,
    runs: Seq<Option<FakeTranscript>>,
    at: int,
) -> Option<HeldOutFault>
    decreases suites.len() - s,
{
    if s < 0 || s >= suites.len() {
        None
    } else if suite_verdict(suites[s], 0, runs, at) is Some {
        suite_verdict(suites[s], 0, runs, at)
    } else {
        verdict(suites, s + 1, runs, at + suites[s].cases@.len())
    }
}

/// The reports of the cases of one suite.
pub open spec fn suite_reports(suite: HeldOutSuite) -> Seq<CaseReportModel> {
    Seq::new(
        suite.cases@.len(),
        |i: int|
            CaseReportModel { suite_id: suite.id@, case_index: i as usize, passed: true },
    )
}

/// The reports of all cases, suite by suite.
pub open spec fn all_reports(suites: Seq<HeldOutSuite>) -> Seq<CaseReportModel>
    decreases suites.len(),
{
    if suites.len() == 0 {
        Seq::empty()
    } else {
        all_reports(suites.drop_last()) + suite_reports(suites.last())
    }
}

/// The hashes of the suites.
pub open spec fn hashes(suites: Seq<HeldOutSuite>) -> Seq<Seq<char>> {
    suites.map_values(|s: HeldOutSuite| s.content_hash@)
}

/// The document whose hash identifies a report.
pub open spec fn report_document(
    skill_id: Seq<char>,
    predecessor_id: Option<Seq<char>>,
    suite_hashes: Seq<Seq<char>>,
    verifier_version: u32,
    case_count: nat,
) -> Json {
    Json::Object(
        seq![
            ("version"@, Json::Unsigned(1)),
            ("skill_id"@, Json::Text(skill_id)),
            (
                "predecessor_id"@,
                match predecessor_id {
                    Some(id) => Json::Text(id),
                    None => Json::Null,
                },
            ),
            ("suite_hashes"@, Json::Array(suite_hashes.map_values(|h: Seq<char>| Json::Text(h)))),
            ("verifier_version"@, Json::Unsigned(verifier_version as u64)),
            ("fakes_version"@, Json::Unsigned(FAKES_VERSION as u64)),
            ("case_count"@, Json::Unsigned(case_count as u64)),
            ("outcome"@, Json::Text("passed"@)),
        ],
    )
}

/// What is wrong with an artifact's identity, as an evaluation reports it.
pub open spec fn identity_fault(artifact: SkillArtifact) -> Option<HeldOutFault> {
    match artifact@.stored_fault() {
        Some(f) => Some(HeldOutFault::Identity(f.sentence())),
        None => None,
    }
}

fn check_identity(artifact: &SkillArtifact) -> (r: Result<(), HeldOutError>)
    ensures
        match identity_fault(*artifact) {
            None => r is Ok,
            Some(f) => r is Err && r->Err_0@ == f,
        },
{
    match artifact.verify_identity() {
        Ok(()) => Ok(()),
        Err(e) => Err(HeldOutError::Identity(e.message())),
    }
}

/// A predecessor of an evaluation and how its tests fared on the candidate.
pub struct PredecessorRun<'a> {
    pub artifact: &'a SkillArtifact,
    pub inherited: Result<(), VerificationError>,
}

/// What an evaluation finds before any held-out case is run.
pub open spec fn gate_fault(
    artifact: SkillArtifact,
    embedded: Result<(), VerificationError>,
    predecessor: Option<PredecessorRun>,
) -> Option<HeldOutFault> {
    if identity_fault(artifact) is Some {
        identity_fault(artifact)
    } else {
        match embedded {
            Err(e) => Some(HeldOutFault::Embedded(e)),
            Ok(()) => match predecessor {
                None => None,
                Some(p) => if identity_fault(*p.artifact) is Some {
                    identity_fault(*p.artifact)
                } else {
                    match p.inherited {
                        Err(e) => Some(HeldOutFault::Inherited(e)),
                        Ok(()) => None,
                    }
                },
            },
        }
    }
}

/// Checks the identities and the outcomes of the embedded and inherited tests.
pub fn check_gates(
    artifact: &SkillArtifact,
    embedded: Result<(), VerificationError>,
    predecessor: Option<PredecessorRun>,
) -> (r: Result<(), HeldOutError>)
    ensures
        match gate_fault(*artifact, embedded, predecessor) {
            None => r is Ok,
            Some(f) => r is Err && r->Err_0@ == f,
        },
{
    match check_identity(artifact) {
        Ok(()) => {},
        Err(e) => {
            return Err(e);
        },
    }
    match embedded {
        Ok(()) => {},
        Err(e) => {
            return Err(HeldOutError::Embedded(e));
        },
    }
    if let Some(p) = predecessor {
        match check_identity(p.artifact) {
            Ok(()) => {},
            Err(e) => {
                return Err(e);
            },
        }
        match p.inherited {
            Ok(()) => {},
            Err(e) => {
                return Err(HeldOutError::Inherited(e));
            },
        }
    }
    Ok(())
}

fn judge_suite(
    suite: &HeldOutSuite,
    runs: &Vec<Option<FakeTranscript>>,
    at: usize,
    reports: &mut Vec<HeldOutCaseReport>,
) -> (r: Result<(), HeldOutError>)
    requires
        at + suite.cases@.len() <= usize::MAX,
    ensures
        match suite_verdict(*suite, 0, runs@, at as int) {
            None => {
                &&& r is Ok
                &&& case_report_views(final(reports)@) == case_report_views(old(reports)@)
                    + suite_reports(*suite)
            },
            Some(f) => r is Err && r->Err_0@ == f,
        },
{
    let ghost before = case_report_views(reports@);
    let ghost wanted = suite_reports(*suite);
    let mut i: usize = 0;
    proof {
        assert(before + wanted.take(0) =~= before);
    }
    while i < suite.cases.len()
        invariant
            i <= suite.cases@.len(),
            at + suite.cases@.len() <= usize::MAX,
            wanted == suite_reports(*suite),
            case_report_views(reports@) == before + wanted.take(i as int),
            suite_verdict(*suite, 0, runs@, at as int) == suite_verdict(
                *suite,
                i as int,
                runs@,
                at + i,
            ),
        decreases suite.cases@.len() - i,
    {
        let position: usize = at + i;
        if position >= runs.len() {
            return Err(HeldOutError::CaseFailed { suite_id: suite.id.clone(), case_index: i });
        }
        match &runs[position] {
            None => {
                return Err(HeldOutError::CaseFailed { suite_id: suite.id.clone(), case_index: i });
            },
            Some(transcript) => {
                if !transcript_matches(&suite.cases[i].transcript, transcript) {
                    return Err(
                        HeldOutError::TranscriptMismatch {
                            suite_id: suite.id.clone(),
                            case_index: i,
                        },
                    );
                }
            },
        }
        let ghost shown = case_report_views(reports@);
        let report = HeldOutCaseReport {
            suite_id: suite.id.clone(),
            case_index: i,
            passed: true,
        };
        reports.push(report);
        proof {
            assert(case_report_views(reports@) =~= shown.push(report@));
            assert(wanted.take(i + 1) =~= wanted.take(i as int).push(report@));
            assert(before + wanted.take(i + 1) =~= (before + wanted.take(i as int)).push(report@));
        }
        i = i + 1;
    }
    assert(wanted.take(wanted.len() as int) =~= wanted);
    Ok(())
}

/// The identity of a report.
pub open spec fn report_identity(document: Json) -> Seq<char> {
    payload_hash(json::json_rendered(document))
}

fn make_report_document(
    skill_id: &str,
    predecessor_id: &Option<String>,
    suite_hashes: &Vec<String>,
    verifier_version: u32,
    case_count: usize,
) -> (r: JsonValue)
    ensures
        r@ == report_document(
            skill_id@,
            text::opt_view(*predecessor_id),
            text::views(suite_hashes@),
            verifier_version,
            case_count as nat,
        ),
{
    let ghost wanted = text::views(suite_hashes@).map_values(|h: Seq<char>| Json::Text(h));
    let mut items: Vec<JsonValue> = Vec::new();
    let mut i: usize = 0;
    while i < suite_hashes.len()
        invariant
            i <= suite_hashes@.len(),
            wanted == text::views(suite_hashes@).map_values(|h: Seq<char>| Json::Text(h)),
            json::json_views(items@) =~= wanted.take(i as int),
        decreases suite_hashes@.len() - i,
    {
        let ghost before = json::json_views(items@);
        let item = JsonValue::Text(suite_hashes[i].clone());
        assert(item@ == wanted[i as int]);
        items.push(item);
        assert(json::json_views(items@) =~= before.push(item@));
        i = i + 1;
    }
    assert(wanted.take(wanted.len() as int) =~= wanted);
    proof {
        json::lemma_array_view(items);
    }
    let predecessor = match predecessor_id {
        Some(id) => JsonValue::Text(id.clone()),
        None => JsonValue::Null,
    };
    let mut entries: Vec<(String, JsonValue)> = Vec::new();
    assert(json::entry_views(entries@) =~= Seq::empty());
    json::push_entry(&mut entries, "version", JsonValue::Unsigned(1));
    json::push_entry(&mut entries, "skill_id", JsonValue::Text(skill_id.to_owned()));
    json::push_entry(&mut entries, "predecessor_id", predecessor);
    json::push_entry(&mut entries, "suite_hashes", JsonValue::Array(items));
    json::push_entry(&mut entries, "verifier_version", JsonValue::Unsigned(verifier_version as u64));
    json::push_entry(&mut entries, "fakes_version", JsonValue::Unsigned(FAKES_VERSION as u64));
    json::push_entry(&mut entries, "case_count", JsonValue::Unsigned(case_count as u64));
    json::push_entry(&mut entries, "outcome", JsonValue::Text("passed".to_owned()));
    proof {
        json::lemma_object_view(entries);
        assert(json::entry_views(entries@) =~= report_document(
            skill_id@,
            text::opt_view(*predecessor_id),
            text::views(suite_hashes@),
            verifier_version,
            case_count as nat,
        )->Object_0);
    }
    JsonValue::Object(entries)
}

/// The id of the predecessor.
pub open spec fn predecessor_id_of(predecessor: Option<PredecessorRun>) -> Option<Seq<char>> {
    match predecessor {
        Some(p) => Some(p.artifact.id@),
        None => None,
    }
}

/// What an evaluation comes to.
pub open spec fn evaluation_fault(
    artifact: SkillArtifact,
    embedded: Result<(), VerificationError>,
    predecessor: Option<PredecessorRun>,
    suites: Seq<HeldOutSuite>,
    runs: Seq<Option<FakeTranscript>>,
) -> Option<HeldOutFault> {
    if gate_fault(artifact, embedded, predecessor) is Some {
        gate_fault(artifact, embedded, predecessor)
    } else if plan_fault(suites) is Some {
        plan_fault(suites)
    } else {
        verdict(suites, 0, runs, 0)
    }
}

/// Judges an evaluation.
///
/// `suites` are the planned suites, `embedded` is how the artifact's own tests
/// fared, and `runs` are the transcripts of the held-out cases in order, `None` for
/// a case that failed; the runs may end at the first failure.
pub fn evaluate(
    artifact: &SkillArtifact,
    embedded: Result<(), VerificationError>,
    predecessor: Option<PredecessorRun>,
    suites: &Vec<HeldOutSuite>,
    runs: &Vec<Option<FakeTranscript>>,
    verifier_version: u32,
) -> (r: Result<HeldOutEvaluationReport, HeldOutError>)
    ensures
        match evaluation_fault(*artifact, embedded, predecessor, suites@, runs@) {
            Some(f) => r is Err && r->Err_0@ == f,
            None => {
                &&& r is Ok
                &&& r->Ok_0.report_id@ == report_identity(
                    report_document(
                        artifact.id@,
                        predecessor_id_of(predecessor),
                        hashes(suites@),
                        verifier_version,
                        all_reports(suites@).len(),
                    ),
                )
                &&& r->Ok_0.skill_id == artifact.id
                &&& text::opt_view(r->Ok_0.predecessor_id) == predecessor_id_of(predecessor)
                &&& text::views(r->Ok_0.suite_hashes@) == hashes(suites@)
                &&& r->Ok_0.verifier_version == verifier_version
                &&& r->Ok_0.fakes_version == FAKES_VERSION
                &&& r->Ok_0.embedded_passed
                &&& r->Ok_0.inherited_passed
                &&& case_report_views(r->Ok_0.cases@) == all_reports(suites@)
            },
        },
{
    let predecessor_id = match &predecessor {
        Some(p) => Some(p.artifact.id.clone()),
        None => None,
    };
    match check_gates(artifact, embedded, predecessor) {
        Ok(()) => {},
        Err(e) => {
            return Err(e);
        },
    }
    if suites.len() > MAX_MATCHED_SUITES || count_cases(suites) > MAX_MATCHED_CASES {
        return Err(
            HeldOutError::InvalidSuite(
                "too many held-out suites or cases matched one proposal".to_owned(),
            ),
        );
    }
    if suites.len() == 0 {
        return Err(HeldOutError::SuiteRequired);
    }
    let mut reports: Vec<HeldOutCaseReport> = Vec::new();
    let mut suite_hashes: Vec<String> = Vec::new();
    let mut at: usize = 0;
    let mut s: usize = 0;
    proof {
        assert(suites@.take(0).len() == 0);
        assert(case_report_views(reports@) =~= all_reports(suites@.take(0)));
        assert(text::views(suite_hashes@) =~= hashes(suites@).take(0));
    }
    while s < suites.len()
        invariant
            s <= suites@.len(),
            at == case_total(suites@.take(s as int)),
            at <= MAX_MATCHED_CASES,
            case_total(suites@) <= MAX_MATCHED_CASES,
            gate_fault(*artifact, embedded, predecessor) is None,
            plan_fault(suites@) is None,
            verdict(suites@, 0, runs@, 0) == verdict(suites@, s as int, runs@, at as int),
            case_report_views(reports@) == all_reports(suites@.take(s as int)),
            text::views(suite_hashes@) == hashes(suites@).take(s as int),
        decreases suites@.len() - s,
    {
        let ghost hashed = text::views(suite_hashes@);
        proof {
            assert(suites@.take(s + 1).drop_last() =~= suites@.take(s as int));
            assert(suites@.take(s + 1).last() == suites@[s as int]);
            lemma_case_total_grows(suites@, s + 1);
        }
        let hash = suites[s].content_hash.clone();
        suite_hashes.push(hash);
        proof {
            assert(text::views(suite_hashes@) =~= hashed.push(hash@));
            assert(hashes(suites@).take(s + 1) =~= hashes(suites@).take(s as int).push(hash@));
        }
        match judge_suite(&suites[s], runs, at, &mut reports) {
            Ok(()) => {},
            Err(e) => {
                return Err(e);
            },
        }
        at = at + suites[s].cases.len();
        s = s + 1;
    }
    proof {
        assert(suites@.take(suites@.len() as int) =~= suites@);
        assert(hashes(suites@).take(suites@.len() as int) =~= hashes(suites@));
    }
    proof {
        assert(case_report_views(reports@).len() == reports@.len());
    }
    let document = make_report_document(
        &artifact.id,
        &predecessor_id,
        &suite_hashes,
        verifier_version,
        reports.len(),
    );
    let rendered = match json::render_json(document) {
        Ok(rendered) => rendered,
        Err(_) => String::new(),
    };
    let report_id = hash_payload(&rendered);
    Ok(
        HeldOutEvaluationReport {
            report_id,
            skill_id: artifact.id.clone(),
            predecessor_id,
            suite_hashes,
            verifier_version,
            fakes_version: FAKES_VERSION,
            embedded_passed: true,
            inherited_passed: true,
            cases: reports,
        },
    )
}

proof fn lemma_suite_verdict_covers(
    suite: HeldOutSuite,
    i: int,
    runs: Seq<Option<FakeTranscript>>,
    at: int,
    k: int,
)
    requires
        suite_verdict(suite, i, runs, at) is None,
        0 <= i <= k < suite.cases@.len(),
    ensures
        run_at(runs, at + k - i) is Some,
        meets(suite.cases@[k].transcript, run_at(runs, at + k - i)->0),
    decreases k - i,
{
    if i < k {
        lemma_suite_verdict_covers(suite, i + 1, runs, at + 1, k);
    }
}

/// An evaluation passes only if every case of every suite ran and did exactly the
/// operations that it must: no case is skipped.
pub proof fn law_every_case_must_pass(
    suites: Seq<HeldOutSuite>,
    s: int,
    runs: Seq<Option<FakeTranscript>>,
    at: int,
    suite: int,
    case: int,
)
    requires
        verdict(suites, s, runs, at) is None,
        0 <= s <= suite < suites.len(),
        0 <= case < suites[suite].cases@.len(),
    ensures
        exists|position: int|
            (#[trigger] run_at(runs, position)) is Some && meets(
                suites[suite].cases@[case].transcript,
                run_at(runs, position)->0,
            ),
    decreases suite - s,
{
    if s < suite {
        law_every_case_must_pass(
            suites,
            s + 1,
            runs,
            at + suites[s].cases@.len(),
            suite,
            case,
        );
    } else {
        lemma_suite_verdict_covers(suites[s], 0, runs, at, case);
        assert(run_at(runs, at + case) is Some);
    }
}

/// A run did exactly what is expected of it: as many reads, writes, programs and fetches,
/// and in order just the paths that are expected to be read, the programs that are
/// expected to be spawned and the addresses that are expected to be fetched.
pub open spec fn did_exactly(expected: TranscriptExpectation, actual: FakeTranscript) -> bool {
    &&& actual.reads@.len() == expected.reads
    &&& actual.writes@.len() == expected.writes
    &&& actual.spawns@.len() == expected.spawns
    &&& actual.fetches@.len() == expected.fetches
    &&& actual.reads@.len() == expected.read_paths@.len()
    &&& actual.spawns@.len() == expected.spawn_programs@.len()
    &&& actual.fetches@.len() == expected.fetch_urls@.len()
    &&& forall|i: int|
        0 <= i < actual.reads@.len() ==> (#[trigger] actual.reads@[i]).path@
            == expected.read_paths@[i]@
    &&& forall|i: int|
        0 <= i < actual.spawns@.len() ==> (#[trigger] actual.spawns@[i]).program@
            == expected.spawn_programs@[i]@
    &&& forall|i: int|
        0 <= i < actual.fetches@.len() ==> (#[trigger] actual.fetches@[i]).url@
            == expected.fetch_urls@[i]@
}

/// A transcript is accepted exactly where it records what was expected, operation by
/// operation. One more, one less, another path, another program or another address, at
/// any place, and it is refused.
pub proof fn law_transcripts_are_compared_operation_by_operation(
    expected: TranscriptExpectation,
    actual: FakeTranscript,
)
    ensures
        meets(expected, actual@) <==> did_exactly(expected, actual),
{
    let t = actual@;
    let paths = text::views(expected.read_paths@);
    let programs = text::views(expected.spawn_programs@);
    let urls = text::views(expected.fetch_urls@);
    assert(t.reads.len() == actual.reads@.len());
    assert(t.writes.len() == actual.writes@.len());
    assert(t.spawns.len() == actual.spawns@.len());
    assert(t.fetches.len() == actual.fetches@.len());
    assert forall|i: int| 0 <= i < actual.reads@.len() implies paths_read(t)[i] == (
    #[trigger] actual.reads@[i]).path@ by {
        assert(t.reads[i] == actual.reads@[i]@);
    }
    assert forall|i: int| 0 <= i < actual.spawns@.len() implies programs_spawned(t)[i] == (
    #[trigger] actual.spawns@[i]).program@ by {
        assert(t.spawns[i] == actual.spawns@[i]@);
    }
    assert forall|i: int| 0 <= i < actual.fetches@.len() implies urls_fetched(t)[i] == (
    #[trigger] actual.fetches@[i]).url@ by {
        assert(t.fetches[i] == actual.fetches@[i]@);
    }
    if meets(expected, t) {
        assert(paths.len() == expected.read_paths@.len());
        assert(programs.len() == expected.spawn_programs@.len());
        assert(urls.len() == expected.fetch_urls@.len());
        assert forall|i: int| 0 <= i < actual.reads@.len() implies (
        #[trigger] actual.reads@[i]).path@ == expected.read_paths@[i]@ by {
            assert(paths[i] == expected.read_paths@[i]@);
        }
        assert forall|i: int| 0 <= i < actual.spawns@.len() implies (
        #[trigger] actual.spawns@[i]).program@ == expected.spawn_programs@[i]@ by {
            assert(programs[i] == expected.spawn_programs@[i]@);
        }
        assert forall|i: int| 0 <= i < actual.fetches@.len() implies (
        #[trigger] actual.fetches@[i]).url@ == expected.fetch_urls@[i]@ by {
            assert(urls[i] == expected.fetch_urls@[i]@);
        }
    }
    if did_exactly(expected, actual) {
        assert(paths =~= paths_read(t)) by {
            assert forall|i: int| 0 <= i < paths.len() implies paths[i] == paths_read(t)[i] by {
                assert(actual.reads@[i].path@ == expected.read_paths@[i]@);
            }
        }
        assert(programs =~= programs_spawned(t)) by {
            assert forall|i: int| 0 <= i < programs.len() implies programs[i]
                == programs_spawned(t)[i] by {
                assert(actual.spawns@[i].program@ == expected.spawn_programs@[i]@);
            }
        }
        assert(urls =~= urls_fetched(t)) by {
            assert forall|i: int| 0 <= i < urls.len() implies urls[i] == urls_fetched(t)[i] by {
                assert(actual.fetches@[i].url@ == expected.fetch_urls@[i]@);
            }
        }
    }
}

/// How many cases stand before a suite.
pub open spec fn cases_before(suites: Seq<HeldOutSuite>, s: int) -> int
    decreases s,
{
    if s <= 0 || s > suites.len() {
        0
    } else {
        cases_before(suites, s - 1) + suites[s - 1].cases@.len()
    }
}

/// The run of a case succeeded and did exactly what is expected.
pub open spec fn case_passed(
    case: HeldOutCase,
    runs: Seq<Option<FakeTranscript>>,
    at: int,
) -> bool {
    0 <= at < runs.len() && (runs[at] matches Some(t) && did_exactly(case.transcript, t))
}

proof fn lemma_run_passes(case: HeldOutCase, runs: Seq<Option<FakeTranscript>>, at: int)
    ensures
        case_passed(case, runs, at) <==> run_at(runs, at) is Some && meets(
            case.transcript,
            run_at(runs, at)->0,
        ),
{
    if 0 <= at < runs.len() {
        if let Some(t) = runs[at] {
            law_transcripts_are_compared_operation_by_operation(case.transcript, t);
        }
    }
}

proof fn lemma_suite_verdict(
    suite: HeldOutSuite,
    i: int,
    runs: Seq<Option<FakeTranscript>>,
    at: int,
)
    requires
        0 <= i <= suite.cases@.len(),
        suite.cases@.len() <= usize::MAX,
    ensures
        match suite_verdict(suite, i, runs, at) {
            None => forall|c: int|
                i <= c < suite.cases@.len() ==> case_passed(
                    #[trigger] suite.cases@[c],
                    runs,
                    at + c - i,
                ),
            Some(f) => exists|c: int|
                i <= c < suite.cases@.len() && first_failure(
                    #[trigger] suite.cases@[c],
                    suite.id@,
                    c,
                    runs,
                    at + c - i,
                    f,
                ),
        },
    decreases suite.cases@.len() - i,
{
    if i < suite.cases@.len() {
        lemma_run_passes(suite.cases@[i], runs, at);
        if case_passed(suite.cases@[i], runs, at) {
            lemma_suite_verdict(suite, i + 1, runs, at + 1);
            if let Some(f) = suite_verdict(suite, i + 1, runs, at + 1) {
                let c = choose|c: int|
                    i + 1 <= c < suite.cases@.len() && first_failure(
                        #[trigger] suite.cases@[c],
                        suite.id@,
                        c,
                        runs,
                        at + 1 + c - (i + 1),
                        f,
                    );
                assert(at + 1 + c - (i + 1) == at + c - i);
                assert(first_failure(suite.cases@[c], suite.id@, c, runs, at + c - i, f));
            } else {
                assert forall|c: int| i <= c < suite.cases@.len() implies case_passed(
                    #[trigger] suite.cases@[c],
                    runs,
                    at + c - i,
                ) by {
                    if c > i {
                        assert(case_passed(suite.cases@[c], runs, at + 1 + c - (i + 1)));
                    }
                }
            }
        } else {
            let f = suite_verdict(suite, i, runs, at)->0;
            assert(first_failure(suite.cases@[i], suite.id@, i, runs, at + i - i, f));
        }
    }
}

/// A fault names a case that did not pass: one that has no run, or one whose run did
/// something else than is expected.
pub open spec fn first_failure(
    case: HeldOutCase,
    suite_id: Seq<char>,
    index: int,
    runs: Seq<Option<FakeTranscript>>,
    at: int,
    fault: HeldOutFault,
) -> bool {
    &&& !case_passed(case, runs, at)
    &&& fault == if 0 <= at < runs.len() && runs[at] is Some {
        HeldOutFault::TranscriptMismatch { suite_id, case_index: index as usize }
    } else {
        HeldOutFault::CaseFailed { suite_id, case_index: index as usize }
    }
}

proof fn lemma_verdict(
    suites: Seq<HeldOutSuite>,
    s: int,
    runs: Seq<Option<FakeTranscript>>,
)
    requires
        0 <= s <= suites.len(),
        forall|k: int| 0 <= k < suites.len() ==> (#[trigger] suites[k]).cases@.len() <= usize::MAX,
    ensures
        match verdict(suites, s, runs, cases_before(suites, s)) {
            None => forall|k: int, c: int|
                s <= k < suites.len() && 0 <= c < suites[k].cases@.len() ==> case_passed(
                    #[trigger] suites[k].cases@[c],
                    runs,
                    cases_before(suites, k) + c,
                ),
            Some(f) => exists|k: int, c: int|
                s <= k < suites.len() && 0 <= c < suites[k].cases@.len() && first_failure(
                    #[trigger] suites[k].cases@[c],
                    suites[k].id@,
                    c,
                    runs,
                    cases_before(suites, k) + c,
                    f,
                ),
        },
    decreases suites.len() - s,
{
    if s < suites.len() {
        let at = cases_before(suites, s);
        lemma_suite_verdict(suites[s], 0, runs, at);
        assert(cases_before(suites, s + 1) == at + suites[s].cases@.len());
        lemma_verdict(suites, s + 1, runs);
        if let Some(f) = suite_verdict(suites[s], 0, runs, at) {
            let c = choose|c: int|
                0 <= c < suites[s].cases@.len() && first_failure(
                    #[trigger] suites[s].cases@[c],
                    suites[s].id@,
                    c,
                    runs,
                    at + c - 0,
                    f,
                );
            assert(first_failure(suites[s].cases@[c], suites[s].id@, c, runs, at + c, f));
        } else {
            assert forall|c: int| 0 <= c < suites[s].cases@.len() implies case_passed(
                #[trigger] suites[s].cases@[c],
                runs,
                at + c,
            ) by {
                assert(case_passed(suites[s].cases@[c], runs, at + c - 0));
            }
            if let Some(f) = verdict(suites, s + 1, runs, cases_before(suites, s + 1)) {
                let (k, c) = choose|k: int, c: int|
                    s + 1 <= k < suites.len() && 0 <= c < suites[k].cases@.len() && first_failure(
                        #[trigger] suites[k].cases@[c],
                        suites[k].id@,
                        c,
                        runs,
                        cases_before(suites, k) + c,
                        f,
                    );
                assert(first_failure(
                    suites[k].cases@[c],
                    suites[k].id@,
                    c,
                    runs,
                    cases_before(suites, k) + c,
                    f,
                ));
            }
        }
    }
}

proof fn lemma_case_total(suites: Seq<HeldOutSuite>, n: int)
    requires
        0 <= n <= suites.len(),
    ensures
        case_total(suites.take(n)) == cases_before(suites, n),
    decreases n,
{
    if n > 0 {
        lemma_case_total(suites, n - 1);
        assert(suites.take(n).drop_last() =~= suites.take(n - 1));
        assert(suites.take(n).last() == suites[n - 1]);
    }
}

/// An evaluation succeeds exactly where the identities hold, the skill's own tests and
/// those of its predecessor passed, between one and 32 suites with at most 64 cases
/// apply, and every case of every suite ran and did exactly what is expected of it; its
/// run stands where the case stands among all cases. Otherwise, where only a case is at
/// fault, the fault names that case.
pub proof fn law_an_evaluation_succeeds_only_if_every_part_does(
    artifact: SkillArtifact,
    embedded: Result<(), VerificationError>,
    predecessor: Option<PredecessorRun>,
    suites: Seq<HeldOutSuite>,
    runs: Seq<Option<FakeTranscript>>,
)
    requires
        forall|k: int| 0 <= k < suites.len() ==> (#[trigger] suites[k]).cases@.len() <= usize::MAX,
    ensures
        ({
            let allowed = {
                &&& artifact@.stored_fault() is None
                &&& embedded is Ok
                &&& (predecessor matches Some(p) ==> p.artifact@.stored_fault() is None
                    && p.inherited is Ok)
                &&& 1 <= suites.len() <= 32
                &&& cases_before(suites, suites.len() as int) <= 64
            };
            match evaluation_fault(artifact, embedded, predecessor, suites, runs) {
                None => allowed && forall|k: int, c: int|
                    0 <= k < suites.len() && 0 <= c < suites[k].cases@.len() ==> case_passed(
                        #[trigger] suites[k].cases@[c],
                        runs,
                        cases_before(suites, k) + c,
                    ),
                Some(f) => allowed ==> exists|k: int, c: int|
                    0 <= k < suites.len() && 0 <= c < suites[k].cases@.len() && first_failure(
                        #[trigger] suites[k].cases@[c],
                        suites[k].id@,
                        c,
                        runs,
                        cases_before(suites, k) + c,
                        f,
                    ),
            }
        }),
{
    lemma_verdict(suites, 0, runs);
    lemma_case_total(suites, suites.len() as int);
    assert(suites.take(suites.len() as int) =~= suites);
}

proof fn lemma_reports(suites: Seq<HeldOutSuite>, n: int, k: int, c: int)
    requires
        0 <= n <= suites.len(),
    ensures
        all_reports(suites.take(n)).len() == cases_before(suites, n),
        0 <= cases_before(suites, n),
        0 <= k < n && 0 <= c < suites[k].cases@.len() ==> {
            let at = cases_before(suites, k) + c;
            &&& 0 <= cases_before(suites, k)
            &&& at < cases_before(suites, n)
            &&& all_reports(suites.take(n))[at].suite_id == suites[k].id@
            &&& all_reports(suites.take(n))[at].case_index == c as usize
            &&& all_reports(suites.take(n))[at].passed
        },
    decreases n,
{
    if n > 0 {
        lemma_reports(suites, n - 1, k, c);
        assert(suites.take(n).drop_last() =~= suites.take(n - 1));
        assert(suites.take(n).last() == suites[n - 1]);
        let before = all_reports(suites.take(n - 1));
        let own = suite_reports(suites[n - 1]);
        let all = all_reports(suites.take(n));
        assert(all == before + own);
        if 0 <= k < n && 0 <= c < suites[k].cases@.len() {
            let at = cases_before(suites, k) + c;
            if k < n - 1 {
                assert(all[at] == before[at]);
            } else {
                assert(all[at] == own[c]);
            }
        }
    }
}

/// A report lists every case of every suite once, in order, as passed, and the hashes of
/// just the suites that were run.
pub proof fn law_reports_list_every_case(suites: Seq<HeldOutSuite>, k: int, c: int)
    requires
        0 <= k < suites.len(),
        0 <= c < suites[k].cases@.len(),
    ensures
        all_reports(suites).len() == cases_before(suites, suites.len() as int),
        ({
            let report = all_reports(suites)[cases_before(suites, k) + c];
            &&& report.suite_id == suites[k].id@
            &&& report.case_index == c as usize
            &&& report.passed
        }),
        hashes(suites).len() == suites.len(),
        hashes(suites)[k] == suites[k].content_hash@,
{
    lemma_reports(suites, suites.len() as int, k, c);
    assert(suites.take(suites.len() as int) =~= suites);
}

/// A skill has a tag.
pub open spec fn has_tag(artifact: SkillArtifact, tag: Seq<char>) -> bool {
    exists|j: int| 0 <= j < artifact.tags@.len() && (#[trigger] artifact.tags@[j])@ == tag
}

proof fn lemma_has_tag(artifact: SkillArtifact, tag: Seq<char>)
    ensures
        artifact@.tags.contains(tag) <==> has_tag(artifact, tag),
{
    let tags = artifact@.tags;
    assert(tags == text::views(artifact.tags@));
    if tags.contains(tag) {
        let j = tags.index_of(tag);
        assert(artifact.tags@[j]@ == tag);
    }
    if has_tag(artifact, tag) {
        let j = choose|j: int|
            0 <= j < artifact.tags@.len() && (#[trigger] artifact.tags@[j])@ == tag;
        assert(tags[j] == tag);
    }
}

/// A skill exports something under a name.
pub open spec fn has_name(artifact: SkillArtifact, name: Seq<char>) -> bool {
    exists|j: int| 0 <= j < artifact.exports@.len() && (#[trigger] artifact.exports@[j]).name@ == name
}

/// A suite applies to a skill exactly where each of its tags, trimmed and in lower case,
/// is one of the skill's tags, each of its exports is the name of an export of the skill,
/// and its tier, where it names one, is the tier of the skill.
pub proof fn law_suites_apply_by_tag_export_and_tier(
    selector: HeldOutSelector,
    artifact: SkillArtifact,
)
    ensures
        selects(selector, artifact) <==> {
            &&& forall|i: int|
                0 <= i < selector.tags@.len() ==> has_tag(
                    artifact,
                    text::lowercased(text::trimmed((#[trigger] selector.tags@[i])@)),
                )
            &&& forall|i: int|
                0 <= i < selector.exports@.len() ==> has_name(
                    artifact,
                    (#[trigger] selector.exports@[i])@,
                )
            &&& selector.capability_tier is Some ==> selector.capability_tier->0@
                == artifact.capability.tier.token()
        },
{
    assert forall|i: int| 0 <= i < selector.tags@.len() implies artifact@.tags.contains(
        crate::artifact::folded_tag((#[trigger] selector.tags@[i])@),
    ) == has_tag(artifact, text::lowercased(text::trimmed(selector.tags@[i]@))) by {
        lemma_has_tag(artifact, crate::artifact::folded_tag(selector.tags@[i]@));
    }
    assert forall|i: int| 0 <= i < selector.exports@.len() implies exports_name(
        artifact,
        (#[trigger] selector.exports@[i])@,
    ) == has_name(artifact, selector.exports@[i]@) by {}
    let by_tag = forall|i: int|
        0 <= i < selector.tags@.len() ==> has_tag(
            artifact,
            text::lowercased(text::trimmed((#[trigger] selector.tags@[i])@)),
        );
    if by_tag {
        assert forall|i: int| 0 <= i < selector.tags@.len() implies artifact@.tags.contains(
            crate::artifact::folded_tag(#[trigger] selector.tags@[i]@),
        ) by {
            assert(has_tag(artifact, text::lowercased(text::trimmed(selector.tags@[i]@))));
        }
    }
}

/// All suites that apply are selected, in the order they were given, and no others.
pub proof fn law_all_suites_that_apply_are_selected(
    suites: Seq<HeldOutSuite>,
    artifact: SkillArtifact,
)
    ensures
        selected(suites, artifact) == suites.filter(
            |suite: HeldOutSuite| selects(suite.selector, artifact),
        ),
    decreases suites.len(),
{
    reveal(Seq::filter);
    if suites.len() > 0 {
        law_all_suites_that_apply_are_selected(suites.drop_last(), artifact);
    } else {
        assert(selected(suites, artifact) =~= suites);
    }
}

proof fn lemma_united(own: Seq<HeldOutSuite>, inherited: Seq<HeldOutSuite>, suite: HeldOutSuite)
    ensures
        own.contains(suite) ==> united(own, inherited).contains(suite),
        united(own, inherited).contains(suite) ==> own.contains(suite) || inherited.contains(suite),
        inherited.contains(suite) ==> has_suite(united(own, inherited), suite.id@),
        has_suite(own, suite.id@) && !own.contains(suite) ==> !united(own, inherited).contains(
            suite,
        ),
    decreases inherited.len(),
{
    if inherited.len() > 0 {
        let init = inherited.drop_last();
        let last = inherited.last();
        lemma_united(own, init, suite);
        let before = united(own, init);
        let after = united(own, inherited);
        assert(inherited[inherited.len() - 1] == last);
        if before.contains(suite) {
            assert(after[before.index_of(suite)] == suite);
        }
        if after.contains(suite) && !before.contains(suite) {
            let k = after.index_of(suite);
            if k < before.len() {
                assert(before[k] == suite);
            }
            assert(suite == last);
            if has_suite(own, suite.id@) {
                let i = choose|i: int| 0 <= i < own.len() && (#[trigger] own[i]).id@ == suite.id@;
                lemma_united(own, init, own[i]);
                assert(own.contains(own[i]));
                let j = before.index_of(own[i]);
                assert(before[j].id@ == last.id@);
            }
        }
        if own.contains(suite) && !after.contains(suite) {
            assert(before.contains(suite));
        }
        if inherited.contains(suite) {
            let k = inherited.index_of(suite);
            if k < init.len() {
                assert(init[k] == suite);
                assert(init.contains(suite));
                let j = choose|j: int|
                    0 <= j < before.len() && (#[trigger] before[j]).id@ == suite.id@;
                assert(after[j] == before[j]);
            } else {
                if has_suite(before, last.id@) {
                    let j = choose|j: int|
                        0 <= j < before.len() && (#[trigger] before[j]).id@ == last.id@;
                    assert(after[j] == before[j]);
                } else {
                    assert(after[before.len() as int] == last);
                }
            }
        }
        if inherited.contains(suite) {
            assert(has_suite(after, suite.id@));
        }
        if init.contains(suite) {
            assert(inherited[init.index_of(suite)] == suite);
        }
    } else {
        assert(united(own, inherited) == own);
    }
}

/// A replacement is held to every suite that applies to it and to every suite that
/// applied to its predecessor; a suite that applies to both is run once, as it applies to
/// the replacement. Nothing else is run, and the suites stand in the order of their ids.
pub proof fn law_replacements_inherit_every_suite(
    own: Seq<HeldOutSuite>,
    inherited: Seq<HeldOutSuite>,
    suite: HeldOutSuite,
)
    ensures
        planned(own, None) == own,
        own.contains(suite) ==> planned(own, Some(inherited)).contains(suite),
        inherited.contains(suite) ==> exists|i: int|
            0 <= i < planned(own, Some(inherited)).len() && (
            #[trigger] planned(own, Some(inherited))[i]).id@ == suite.id@,
        planned(own, Some(inherited)).contains(suite) ==> own.contains(suite)
            || inherited.contains(suite),
        planned(own, Some(inherited)).contains(suite) && !own.contains(suite) ==> forall|i: int|
            0 <= i < own.len() ==> (#[trigger] own[i]).id@ != suite.id@,
        forall|i: int, j: int|
            0 <= i < j < planned(own, Some(inherited)).len() ==> text::lex_le(
                (#[trigger] planned(own, Some(inherited))[i]).id@,
                (#[trigger] planned(own, Some(inherited))[j]).id@,
            ),
{
    broadcast use vstd::seq_lib::group_to_multiset_ensures;

    let all = united(own, inherited);
    let sorted = by_id(all);
    lemma_united(own, inherited, suite);
    law_by_id_is_sorted(all);
    assert(all.to_multiset().count(suite) > 0 <==> all.contains(suite));
    assert(sorted.to_multiset().count(suite) > 0 <==> sorted.contains(suite));
    if inherited.contains(suite) {
        let k = choose|k: int| 0 <= k < all.len() && (#[trigger] all[k]).id@ == suite.id@;
        assert(all.contains(all[k]));
        assert(all.to_multiset().count(all[k]) > 0);
        assert(sorted.to_multiset().count(all[k]) > 0);
        assert(sorted.contains(all[k]));
        let i = sorted.index_of(all[k]);
        assert(sorted[i].id@ == suite.id@);
    }
}

/// A stored suite is opened exactly where its payload still hashes to both its id and its
/// content hash, is of the one version there is, describes a valid suite and has just the
/// selector and the cases that are stored beside it. It is opened as it was stored.
pub proof fn law_stored_suites_open_as_they_were_stored(
    record: HeldOutSuiteRecord,
    parsed: ParsedPayload,
    suite: HeldOutSuite,
)
    ensures
        record_fault(record, Ok(parsed)) is None <==> {
            &&& record.suite_id@ == payload_hash(record.canonical_payload@)
            &&& record.content_hash@ == payload_hash(record.canonical_payload@)
            &&& parsed.version == 1
            &&& suite_fault(parsed.draft) is None
            &&& parsed.selector_json@ == record.selector_json@
            &&& parsed.cases_json@ == record.cases_json@
        },
        is_opened(suite, record, parsed.draft) ==> {
            &&& suite.id@ == record.suite_id@
            &&& suite.content_hash@ == record.content_hash@
            &&& suite.selector == parsed.draft.selector
            &&& suite.cases@ == parsed.draft.cases@
            &&& suite.approved_by@ == record.approved_by@
            &&& suite.approved_at == record.approved_at
        },
{
}

proof fn lemma_no_case_fault(cases: Seq<HeldOutCase>, from: int)
    requires
        0 <= from <= cases.len(),
    ensures
        cases_fault_from(cases, from) is None <==> forall|i: int|
            from <= i < cases.len() ==> case_fault(#[trigger] cases[i]) is None,
    decreases cases.len() - from,
{
    if from < cases.len() {
        lemma_no_case_fault(cases, from + 1);
    }
}

/// A text is free of null characters and no longer than a number of bytes.
pub open spec fn is_short(s: Seq<char>, bytes: nat) -> bool {
    text::utf8_len(s) <= bytes && forall|i: int| 0 <= i < s.len() ==> #[trigger] s[i] != '\0'
}

/// A suite is accepted exactly within its bounds: between one and 64 cases, at most 32
/// tags and 32 exports in its selector, a known tier, and cases each of whose texts, files
/// and expected operations are bounded.
pub proof fn law_suites_are_bounded(suite: HeldOutSuiteDraft)
    ensures
        suite_fault(suite) is None ==> {
            &&& 1 <= suite.cases@.len() <= 64
            &&& suite.selector.tags@.len() <= 32
            &&& suite.selector.exports@.len() <= 32
            &&& forall|i: int|
                0 <= i < suite.selector.tags@.len() ==> is_short(
                    (#[trigger] suite.selector.tags@[i])@,
                    128,
                ) && !text::is_blank(suite.selector.tags@[i]@)
            &&& forall|i: int|
                0 <= i < suite.selector.exports@.len() ==> is_short(
                    (#[trigger] suite.selector.exports@[i])@,
                    128,
                ) && !text::is_blank(suite.selector.exports@[i]@)
            &&& suite.selector.capability_tier matches Some(tier) ==> exists|known: CapabilityTier|
                #[trigger] known.token() == tier@
            &&& forall|i: int|
                0 <= i < suite.cases@.len() ==> {
                    let case = #[trigger] suite.cases@[i];
                    &&& is_short(case.expression@, 4096) && !text::is_blank(case.expression@)
                    &&& case.fake_files@.len() <= 32
                    &&& forall|f: int|
                        0 <= f < case.fake_files@.len() ==> {
                            let file = #[trigger] case.fake_files@[f];
                            &&& file.path@.len() > 0 && is_short(file.path@, 4096)
                            &&& text::utf8_len(file.content@) <= 65536
                        }
                    &&& case.expected matches ExpectedJsValue::Text(value) ==> text::utf8_len(
                        value@,
                    ) <= 65536
                    &&& case.transcript.reads <= 256 && case.transcript.writes <= 256
                        && case.transcript.spawns <= 256 && case.transcript.fetches <= 256
                    &&& case.transcript.read_paths@.len() <= 256
                    &&& case.transcript.spawn_programs@.len() <= 256
                    &&& case.transcript.fetch_urls@.len() <= 256
                }
        },
{
    let tags = text::views(suite.selector.tags@);
    let exports = text::views(suite.selector.exports@);
    if suite_fault(suite) is None {
        lemma_no_case_fault(suite.cases@, 0);
        assert forall|i: int| 0 <= i < suite.selector.tags@.len() implies is_short(
            (#[trigger] suite.selector.tags@[i])@,
            128,
        ) && !text::is_blank(suite.selector.tags@[i]@) by {
            assert(selector_value_fits(tags[i]));
            lemma_no_nul(tags[i]);
        }
        assert forall|i: int| 0 <= i < suite.selector.exports@.len() implies is_short(
            (#[trigger] suite.selector.exports@[i])@,
            128,
        ) && !text::is_blank(suite.selector.exports@[i]@) by {
            assert(selector_value_fits(exports[i]));
            lemma_no_nul(exports[i]);
        }
        assert forall|i: int| 0 <= i < suite.cases@.len() implies {
            let case = #[trigger] suite.cases@[i];
            &&& is_short(case.expression@, 4096) && !text::is_blank(case.expression@)
            &&& case.fake_files@.len() <= 32
            &&& forall|f: int|
                0 <= f < case.fake_files@.len() ==> {
                    let file = #[trigger] case.fake_files@[f];
                    &&& file.path@.len() > 0 && is_short(file.path@, 4096)
                    &&& text::utf8_len(file.content@) <= 65536
                }
            &&& case.expected matches ExpectedJsValue::Text(value) ==> text::utf8_len(value@)
                <= 65536
            &&& case.transcript.reads <= 256 && case.transcript.writes <= 256
                && case.transcript.spawns <= 256 && case.transcript.fetches <= 256
            &&& case.transcript.read_paths@.len() <= 256
            &&& case.transcript.spawn_programs@.len() <= 256
            &&& case.transcript.fetch_urls@.len() <= 256
        } by {
            let case = suite.cases@[i];
            assert(case_fault(case) is None);
            lemma_no_nul(case.expression@);
            assert forall|f: int| 0 <= f < case.fake_files@.len() implies {
                let file = #[trigger] case.fake_files@[f];
                &&& file.path@.len() > 0 && is_short(file.path@, 4096)
                &&& text::utf8_len(file.content@) <= 65536
            } by {
                assert(fake_file_fits(case.fake_files@[f]));
                lemma_no_nul(case.fake_files@[f].path@);
            }
        }
    }
}

proof fn lemma_no_nul(s: Seq<char>)
    ensures
        !has_nul(s) ==> forall|i: int| 0 <= i < s.len() ==> #[trigger] s[i] != '\0',
{
    if !has_nul(s) {
        assert forall|i: int| 0 <= i < s.len() implies #[trigger] s[i] != '\0' by {
            assert(s.contains(s[i]));
        }
    }
}

} // verus!
