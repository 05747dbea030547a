//! Evaluation of proposals and authenticated human admission.
//!
//! Every gate reads persisted, immutable bytes. Failures are told apart: those that
//! reject a proposal, those that a later attempt may not meet, and outages that do
//! not count against it.

use crate::artifact::{CapabilityManifest, CapabilityTier, SkillArtifact};
use crate::artifact::{ArtifactModel, ManifestModel};
use crate::backoff;
use crate::embed::ModelMetadata;
use crate::fakes::FAKES_VERSION;
use crate::held_out::{
    HeldOutError, HeldOutEvaluationReport, StoreFailure, TestResult, VerificationError,
};
use crate::json;
use crate::json::{Json, JsonValue};
use crate::lifecycle::{ApprovalAuthorizationRequest, ApprovalTransition};
use crate::text;
use vstd::prelude::*;
use vstd::string::*;

verus! {

/// How long a fresh claim on a proposal lasts, in seconds.
pub const LEASE_SECONDS: i64 = 30;

/// How long a claim lasts once the evaluation has begun, in seconds.
pub const EVALUATION_LEASE_SECONDS: i64 = 900;

/// How old the authentication behind an approval may be, in seconds.
pub const MAX_AUTH_AGE_SECONDS: i64 = 300;

/// How long the name of a worker may be, in bytes.
pub const MAX_WORKER_ID_BYTES: usize = 256;

#[derive(Debug, Clone, Copy, PartialEq, Eq, Structural)]
pub enum ProposalStatus {
    Pending,
    Evaluating,
    Deferred,
    Verified,
    Rejected,
    AwaitingApproval,
    Approved,
}

impl ProposalStatus {
    pub open spec fn token(self) -> Seq<char> {
        match self {
            ProposalStatus::Pending => "pending"@,
            ProposalStatus::Evaluating => "evaluating"@,
            ProposalStatus::Deferred => "deferred"@,
            ProposalStatus::Verified => "verified"@,
            ProposalStatus::Rejected => "rejected"@,
            ProposalStatus::AwaitingApproval => "awaiting_approval"@,
            ProposalStatus::Approved => "approved"@,
        }
    }
}

/// The token of a status.
pub fn proposal_status(status: ProposalStatus) -> (r: &'static str)
    ensures
        r@ == status.token(),
{
    match status {
        ProposalStatus::Pending => "pending",
        ProposalStatus::Evaluating => "evaluating",
        ProposalStatus::Deferred => "deferred",
        ProposalStatus::Verified => "verified",
        ProposalStatus::Rejected => "rejected",
        ProposalStatus::AwaitingApproval => "awaiting_approval",
        ProposalStatus::Approved => "approved",
    }
}

/// A claim of a worker on a proposal.
#[derive(Debug, Clone, PartialEq, Eq)]
pub struct ProposalLease {
    pub proposal_id: String,
    pub skill_id: String,
    pub predecessor_id: Option<String>,
    pub attempt: u32,
    pub row_version: u64,
    pub lease_expires_at: i64,
}

/// A stored proposal.
#[derive(Debug, Clone, PartialEq, Eq)]
pub struct ProposalRecord {
    pub proposal_id: String,
    pub skill_id: String,
    pub predecessor_id: Option<String>,
    pub status: ProposalStatus,
    pub report_id: Option<String>,
    pub reason_code: Option<String>,
    pub next_attempt_at: Option<i64>,
    /// The attempts that an outage has cost.
    pub infrastructure_attempt_count: u32,
    pub row_version: u64,
}

/// The contents of a [`ProposalRecord`].
#[verifier::ext_equal]
pub struct ProposalModel {
    pub proposal_id: Seq<char>,
    pub skill_id: Seq<char>,
    pub predecessor_id: Option<Seq<char>>,
    pub status: ProposalStatus,
    pub report_id: Option<Seq<char>>,
    pub reason_code: Option<Seq<char>>,
    pub next_attempt_at: Option<i64>,
    pub infrastructure_attempt_count: u32,
    pub row_version: u64,
}

impl View for ProposalRecord {
    type V = ProposalModel;

    open spec fn view(&self) -> ProposalModel {
        ProposalModel {
            proposal_id: self.proposal_id@,
            skill_id: self.skill_id@,
            predecessor_id: text::opt_view(self.predecessor_id),
            status: self.status,
            report_id: text::opt_view(self.report_id),
            reason_code: text::opt_view(self.reason_code),
            next_attempt_at: self.next_attempt_at,
            infrastructure_attempt_count: self.infrastructure_attempt_count,
            row_version: self.row_version,
        }
    }
}

impl ProposalRecord {
    /// Whether two records have the same contents.
    pub fn same(&self, other: &ProposalRecord) -> (r: bool)
        ensures
            r == (self@ == other@),
    {
        let due = match (self.next_attempt_at, other.next_attempt_at) {
            (None, None) => true,
            (Some(a), Some(b)) => a == b,
            _ => false,
        };
        let r = text::same(&self.proposal_id, &other.proposal_id) && text::same(
            &self.skill_id,
            &other.skill_id,
        ) && text::same_opt(&self.predecessor_id, &other.predecessor_id) && self.status
            == other.status && text::same_opt(&self.report_id, &other.report_id)
            && text::same_opt(&self.reason_code, &other.reason_code) && due
            && self.infrastructure_attempt_count == other.infrastructure_attempt_count
            && self.row_version == other.row_version;
        assert(r ==> self@ =~= other@);
        r
    }
}

/// An evaluation report under its id, which the store derives from the other fields.
#[derive(Debug, Clone, PartialEq, Eq)]
pub struct EvaluationReportRecord {
    pub report_id: String,
    pub proposal_id: String,
    pub skill_id: String,
    pub attempt: u32,
    pub verifier_version: u32,
    pub fakes_version: u32,
    pub suite_hashes: Vec<String>,
    pub predecessor_id: Option<String>,
    pub embedding_model_id: Option<String>,
    pub embedding_model_revision: Option<String>,
    pub outcome: String,
    pub reason_code: Option<String>,
    pub summary_json: String,
    pub created_at: i64,
}

/// The contents of an [`EvaluationReportRecord`].
#[verifier::ext_equal]
pub struct ReportModel {
    pub report_id: Seq<char>,
    pub proposal_id: Seq<char>,
    pub skill_id: Seq<char>,
    pub attempt: u32,
    pub verifier_version: u32,
    pub fakes_version: u32,
    pub suite_hashes: Seq<Seq<char>>,
    pub predecessor_id: Option<Seq<char>>,
    pub embedding_model_id: Option<Seq<char>>,
    pub embedding_model_revision: Option<Seq<char>>,
    pub outcome: Seq<char>,
    pub reason_code: Option<Seq<char>>,
    pub summary_json: Seq<char>,
    pub created_at: i64,
}

impl View for EvaluationReportRecord {
    type V = ReportModel;

    open spec fn view(&self) -> ReportModel {
        ReportModel {
            report_id: self.report_id@,
            proposal_id: self.proposal_id@,
            skill_id: self.skill_id@,
            attempt: self.attempt,
            verifier_version: self.verifier_version,
            fakes_version: self.fakes_version,
            suite_hashes: text::views(self.suite_hashes@),
            predecessor_id: text::opt_view(self.predecessor_id),
            embedding_model_id: text::opt_view(self.embedding_model_id),
            embedding_model_revision: text::opt_view(self.embedding_model_revision),
            outcome: self.outcome@,
            reason_code: text::opt_view(self.reason_code),
            summary_json: self.summary_json@,
            created_at: self.created_at,
        }
    }
}

impl EvaluationReportRecord {
    /// Whether two records have the same contents.
    pub fn same(&self, other: &EvaluationReportRecord) -> (r: bool)
        ensures
            r == (self@ == other@),
    {
        let r = text::same(&self.report_id, &other.report_id) && text::same(
            &self.proposal_id,
            &other.proposal_id,
        ) && text::same(&self.skill_id, &other.skill_id) && self.attempt == other.attempt
            && self.verifier_version == other.verifier_version && self.fakes_version
            == other.fakes_version && text::same_texts(&self.suite_hashes, &other.suite_hashes)
            && text::same_opt(&self.predecessor_id, &other.predecessor_id) && text::same_opt(
            &self.embedding_model_id,
            &other.embedding_model_id,
        ) && text::same_opt(&self.embedding_model_revision, &other.embedding_model_revision)
            && text::same(&self.outcome, &other.outcome) && text::same_opt(
            &self.reason_code,
            &other.reason_code,
        ) && text::same(&self.summary_json, &other.summary_json) && self.created_at
            == other.created_at;
        assert(r ==> self@ =~= other@);
        r
    }
}

/// An evaluation report that has no id yet: what the store derives the id from.
#[derive(Debug, Clone, PartialEq, Eq)]
pub struct EvaluationReportDraft {
    pub proposal_id: String,
    pub skill_id: String,
    pub attempt: u32,
    pub verifier_version: u32,
    pub fakes_version: u32,
    pub suite_hashes: Vec<String>,
    pub predecessor_id: Option<String>,
    pub embedding_model_id: Option<String>,
    pub embedding_model_revision: Option<String>,
    pub outcome: String,
    pub reason_code: Option<String>,
    pub summary_json: String,
    pub created_at: i64,
}

/// The contents of an [`EvaluationReportDraft`].
#[verifier::ext_equal]
pub struct DraftModel {
    pub proposal_id: Seq<char>,
    pub skill_id: Seq<char>,
    pub attempt: u32,
    pub verifier_version: u32,
    pub fakes_version: u32,
    pub suite_hashes: Seq<Seq<char>>,
    pub predecessor_id: Option<Seq<char>>,
    pub embedding_model_id: Option<Seq<char>>,
    pub embedding_model_revision: Option<Seq<char>>,
    pub outcome: Seq<char>,
    pub reason_code: Option<Seq<char>>,
    pub summary_json: Seq<char>,
    pub created_at: i64,
}

impl View for EvaluationReportDraft {
    type V = DraftModel;

    open spec fn view(&self) -> DraftModel {
        DraftModel {
            proposal_id: self.proposal_id@,
            skill_id: self.skill_id@,
            attempt: self.attempt,
            verifier_version: self.verifier_version,
            fakes_version: self.fakes_version,
            suite_hashes: text::views(self.suite_hashes@),
            predecessor_id: text::opt_view(self.predecessor_id),
            embedding_model_id: text::opt_view(self.embedding_model_id),
            embedding_model_revision: text::opt_view(self.embedding_model_revision),
            outcome: self.outcome@,
            reason_code: text::opt_view(self.reason_code),
            summary_json: self.summary_json@,
            created_at: self.created_at,
        }
    }
}

impl DraftModel {
    /// The report under an id.
    pub open spec fn identified(self, report_id: Seq<char>) -> ReportModel {
        ReportModel {
            report_id,
            proposal_id: self.proposal_id,
            skill_id: self.skill_id,
            attempt: self.attempt,
            verifier_version: self.verifier_version,
            fakes_version: self.fakes_version,
            suite_hashes: self.suite_hashes,
            predecessor_id: self.predecessor_id,
            embedding_model_id: self.embedding_model_id,
            embedding_model_revision: self.embedding_model_revision,
            outcome: self.outcome,
            reason_code: self.reason_code,
            summary_json: self.summary_json,
            created_at: self.created_at,
        }
    }
}

impl EvaluationReportDraft {
    /// Puts the report under the id that the store derived from it.
    pub fn with_id(self, report_id: String) -> (r: EvaluationReportRecord)
        ensures
            r@ == self@.identified(report_id@),
    {
        EvaluationReportRecord {
            report_id,
            proposal_id: self.proposal_id,
            skill_id: self.skill_id,
            attempt: self.attempt,
            verifier_version: self.verifier_version,
            fakes_version: self.fakes_version,
            suite_hashes: self.suite_hashes,
            predecessor_id: self.predecessor_id,
            embedding_model_id: self.embedding_model_id,
            embedding_model_revision: self.embedding_model_revision,
            outcome: self.outcome,
            reason_code: self.reason_code,
            summary_json: self.summary_json,
            created_at: self.created_at,
        }
    }
}

/// What the store answered to an approval.
#[derive(Debug, Clone, PartialEq, Eq)]
pub struct CanaryApprovalResult {
    pub skill_id: String,
    pub generation: u64,
    pub idempotent: bool,
}

/// Why an evaluation did not end in a passed report.
#[derive(Debug, Clone, PartialEq, Eq)]
pub enum EvaluationFailure {
    /// The proposal is rejected.
    Deterministic { code: &'static str, detail: &'static str },
    /// No suite applies; the proposal is blocked until one does.
    SuiteRequired,
    /// A later attempt may pass.
    Retryable { code: &'static str, error: String },
    /// An outage, which does not count as an attempt.
    Infrastructure { error: String },
}

/// The contents of an [`EvaluationFailure`].
#[verifier::ext_equal]
pub enum FailureModel {
    Deterministic { code: Seq<char>, detail: Seq<char> },
    SuiteRequired,
    Retryable { code: Seq<char>, error: Seq<char> },
    Infrastructure { error: Seq<char> },
}

impl View for EvaluationFailure {
    type V = FailureModel;

    open spec fn view(&self) -> FailureModel {
        match *self {
            EvaluationFailure::Deterministic { code, detail } => {
                FailureModel::Deterministic { code: code@, detail: detail@ }
            },
            EvaluationFailure::SuiteRequired => FailureModel::SuiteRequired,
            EvaluationFailure::Retryable { code, error } => {
                FailureModel::Retryable { code: code@, error: error@ }
            },
            EvaluationFailure::Infrastructure { error } => {
                FailureModel::Infrastructure { error: error@ }
            },
        }
    }
}

/// Why an admission step was refused.
#[derive(Debug, Clone, PartialEq, Eq)]
pub enum AdmissionError {
    InvalidWorker,
    WorkerUnavailable,
    Retryable(String),
    NotFound(String),
    NotAwaitingApproval,
    MissingReport,
    StaleReview,
    UnauthenticatedApproval,
    CanaryBecameRetrievable,
    Store(StoreFailure),
}

/// The contents of an [`AdmissionError`].
#[verifier::ext_equal]
pub enum AdmissionFault {
    InvalidWorker,
    WorkerUnavailable,
    Retryable(Seq<char>),
    NotFound(Seq<char>),
    NotAwaitingApproval,
    MissingReport,
    StaleReview,
    UnauthenticatedApproval,
    CanaryBecameRetrievable,
    Store(StoreFailure),
}

impl View for AdmissionError {
    type V = AdmissionFault;

    open spec fn view(&self) -> AdmissionFault {
        match *self {
            AdmissionError::InvalidWorker => AdmissionFault::InvalidWorker,
            AdmissionError::WorkerUnavailable => AdmissionFault::WorkerUnavailable,
            AdmissionError::Retryable(s) => AdmissionFault::Retryable(s@),
            AdmissionError::NotFound(s) => AdmissionFault::NotFound(s@),
            AdmissionError::NotAwaitingApproval => AdmissionFault::NotAwaitingApproval,
            AdmissionError::MissingReport => AdmissionFault::MissingReport,
            AdmissionError::StaleReview => AdmissionFault::StaleReview,
            AdmissionError::UnauthenticatedApproval => AdmissionFault::UnauthenticatedApproval,
            AdmissionError::CanaryBecameRetrievable => AdmissionFault::CanaryBecameRetrievable,
            AdmissionError::Store(e) => AdmissionFault::Store(e),
        }
    }
}

impl AdmissionFault {
    /// The sentence that reports the fault.
    pub open spec fn sentence(self) -> Seq<char> {
        match self {
            AdmissionFault::InvalidWorker => "invalid worker identity"@,
            AdmissionFault::WorkerUnavailable => "admission worker could not start"@,
            AdmissionFault::Retryable(s) => "admission infrastructure retry required: "@ + s,
            AdmissionFault::NotFound(s) => "proposal not found: "@ + s,
            AdmissionFault::NotAwaitingApproval => "proposal is not awaiting approval"@,
            AdmissionFault::MissingReport => "evaluation report is missing"@,
            AdmissionFault::StaleReview => "reviewed proposal changed before approval"@,
            AdmissionFault::UnauthenticatedApproval => {
                "approval is not backed by a fresh authenticated human session"@
            },
            AdmissionFault::CanaryBecameRetrievable => "canary unexpectedly became retrievable"@,
            AdmissionFault::Store(e) => e.sentence(),
        }
    }

    /// The token under which the fault is logged.
    pub open spec fn kind(self) -> Seq<char> {
        match self {
            AdmissionFault::InvalidWorker => "invalid_worker"@,
            AdmissionFault::WorkerUnavailable => "worker_unavailable"@,
            AdmissionFault::Retryable(_) => "retryable"@,
            AdmissionFault::NotFound(_) => "not_found"@,
            AdmissionFault::NotAwaitingApproval => "not_awaiting_approval"@,
            AdmissionFault::MissingReport => "missing_report"@,
            AdmissionFault::StaleReview => "stale_review"@,
            AdmissionFault::UnauthenticatedApproval => "unauthenticated_approval"@,
            AdmissionFault::CanaryBecameRetrievable => "canary_became_retrievable"@,
            AdmissionFault::Store(_) => "store"@,
        }
    }
}

impl AdmissionError {
    /// The sentence that reports the error.
    pub fn message(&self) -> (r: String)
        ensures
            r@ == self@.sentence(),
    {
        match self {
            AdmissionError::InvalidWorker => "invalid worker identity".to_owned(),
            AdmissionError::WorkerUnavailable => "admission worker could not start".to_owned(),
            AdmissionError::Retryable(s) => {
                text::join2("admission infrastructure retry required: ", s)
            },
            AdmissionError::NotFound(s) => text::join2("proposal not found: ", s),
            AdmissionError::NotAwaitingApproval => "proposal is not awaiting approval".to_owned(),
            AdmissionError::MissingReport => "evaluation report is missing".to_owned(),
            AdmissionError::StaleReview => "reviewed proposal changed before approval".to_owned(),
            AdmissionError::UnauthenticatedApproval => {
                "approval is not backed by a fresh authenticated human session".to_owned()
            },
            AdmissionError::CanaryBecameRetrievable => {
                "canary unexpectedly became retrievable".to_owned()
            },
            AdmissionError::Store(e) => match e {
                StoreFailure::Corrupt(s) => s.clone(),
                StoreFailure::Other(s) => s.clone(),
            },
        }
    }
}

/// The token under which an error is logged.
pub fn admission_error_kind(error: &AdmissionError) -> (r: &'static str)
    ensures
        r@ == error@.kind(),
{
    match error {
        AdmissionError::InvalidWorker => "invalid_worker",
        AdmissionError::WorkerUnavailable => "worker_unavailable",
        AdmissionError::Retryable(_) => "retryable",
        AdmissionError::NotFound(_) => "not_found",
        AdmissionError::NotAwaitingApproval => "not_awaiting_approval",
        AdmissionError::MissingReport => "missing_report",
        AdmissionError::StaleReview => "stale_review",
        AdmissionError::UnauthenticatedApproval => "unauthenticated_approval",
        AdmissionError::CanaryBecameRetrievable => "canary_became_retrievable",
        AdmissionError::Store(_) => "store",
    }
}

/// Checks the name of a worker: it is not blank and not too long.
pub fn check_worker_id(worker_id: &str) -> (r: Result<(), AdmissionError>)
    ensures
        if text::is_blank(worker_id@) || text::utf8_len(worker_id@) > MAX_WORKER_ID_BYTES {
            r is Err && r->Err_0@ == AdmissionFault::InvalidWorker
        } else {
            r is Ok
        },
{
    if text::blank(worker_id) || text::byte_len(worker_id) > MAX_WORKER_ID_BYTES {
        return Err(AdmissionError::InvalidWorker);
    }
    Ok(())
}

/// What a failure of the store means for an evaluation.
pub open spec fn store_failure(error: StoreFailure) -> FailureModel {
    match error {
        StoreFailure::Corrupt(_) => FailureModel::Deterministic {
            code: "identity_invalid"@,
            detail: "stored artifact is corrupt"@,
        },
        StoreFailure::Other(s) => FailureModel::Retryable {
            code: "evaluation_infrastructure_unavailable"@,
            error: s@,
        },
    }
}

/// Classifies a failure of the store.
pub fn classify_store(error: StoreFailure) -> (r: EvaluationFailure)
    ensures
        r@ == store_failure(error),
{
    match error {
        StoreFailure::Corrupt(_) => deterministic("identity_invalid", "stored artifact is corrupt"),
        StoreFailure::Other(s) => EvaluationFailure::Retryable {
            code: "evaluation_infrastructure_unavailable",
            error: s,
        },
    }
}

fn deterministic(code: &'static str, detail: &'static str) -> (r: EvaluationFailure)
    ensures
        r@ == (FailureModel::Deterministic { code: code@, detail: detail@ }),
{
    EvaluationFailure::Deterministic { code, detail }
}

/// A message speaks of a limit on time, memory or jobs.
pub open spec fn names_a_limit(message: Seq<char>) -> bool {
    let s = text::ascii_lower(message);
    ||| text::occurs(s, "timeout"@)
    ||| text::occurs(s, "interrupted"@)
    ||| text::occurs(s, "outofmemory"@)
    ||| text::occurs(s, "out of memory"@)
    ||| text::occurs(s, "joblimit"@)
}

fn mentions_limit(message: &str) -> (r: bool)
    ensures
        r == names_a_limit(message@),
{
    let normalized = text::to_ascii_lower(message);
    text::contains_part(&normalized, "timeout") || text::contains_part(&normalized, "interrupted")
        || text::contains_part(&normalized, "outofmemory") || text::contains_part(
        &normalized,
        "out of memory",
    ) || text::contains_part(&normalized, "joblimit")
}

/// A run was cut short by a limit on its resources.
pub open spec fn resource_limited(error: VerificationError) -> bool {
    match error {
        VerificationError::TestFailed { outcome } => {
            outcome == TestResult::Timeout || outcome == TestResult::OutOfMemory || outcome
                == TestResult::JobLimitExceeded
        },
        VerificationError::RuntimeCreationFailed(message) => names_a_limit(message@),
        VerificationError::ContextCreationFailed(message) => names_a_limit(message@),
        VerificationError::SourceEvaluationFailed(message) => names_a_limit(message@),
        VerificationError::MutationPassFailed { reason } => names_a_limit(reason@),
        _ => false,
    }
}

/// What a failed run means for an evaluation.
pub open spec fn verification_failure(
    error: VerificationError,
    code: Seq<char>,
    detail: Seq<char>,
) -> FailureModel {
    match error {
        VerificationError::InfrastructureUnavailable(message) => FailureModel::Infrastructure {
            error: message@,
        },
        _ => if resource_limited(error) {
            FailureModel::Deterministic {
                code: "verification_resource_limit"@,
                detail: "verification resource limit exceeded"@,
            }
        } else {
            FailureModel::Deterministic { code, detail }
        },
    }
}

/// Classifies a failed run.
pub fn classify_verification(
    error: &VerificationError,
    fallback_code: &'static str,
    fallback_detail: &'static str,
) -> (r: EvaluationFailure)
    ensures
        r@ == verification_failure(*error, fallback_code@, fallback_detail@),
{
    let limited = match error {
        VerificationError::InfrastructureUnavailable(message) => {
            return EvaluationFailure::Infrastructure { error: message.clone() };
        },
        VerificationError::TestFailed { outcome } => {
            *outcome == TestResult::Timeout || *outcome == TestResult::OutOfMemory || *outcome
                == TestResult::JobLimitExceeded
        },
        VerificationError::RuntimeCreationFailed(message) => mentions_limit(message),
        VerificationError::ContextCreationFailed(message) => mentions_limit(message),
        VerificationError::SourceEvaluationFailed(message) => mentions_limit(message),
        VerificationError::MutationPassFailed { reason } => mentions_limit(reason),
        VerificationError::Other(_) => false,
    };
    if limited {
        deterministic("verification_resource_limit", "verification resource limit exceeded")
    } else {
        deterministic(fallback_code, fallback_detail)
    }
}

/// Tiers from the narrowest to the widest.
pub open spec fn tier_rank(tier: CapabilityTier) -> int {
    match tier {
        CapabilityTier::Pure => 0,
        CapabilityTier::ReadOnly => 1,
        CapabilityTier::SideEffecting => 2,
    }
}

/// A candidate asks for nothing that its predecessor did not have.
pub open spec fn non_escalating(candidate: ManifestModel, predecessor: ManifestModel) -> bool {
    &&& tier_rank(candidate.tier) <= tier_rank(predecessor.tier)
    &&& forall|i: int|
        0 <= i < candidate.allowed_hosts.len() ==> predecessor.allowed_hosts.contains(
            #[trigger] candidate.allowed_hosts[i],
        )
}

fn rank_of(tier: CapabilityTier) -> (r: u8)
    ensures
        r == tier_rank(tier),
{
    match tier {
        CapabilityTier::Pure => 0,
        CapabilityTier::ReadOnly => 1,
        CapabilityTier::SideEffecting => 2,
    }
}

/// Reports whether a candidate asks for nothing that its predecessor did not have.
pub fn capability_is_non_escalating(
    candidate: &CapabilityManifest,
    predecessor: &CapabilityManifest,
) -> (r: bool)
    ensures
        r == non_escalating(candidate@, predecessor@),
{
    if rank_of(candidate.tier) > rank_of(predecessor.tier) {
        return false;
    }
    let mut i: usize = 0;
    while i < candidate.allowed_hosts.len()
        invariant
            i <= candidate.allowed_hosts@.len(),
            forall|j: int|
                0 <= j < i ==> predecessor@.allowed_hosts.contains(
                    #[trigger] candidate@.allowed_hosts[j],
                ),
        decreases candidate.allowed_hosts@.len() - i,
    {
        if !predecessor.allows(candidate.allowed_hosts[i]) {
            assert(!predecessor@.allowed_hosts.contains(candidate@.allowed_hosts[i as int]));
            return false;
        }
        i = i + 1;
    }
    true
}

/// A manifest never escalates against itself, and a chain of replacements that do
/// not escalate does not escalate from end to end.
pub proof fn law_replacements_never_escalate(
    a: ManifestModel,
    b: ManifestModel,
    c: ManifestModel,
)
    ensures
        non_escalating(a, a),
        non_escalating(a, b) && non_escalating(b, c) ==> non_escalating(a, c),
{
    if non_escalating(a, b) && non_escalating(b, c) {
        assert forall|i: int| 0 <= i < a.allowed_hosts.len() implies c.allowed_hosts.contains(
            #[trigger] a.allowed_hosts[i],
        ) by {
            assert(b.allowed_hosts.contains(a.allowed_hosts[i]));
            let j = b.allowed_hosts.index_of(a.allowed_hosts[i]);
            assert(c.allowed_hosts.contains(b.allowed_hosts[j]));
        }
    }
}

/// What a failed held-out evaluation means for a proposal.
pub open spec fn held_out_failure(error: HeldOutError) -> FailureModel {
    match error {
        HeldOutError::SuiteRequired => FailureModel::SuiteRequired,
        HeldOutError::Identity(_) => FailureModel::Deterministic {
            code: "identity_invalid"@,
            detail: "artifact identity mismatch"@,
        },
        HeldOutError::Inherited(e) => verification_failure(
            e,
            "inherited_regression_failed"@,
            "predecessor regression failed"@,
        ),
        HeldOutError::Embedded(e) => verification_failure(
            e,
            "embedded_test_failed"@,
            "embedded verification failed"@,
        ),
        HeldOutError::Infrastructure(e) => verification_failure(
            e,
            "evaluation_infrastructure_unavailable"@,
            "verification infrastructure unavailable"@,
        ),
        HeldOutError::CaseFailed { .. } => FailureModel::Deterministic {
            code: "held_out_failed"@,
            detail: "held-out verification failed"@,
        },
        HeldOutError::TranscriptMismatch { .. } => FailureModel::Deterministic {
            code: "held_out_failed"@,
            detail: "held-out verification failed"@,
        },
        HeldOutError::Store(e) => store_failure(e),
        HeldOutError::Json(_) => FailureModel::Deterministic {
            code: "held_out_failed"@,
            detail: "held-out suite is invalid"@,
        },
        HeldOutError::TamperedSuite(_) => FailureModel::Deterministic {
            code: "held_out_failed"@,
            detail: "held-out suite is invalid"@,
        },
        HeldOutError::InvalidSuite(_) => FailureModel::Deterministic {
            code: "held_out_failed"@,
            detail: "held-out suite is unsupported"@,
        },
        HeldOutError::UnsupportedVersion(_) => FailureModel::Deterministic {
            code: "held_out_failed"@,
            detail: "held-out suite is unsupported"@,
        },
    }
}

/// Classifies a failed held-out evaluation.
pub fn classify_held_out(error: HeldOutError) -> (r: EvaluationFailure)
    ensures
        r@ == held_out_failure(error),
{
    match error {
        HeldOutError::SuiteRequired => EvaluationFailure::SuiteRequired,
        HeldOutError::Identity(_) => {
            deterministic("identity_invalid", "artifact identity mismatch")
        },
        HeldOutError::Inherited(e) => classify_verification(
            &e,
            "inherited_regression_failed",
            "predecessor regression failed",
        ),
        HeldOutError::Embedded(e) => classify_verification(
            &e,
            "embedded_test_failed",
            "embedded verification failed",
        ),
        HeldOutError::Infrastructure(e) => classify_verification(
            &e,
            "evaluation_infrastructure_unavailable",
            "verification infrastructure unavailable",
        ),
        HeldOutError::CaseFailed { .. } => {
            deterministic("held_out_failed", "held-out verification failed")
        },
        HeldOutError::TranscriptMismatch { .. } => {
            deterministic("held_out_failed", "held-out verification failed")
        },
        HeldOutError::Store(e) => classify_store(e),
        HeldOutError::Json(_) => deterministic("held_out_failed", "held-out suite is invalid"),
        HeldOutError::TamperedSuite(_) => {
            deterministic("held_out_failed", "held-out suite is invalid")
        },
        HeldOutError::InvalidSuite(_) => {
            deterministic("held_out_failed", "held-out suite is unsupported")
        },
        HeldOutError::UnsupportedVersion(_) => {
            deterministic("held_out_failed", "held-out suite is unsupported")
        },
    }
}

/// A report on a lease, before its id is derived.
pub open spec fn report_on(
    lease: ProposalLease,
    outcome: Seq<char>,
    reason_code: Option<Seq<char>>,
    summary: Json,
    verifier_version: u32,
    now: i64,
) -> DraftModel {
    DraftModel {
        proposal_id: lease.proposal_id@,
        skill_id: lease.skill_id@,
        attempt: lease.attempt,
        verifier_version,
        fakes_version: FAKES_VERSION,
        suite_hashes: Seq::empty(),
        predecessor_id: text::opt_view(lease.predecessor_id),
        embedding_model_id: None,
        embedding_model_revision: None,
        outcome,
        reason_code,
        summary_json: json::json_rendered(summary),
        created_at: now,
    }
}

fn build_report(
    lease: &ProposalLease,
    outcome: &str,
    reason_code: Option<String>,
    summary: JsonValue,
    verifier_version: u32,
    now: i64,
) -> (r: EvaluationReportDraft)
    ensures
        r@ == report_on(
            *lease,
            outcome@,
            text::opt_view(reason_code),
            summary@,
            verifier_version,
            now,
        ),
{
    let summary_json = match json::render_json(summary) {
        Ok(s) => s,
        Err(_) => String::new(),
    };
    let r = EvaluationReportDraft {
        proposal_id: lease.proposal_id.clone(),
        skill_id: lease.skill_id.clone(),
        attempt: lease.attempt,
        verifier_version,
        fakes_version: FAKES_VERSION,
        suite_hashes: Vec::new(),
        predecessor_id: text::clone_opt(&lease.predecessor_id),
        embedding_model_id: None,
        embedding_model_revision: None,
        outcome: outcome.to_owned(),
        reason_code,
        summary_json,
        created_at: now,
    };
    assert(text::views(r.suite_hashes@) =~= Seq::empty());
    r
}

/// The summary of a report on an evaluation that passed.
pub open spec fn success_summary(case_count: u64) -> Json {
    Json::Object(
        seq![
            ("embedded"@, Json::Text("passed"@)),
            ("mutation"@, Json::Text("passed"@)),
            ("inherited"@, Json::Text("passed"@)),
            ("held_out"@, Json::Text("passed"@)),
            ("held_out_case_count"@, Json::Unsigned(case_count)),
            ("duplicate"@, Json::Text("passed"@)),
            ("contract"@, Json::Text("passed"@)),
            ("embedding"@, Json::Text("passed"@)),
        ],
    )
}

/// The report on an evaluation that passed, before its id is derived.
pub open spec fn success_draft(
    lease: ProposalLease,
    held_out: HeldOutEvaluationReport,
    model: ModelMetadata,
    verifier_version: u32,
    now: i64,
) -> DraftModel {
    DraftModel {
        suite_hashes: text::views(held_out.suite_hashes@),
        embedding_model_id: Some(model.model_id@),
        embedding_model_revision: Some(model.model_revision@),
        ..report_on(
            lease,
            "passed"@,
            None,
            success_summary(held_out.cases@.len() as u64),
            verifier_version,
            now,
        )
    }
}

fn passed_entry(entries: &mut Vec<(String, JsonValue)>, key: &str)
    ensures
        json::entry_views(final(entries)@) == json::entry_views(old(entries)@).push(
            (key@, Json::Text("passed"@)),
        ),
{
    json::push_entry(entries, key, JsonValue::Text("passed".to_owned()));
}

/// Builds the report on an evaluation that passed.
pub fn success_report(
    lease: &ProposalLease,
    held_out: &HeldOutEvaluationReport,
    model: &ModelMetadata,
    verifier_version: u32,
    now: i64,
) -> (r: EvaluationReportDraft)
    ensures
        r@ == success_draft(*lease, *held_out, *model, verifier_version, now),
{
    let mut entries: Vec<(String, JsonValue)> = Vec::new();
    assert(json::entry_views(entries@) =~= Seq::empty());
    passed_entry(&mut entries, "embedded");
    passed_entry(&mut entries, "mutation");
    passed_entry(&mut entries, "inherited");
    passed_entry(&mut entries, "held_out");
    json::push_entry(
        &mut entries,
        "held_out_case_count",
        JsonValue::Unsigned(held_out.cases.len() as u64),
    );
    passed_entry(&mut entries, "duplicate");
    passed_entry(&mut entries, "contract");
    passed_entry(&mut entries, "embedding");
    proof {
        json::lemma_object_view(entries);
        assert(json::entry_views(entries@) =~= success_summary(
            held_out.cases@.len() as u64,
        )->Object_0);
    }
    let mut report = build_report(
        lease,
        "passed",
        None,
        JsonValue::Object(entries),
        verifier_version,
        now,
    );
    report.suite_hashes = text::clone_strings(&held_out.suite_hashes);
    report.embedding_model_id = Some(model.model_id.clone());
    report.embedding_model_revision = Some(model.model_revision.clone());
    report
}

/// The report on a rejection, before its id is derived.
pub open spec fn rejection_draft(
    lease: ProposalLease,
    code: Seq<char>,
    detail: Seq<char>,
    verifier_version: u32,
    now: i64,
) -> DraftModel {
    report_on(
        lease,
        "rejected"@,
        Some(code),
        Json::Object(
            seq![
                ("gate"@, Json::Text(code)),
                ("result"@, Json::Text("rejected"@)),
                ("detail"@, Json::Text(detail)),
            ],
        ),
        verifier_version,
        now,
    )
}

/// Builds the report on a rejection.
pub fn rejection_report(
    lease: &ProposalLease,
    reason_code: &str,
    detail: &str,
    verifier_version: u32,
    now: i64,
) -> (r: EvaluationReportDraft)
    ensures
        r@ == rejection_draft(*lease, reason_code@, detail@, verifier_version, now),
{
    let mut entries: Vec<(String, JsonValue)> = Vec::new();
    assert(json::entry_views(entries@) =~= Seq::empty());
    json::push_entry(&mut entries, "gate", JsonValue::Text(reason_code.to_owned()));
    json::push_entry(&mut entries, "result", JsonValue::Text("rejected".to_owned()));
    json::push_entry(&mut entries, "detail", JsonValue::Text(detail.to_owned()));
    proof {
        json::lemma_object_view(entries);
        assert(json::entry_views(entries@) =~= seq![
            ("gate"@, Json::Text(reason_code@)),
            ("result"@, Json::Text("rejected"@)),
            ("detail"@, Json::Text(detail@)),
        ]);
    }
    build_report(
        lease,
        "rejected",
        Some(reason_code.to_owned()),
        JsonValue::Object(entries),
        verifier_version,
        now,
    )
}

/// The report on a proposal that is blocked, before its id is derived.
pub open spec fn blocked_draft(
    lease: ProposalLease,
    code: Seq<char>,
    verifier_version: u32,
    now: i64,
) -> DraftModel {
    report_on(
        lease,
        "retryable"@,
        Some(code),
        Json::Object(
            seq![("gate"@, Json::Text(code)), ("result"@, Json::Text("blocked"@))],
        ),
        verifier_version,
        now,
    )
}

/// Builds the report on a proposal that is blocked.
pub fn blocked_report(
    lease: &ProposalLease,
    reason_code: &str,
    verifier_version: u32,
    now: i64,
) -> (r: EvaluationReportDraft)
    ensures
        r@ == blocked_draft(*lease, reason_code@, verifier_version, now),
{
    let mut entries: Vec<(String, JsonValue)> = Vec::new();
    assert(json::entry_views(entries@) =~= Seq::empty());
    json::push_entry(&mut entries, "gate", JsonValue::Text(reason_code.to_owned()));
    json::push_entry(&mut entries, "result", JsonValue::Text("blocked".to_owned()));
    proof {
        json::lemma_object_view(entries);
        assert(json::entry_views(entries@) =~= seq![
            ("gate"@, Json::Text(reason_code@)),
            ("result"@, Json::Text("blocked"@)),
        ]);
    }
    build_report(
        lease,
        "retryable",
        Some(reason_code.to_owned()),
        JsonValue::Object(entries),
        verifier_version,
        now,
    )
}

/// Where the evaluation of a claimed proposal stands, with what it has gathered. The
/// name of each stage is what it waits for.
pub enum LeaseStage {
    Artifact,
    Predecessor { artifact: SkillArtifact },
    Duplicate { artifact: SkillArtifact, predecessor: Option<SkillArtifact> },
    HeldOut { artifact: SkillArtifact, predecessor: Option<SkillArtifact> },
    Embedding { artifact: SkillArtifact, held_out: HeldOutEvaluationReport },
    StoredEmbedding { held_out: HeldOutEvaluationReport, embedding: Vec<u8> },
    ReportId { draft: EvaluationReportDraft },
    Completion { report: EvaluationReportRecord },
}

/// What was answered to a stage.
pub enum LeaseEvent {
    Artifact(Result<Option<SkillArtifact>, StoreFailure>),
    Predecessor(Result<Option<SkillArtifact>, StoreFailure>),
    Duplicate(Result<bool, StoreFailure>),
    HeldOut(Result<HeldOutEvaluationReport, HeldOutError>),
    /// The bytes of each vector.
    Embedding(Result<Vec<Vec<u8>>, String>),
    StoredEmbedding(Result<(), StoreFailure>),
    /// The id that the store derived from the report.
    ReportId(String),
    Completion(Result<(), StoreFailure>),
}

/// What comes of an answer.
pub enum LeaseStep {
    Next(LeaseStage),
    Failed(EvaluationFailure),
    Passed(EvaluationReportRecord),
}

/// The contents of a [`LeaseStage`].
pub enum StageModel {
    Artifact,
    Predecessor { artifact: SkillArtifact },
    Duplicate { artifact: SkillArtifact, predecessor: Option<SkillArtifact> },
    HeldOut { artifact: SkillArtifact, predecessor: Option<SkillArtifact> },
    Embedding { artifact: SkillArtifact, held_out: HeldOutEvaluationReport },
    StoredEmbedding { held_out: HeldOutEvaluationReport, embedding: Vec<u8> },
    ReportId { draft: DraftModel },
    Completion { report: ReportModel },
}

/// The contents of a [`LeaseStep`].
pub enum StepModel {
    Next(StageModel),
    Failed(FailureModel),
    Passed(ReportModel),
}

impl View for LeaseStage {
    type V = StageModel;

    open spec fn view(&self) -> StageModel {
        match *self {
            LeaseStage::Artifact => StageModel::Artifact,
            LeaseStage::Predecessor { artifact } => StageModel::Predecessor { artifact },
            LeaseStage::Duplicate { artifact, predecessor } => {
                StageModel::Duplicate { artifact, predecessor }
            },
            LeaseStage::HeldOut { artifact, predecessor } => {
                StageModel::HeldOut { artifact, predecessor }
            },
            LeaseStage::Embedding { artifact, held_out } => {
                StageModel::Embedding { artifact, held_out }
            },
            LeaseStage::StoredEmbedding { held_out, embedding } => {
                StageModel::StoredEmbedding { held_out, embedding }
            },
            LeaseStage::ReportId { draft } => StageModel::ReportId { draft: draft@ },
            LeaseStage::Completion { report } => StageModel::Completion { report: report@ },
        }
    }
}

impl View for LeaseStep {
    type V = StepModel;

    open spec fn view(&self) -> StepModel {
        match *self {
            LeaseStep::Next(stage) => StepModel::Next(stage@),
            LeaseStep::Failed(failure) => StepModel::Failed(failure@),
            LeaseStep::Passed(report) => StepModel::Passed(report@),
        }
    }
}

/// A proposal is rejected.
pub open spec fn rejected(code: Seq<char>, detail: Seq<char>) -> StepModel {
    StepModel::Failed(FailureModel::Deterministic { code, detail })
}

/// What an answer leads to.
pub open spec fn lease_step(
    lease: ProposalLease,
    stage: StageModel,
    event: LeaseEvent,
    model: ModelMetadata,
    verifier_version: u32,
    now: i64,
) -> StepModel {
    match (stage, event) {
        (StageModel::Artifact, LeaseEvent::Artifact(answer)) => match answer {
            Err(e) => StepModel::Failed(store_failure(e)),
            Ok(None) => rejected("identity_invalid"@, "artifact missing"@),
            Ok(Some(artifact)) => if artifact@.stored_fault() is Some {
                rejected("identity_invalid"@, "artifact identity mismatch"@)
            } else if lease.predecessor_id is Some {
                StepModel::Next(StageModel::Predecessor { artifact })
            } else {
                StepModel::Next(StageModel::Duplicate { artifact, predecessor: None })
            },
        },
        (StageModel::Predecessor { artifact }, LeaseEvent::Predecessor(answer)) => match answer {
            Err(e) => StepModel::Failed(store_failure(e)),
            Ok(None) => rejected("inherited_regression_failed"@, "predecessor missing"@),
            Ok(Some(predecessor)) => if !non_escalating(
                artifact.capability@,
                predecessor.capability@,
            ) {
                rejected("contract_invalid"@, "replacement capability escalation"@)
            } else {
                StepModel::Next(
                    StageModel::Duplicate { artifact, predecessor: Some(predecessor) },
                )
            },
        },
        (StageModel::Duplicate { artifact, predecessor }, LeaseEvent::Duplicate(answer)) => {
            match answer {
                Err(e) => StepModel::Failed(store_failure(e)),
                Ok(true) => rejected(
                    "duplicate_skill"@,
                    "active skill has the same normalized contract"@,
                ),
                Ok(false) => StepModel::Next(StageModel::HeldOut { artifact, predecessor }),
            }
        },
        (StageModel::HeldOut { artifact, .. }, LeaseEvent::HeldOut(answer)) => match answer {
            Err(e) => StepModel::Failed(held_out_failure(e)),
            Ok(held_out) => StepModel::Next(StageModel::Embedding { artifact, held_out }),
        },
        (StageModel::Embedding { held_out, .. }, LeaseEvent::Embedding(answer)) => match answer {
            Err(error) => StepModel::Failed(
                FailureModel::Retryable { code: "embedding_unavailable"@, error: error@ },
            ),
            Ok(vectors) => if vectors@.len() == 0 {
                StepModel::Failed(
                    FailureModel::Retryable {
                        code: "embedding_unavailable"@,
                        error: "embedding result missing"@,
                    },
                )
            } else if model.dimensions > u32::MAX {
                StepModel::Failed(
                    FailureModel::Retryable {
                        code: "embedding_unavailable"@,
                        error: "embedding dimensions overflow"@,
                    },
                )
            } else {
                StepModel::Next(
                    StageModel::StoredEmbedding { held_out, embedding: vectors@[0] },
                )
            },
        },
        (StageModel::StoredEmbedding { held_out, .. }, LeaseEvent::StoredEmbedding(answer)) => {
            match answer {
                Err(e) => StepModel::Failed(store_failure(e)),
                Ok(()) => StepModel::Next(
                    StageModel::ReportId {
                        draft: success_draft(lease, held_out, model, verifier_version, now),
                    },
                ),
            }
        },
        (StageModel::ReportId { draft }, LeaseEvent::ReportId(report_id)) => StepModel::Next(
            StageModel::Completion { report: draft.identified(report_id@) },
        ),
        (StageModel::Completion { report }, LeaseEvent::Completion(answer)) => match answer {
            Err(e) => StepModel::Failed(store_failure(e)),
            Ok(()) => StepModel::Passed(report),
        },
        _ => StepModel::Next(stage),
    }
}

/// Takes the evaluation of a claimed proposal one answer further: from the stored
/// artifact over every gate to the completed report. An answer to another stage is
/// passed over.
pub fn evaluate_lease(
    lease: &ProposalLease,
    stage: LeaseStage,
    event: LeaseEvent,
    model: &ModelMetadata,
    verifier_version: u32,
    now: i64,
) -> (r: LeaseStep)
    ensures
        r@ == lease_step(*lease, stage@, event, *model, verifier_version, now),
{
    match (stage, event) {
        (LeaseStage::Artifact, LeaseEvent::Artifact(answer)) => match answer {
            Err(e) => LeaseStep::Failed(classify_store(e)),
            Ok(None) => LeaseStep::Failed(deterministic("identity_invalid", "artifact missing")),
            Ok(Some(artifact)) => {
                if artifact.verify_identity().is_err() {
                    return LeaseStep::Failed(
                        deterministic("identity_invalid", "artifact identity mismatch"),
                    );
                }
                if lease.predecessor_id.is_some() {
                    LeaseStep::Next(LeaseStage::Predecessor { artifact })
                } else {
                    LeaseStep::Next(LeaseStage::Duplicate { artifact, predecessor: None })
                }
            },
        },
        (LeaseStage::Predecessor { artifact }, LeaseEvent::Predecessor(answer)) => match answer {
            Err(e) => LeaseStep::Failed(classify_store(e)),
            Ok(None) => LeaseStep::Failed(
                deterministic("inherited_regression_failed", "predecessor missing"),
            ),
            Ok(Some(predecessor)) => {
                if !capability_is_non_escalating(&artifact.capability, &predecessor.capability) {
                    return LeaseStep::Failed(
                        deterministic("contract_invalid", "replacement capability escalation"),
                    );
                }
                LeaseStep::Next(LeaseStage::Duplicate { artifact, predecessor: Some(predecessor) })
            },
        },
        (LeaseStage::Duplicate { artifact, predecessor }, LeaseEvent::Duplicate(answer)) => {
            match answer {
                Err(e) => LeaseStep::Failed(classify_store(e)),
                Ok(true) => LeaseStep::Failed(
                    deterministic(
                        "duplicate_skill",
                        "active skill has the same normalized contract",
                    ),
                ),
                Ok(false) => LeaseStep::Next(LeaseStage::HeldOut { artifact, predecessor }),
            }
        },
        (LeaseStage::HeldOut { artifact, .. }, LeaseEvent::HeldOut(answer)) => match answer {
            Err(e) => LeaseStep::Failed(classify_held_out(e)),
            Ok(held_out) => LeaseStep::Next(LeaseStage::Embedding { artifact, held_out }),
        },
        (LeaseStage::Embedding { held_out, .. }, LeaseEvent::Embedding(answer)) => match answer {
            Err(error) => LeaseStep::Failed(
                EvaluationFailure::Retryable { code: "embedding_unavailable", error },
            ),
            Ok(vectors) => {
                let mut vectors = vectors;
                if vectors.len() == 0 {
                    return LeaseStep::Failed(
                        EvaluationFailure::Retryable {
                            code: "embedding_unavailable",
                            error: "embedding result missing".to_owned(),
                        },
                    );
                }
                if model.dimensions as u64 > u32::MAX as u64 {
                    return LeaseStep::Failed(
                        EvaluationFailure::Retryable {
                            code: "embedding_unavailable",
                            error: "embedding dimensions overflow".to_owned(),
                        },
                    );
                }
                let embedding = vectors.remove(0);
                LeaseStep::Next(LeaseStage::StoredEmbedding { held_out, embedding })
            },
        },
        (LeaseStage::StoredEmbedding { held_out, .. }, LeaseEvent::StoredEmbedding(answer)) => {
            match answer {
                Err(e) => LeaseStep::Failed(classify_store(e)),
                Ok(()) => {
                    let draft = success_report(lease, &held_out, model, verifier_version, now);
                    LeaseStep::Next(LeaseStage::ReportId { draft })
                },
            }
        },
        (LeaseStage::ReportId { draft }, LeaseEvent::ReportId(report_id)) => LeaseStep::Next(
            LeaseStage::Completion { report: draft.with_id(report_id) },
        ),
        (LeaseStage::Completion { report }, LeaseEvent::Completion(answer)) => match answer {
            Err(e) => LeaseStep::Failed(classify_store(e)),
            Ok(()) => LeaseStep::Passed(report),
        },
        (stage, _) => LeaseStep::Next(stage),
    }
}

/// What a row of answers leads to, from a stage on.
pub open spec fn lease_run(
    lease: ProposalLease,
    stage: StageModel,
    events: Seq<LeaseEvent>,
    model: ModelMetadata,
    verifier_version: u32,
    now: i64,
) -> StepModel
    decreases events.len(),
{
    if events.len() == 0 {
        StepModel::Next(stage)
    } else {
        match lease_step(lease, stage, events[0], model, verifier_version, now) {
            StepModel::Next(next) => lease_run(
                lease,
                next,
                events.drop_first(),
                model,
                verifier_version,
                now,
            ),
            other => other,
        }
    }
}

/// One of the answers is the artifact, under an identity that holds.
pub open spec fn loaded(events: Seq<LeaseEvent>, artifact: SkillArtifact) -> bool {
    &&& artifact@.stored_fault() is None
    &&& exists|i: int|
        0 <= i < events.len() && #[trigger] events[i] == LeaseEvent::Artifact(Ok(Some(artifact)))
}

/// One of the answers is a predecessor against which the artifact does not escalate.
pub open spec fn replaces_without_escalation(
    events: Seq<LeaseEvent>,
    artifact: SkillArtifact,
) -> bool {
    exists|i: int|
        0 <= i < events.len() && (#[trigger] events[i] matches LeaseEvent::Predecessor(
            Ok(Some(predecessor)),
        ) && non_escalating(artifact.capability@, predecessor.capability@))
}

/// One of the answers is that nothing active has the same contract.
pub open spec fn unduplicated(events: Seq<LeaseEvent>) -> bool {
    exists|i: int| 0 <= i < events.len() && #[trigger] events[i] == LeaseEvent::Duplicate(Ok(false))
}

/// One of the answers is the held-out report.
pub open spec fn held_out_passed(
    events: Seq<LeaseEvent>,
    held_out: HeldOutEvaluationReport,
) -> bool {
    exists|i: int|
        0 <= i < events.len() && #[trigger] events[i] == LeaseEvent::HeldOut(Ok(held_out))
}

/// One of the answers holds a vector.
pub open spec fn embedded(events: Seq<LeaseEvent>) -> bool {
    exists|i: int|
        0 <= i < events.len() && (#[trigger] events[i] matches LeaseEvent::Embedding(Ok(vectors))
            && vectors@.len() > 0)
}

/// One of the answers is the id of the report.
pub open spec fn identified(events: Seq<LeaseEvent>, report_id: Seq<char>) -> bool {
    exists|i: int|
        0 <= i < events.len() && (#[trigger] events[i] matches LeaseEvent::ReportId(answer)
            && answer@ == report_id)
}

/// The answers carry an artifact past the gates before the held-out suites.
pub open spec fn cleared(
    lease: ProposalLease,
    events: Seq<LeaseEvent>,
    artifact: SkillArtifact,
) -> bool {
    &&& loaded(events, artifact)
    &&& lease.predecessor_id is Some ==> replaces_without_escalation(events, artifact)
}

/// What the answers so far must hold for a stage to be reached.
pub open spec fn earned(
    lease: ProposalLease,
    stage: StageModel,
    past: Seq<LeaseEvent>,
    model: ModelMetadata,
    verifier_version: u32,
    now: i64,
) -> bool {
    match stage {
        StageModel::Artifact => true,
        StageModel::Predecessor { artifact } => loaded(past, artifact),
        StageModel::Duplicate { artifact, .. } => cleared(lease, past, artifact),
        StageModel::HeldOut { artifact, .. } => cleared(lease, past, artifact) && unduplicated(
            past,
        ),
        StageModel::Embedding { artifact, held_out } => {
            cleared(lease, past, artifact) && unduplicated(past) && held_out_passed(past, held_out)
        },
        StageModel::StoredEmbedding { held_out, .. } => {
            &&& exists|artifact: SkillArtifact| #[trigger] cleared(lease, past, artifact)
            &&& unduplicated(past)
            &&& held_out_passed(past, held_out)
            &&& embedded(past)
        },
        StageModel::ReportId { draft } => {
            &&& exists|artifact: SkillArtifact| #[trigger] cleared(lease, past, artifact)
            &&& unduplicated(past)
            &&& embedded(past)
            &&& exists|held_out: HeldOutEvaluationReport| #[trigger]
                held_out_passed(past, held_out) && draft == success_draft(
                    lease,
                    held_out,
                    model,
                    verifier_version,
                    now,
                )
        },
        StageModel::Completion { report } => {
            &&& exists|artifact: SkillArtifact| #[trigger] cleared(lease, past, artifact)
            &&& unduplicated(past)
            &&& embedded(past)
            &&& identified(past, report.report_id)
            &&& exists|held_out: HeldOutEvaluationReport| #[trigger]
                held_out_passed(past, held_out) && report == success_draft(
                    lease,
                    held_out,
                    model,
                    verifier_version,
                    now,
                ).identified(report.report_id)
        },
    }
}

proof fn lemma_answers_stay(
    lease: ProposalLease,
    stage: StageModel,
    past: Seq<LeaseEvent>,
    event: LeaseEvent,
    model: ModelMetadata,
    verifier_version: u32,
    now: i64,
)
    requires
        earned(lease, stage, past, model, verifier_version, now),
    ensures
        earned(lease, stage, past.push(event), model, verifier_version, now),
{
    let all = past.push(event);
    assert forall|i: int| 0 <= i < past.len() implies #[trigger] all[i] == past[i] by {}
    assert forall|a: SkillArtifact| loaded(past, a) implies #[trigger] loaded(all, a) by {
        let i = choose|i: int|
            0 <= i < past.len() && #[trigger] past[i] == LeaseEvent::Artifact(Ok(Some(a)));
        assert(all[i] == past[i]);
    }
    assert forall|a: SkillArtifact| replaces_without_escalation(past, a) implies #[trigger]
        replaces_without_escalation(all, a) by {
        let i = choose|i: int|
            0 <= i < past.len() && (#[trigger] past[i] matches LeaseEvent::Predecessor(
                Ok(Some(p)),
            ) && non_escalating(a.capability@, p.capability@));
        assert(all[i] == past[i]);
    }
    assert forall|a: SkillArtifact| cleared(lease, past, a) implies #[trigger] cleared(
        lease,
        all,
        a,
    ) by {
        assert(loaded(all, a));
        assert(lease.predecessor_id is Some ==> replaces_without_escalation(all, a));
    }
    if unduplicated(past) {
        let i = choose|i: int|
            0 <= i < past.len() && #[trigger] past[i] == LeaseEvent::Duplicate(Ok(false));
        assert(all[i] == past[i]);
    }
    assert forall|h: HeldOutEvaluationReport| held_out_passed(past, h) implies #[trigger]
        held_out_passed(all, h) by {
        let i = choose|i: int|
            0 <= i < past.len() && #[trigger] past[i] == LeaseEvent::HeldOut(Ok(h));
        assert(all[i] == past[i]);
    }
    if embedded(past) {
        let i = choose|i: int|
            0 <= i < past.len() && (#[trigger] past[i] matches LeaseEvent::Embedding(Ok(v))
                && v@.len() > 0);
        assert(all[i] == past[i]);
    }
    assert forall|id: Seq<char>| identified(past, id) implies #[trigger] identified(all, id) by {
        let i = choose|i: int|
            0 <= i < past.len() && (#[trigger] past[i] matches LeaseEvent::ReportId(answer)
                && answer@ == id);
        assert(all[i] == past[i]);
    }
    match stage {
        StageModel::StoredEmbedding { .. } => {
            let a = choose|a: SkillArtifact| #[trigger] cleared(lease, past, a);
            assert(cleared(lease, all, a));
        },
        StageModel::ReportId { draft } => {
            let a = choose|a: SkillArtifact| #[trigger] cleared(lease, past, a);
            assert(cleared(lease, all, a));
            let h = choose|h: HeldOutEvaluationReport| #[trigger]
                held_out_passed(past, h) && draft == success_draft(
                    lease,
                    h,
                    model,
                    verifier_version,
                    now,
                );
            assert(held_out_passed(all, h));
        },
        StageModel::Completion { report } => {
            let a = choose|a: SkillArtifact| #[trigger] cleared(lease, past, a);
            assert(cleared(lease, all, a));
            let h = choose|h: HeldOutEvaluationReport| #[trigger]
                held_out_passed(past, h) && report == success_draft(
                    lease,
                    h,
                    model,
                    verifier_version,
                    now,
                ).identified(report.report_id);
            assert(held_out_passed(all, h));
        },
        _ => {},
    }
}

proof fn lemma_step_is_earned(
    lease: ProposalLease,
    stage: StageModel,
    past: Seq<LeaseEvent>,
    event: LeaseEvent,
    model: ModelMetadata,
    verifier_version: u32,
    now: i64,
)
    requires
        earned(lease, stage, past, model, verifier_version, now),
        lease_step(lease, stage, event, model, verifier_version, now) is Next,
    ensures
        earned(
            lease,
            lease_step(lease, stage, event, model, verifier_version, now)->Next_0,
            past.push(event),
            model,
            verifier_version,
            now,
        ),
{
    let all = past.push(event);
    let next = lease_step(lease, stage, event, model, verifier_version, now)->Next_0;
    lemma_answers_stay(lease, stage, past, event, model, verifier_version, now);
    assert(all[past.len() as int] == event);
    match (stage, event) {
        (StageModel::Embedding { artifact, .. }, LeaseEvent::Embedding(_)) => {
            assert(cleared(lease, all, artifact));
        },
        (StageModel::StoredEmbedding { held_out, .. }, LeaseEvent::StoredEmbedding(_)) => {
            assert(held_out_passed(all, held_out));
        },
        (StageModel::ReportId { draft }, LeaseEvent::ReportId(report_id)) => {
            assert(identified(all, report_id@));
            let h = choose|h: HeldOutEvaluationReport| #[trigger]
                held_out_passed(all, h) && draft == success_draft(
                    lease,
                    h,
                    model,
                    verifier_version,
                    now,
                );
            assert(held_out_passed(all, h));
        },
        _ => {},
    }
}

proof fn lemma_run_is_earned(
    lease: ProposalLease,
    stage: StageModel,
    past: Seq<LeaseEvent>,
    events: Seq<LeaseEvent>,
    model: ModelMetadata,
    verifier_version: u32,
    now: i64,
)
    requires
        earned(lease, stage, past, model, verifier_version, now),
        lease_run(lease, stage, events, model, verifier_version, now) is Passed,
    ensures
        earned(
            lease,
            StageModel::Completion {
                report: lease_run(
                    lease,
                    stage,
                    events,
                    model,
                    verifier_version,
                    now,
                )->Passed_0,
            },
            past + events,
            model,
            verifier_version,
            now,
        ),
    decreases events.len(),
{
    let event = events[0];
    assert(past + events =~= past.push(event) + events.drop_first());
    match lease_step(lease, stage, event, model, verifier_version, now) {
        StepModel::Next(next) => {
            lemma_step_is_earned(lease, stage, past, event, model, verifier_version, now);
            lemma_run_is_earned(
                lease,
                next,
                past.push(event),
                events.drop_first(),
                model,
                verifier_version,
                now,
            );
        },
        StepModel::Passed(report) => {
            lemma_all_stay(
                lease,
                stage,
                past,
                events,
                model,
                verifier_version,
                now,
            );
        },
        StepModel::Failed(_) => {},
    }
}

proof fn lemma_all_stay(
    lease: ProposalLease,
    stage: StageModel,
    past: Seq<LeaseEvent>,
    more: Seq<LeaseEvent>,
    model: ModelMetadata,
    verifier_version: u32,
    now: i64,
)
    requires
        earned(lease, stage, past, model, verifier_version, now),
    ensures
        earned(lease, stage, past + more, model, verifier_version, now),
    decreases more.len(),
{
    if more.len() == 0 {
        assert(past + more =~= past);
    } else {
        lemma_answers_stay(lease, stage, past, more[0], model, verifier_version, now);
        lemma_all_stay(
            lease,
            stage,
            past.push(more[0]),
            more.drop_first(),
            model,
            verifier_version,
            now,
        );
        assert(past.push(more[0]) + more.drop_first() =~= past + more);
    }
}

/// A proposal passes only through every gate: an artifact whose identity holds, no
/// escalation against the predecessor where there is one, no duplicate, a passed
/// held-out evaluation and an embedding. The report names exactly the suites of that
/// evaluation, and stands under the id that the store derived from it.
pub proof fn law_no_gate_is_skipped(
    lease: ProposalLease,
    events: Seq<LeaseEvent>,
    model: ModelMetadata,
    verifier_version: u32,
    now: i64,
)
    requires
        lease_run(lease, StageModel::Artifact, events, model, verifier_version, now) is Passed,
    ensures
        exists|artifact: SkillArtifact| #[trigger] cleared(lease, events, artifact),
        unduplicated(events),
        embedded(events),
        ({
            let report = lease_run(
                lease,
                StageModel::Artifact,
                events,
                model,
                verifier_version,
                now,
            )->Passed_0;
            &&& identified(events, report.report_id)
            &&& exists|held_out: HeldOutEvaluationReport| #[trigger]
                held_out_passed(events, held_out) && report == success_draft(
                    lease,
                    held_out,
                    model,
                    verifier_version,
                    now,
                ).identified(report.report_id)
        }),
{
    let none = Seq::<LeaseEvent>::empty();
    lemma_run_is_earned(
        lease,
        StageModel::Artifact,
        none,
        events,
        model,
        verifier_version,
        now,
    );
    assert(none + events =~= events);
}

/// The sum of two times, held at the last one there is.
pub open spec fn later(now: i64, seconds: int) -> int {
    if now + seconds > i64::MAX {
        i64::MAX as int
    } else {
        now + seconds
    }
}

fn add_seconds(now: i64, seconds: i64) -> (r: i64)
    requires
        seconds >= 0,
    ensures
        r == later(now, seconds as int),
{
    if now > i64::MAX - seconds {
        i64::MAX
    } else {
        now + seconds
    }
}

impl ProposalLease {
    /// Takes the row version that the store gave when the claim was renewed for the
    /// evaluation, and extends the claim.
    pub fn renew(self, row_version: u64, now: i64) -> (r: ProposalLease)
        ensures
            r == (ProposalLease {
                row_version,
                lease_expires_at: later(now, EVALUATION_LEASE_SECONDS as int) as i64,
                ..self
            }),
    {
        let mut lease = self;
        lease.row_version = row_version;
        lease.lease_expires_at = add_seconds(now, EVALUATION_LEASE_SECONDS);
        lease
    }
}

/// What is written back when an evaluation has ended.
#[derive(Debug, Clone, PartialEq, Eq)]
pub enum Settlement {
    /// The passed report is already written.
    Passed(EvaluationReportRecord),
    /// The proposal is rejected with the report.
    Reject { report: EvaluationReportRecord, code: &'static str },
    /// The proposal is blocked with the report.
    Block { report: EvaluationReportRecord, code: &'static str },
    /// The attempt is counted and another one is due at the time.
    Retry { next_attempt_at: i64, error: AdmissionError },
    /// The attempt is not counted and another one is due at the time.
    RetryOutage { next_attempt_at: i64, error: AdmissionError },
}

/// The contents of a [`Settlement`].
#[verifier::ext_equal]
pub enum SettlementModel {
    Passed(ReportModel),
    Reject { report: ReportModel, code: Seq<char> },
    Block { report: ReportModel, code: Seq<char> },
    Retry { next_attempt_at: i64, error: AdmissionFault },
    RetryOutage { next_attempt_at: i64, error: AdmissionFault },
}

impl View for Settlement {
    type V = SettlementModel;

    open spec fn view(&self) -> SettlementModel {
        match *self {
            Settlement::Passed(report) => SettlementModel::Passed(report@),
            Settlement::Reject { report, code } => {
                SettlementModel::Reject { report: report@, code: code@ }
            },
            Settlement::Block { report, code } => {
                SettlementModel::Block { report: report@, code: code@ }
            },
            Settlement::Retry { next_attempt_at, error } => {
                SettlementModel::Retry { next_attempt_at, error: error@ }
            },
            Settlement::RetryOutage { next_attempt_at, error } => {
                SettlementModel::RetryOutage { next_attempt_at, error: error@ }
            },
        }
    }
}

/// A failure that is settled with a report, before the id of the report is derived. The
/// proposal is blocked, or else rejected.
#[derive(Debug, Clone, PartialEq, Eq)]
pub struct ReportedFailure {
    pub draft: EvaluationReportDraft,
    pub code: &'static str,
    pub blocked: bool,
}

impl ReportedFailure {
    /// Puts the report under the id that the store derived from it, and settles with it.
    pub fn with_id(self, report_id: String) -> (r: Settlement)
        ensures
            r@ == Settling::Report(self)@.identified(report_id@),
    {
        let report = self.draft.with_id(report_id);
        if self.blocked {
            Settlement::Block { report, code: self.code }
        } else {
            Settlement::Reject { report, code: self.code }
        }
    }
}

/// How an evaluation that has ended is settled.
#[derive(Debug, Clone, PartialEq, Eq)]
pub enum Settling {
    Settled(Settlement),
    /// The id of the report is derived first.
    Report(ReportedFailure),
}

/// The contents of a [`Settling`].
#[verifier::ext_equal]
pub enum SettlingModel {
    Settled(SettlementModel),
    Report { draft: DraftModel, code: Seq<char>, blocked: bool },
}

impl View for Settling {
    type V = SettlingModel;

    open spec fn view(&self) -> SettlingModel {
        match *self {
            Settling::Settled(settlement) => SettlingModel::Settled(settlement@),
            Settling::Report(failure) => SettlingModel::Report {
                draft: failure.draft@,
                code: failure.code@,
                blocked: failure.blocked,
            },
        }
    }
}

impl SettlingModel {
    /// What is written back, where the store derives the id from a report.
    pub open spec fn identified(self, report_id: Seq<char>) -> SettlementModel {
        match self {
            SettlingModel::Settled(settlement) => settlement,
            SettlingModel::Report { draft, code, blocked } => {
                let report = draft.identified(report_id);
                if blocked {
                    SettlementModel::Block { report, code }
                } else {
                    SettlementModel::Reject { report, code }
                }
            },
        }
    }
}

/// What a failure of a claimed proposal is settled as.
pub open spec fn settled_failure(
    lease: ProposalLease,
    failure: FailureModel,
    max_attempts: u32,
    verifier_version: u32,
    now: i64,
) -> SettlingModel {
    match failure {
        FailureModel::Deterministic { code, detail } => SettlingModel::Report {
            draft: rejection_draft(lease, code, detail, verifier_version, now),
            code,
            blocked: false,
        },
        FailureModel::SuiteRequired => SettlingModel::Report {
            draft: blocked_draft(lease, "held_out_suite_required"@, verifier_version, now),
            code: "held_out_suite_required"@,
            blocked: true,
        },
        FailureModel::Retryable { code, error } => if lease.attempt >= max_attempts {
            SettlingModel::Report {
                draft: rejection_draft(
                    lease,
                    code,
                    "retry budget exhausted"@,
                    verifier_version,
                    now,
                ),
                code,
                blocked: false,
            }
        } else {
            SettlingModel::Settled(
                SettlementModel::Retry {
                    next_attempt_at: later(now, backoff::retry_seconds(lease.attempt)) as i64,
                    error: AdmissionFault::Retryable(error),
                },
            )
        },
        FailureModel::Infrastructure { error } => SettlingModel::Settled(
            SettlementModel::RetryOutage {
                next_attempt_at: later(now, backoff::retry_seconds(lease.attempt)) as i64,
                error: AdmissionFault::Retryable(error),
            },
        ),
    }
}

/// Decides what is written back when the evaluation of a claimed proposal has ended. The
/// id of a report on a failure is derived before it is written.
pub fn evaluate_next(
    lease: &ProposalLease,
    outcome: Result<EvaluationReportRecord, EvaluationFailure>,
    max_attempts: u32,
    verifier_version: u32,
    now: i64,
) -> (r: Settling)
    ensures
        match outcome {
            Ok(report) => r@ == SettlingModel::Settled(SettlementModel::Passed(report@)),
            Err(failure) => r@ == settled_failure(
                *lease,
                failure@,
                max_attempts,
                verifier_version,
                now,
            ),
        },
{
    match outcome {
        Ok(report) => Settling::Settled(Settlement::Passed(report)),
        Err(EvaluationFailure::Deterministic { code, detail }) => {
            let draft = rejection_report(lease, code, detail, verifier_version, now);
            Settling::Report(ReportedFailure { draft, code, blocked: false })
        },
        Err(EvaluationFailure::SuiteRequired) => {
            let draft = blocked_report(lease, "held_out_suite_required", verifier_version, now);
            Settling::Report(
                ReportedFailure { draft, code: "held_out_suite_required", blocked: true },
            )
        },
        Err(EvaluationFailure::Retryable { code, error }) => {
            if lease.attempt >= max_attempts {
                let draft = rejection_report(
                    lease,
                    code,
                    "retry budget exhausted",
                    verifier_version,
                    now,
                );
                return Settling::Report(ReportedFailure { draft, code, blocked: false });
            }
            let delay = backoff::retry_delay(lease.attempt);
            Settling::Settled(
                Settlement::Retry {
                    next_attempt_at: add_seconds(now, delay),
                    error: AdmissionError::Retryable(error),
                },
            )
        },
        Err(EvaluationFailure::Infrastructure { error }) => {
            let delay = backoff::retry_delay(lease.attempt);
            Settling::Settled(
                Settlement::RetryOutage {
                    next_attempt_at: add_seconds(now, delay),
                    error: AdmissionError::Retryable(error),
                },
            )
        },
    }
}

/// Whatever id the store derives, a report on a failure is answered under that id and
/// otherwise as it was built, once it is written.
pub proof fn law_failures_are_reported_under_their_id(
    lease: ProposalLease,
    failure: FailureModel,
    max_attempts: u32,
    verifier_version: u32,
    now: i64,
    report_id: Seq<char>,
)
    ensures
        match settled_failure(lease, failure, max_attempts, verifier_version, now) {
            SettlingModel::Report { draft, code, .. } => {
                &&& settled_failure(
                    lease,
                    failure,
                    max_attempts,
                    verifier_version,
                    now,
                ).identified(report_id).concluded(Ok(())) == Ok::<ReportModel, AdmissionFault>(
                    draft.identified(report_id),
                )
                &&& draft.identified(report_id).report_id == report_id
                &&& draft.identified(report_id).reason_code == Some(code)
                &&& draft.identified(report_id).proposal_id == lease.proposal_id@
                &&& draft.identified(report_id).skill_id == lease.skill_id@
            },
            SettlingModel::Settled(settlement) => settlement.concluded(Ok(())) is Err,
        },
{
}

impl SettlementModel {
    /// What the evaluation is answered once the settlement was written or refused.
    pub open spec fn concluded(self, written: Result<(), StoreFailure>) -> Result<
        ReportModel,
        AdmissionFault,
    > {
        match self {
            SettlementModel::Passed(report) => Ok(report),
            SettlementModel::Reject { report, .. } => match written {
                Ok(()) => Ok(report),
                Err(e) => Err(AdmissionFault::Store(e)),
            },
            SettlementModel::Block { report, .. } => match written {
                Ok(()) => Ok(report),
                Err(e) => Err(AdmissionFault::Store(e)),
            },
            SettlementModel::Retry { error, .. } => match written {
                Ok(()) => Err(error),
                Err(e) => Err(AdmissionFault::Store(e)),
            },
            SettlementModel::RetryOutage { error, .. } => match written {
                Ok(()) => Err(error),
                Err(e) => Err(AdmissionFault::Store(e)),
            },
        }
    }
}

impl Settlement {
    /// What the evaluation is answered once the settlement was written or refused. There
    /// is nothing to write for a passed report.
    pub fn conclude(self, written: Result<(), StoreFailure>) -> (r: Result<
        EvaluationReportRecord,
        AdmissionError,
    >)
        ensures
            match self@.concluded(written) {
                Ok(report) => r is Ok && r->Ok_0@ == report,
                Err(e) => r is Err && r->Err_0@ == e,
            },
    {
        match self {
            Settlement::Passed(report) => Ok(report),
            Settlement::Reject { report, .. } => match written {
                Ok(()) => Ok(report),
                Err(e) => Err(AdmissionError::Store(e)),
            },
            Settlement::Block { report, .. } => match written {
                Ok(()) => Ok(report),
                Err(e) => Err(AdmissionError::Store(e)),
            },
            Settlement::Retry { error, .. } => match written {
                Ok(()) => Err(error),
                Err(e) => Err(AdmissionError::Store(e)),
            },
            Settlement::RetryOutage { error, .. } => match written {
                Ok(()) => Err(error),
                Err(e) => Err(AdmissionError::Store(e)),
            },
        }
    }
}

/// What the background worker does after a pass: it goes on at once with the next
/// proposal, waits, or warns and waits.
#[derive(Debug, Clone, Copy, PartialEq, Eq)]
pub enum WorkerAction {
    Proceed,
    Wait,
    Warn(&'static str),
}

/// How long the background worker waits, in milliseconds.
pub const WORKER_IDLE_POLL_MS: u64 = 100;

/// Decides what the background worker does after a pass. Nothing due, and what a retry
/// may cure, is no reason to warn.
pub fn worker_action(outcome: &Result<Option<EvaluationReportRecord>, AdmissionError>) -> (r:
    WorkerAction)
    ensures
        match *outcome {
            Ok(Some(_)) => r == WorkerAction::Proceed,
            Ok(None) => r == WorkerAction::Wait,
            Err(AdmissionError::Retryable(_)) => r == WorkerAction::Wait,
            Err(e) => r matches WorkerAction::Warn(kind) && kind@ == e@.kind(),
        },
{
    match outcome {
        Ok(Some(_)) => WorkerAction::Proceed,
        Ok(None) => WorkerAction::Wait,
        Err(e) => match e {
            AdmissionError::Retryable(_) => WorkerAction::Wait,
            other => WorkerAction::Warn(admission_error_kind(other)),
        },
    }
}

/// The version of the proposal row that an administrator asks to have evaluated again.
pub fn request_reevaluation(
    proposal_id: &str,
    proposal: Result<Option<ProposalRecord>, StoreFailure>,
) -> (r: Result<u64, AdmissionError>)
    ensures
        match proposal {
            Err(e) => r == Err::<u64, AdmissionError>(AdmissionError::Store(e)),
            Ok(None) => r is Err && r->Err_0@ == AdmissionFault::NotFound(proposal_id@),
            Ok(Some(p)) => r == Ok::<u64, AdmissionError>(p.row_version),
        },
{
    match proposal {
        Err(e) => Err(AdmissionError::Store(e)),
        Ok(None) => Err(AdmissionError::NotFound(proposal_id.to_owned())),
        Ok(Some(p)) => Ok(p.row_version),
    }
}

/// An outage never rejects a proposal, however many attempts there were, and what a
/// retry may cure rejects it only once the attempts are used up.
pub proof fn law_outages_do_not_reject(
    lease: ProposalLease,
    error: Seq<char>,
    code: Seq<char>,
    max_attempts: u32,
    verifier_version: u32,
    now: i64,
)
    ensures
        settled_failure(
            lease,
            FailureModel::Infrastructure { error },
            max_attempts,
            verifier_version,
            now,
        ) matches SettlingModel::Settled(settlement) && settlement is RetryOutage,
        lease.attempt < max_attempts <==> (settled_failure(
            lease,
            FailureModel::Retryable { code, error },
            max_attempts,
            verifier_version,
            now,
        ) matches SettlingModel::Settled(settlement) && settlement is Retry),
{
}

/// What the human who decides is shown. The source and the tests are for that alone.
#[derive(Clone, PartialEq, Eq)]
pub struct ReviewPacket {
    pub proposal_id: String,
    pub report_id: String,
    pub artifact: SkillArtifact,
    pub gate_summary_json: String,
    pub verifier_version: u32,
    pub fakes_version: u32,
    pub held_out_suite_hashes: Vec<String>,
    pub embedding_model_id: Option<String>,
    pub embedding_model_revision: Option<String>,
}

/// A decision of a person who was authenticated for it.
#[derive(Debug, Clone, PartialEq, Eq)]
pub struct AuthenticatedHumanDecision {
    pub decision_id: String,
    pub principal: String,
    pub authenticated_at: i64,
}

impl AuthenticatedHumanDecision {
    /// A decision that an authenticated interaction has ended in.
    pub fn verified(decision_id: String, principal: String, authenticated_at: i64) -> (r:
        AuthenticatedHumanDecision)
        ensures
            r == (AuthenticatedHumanDecision { decision_id, principal, authenticated_at }),
    {
        AuthenticatedHumanDecision { decision_id, principal, authenticated_at }
    }
}

/// What the human decided.
#[derive(Debug, Clone, PartialEq, Eq)]
pub enum ReviewDecision {
    Approve(AuthenticatedHumanDecision),
    Deny { reason_code: String },
    Cancelled,
    TimedOut,
}

#[derive(Debug, Clone, PartialEq, Eq)]
pub enum ReviewOutcome {
    Canary(CanaryApprovalResult),
    Denied,
    Cancelled,
    TimedOut,
}

/// What was found for the gates of a review.
pub struct GateAnswers {
    /// The predecessor; it is looked up only where the proposal has one.
    pub predecessor: Result<Option<SkillArtifact>, StoreFailure>,
    pub duplicate: Result<bool, StoreFailure>,
    pub held_out: Result<HeldOutEvaluationReport, HeldOutError>,
    pub compatible_embedding: Result<bool, StoreFailure>,
}

/// The report is about the proposal and the artifact, and made by this version.
pub open spec fn report_fits(
    proposal: ProposalModel,
    report: ReportModel,
    artifact: ArtifactModel,
    verifier_version: u32,
) -> bool {
    &&& report.outcome == "passed"@
    &&& report.proposal_id == proposal.proposal_id
    &&& report.skill_id == artifact.id
    &&& report.predecessor_id == proposal.predecessor_id
    &&& report.verifier_version == verifier_version
    &&& report.fakes_version == FAKES_VERSION
}

/// A fresh held-out evaluation found what the report says.
pub open spec fn held_out_agrees(
    held_out: HeldOutEvaluationReport,
    proposal: ProposalModel,
    report: ReportModel,
    artifact: ArtifactModel,
) -> bool {
    &&& held_out.skill_id@ == artifact.id
    &&& text::opt_view(held_out.predecessor_id) == proposal.predecessor_id
    &&& text::views(held_out.suite_hashes@) == report.suite_hashes
    &&& held_out.verifier_version == report.verifier_version
    &&& held_out.fakes_version == report.fakes_version
}

/// What the gates that follow the predecessor find.
pub open spec fn later_gates_fault(
    proposal: ProposalModel,
    report: ReportModel,
    artifact: ArtifactModel,
    gates: GateAnswers,
) -> Option<AdmissionFault> {
    match gates.duplicate {
        Err(e) => Some(AdmissionFault::Store(e)),
        Ok(true) => Some(AdmissionFault::StaleReview),
        Ok(false) => if gates.held_out is Err || !held_out_agrees(
            gates.held_out->Ok_0,
            proposal,
            report,
            artifact,
        ) || report.embedding_model_id is None || report.embedding_model_revision is None {
            Some(AdmissionFault::StaleReview)
        } else {
            match gates.compatible_embedding {
                Err(e) => Some(AdmissionFault::Store(e)),
                Ok(false) => Some(AdmissionFault::StaleReview),
                Ok(true) => None,
            }
        },
    }
}

/// What the gates of a review find.
pub open spec fn gates_fault(
    proposal: ProposalModel,
    report: ReportModel,
    artifact: ArtifactModel,
    gates: GateAnswers,
    verifier_version: u32,
) -> Option<AdmissionFault> {
    if artifact.stored_fault() is Some || !report_fits(
        proposal,
        report,
        artifact,
        verifier_version,
    ) {
        Some(AdmissionFault::StaleReview)
    } else {
        match proposal.predecessor_id {
            None => later_gates_fault(proposal, report, artifact, gates),
            Some(id) => match gates.predecessor {
                Err(e) => Some(AdmissionFault::Store(e)),
                Ok(None) => Some(AdmissionFault::NotFound(id)),
                Ok(Some(predecessor)) => if !non_escalating(
                    artifact.capability,
                    predecessor.capability@,
                ) {
                    Some(AdmissionFault::StaleReview)
                } else {
                    later_gates_fault(proposal, report, artifact, gates)
                },
            },
        }
    }
}

/// Checks every gate of a review again, on what is stored now.
pub fn revalidate_review_gates(
    proposal: &ProposalRecord,
    report: &EvaluationReportRecord,
    artifact: &SkillArtifact,
    gates: GateAnswers,
    verifier_version: u32,
) -> (r: Result<(), AdmissionError>)
    ensures
        match gates_fault(proposal@, report@, artifact@, gates, verifier_version) {
            None => r is Ok,
            Some(f) => r is Err && r->Err_0@ == f,
        },
{
    if artifact.verify_identity().is_err() {
        return Err(AdmissionError::StaleReview);
    }
    if !text::same(&report.outcome, "passed") || !text::same(
        &report.proposal_id,
        &proposal.proposal_id,
    ) || !text::same(&report.skill_id, &artifact.id) || !text::same_opt(
        &report.predecessor_id,
        &proposal.predecessor_id,
    ) || report.verifier_version != verifier_version || report.fakes_version != FAKES_VERSION {
        return Err(AdmissionError::StaleReview);
    }
    if let Some(id) = &proposal.predecessor_id {
        match gates.predecessor {
            Err(e) => {
                return Err(AdmissionError::Store(e));
            },
            Ok(None) => {
                return Err(AdmissionError::NotFound(id.clone()));
            },
            Ok(Some(predecessor)) => {
                if !capability_is_non_escalating(&artifact.capability, &predecessor.capability) {
                    return Err(AdmissionError::StaleReview);
                }
            },
        }
    }
    match gates.duplicate {
        Err(e) => {
            return Err(AdmissionError::Store(e));
        },
        Ok(duplicate) => {
            if duplicate {
                return Err(AdmissionError::StaleReview);
            }
        },
    }
    match &gates.held_out {
        Err(_) => {
            return Err(AdmissionError::StaleReview);
        },
        Ok(held_out) => {
            if !text::same(&held_out.skill_id, &artifact.id) || !text::same_opt(
                &held_out.predecessor_id,
                &proposal.predecessor_id,
            ) || !text::same_texts(&held_out.suite_hashes, &report.suite_hashes)
                || held_out.verifier_version != report.verifier_version || held_out.fakes_version
                != report.fakes_version {
                return Err(AdmissionError::StaleReview);
            }
        },
    }
    if report.embedding_model_id.is_none() || report.embedding_model_revision.is_none() {
        return Err(AdmissionError::StaleReview);
    }
    match gates.compatible_embedding {
        Err(e) => Err(AdmissionError::Store(e)),
        Ok(compatible) => {
            if compatible {
                Ok(())
            } else {
                Err(AdmissionError::StaleReview)
            }
        },
    }
}

/// What was found for a review.
pub struct ReviewAnswers {
    pub proposal: Result<Option<ProposalRecord>, StoreFailure>,
    /// The approval there already is; it is looked up only for an approved proposal.
    pub canary: Result<Option<CanaryApprovalResult>, StoreFailure>,
    /// The report that the proposal names.
    pub report: Result<Option<EvaluationReportRecord>, StoreFailure>,
    /// The artifact that the proposal names.
    pub artifact: Result<Option<SkillArtifact>, StoreFailure>,
    pub gates: GateAnswers,
    /// The row version of the artifact.
    pub artifact_version: Result<Option<u64>, StoreFailure>,
}

/// What is under review.
pub struct ReviewSubject {
    pub proposal: ProposalRecord,
    pub report: EvaluationReportRecord,
    pub artifact: SkillArtifact,
    pub artifact_version: u64,
}

/// What a review begins with.
pub enum PreparedReview {
    /// The proposal was approved before.
    Admitted(CanaryApprovalResult),
    Subject(ReviewSubject),
}

/// The subject of a review of a proposal that awaits approval, or why there is none.
pub open spec fn review_subject(
    proposal: ProposalRecord,
    answers: ReviewAnswers,
    verifier_version: u32,
) -> Result<PreparedReview, AdmissionFault> {
    if proposal.report_id is None {
        Err(AdmissionFault::MissingReport)
    } else {
        match answers.report {
            Err(e) => Err(AdmissionFault::Store(e)),
            Ok(None) => Err(AdmissionFault::MissingReport),
            Ok(Some(report)) => match answers.artifact {
                Err(e) => Err(AdmissionFault::Store(e)),
                Ok(None) => Err(AdmissionFault::NotFound(proposal.skill_id@)),
                Ok(Some(artifact)) => if gates_fault(
                    proposal@,
                    report@,
                    artifact@,
                    answers.gates,
                    verifier_version,
                ) is Some {
                    Err(
                        gates_fault(
                            proposal@,
                            report@,
                            artifact@,
                            answers.gates,
                            verifier_version,
                        )->0,
                    )
                } else {
                    match answers.artifact_version {
                        Err(e) => Err(AdmissionFault::Store(e)),
                        Ok(None) => Err(AdmissionFault::StaleReview),
                        Ok(Some(artifact_version)) => Ok(
                            PreparedReview::Subject(
                                ReviewSubject { proposal, report, artifact, artifact_version },
                            ),
                        ),
                    }
                },
            },
        }
    }
}

/// What a review of a proposal begins with, or why there is none.
pub open spec fn prepared(
    proposal_id: Seq<char>,
    answers: ReviewAnswers,
    verifier_version: u32,
) -> Result<PreparedReview, AdmissionFault> {
    match answers.proposal {
        Err(e) => Err(AdmissionFault::Store(e)),
        Ok(None) => Err(AdmissionFault::NotFound(proposal_id)),
        Ok(Some(proposal)) => match proposal.status {
            ProposalStatus::Approved => match answers.canary {
                Err(e) => Err(AdmissionFault::Store(e)),
                Ok(Some(result)) => Ok(PreparedReview::Admitted(result)),
                Ok(None) => Err(AdmissionFault::NotAwaitingApproval),
            },
            ProposalStatus::AwaitingApproval => review_subject(
                proposal,
                answers,
                verifier_version,
            ),
            _ => Err(AdmissionFault::NotAwaitingApproval),
        },
    }
}

/// Prepares the review of a proposal. Answers that the decision does not reach are
/// not read.
pub fn prepare_review(proposal_id: &str, answers: ReviewAnswers, verifier_version: u32) -> (r:
    Result<PreparedReview, AdmissionError>)
    ensures
        match r {
            Ok(review) => prepared(proposal_id@, answers, verifier_version) == Ok::<
                PreparedReview,
                AdmissionFault,
            >(review),
            Err(e) => prepared(proposal_id@, answers, verifier_version) == Err::<
                PreparedReview,
                AdmissionFault,
            >(e@),
        },
{
    let proposal = match answers.proposal {
        Err(e) => {
            return Err(AdmissionError::Store(e));
        },
        Ok(None) => {
            return Err(AdmissionError::NotFound(proposal_id.to_owned()));
        },
        Ok(Some(proposal)) => proposal,
    };
    if proposal.status == ProposalStatus::Approved {
        match answers.canary {
            Err(e) => {
                return Err(AdmissionError::Store(e));
            },
            Ok(Some(result)) => {
                return Ok(PreparedReview::Admitted(result));
            },
            Ok(None) => {},
        }
    }
    if proposal.status != ProposalStatus::AwaitingApproval {
        return Err(AdmissionError::NotAwaitingApproval);
    }
    if proposal.report_id.is_none() {
        return Err(AdmissionError::MissingReport);
    }
    let report = match answers.report {
        Err(e) => {
            return Err(AdmissionError::Store(e));
        },
        Ok(None) => {
            return Err(AdmissionError::MissingReport);
        },
        Ok(Some(report)) => report,
    };
    let artifact = match answers.artifact {
        Err(e) => {
            return Err(AdmissionError::Store(e));
        },
        Ok(None) => {
            return Err(AdmissionError::NotFound(proposal.skill_id.clone()));
        },
        Ok(Some(artifact)) => artifact,
    };
    match revalidate_review_gates(
        &proposal,
        &report,
        &artifact,
        answers.gates,
        verifier_version,
    ) {
        Ok(()) => {},
        Err(e) => {
            return Err(e);
        },
    }
    match answers.artifact_version {
        Err(e) => Err(AdmissionError::Store(e)),
        Ok(None) => Err(AdmissionError::StaleReview),
        Ok(Some(artifact_version)) => Ok(
            PreparedReview::Subject(ReviewSubject { proposal, report, artifact, artifact_version }),
        ),
    }
}

impl ReviewSubject {
    /// What the human who decides is shown.
    pub fn packet(&self) -> (r: ReviewPacket)
        ensures
            r.proposal_id@ == self.proposal.proposal_id@,
            r.report_id@ == self.report.report_id@,
            r.artifact@ == self.artifact@,
            r.gate_summary_json@ == self.report.summary_json@,
            r.verifier_version == self.report.verifier_version,
            r.fakes_version == self.report.fakes_version,
            text::views(r.held_out_suite_hashes@) == text::views(self.report.suite_hashes@),
            text::opt_view(r.embedding_model_id) == text::opt_view(self.report.embedding_model_id),
            text::opt_view(r.embedding_model_revision) == text::opt_view(
                self.report.embedding_model_revision,
            ),
    {
        ReviewPacket {
            proposal_id: self.proposal.proposal_id.clone(),
            report_id: self.report.report_id.clone(),
            artifact: self.artifact.copy(),
            gate_summary_json: self.report.summary_json.clone(),
            verifier_version: self.report.verifier_version,
            fakes_version: self.report.fakes_version,
            held_out_suite_hashes: text::clone_strings(&self.report.suite_hashes),
            embedding_model_id: text::clone_opt(&self.report.embedding_model_id),
            embedding_model_revision: text::clone_opt(&self.report.embedding_model_revision),
        }
    }
}

/// What the approval is bound to.
#[derive(Debug, Clone, PartialEq, Eq)]
pub struct CanaryApprovalInput {
    pub proposal_id: String,
    pub skill_id: String,
    pub report_id: String,
    pub expected_artifact_version: u64,
    pub expected_proposal_version: u64,
}

/// What a decision leads to.
#[derive(Debug, Clone, PartialEq, Eq)]
pub enum ReviewAction {
    Approve { authorization: ApprovalAuthorizationRequest, approval: CanaryApprovalInput },
    Deny { proposal_id: String, expected_proposal_version: u64, reason_code: String },
    Cancelled,
    TimedOut,
}

/// What was found when a reviewed subject was read again.
pub struct CurrentAnswers {
    pub proposal: Result<Option<ProposalRecord>, StoreFailure>,
    pub report: Result<Option<EvaluationReportRecord>, StoreFailure>,
    pub artifact: Result<Option<SkillArtifact>, StoreFailure>,
    pub artifact_version: Result<Option<u64>, StoreFailure>,
    pub gates: GateAnswers,
    /// The digest of the reviewed artifact's manifest, as the approval store derives it.
    pub manifest_digest: Result<String, StoreFailure>,
}

/// The authentication is fresh: not ahead of the clock and not too old.
pub open spec fn fresh(authenticated_at: i64, now: i64) -> bool {
    authenticated_at <= now && now - authenticated_at <= MAX_AUTH_AGE_SECONDS
}

/// A thing that was read again, or why it was not.
pub open spec fn reread<T>(answer: Result<Option<T>, StoreFailure>) -> Result<T, AdmissionFault> {
    match answer {
        Err(e) => Err(AdmissionFault::Store(e)),
        Ok(None) => Err(AdmissionFault::StaleReview),
        Ok(Some(x)) => Ok(x),
    }
}

/// What is found when the subject of an approval is read again: it must be just what
/// was reviewed, and pass every gate once more.
pub open spec fn reread_fault(
    subject: ReviewSubject,
    current: CurrentAnswers,
    verifier_version: u32,
) -> Option<AdmissionFault> {
    match reread(current.proposal) {
        Err(f) => Some(f),
        Ok(proposal) => match reread(current.report) {
            Err(f) => Some(f),
            Ok(report) => match reread(current.artifact) {
                Err(f) => Some(f),
                Ok(artifact) => match reread(current.artifact_version) {
                    Err(f) => Some(f),
                    Ok(version) => if proposal@ != subject.proposal@ || report@ != subject.report@
                        || artifact@ != subject.artifact@ || version != subject.artifact_version {
                        Some(AdmissionFault::StaleReview)
                    } else {
                        gates_fault(
                            proposal@,
                            report@,
                            artifact@,
                            current.gates,
                            verifier_version,
                        )
                    },
                },
            },
        },
    }
}

/// Why an approval is refused.
pub open spec fn approval_fault(
    subject: ReviewSubject,
    decision: AuthenticatedHumanDecision,
    current: CurrentAnswers,
    verifier_version: u32,
    now: i64,
) -> Option<AdmissionFault> {
    if !fresh(decision.authenticated_at, now) {
        Some(AdmissionFault::UnauthenticatedApproval)
    } else if reread_fault(subject, current, verifier_version) is Some {
        reread_fault(subject, current, verifier_version)
    } else if now + MAX_AUTH_AGE_SECONDS > i64::MAX {
        Some(AdmissionFault::UnauthenticatedApproval)
    } else {
        match current.manifest_digest {
            Ok(_) => None,
            Err(e) => Some(AdmissionFault::Store(e)),
        }
    }
}

/// The action binds the decision to exactly what was reviewed, and to the step of a
/// verified skill to canary.
pub open spec fn approves(
    action: ReviewAction,
    subject: ReviewSubject,
    decision: AuthenticatedHumanDecision,
    manifest_digest: Seq<char>,
    now: i64,
) -> bool {
    action matches ReviewAction::Approve { authorization, approval } && {
        &&& authorization.authorization_id@ == decision.decision_id@
        &&& authorization.principal@ == decision.principal@
        &&& authorization.artifact_id@ == subject.artifact.id@
        &&& authorization.report_id@ == subject.report.report_id@
        &&& authorization.manifest_digest@ == manifest_digest
        &&& authorization.transition == ApprovalTransition::VerifiedToCanary
        &&& authorization.issued_at == now
        &&& authorization.expires_at == now + MAX_AUTH_AGE_SECONDS
        &&& approval.proposal_id@ == subject.proposal.proposal_id@
        &&& approval.skill_id@ == subject.artifact.id@
        &&& approval.report_id@ == subject.report.report_id@
        &&& approval.expected_artifact_version == subject.artifact_version
        &&& approval.expected_proposal_version == subject.proposal.row_version
    }
}

/// Reads the subject of an approval again. The digest of its manifest is handed on.
fn check_reread(subject: &ReviewSubject, current: CurrentAnswers, verifier_version: u32) -> (r:
    Result<Result<String, StoreFailure>, AdmissionError>)
    ensures
        match reread_fault(*subject, current, verifier_version) {
            None => r == Ok::<_, AdmissionError>(current.manifest_digest),
            Some(f) => r is Err && r->Err_0@ == f,
        },
{
    let proposal = match current.proposal {
        Err(e) => {
            return Err(AdmissionError::Store(e));
        },
        Ok(None) => {
            return Err(AdmissionError::StaleReview);
        },
        Ok(Some(proposal)) => proposal,
    };
    let report = match current.report {
        Err(e) => {
            return Err(AdmissionError::Store(e));
        },
        Ok(None) => {
            return Err(AdmissionError::StaleReview);
        },
        Ok(Some(report)) => report,
    };
    let artifact = match current.artifact {
        Err(e) => {
            return Err(AdmissionError::Store(e));
        },
        Ok(None) => {
            return Err(AdmissionError::StaleReview);
        },
        Ok(Some(artifact)) => artifact,
    };
    let version: u64 = match current.artifact_version {
        Err(e) => {
            return Err(AdmissionError::Store(e));
        },
        Ok(None) => {
            return Err(AdmissionError::StaleReview);
        },
        Ok(Some(version)) => version,
    };
    if !proposal.same(&subject.proposal) || !report.same(&subject.report) || !artifact.same(
        &subject.artifact,
    ) || version != subject.artifact_version {
        return Err(AdmissionError::StaleReview);
    }
    match revalidate_review_gates(
        &proposal,
        &report,
        &artifact,
        current.gates,
        verifier_version,
    ) {
        Ok(()) => Ok(current.manifest_digest),
        Err(e) => Err(e),
    }
}

/// Decides what a human decision leads to. An approval needs a fresh
/// authentication and a subject that is still just what was reviewed.
pub fn review_and_admit(
    subject: &ReviewSubject,
    decision: ReviewDecision,
    current: CurrentAnswers,
    verifier_version: u32,
    now: i64,
) -> (r: Result<ReviewAction, AdmissionError>)
    ensures
        match decision {
            ReviewDecision::Approve(d) => match approval_fault(
                *subject,
                d,
                current,
                verifier_version,
                now,
            ) {
                Some(f) => r is Err && r->Err_0@ == f,
                None => r is Ok && approves(
                    r->Ok_0,
                    *subject,
                    d,
                    current.manifest_digest->Ok_0@,
                    now,
                ),
            },
            ReviewDecision::Deny { reason_code } => {
                &&& r matches Ok(ReviewAction::Deny {
                    proposal_id,
                    expected_proposal_version,
                    reason_code: code,
                })
                &&& proposal_id@ == subject.proposal.proposal_id@
                &&& expected_proposal_version == subject.proposal.row_version
                &&& code == reason_code
            },
            ReviewDecision::Cancelled => r == Ok::<ReviewAction, AdmissionError>(
                ReviewAction::Cancelled,
            ),
            ReviewDecision::TimedOut => r == Ok::<ReviewAction, AdmissionError>(
                ReviewAction::TimedOut,
            ),
        },
{
    match decision {
        ReviewDecision::Approve(decision) => {
            if decision.authenticated_at > now {
                return Err(AdmissionError::UnauthenticatedApproval);
            }
            let too_old = decision.authenticated_at < 0 && now > i64::MAX
                + decision.authenticated_at || now - decision.authenticated_at
                > MAX_AUTH_AGE_SECONDS;
            if too_old {
                return Err(AdmissionError::UnauthenticatedApproval);
            }
            let digest = match check_reread(subject, current, verifier_version) {
                Ok(digest) => digest,
                Err(e) => {
                    return Err(e);
                },
            };
            if now > i64::MAX - MAX_AUTH_AGE_SECONDS {
                return Err(AdmissionError::UnauthenticatedApproval);
            }
            let manifest_digest = match digest {
                Ok(digest) => digest,
                Err(e) => {
                    return Err(AdmissionError::Store(e));
                },
            };
            let authorization = ApprovalAuthorizationRequest {
                authorization_id: decision.decision_id,
                principal: decision.principal,
                artifact_id: subject.artifact.id.clone(),
                report_id: subject.report.report_id.clone(),
                manifest_digest,
                transition: ApprovalTransition::VerifiedToCanary,
                issued_at: now,
                expires_at: now + MAX_AUTH_AGE_SECONDS,
            };
            let approval = CanaryApprovalInput {
                proposal_id: subject.proposal.proposal_id.clone(),
                skill_id: subject.artifact.id.clone(),
                report_id: subject.report.report_id.clone(),
                expected_artifact_version: subject.artifact_version,
                expected_proposal_version: subject.proposal.row_version,
            };
            Ok(ReviewAction::Approve { authorization, approval })
        },
        ReviewDecision::Deny { reason_code } => Ok(
            ReviewAction::Deny {
                proposal_id: subject.proposal.proposal_id.clone(),
                expected_proposal_version: subject.proposal.row_version,
                reason_code,
            },
        ),
        ReviewDecision::Cancelled => Ok(ReviewAction::Cancelled),
        ReviewDecision::TimedOut => Ok(ReviewAction::TimedOut),
    }
}

/// Ends an approval. A canary must not be retrievable.
pub fn conclude_admission(
    result: CanaryApprovalResult,
    retrievable: Result<bool, StoreFailure>,
) -> (r: Result<ReviewOutcome, AdmissionError>)
    ensures
        match retrievable {
            Err(e) => r == Err::<ReviewOutcome, AdmissionError>(AdmissionError::Store(e)),
            Ok(true) => r == Err::<ReviewOutcome, AdmissionError>(
                AdmissionError::CanaryBecameRetrievable,
            ),
            Ok(false) => r == Ok::<ReviewOutcome, AdmissionError>(ReviewOutcome::Canary(result)),
        },
{
    match retrievable {
        Err(e) => Err(AdmissionError::Store(e)),
        Ok(retrievable) => {
            if retrievable {
                Err(AdmissionError::CanaryBecameRetrievable)
            } else {
                Ok(ReviewOutcome::Canary(result))
            }
        },
    }
}

/// An approval goes through only for a subject that was read again unchanged, with a
/// passed report that fits it and a fresh held-out evaluation that agrees with it.
pub proof fn law_approvals_bind_the_reviewed_subject(
    subject: ReviewSubject,
    decision: AuthenticatedHumanDecision,
    current: CurrentAnswers,
    verifier_version: u32,
    now: i64,
)
    requires
        approval_fault(subject, decision, current, verifier_version, now) is None,
    ensures
        fresh(decision.authenticated_at, now),
        current.proposal matches Ok(Some(proposal)) && proposal@ == subject.proposal@,
        current.report matches Ok(Some(report)) && report@ == subject.report@,
        current.artifact matches Ok(Some(artifact)) && artifact@ == subject.artifact@,
        subject.artifact@.stored_fault() is None,
        report_fits(subject.proposal@, subject.report@, subject.artifact@, verifier_version),
        current.gates.held_out matches Ok(held_out) && held_out_agrees(
            held_out,
            subject.proposal@,
            subject.report@,
            subject.artifact@,
        ),
{
}

/// A replacement may be of the tier of its predecessor or of a narrower one, and may ask
/// only for operations that its predecessor had. Pure is narrower than read-only, and
/// read-only than side-effecting.
pub proof fn law_escalation_is_a_wider_tier_or_a_new_operation(
    candidate: CapabilityManifest,
    predecessor: CapabilityManifest,
)
    ensures
        non_escalating(candidate@, predecessor@) <==> {
            &&& candidate.tier is Pure || predecessor.tier is SideEffecting || (candidate.tier
                is ReadOnly && predecessor.tier is ReadOnly)
            &&& forall|i: int|
                #![trigger candidate.allowed_hosts@[i]]
                0 <= i < candidate.allowed_hosts@.len() ==> predecessor.allowed_hosts@.contains(
                    candidate.allowed_hosts@[i],
                )
        },
{
    let hosts = candidate.allowed_hosts@;
    let had = predecessor.allowed_hosts@;
    assert(candidate@.allowed_hosts == hosts && predecessor@.allowed_hosts == had);
    if forall|i: int| #![trigger hosts[i]] 0 <= i < hosts.len() ==> had.contains(hosts[i]) {
        assert forall|i: int| 0 <= i < hosts.len() implies had.contains(#[trigger] hosts[i]) by {}
    }
    if non_escalating(candidate@, predecessor@) {
        assert forall|i: int|
            #![trigger hosts[i]]
            0 <= i < hosts.len() implies had.contains(hosts[i]) by {
            assert(had.contains(candidate@.allowed_hosts[i]));
        }
    }
}

/// Each gate of an evaluation turns a proposal down by itself, for its own reason, and a
/// gate that is passed leads to the next one with what was found so far.
pub proof fn law_each_gate_turns_a_proposal_down(
    lease: ProposalLease,
    artifact: SkillArtifact,
    predecessor: SkillArtifact,
    none: Option<SkillArtifact>,
    held_out: HeldOutEvaluationReport,
    error: HeldOutError,
    vectors: Vec<Vec<u8>>,
    embedding: Vec<u8>,
    model: ModelMetadata,
    verifier_version: u32,
    now: i64,
)
    ensures
        ({
            let step = |stage: StageModel, event: LeaseEvent|
                lease_step(lease, stage, event, model, verifier_version, now);
            let turned_down = |s: StepModel, code: Seq<char>|
                s matches StepModel::Failed(FailureModel::Deterministic { code: c, .. }) && c
                    == code;
            &&& turned_down(
                step(StageModel::Artifact, LeaseEvent::Artifact(Ok(None))),
                "identity_invalid"@,
            )
            &&& artifact@.stored_fault() is Some ==> turned_down(
                step(StageModel::Artifact, LeaseEvent::Artifact(Ok(Some(artifact)))),
                "identity_invalid"@,
            )
            &&& artifact@.stored_fault() is None ==> step(
                StageModel::Artifact,
                LeaseEvent::Artifact(Ok(Some(artifact))),
            ) == StepModel::Next(
                if lease.predecessor_id is Some {
                    StageModel::Predecessor { artifact }
                } else {
                    StageModel::Duplicate { artifact, predecessor: None }
                },
            )
            &&& turned_down(
                step(StageModel::Predecessor { artifact }, LeaseEvent::Predecessor(Ok(None))),
                "inherited_regression_failed"@,
            )
            &&& !non_escalating(artifact.capability@, predecessor.capability@) ==> turned_down(
                step(
                    StageModel::Predecessor { artifact },
                    LeaseEvent::Predecessor(Ok(Some(predecessor))),
                ),
                "contract_invalid"@,
            )
            &&& non_escalating(artifact.capability@, predecessor.capability@) ==> step(
                StageModel::Predecessor { artifact },
                LeaseEvent::Predecessor(Ok(Some(predecessor))),
            ) == StepModel::Next(
                StageModel::Duplicate { artifact, predecessor: Some(predecessor) },
            )
            &&& turned_down(
                step(
                    StageModel::Duplicate { artifact, predecessor: none },
                    LeaseEvent::Duplicate(Ok(true)),
                ),
                "duplicate_skill"@,
            )
            &&& step(
                StageModel::Duplicate { artifact, predecessor: none },
                LeaseEvent::Duplicate(Ok(false)),
            ) == StepModel::Next(StageModel::HeldOut { artifact, predecessor: none })
            &&& step(
                StageModel::HeldOut { artifact, predecessor: none },
                LeaseEvent::HeldOut(Err(error)),
            ) is Failed
            &&& step(
                StageModel::HeldOut { artifact, predecessor: none },
                LeaseEvent::HeldOut(Ok(held_out)),
            ) == StepModel::Next(StageModel::Embedding { artifact, held_out })
            &&& step(
                StageModel::Embedding { artifact, held_out },
                LeaseEvent::Embedding(Ok(vectors)),
            ) == (if vectors@.len() == 0 {
                StepModel::Failed(
                    FailureModel::Retryable {
                        code: "embedding_unavailable"@,
                        error: "embedding result missing"@,
                    },
                )
            } else if model.dimensions > 0xffff_ffff {
                StepModel::Failed(
                    FailureModel::Retryable {
                        code: "embedding_unavailable"@,
                        error: "embedding dimensions overflow"@,
                    },
                )
            } else {
                StepModel::Next(
                    StageModel::StoredEmbedding { held_out, embedding: vectors@[0] },
                )
            })
            &&& step(
                StageModel::StoredEmbedding { held_out, embedding },
                LeaseEvent::StoredEmbedding(Ok(())),
            ) is Next
        }),
{
}

/// Where the store cannot be read or written, an evaluation does not go on: a corrupt row
/// turns the proposal down, and anything else is tried again.
pub proof fn law_store_failures_stop_an_evaluation(
    lease: ProposalLease,
    stage: StageModel,
    event: LeaseEvent,
    failure: StoreFailure,
    model: ModelMetadata,
    verifier_version: u32,
    now: i64,
)
    requires
        match stage {
            StageModel::Artifact => event == LeaseEvent::Artifact(Err(failure)),
            StageModel::Predecessor { .. } => event == LeaseEvent::Predecessor(Err(failure)),
            StageModel::Duplicate { .. } => event == LeaseEvent::Duplicate(Err(failure)),
            StageModel::StoredEmbedding { .. } => event == LeaseEvent::StoredEmbedding(
                Err(failure),
            ),
            StageModel::Completion { .. } => event == LeaseEvent::Completion(Err(failure)),
            _ => false,
        },
    ensures
        lease_step(lease, stage, event, model, verifier_version, now) == StepModel::Failed(
            match failure {
                StoreFailure::Corrupt(_) => FailureModel::Deterministic {
                    code: "identity_invalid"@,
                    detail: "stored artifact is corrupt"@,
                },
                StoreFailure::Other(s) => FailureModel::Retryable {
                    code: "evaluation_infrastructure_unavailable"@,
                    error: s@,
                },
            },
        ),
{
}

/// What a failed held-out evaluation means: a missing suite blocks the proposal, an
/// outage of the verifier is no fault of the proposal, what the store may cure is tried
/// again, and everything else turns the proposal down. Tests that ran out of time, memory
/// or jobs are told apart from tests that failed.
pub proof fn law_held_out_failures_are_told_apart(error: HeldOutError)
    ensures
        held_out_failure(error) is SuiteRequired <==> error is SuiteRequired,
        held_out_failure(error) is Infrastructure <==> match error {
            HeldOutError::Inherited(e) => e is InfrastructureUnavailable,
            HeldOutError::Embedded(e) => e is InfrastructureUnavailable,
            HeldOutError::Infrastructure(e) => e is InfrastructureUnavailable,
            _ => false,
        },
        held_out_failure(error) is Retryable <==> (error matches HeldOutError::Store(e) && e
            is Other),
        match error {
            HeldOutError::Embedded(VerificationError::TestFailed { outcome }) => held_out_failure(
                error,
            ) == (if outcome is Timeout || outcome is OutOfMemory || outcome is JobLimitExceeded {
                FailureModel::Deterministic {
                    code: "verification_resource_limit"@,
                    detail: "verification resource limit exceeded"@,
                }
            } else {
                FailureModel::Deterministic {
                    code: "embedded_test_failed"@,
                    detail: "embedded verification failed"@,
                }
            }),
            HeldOutError::Inherited(VerificationError::TestFailed { outcome }) => held_out_failure(
                error,
            ) == (if outcome is Timeout || outcome is OutOfMemory || outcome is JobLimitExceeded {
                FailureModel::Deterministic {
                    code: "verification_resource_limit"@,
                    detail: "verification resource limit exceeded"@,
                }
            } else {
                FailureModel::Deterministic {
                    code: "inherited_regression_failed"@,
                    detail: "predecessor regression failed"@,
                }
            }),
            HeldOutError::CaseFailed { .. } => held_out_failure(error) matches
                FailureModel::Deterministic { code, .. } && code == "held_out_failed"@,
            HeldOutError::TranscriptMismatch { .. } => held_out_failure(error) matches
                FailureModel::Deterministic { code, .. } && code == "held_out_failed"@,
            HeldOutError::TamperedSuite(_) => held_out_failure(error) matches
                FailureModel::Deterministic { code, .. } && code == "held_out_failed"@,
            HeldOutError::Identity(_) => held_out_failure(error) matches
                FailureModel::Deterministic { code, .. } && code == "identity_invalid"@,
            _ => true,
        },
{
}

/// A report is on the proposal, the skill and the attempt that were claimed, and says
/// how the attempt ended: passed, with the suites and the embedding model; rejected or
/// blocked, with the reason.
pub proof fn law_reports_are_on_what_was_claimed(
    lease: ProposalLease,
    held_out: HeldOutEvaluationReport,
    model: ModelMetadata,
    code: Seq<char>,
    detail: Seq<char>,
    verifier_version: u32,
    now: i64,
)
    ensures
        ({
            let passed = success_draft(lease, held_out, model, verifier_version, now);
            let rejected = rejection_draft(lease, code, detail, verifier_version, now);
            let blocked = blocked_draft(lease, code, verifier_version, now);
            let on_lease = |d: DraftModel|
                {
                    &&& d.proposal_id == lease.proposal_id@
                    &&& d.skill_id == lease.skill_id@
                    &&& d.attempt == lease.attempt
                    &&& d.predecessor_id == text::opt_view(lease.predecessor_id)
                    &&& d.verifier_version == verifier_version
                    &&& d.fakes_version == FAKES_VERSION
                    &&& d.created_at == now
                };
            &&& on_lease(passed) && on_lease(rejected) && on_lease(blocked)
            &&& passed.outcome == "passed"@ && passed.reason_code is None
            &&& passed.suite_hashes == text::views(held_out.suite_hashes@)
            &&& passed.embedding_model_id == Some(model.model_id@)
            &&& passed.embedding_model_revision == Some(model.model_revision@)
            &&& rejected.outcome == "rejected"@ && rejected.reason_code == Some(code)
            &&& rejected.suite_hashes.len() == 0 && rejected.embedding_model_id is None
            &&& blocked.outcome == "retryable"@ && blocked.reason_code == Some(code)
        }),
        forall|d: DraftModel, id: Seq<char>|
            ({
                let r = #[trigger] d.identified(id);
                &&& r.report_id == id
                &&& r.proposal_id == d.proposal_id && r.skill_id == d.skill_id && r.attempt
                    == d.attempt && r.outcome == d.outcome && r.reason_code == d.reason_code
                &&& r.suite_hashes == d.suite_hashes && r.predecessor_id == d.predecessor_id
                &&& r.embedding_model_id == d.embedding_model_id && r.embedding_model_revision
                    == d.embedding_model_revision
                &&& r.summary_json == d.summary_json && r.created_at == d.created_at
                &&& r.verifier_version == d.verifier_version && r.fakes_version == d.fakes_version
            }),
{
}

/// A failure is settled by what it is: what turns a proposal down rejects it with its
/// reason; a missing suite blocks it; what may pass is tried again later, and rejects it
/// once its attempts are used up; an outage is waited for, however often.
pub proof fn law_failures_are_settled_by_what_they_are(
    lease: ProposalLease,
    code: Seq<char>,
    detail: Seq<char>,
    error: Seq<char>,
    max_attempts: u32,
    verifier_version: u32,
    now: i64,
)
    ensures
        ({
            let settled = |failure: FailureModel|
                settled_failure(lease, failure, max_attempts, verifier_version, now);
            let wait: int = match lease.attempt {
                0 => 1,
                1 => 1,
                2 => 2,
                3 => 4,
                4 => 8,
                5 => 16,
                6 => 32,
                7 => 64,
                8 => 128,
                _ => 256,
            };
            let due = if now + wait > i64::MAX {
                i64::MAX as int
            } else {
                now + wait
            };
            &&& settled(FailureModel::Deterministic { code, detail }) matches
                SettlingModel::Report { draft, code: c, blocked } && c == code && !blocked
                && draft.reason_code == Some(code) && draft.outcome == "rejected"@
            &&& settled(FailureModel::SuiteRequired) matches SettlingModel::Report {
                draft,
                code: c,
                blocked,
            } && blocked && c == "held_out_suite_required"@ && draft.outcome == "retryable"@
            &&& lease.attempt >= max_attempts ==> (settled(
                FailureModel::Retryable { code, error },
            ) matches SettlingModel::Report { draft, code: c, blocked } && c == code && !blocked
                && draft.outcome == "rejected"@)
            &&& lease.attempt < max_attempts ==> settled(FailureModel::Retryable { code, error })
                == SettlingModel::Settled(
                SettlementModel::Retry {
                    next_attempt_at: due as i64,
                    error: AdmissionFault::Retryable(error),
                },
            )
            &&& settled(FailureModel::Infrastructure { error }) == SettlingModel::Settled(
                SettlementModel::RetryOutage {
                    next_attempt_at: due as i64,
                    error: AdmissionFault::Retryable(error),
                },
            )
        }),
{
    backoff::lemma_retry_seconds(lease.attempt);
}

/// A review begins only on a proposal that awaits it, with its report and its artifact,
/// and only where everything that let the proposal pass still holds: the identity, a
/// passed report on just this proposal by the verifier that is in use, no escalation, no
/// duplicate, a fresh held-out evaluation over the same suites, and an embedding of the
/// model that the report names.
pub proof fn law_reviews_begin_on_what_still_holds(
    proposal_id: Seq<char>,
    answers: ReviewAnswers,
    verifier_version: u32,
)
    requires
        prepared(proposal_id, answers, verifier_version) matches Ok(review) && review is Subject,
    ensures
        ({
            let subject = prepared(proposal_id, answers, verifier_version)->Ok_0->Subject_0;
            let proposal = subject.proposal;
            let report = subject.report;
            let artifact = subject.artifact;
            &&& answers.proposal == Ok::<_, StoreFailure>(Some(proposal))
            &&& answers.report == Ok::<_, StoreFailure>(Some(report))
            &&& answers.artifact == Ok::<_, StoreFailure>(Some(artifact))
            &&& answers.artifact_version == Ok::<_, StoreFailure>(Some(subject.artifact_version))
            &&& proposal.status is AwaitingApproval
            &&& proposal.report_id is Some
            &&& still_holds(proposal, report, artifact, answers.gates, verifier_version)
        }),
{
    let subject = prepared(proposal_id, answers, verifier_version)->Ok_0->Subject_0;
    lemma_gates_still_hold(
        subject.proposal,
        subject.report,
        subject.artifact,
        answers.gates,
        verifier_version,
    );
}

/// Everything that let a proposal pass still holds.
pub open spec fn still_holds(
    proposal: ProposalRecord,
    report: EvaluationReportRecord,
    artifact: SkillArtifact,
    gates: GateAnswers,
    verifier_version: u32,
) -> bool {
    &&& artifact@.stored_fault() is None
    &&& report.outcome@ == "passed"@
    &&& report.proposal_id@ == proposal.proposal_id@
    &&& report.skill_id@ == artifact.id@
    &&& text::opt_view(report.predecessor_id) == text::opt_view(proposal.predecessor_id)
    &&& report.verifier_version == verifier_version
    &&& report.fakes_version == FAKES_VERSION
    &&& proposal.predecessor_id is Some ==> (gates.predecessor matches Ok(Some(predecessor))
        && non_escalating(artifact.capability@, predecessor.capability@))
    &&& gates.duplicate == Ok::<bool, StoreFailure>(false)
    &&& gates.held_out matches Ok(held_out) && held_out.skill_id@ == artifact.id@
        && text::opt_view(held_out.predecessor_id) == text::opt_view(proposal.predecessor_id)
        && text::views(held_out.suite_hashes@) == text::views(report.suite_hashes@)
        && held_out.verifier_version == verifier_version && held_out.fakes_version
        == FAKES_VERSION
    &&& report.embedding_model_id is Some && report.embedding_model_revision is Some
    &&& gates.compatible_embedding == Ok::<bool, StoreFailure>(true)
}

proof fn lemma_gates_still_hold(
    proposal: ProposalRecord,
    report: EvaluationReportRecord,
    artifact: SkillArtifact,
    gates: GateAnswers,
    verifier_version: u32,
)
    ensures
        gates_fault(proposal@, report@, artifact@, gates, verifier_version) is None <==> still_holds(
            proposal,
            report,
            artifact,
            gates,
            verifier_version,
        ),
{
}

/// An approval goes through exactly where the person was authenticated within the last
/// five minutes, nothing that was reviewed has changed since, and everything that let the
/// proposal pass still holds.
pub proof fn law_approvals_need_a_fresh_person_and_an_unchanged_subject(
    subject: ReviewSubject,
    decision: AuthenticatedHumanDecision,
    current: CurrentAnswers,
    verifier_version: u32,
    now: i64,
)
    ensures
        approval_fault(subject, decision, current, verifier_version, now) is None <==> {
            &&& 0 <= now - decision.authenticated_at <= 300
            &&& now + 300 <= i64::MAX
            &&& current.proposal matches Ok(Some(proposal)) && proposal@ == subject.proposal@
            &&& current.report matches Ok(Some(report)) && report@ == subject.report@
            &&& current.artifact matches Ok(Some(artifact)) && artifact@ == subject.artifact@
            &&& current.artifact_version == Ok::<_, StoreFailure>(Some(subject.artifact_version))
            &&& still_holds(
                current.proposal->Ok_0->0,
                current.report->Ok_0->0,
                current.artifact->Ok_0->0,
                current.gates,
                verifier_version,
            )
            &&& current.manifest_digest is Ok
        },
{
    if current.proposal matches Ok(Some(_)) && current.report matches Ok(Some(_))
        && current.artifact matches Ok(Some(_)) {
        lemma_gates_still_hold(
            current.proposal->Ok_0->0,
            current.report->Ok_0->0,
            current.artifact->Ok_0->0,
            current.gates,
            verifier_version,
        );
    }
}

} // verus!
