//! The tables that lifecycle decisions read and write, as plain rows.
//!
//! A [`SkillStore`] holds the rows of one durable store. Operations look rows up
//! by key, append rows, and replace rows in place; they never reorder a table.

use crate::artifact::{ArtifactModel, SkillArtifact};
use crate::text;
use vstd::prelude::*;
use vstd::string::*;

verus! {

/// `p` holds of the item at `i` and of none before it.
pub open spec fn first_match<A>(s: Seq<A>, p: spec_fn(A) -> bool, i: int) -> bool {
    0 <= i < s.len() && p(s[i]) && forall|j: int| 0 <= j < i ==> !p(#[trigger] s[j])
}

/// The position of the first item of which `p` holds.
pub open spec fn position<A>(s: Seq<A>, p: spec_fn(A) -> bool) -> Option<int> {
    if exists|i: int| first_match(s, p, i) {
        Some(choose|i: int| first_match(s, p, i))
    } else {
        None
    }
}

pub proof fn lemma_position_found<A>(s: Seq<A>, p: spec_fn(A) -> bool, i: int)
    requires
        first_match(s, p, i),
    ensures
        position(s, p) == Some(i),
{
    let k = choose|k: int| first_match(s, p, k);
    assert(first_match(s, p, k));
    if k < i {
        assert(!p(s[k]));
    } else if i < k {
        assert(!p(s[i]));
    }
}

pub proof fn lemma_position_missing<A>(s: Seq<A>, p: spec_fn(A) -> bool)
    requires
        forall|i: int| 0 <= i < s.len() ==> !p(#[trigger] s[i]),
    ensures
        position(s, p) is None,
{
}

/// Where some item satisfies `p`, a position is found.
pub proof fn lemma_some_match_is_found<A>(s: Seq<A>, p: spec_fn(A) -> bool, i: int)
    requires
        0 <= i < s.len(),
        p(s[i]),
    ensures
        position(s, p) is Some,
    decreases i,
{
    if exists|j: int| 0 <= j < i && p(#[trigger] s[j]) {
        let j = choose|j: int| 0 <= j < i && p(#[trigger] s[j]);
        lemma_some_match_is_found(s, p, j);
    } else {
        lemma_position_found(s, p, i);
    }
}

/// A stored revision: its immutable artifact and its operational columns.
#[derive(Debug, Clone, PartialEq, Eq)]
pub struct RevisionRow {
    pub artifact: SkillArtifact,
    pub status: String,
    pub supersedes_id: Option<String>,
    pub superseded_by_id: Option<String>,
    pub lineage_root_id: Option<String>,
    pub row_version: i64,
    pub evaluation_report_id: Option<String>,
    pub updated_at: i64,
}

/// The contents of a [`RevisionRow`].
#[verifier::ext_equal]
pub struct RevisionModel {
    pub artifact: ArtifactModel,
    pub status: Seq<char>,
    pub supersedes_id: Option<Seq<char>>,
    pub superseded_by_id: Option<Seq<char>>,
    pub lineage_root_id: Option<Seq<char>>,
    pub row_version: i64,
    pub evaluation_report_id: Option<Seq<char>>,
    pub updated_at: i64,
}

impl RevisionModel {
    /// The lineage root: the recorded one, or the revision itself.
    pub open spec fn root(self) -> Seq<char> {
        match self.lineage_root_id {
            Some(root) => root,
            None => self.artifact.id,
        }
    }
}

impl View for RevisionRow {
    type V = RevisionModel;

    open spec fn view(&self) -> RevisionModel {
        RevisionModel {
            artifact: self.artifact@,
            status: self.status@,
            supersedes_id: text::opt_view(self.supersedes_id),
            superseded_by_id: text::opt_view(self.superseded_by_id),
            lineage_root_id: text::opt_view(self.lineage_root_id),
            row_version: self.row_version,
            evaluation_report_id: text::opt_view(self.evaluation_report_id),
            updated_at: self.updated_at,
        }
    }
}

impl RevisionRow {
    /// The lineage root: the recorded one, or the revision itself.
    pub fn root(&self) -> (r: String)
        ensures
            r@ == self@.root(),
    {
        match &self.lineage_root_id {
            Some(root) => root.clone(),
            None => self.artifact.id.clone(),
        }
    }
}

/// One applied lifecycle transition.
#[derive(Debug, Clone, PartialEq, Eq)]
pub struct TransitionRow {
    pub transition_id: i64,
    pub idempotency_key: String,
    pub skill_id: String,
    pub predecessor_id: Option<String>,
    pub from_status: String,
    pub to_status: String,
    pub reason: String,
    pub evidence_snapshot: String,
    pub policy_version: String,
    pub row_version_from: i64,
    pub row_version_to: i64,
    pub desired_generation: i64,
    pub created_at: i64,
}

/// The contents of a [`TransitionRow`].
#[verifier::ext_equal]
pub struct TransitionModel {
    pub transition_id: i64,
    pub idempotency_key: Seq<char>,
    pub skill_id: Seq<char>,
    pub predecessor_id: Option<Seq<char>>,
    pub from_status: Seq<char>,
    pub to_status: Seq<char>,
    pub reason: Seq<char>,
    pub evidence_snapshot: Seq<char>,
    pub policy_version: Seq<char>,
    pub row_version_from: i64,
    pub row_version_to: i64,
    pub desired_generation: i64,
    pub created_at: i64,
}

impl View for TransitionRow {
    type V = TransitionModel;

    open spec fn view(&self) -> TransitionModel {
        TransitionModel {
            transition_id: self.transition_id,
            idempotency_key: self.idempotency_key@,
            skill_id: self.skill_id@,
            predecessor_id: text::opt_view(self.predecessor_id),
            from_status: self.from_status@,
            to_status: self.to_status@,
            reason: self.reason@,
            evidence_snapshot: self.evidence_snapshot@,
            policy_version: self.policy_version@,
            row_version_from: self.row_version_from,
            row_version_to: self.row_version_to,
            desired_generation: self.desired_generation,
            created_at: self.created_at,
        }
    }
}

/// One recorded human approval.
#[derive(Debug, Clone, PartialEq, Eq)]
pub struct ApprovalRow {
    pub approval_id: String,
    pub skill_id: String,
    pub approval_kind: String,
    pub actor_id: String,
    pub artifact_row_version: i64,
    pub evaluation_report_id: String,
    pub created_at: i64,
}

/// The contents of an [`ApprovalRow`].
#[verifier::ext_equal]
pub struct ApprovalModel {
    pub approval_id: Seq<char>,
    pub skill_id: Seq<char>,
    pub approval_kind: Seq<char>,
    pub actor_id: Seq<char>,
    pub artifact_row_version: i64,
    pub evaluation_report_id: Seq<char>,
    pub created_at: i64,
}

impl View for ApprovalRow {
    type V = ApprovalModel;

    open spec fn view(&self) -> ApprovalModel {
        ApprovalModel {
            approval_id: self.approval_id@,
            skill_id: self.skill_id@,
            approval_kind: self.approval_kind@,
            actor_id: self.actor_id@,
            artifact_row_version: self.artifact_row_version,
            evaluation_report_id: self.evaluation_report_id@,
            created_at: self.created_at,
        }
    }
}

/// One registered policy version.
#[derive(Debug, Clone, PartialEq, Eq)]
pub struct PolicyRow {
    pub policy_version: String,
    pub policy_json: String,
    pub created_at: i64,
}

/// The contents of a [`PolicyRow`].
#[verifier::ext_equal]
pub struct PolicyModel {
    pub policy_version: Seq<char>,
    pub policy_json: Seq<char>,
    pub created_at: i64,
}

impl View for PolicyRow {
    type V = PolicyModel;

    open spec fn view(&self) -> PolicyModel {
        PolicyModel {
            policy_version: self.policy_version@,
            policy_json: self.policy_json@,
            created_at: self.created_at,
        }
    }
}

/// One durable piece of evidence.
#[derive(Debug, Clone, PartialEq, Eq)]
pub struct EvidenceRow {
    pub evidence_id: String,
    pub skill_id: String,
    pub evidence_kind: String,
    pub payload_json: String,
    pub policy_version: String,
    pub created_at: i64,
}

/// The contents of an [`EvidenceRow`].
#[verifier::ext_equal]
pub struct EvidenceModel {
    pub evidence_id: Seq<char>,
    pub skill_id: Seq<char>,
    pub evidence_kind: Seq<char>,
    pub payload_json: Seq<char>,
    pub policy_version: Seq<char>,
    pub created_at: i64,
}

impl View for EvidenceRow {
    type V = EvidenceModel;

    open spec fn view(&self) -> EvidenceModel {
        EvidenceModel {
            evidence_id: self.evidence_id@,
            skill_id: self.skill_id@,
            evidence_kind: self.evidence_kind@,
            payload_json: self.payload_json@,
            policy_version: self.policy_version@,
            created_at: self.created_at,
        }
    }
}

/// One `invoked` event of raw telemetry.
#[derive(Debug, Clone, PartialEq, Eq)]
pub struct InvokedRow {
    pub invocation_id: String,
    pub skill_id: String,
}

/// The contents of an [`InvokedRow`].
#[verifier::ext_equal]
pub struct InvokedModel {
    pub invocation_id: Seq<char>,
    pub skill_id: Seq<char>,
}

impl View for InvokedRow {
    type V = InvokedModel;

    open spec fn view(&self) -> InvokedModel {
        InvokedModel { invocation_id: self.invocation_id@, skill_id: self.skill_id@ }
    }
}

/// One piece of targeted feedback.
#[derive(Debug, Clone, PartialEq, Eq)]
pub struct FeedbackRow {
    pub feedback_id: String,
    pub idempotency_key: String,
    pub skill_id: String,
    pub invocation_id: Option<String>,
    pub actor_id: String,
    pub feedback_kind: String,
    pub reason_code: String,
    pub reason_text: Option<String>,
    pub state: String,
    pub version: i64,
    pub created_at: i64,
    pub updated_at: i64,
}

/// The contents of a [`FeedbackRow`].
#[verifier::ext_equal]
pub struct FeedbackModel {
    pub feedback_id: Seq<char>,
    pub idempotency_key: Seq<char>,
    pub skill_id: Seq<char>,
    pub invocation_id: Option<Seq<char>>,
    pub actor_id: Seq<char>,
    pub feedback_kind: Seq<char>,
    pub reason_code: Seq<char>,
    pub reason_text: Option<Seq<char>>,
    pub state: Seq<char>,
    pub version: i64,
    pub created_at: i64,
    pub updated_at: i64,
}

impl View for FeedbackRow {
    type V = FeedbackModel;

    open spec fn view(&self) -> FeedbackModel {
        FeedbackModel {
            feedback_id: self.feedback_id@,
            idempotency_key: self.idempotency_key@,
            skill_id: self.skill_id@,
            invocation_id: text::opt_view(self.invocation_id),
            actor_id: self.actor_id@,
            feedback_kind: self.feedback_kind@,
            reason_code: self.reason_code@,
            reason_text: text::opt_view(self.reason_text),
            state: self.state@,
            version: self.version,
            created_at: self.created_at,
            updated_at: self.updated_at,
        }
    }
}

/// One step in the history of a piece of feedback.
#[derive(Debug, Clone, PartialEq, Eq)]
pub struct FeedbackAuditRow {
    pub feedback_id: String,
    pub from_state: Option<String>,
    pub to_state: String,
    pub actor_id: String,
    pub reason_code: String,
    pub version: i64,
    pub created_at: i64,
}

/// The contents of a [`FeedbackAuditRow`].
#[verifier::ext_equal]
pub struct FeedbackAuditModel {
    pub feedback_id: Seq<char>,
    pub from_state: Option<Seq<char>>,
    pub to_state: Seq<char>,
    pub actor_id: Seq<char>,
    pub reason_code: Seq<char>,
    pub version: i64,
    pub created_at: i64,
}

impl View for FeedbackAuditRow {
    type V = FeedbackAuditModel;

    open spec fn view(&self) -> FeedbackAuditModel {
        FeedbackAuditModel {
            feedback_id: self.feedback_id@,
            from_state: text::opt_view(self.from_state),
            to_state: self.to_state@,
            actor_id: self.actor_id@,
            reason_code: self.reason_code@,
            version: self.version,
            created_at: self.created_at,
        }
    }
}

/// The feedback counters of one skill.
#[derive(Debug, Clone, PartialEq, Eq)]
pub struct FeedbackStatsRow {
    pub skill_id: String,
    pub user_positive_count: i64,
    pub user_negative_count: i64,
    pub updated_at: i64,
}

/// The contents of a [`FeedbackStatsRow`].
#[verifier::ext_equal]
pub struct FeedbackStatsModel {
    pub skill_id: Seq<char>,
    pub user_positive_count: i64,
    pub user_negative_count: i64,
    pub updated_at: i64,
}

impl View for FeedbackStatsRow {
    type V = FeedbackStatsModel;

    open spec fn view(&self) -> FeedbackStatsModel {
        FeedbackStatsModel {
            skill_id: self.skill_id@,
            user_positive_count: self.user_positive_count,
            user_negative_count: self.user_negative_count,
            updated_at: self.updated_at,
        }
    }
}

/// The rows of one durable store.
#[derive(Debug, Clone, PartialEq, Eq)]
pub struct SkillStore {
    pub revisions: Vec<RevisionRow>,
    pub transitions: Vec<TransitionRow>,
    pub approvals: Vec<ApprovalRow>,
    pub policies: Vec<PolicyRow>,
    pub evidence: Vec<EvidenceRow>,
    pub invocations: Vec<InvokedRow>,
    pub feedback: Vec<FeedbackRow>,
    pub feedback_audit: Vec<FeedbackAuditRow>,
    pub feedback_stats: Vec<FeedbackStatsRow>,
    /// The number that the next transition row gets.
    pub next_transition_id: i64,
    pub desired_generation: i64,
    pub applied_generation: i64,
    pub generation_updated_at: i64,
}

/// The contents of a [`SkillStore`].
#[verifier::ext_equal]
pub struct StoreModel {
    pub revisions: Seq<RevisionModel>,
    pub transitions: Seq<TransitionModel>,
    pub approvals: Seq<ApprovalModel>,
    pub policies: Seq<PolicyModel>,
    pub evidence: Seq<EvidenceModel>,
    pub invocations: Seq<InvokedModel>,
    pub feedback: Seq<FeedbackModel>,
    pub feedback_audit: Seq<FeedbackAuditModel>,
    pub feedback_stats: Seq<FeedbackStatsModel>,
    pub next_transition_id: i64,
    pub desired_generation: i64,
    pub applied_generation: i64,
    pub generation_updated_at: i64,
}

pub open spec fn revision_views(s: Seq<RevisionRow>) -> Seq<RevisionModel> {
    s.map_values(|r: RevisionRow| r@)
}

pub open spec fn transition_views(s: Seq<TransitionRow>) -> Seq<TransitionModel> {
    s.map_values(|r: TransitionRow| r@)
}

pub open spec fn approval_views(s: Seq<ApprovalRow>) -> Seq<ApprovalModel> {
    s.map_values(|r: ApprovalRow| r@)
}

pub open spec fn policy_views(s: Seq<PolicyRow>) -> Seq<PolicyModel> {
    s.map_values(|r: PolicyRow| r@)
}

pub open spec fn evidence_views(s: Seq<EvidenceRow>) -> Seq<EvidenceModel> {
    s.map_values(|r: EvidenceRow| r@)
}

pub open spec fn invoked_views(s: Seq<InvokedRow>) -> Seq<InvokedModel> {
    s.map_values(|r: InvokedRow| r@)
}

pub open spec fn feedback_views(s: Seq<FeedbackRow>) -> Seq<FeedbackModel> {
    s.map_values(|r: FeedbackRow| r@)
}

pub open spec fn feedback_audit_views(s: Seq<FeedbackAuditRow>) -> Seq<FeedbackAuditModel> {
    s.map_values(|r: FeedbackAuditRow| r@)
}

pub open spec fn feedback_stats_views(s: Seq<FeedbackStatsRow>) -> Seq<FeedbackStatsModel> {
    s.map_values(|r: FeedbackStatsRow| r@)
}

impl View for SkillStore {
    type V = StoreModel;

    open spec fn view(&self) -> StoreModel {
        StoreModel {
            revisions: revision_views(self.revisions@),
            transitions: transition_views(self.transitions@),
            approvals: approval_views(self.approvals@),
            policies: policy_views(self.policies@),
            evidence: evidence_views(self.evidence@),
            invocations: invoked_views(self.invocations@),
            feedback: feedback_views(self.feedback@),
            feedback_audit: feedback_audit_views(self.feedback_audit@),
            feedback_stats: feedback_stats_views(self.feedback_stats@),
            next_transition_id: self.next_transition_id,
            desired_generation: self.desired_generation,
            applied_generation: self.applied_generation,
            generation_updated_at: self.generation_updated_at,
        }
    }
}

pub open spec fn revision_has_id(id: Seq<char>) -> spec_fn(RevisionModel) -> bool {
    |r: RevisionModel| r.artifact.id == id
}

pub open spec fn transition_has_key(key: Seq<char>) -> spec_fn(TransitionModel) -> bool {
    |r: TransitionModel| r.idempotency_key == key
}

pub open spec fn approval_has_id(id: Seq<char>) -> spec_fn(ApprovalModel) -> bool {
    |r: ApprovalModel| r.approval_id == id
}

pub open spec fn approval_is_for(skill_id: Seq<char>, kind: Seq<char>) -> spec_fn(
    ApprovalModel,
) -> bool {
    |r: ApprovalModel| r.skill_id == skill_id && r.approval_kind == kind
}

pub open spec fn policy_has_version(version: Seq<char>) -> spec_fn(PolicyModel) -> bool {
    |r: PolicyModel| r.policy_version == version
}

pub open spec fn evidence_is(id: Seq<char>, policy_version: Seq<char>) -> spec_fn(
    EvidenceModel,
) -> bool {
    |r: EvidenceModel| r.evidence_id == id && r.policy_version == policy_version
}

pub open spec fn evidence_has_id(id: Seq<char>) -> spec_fn(EvidenceModel) -> bool {
    |r: EvidenceModel| r.evidence_id == id
}

impl StoreModel {
    /// The position of a revision.
    pub open spec fn revision_at(self, id: Seq<char>) -> Option<int> {
        position(self.revisions, revision_has_id(id))
    }

    /// The revision with an id.
    pub open spec fn revision(self, id: Seq<char>) -> Option<RevisionModel> {
        match self.revision_at(id) {
            Some(i) => Some(self.revisions[i]),
            None => None,
        }
    }

    /// The transition with an idempotency key.
    pub open spec fn transition(self, key: Seq<char>) -> Option<TransitionModel> {
        match position(self.transitions, transition_has_key(key)) {
            Some(i) => Some(self.transitions[i]),
            None => None,
        }
    }

    /// The approval with an id.
    pub open spec fn approval(self, id: Seq<char>) -> Option<ApprovalModel> {
        match position(self.approvals, approval_has_id(id)) {
            Some(i) => Some(self.approvals[i]),
            None => None,
        }
    }

    /// The first approval of one kind for a skill.
    pub open spec fn approval_for(self, skill_id: Seq<char>, kind: Seq<char>) -> Option<
        ApprovalModel,
    > {
        match position(self.approvals, approval_is_for(skill_id, kind)) {
            Some(i) => Some(self.approvals[i]),
            None => None,
        }
    }

    /// The registered policy of a version.
    pub open spec fn policy(self, version: Seq<char>) -> Option<PolicyModel> {
        match position(self.policies, policy_has_version(version)) {
            Some(i) => Some(self.policies[i]),
            None => None,
        }
    }

    /// The evidence with an id under a policy version.
    pub open spec fn evidence_under(self, id: Seq<char>, policy_version: Seq<char>) -> Option<
        EvidenceModel,
    > {
        match position(self.evidence, evidence_is(id, policy_version)) {
            Some(i) => Some(self.evidence[i]),
            None => None,
        }
    }
}

/// What the store answers where an operation cannot be carried out.
#[derive(Debug, Clone, PartialEq, Eq)]
pub enum StoreError {
    NotFound(String),
    Unauthorized,
    Constraint(String),
}

/// The contents of a [`StoreError`].
#[verifier::ext_equal]
pub enum StoreFault {
    NotFound(Seq<char>),
    Unauthorized,
    Constraint(Seq<char>),
}

impl View for StoreError {
    type V = StoreFault;

    open spec fn view(&self) -> StoreFault {
        match *self {
            StoreError::NotFound(id) => StoreFault::NotFound(id@),
            StoreError::Unauthorized => StoreFault::Unauthorized,
            StoreError::Constraint(detail) => StoreFault::Constraint(detail@),
        }
    }
}

impl StoreError {
    /// A copy of the error.
    pub fn copy(&self) -> (r: StoreError)
        ensures
            r@ == self@,
    {
        match self {
            StoreError::NotFound(id) => StoreError::NotFound(id.clone()),
            StoreError::Unauthorized => StoreError::Unauthorized,
            StoreError::Constraint(detail) => StoreError::Constraint(detail.clone()),
        }
    }
}

impl SkillStore {
    /// A store without rows, at generation zero.
    pub fn empty() -> (r: SkillStore)
        ensures
            r@ == (StoreModel {
                revisions: Seq::empty(),
                transitions: Seq::empty(),
                approvals: Seq::empty(),
                policies: Seq::empty(),
                evidence: Seq::empty(),
                invocations: Seq::empty(),
                feedback: Seq::empty(),
                feedback_audit: Seq::empty(),
                feedback_stats: Seq::empty(),
                next_transition_id: 1,
                desired_generation: 0,
                applied_generation: 0,
                generation_updated_at: 0,
            }),
    {
        let r = SkillStore {
            revisions: Vec::new(),
            transitions: Vec::new(),
            approvals: Vec::new(),
            policies: Vec::new(),
            evidence: Vec::new(),
            invocations: Vec::new(),
            feedback: Vec::new(),
            feedback_audit: Vec::new(),
            feedback_stats: Vec::new(),
            next_transition_id: 1,
            desired_generation: 0,
            applied_generation: 0,
            generation_updated_at: 0,
        };
        proof {
            assert(r@.revisions =~= Seq::empty());
            assert(r@.transitions =~= Seq::empty());
            assert(r@.approvals =~= Seq::empty());
            assert(r@.policies =~= Seq::empty());
            assert(r@.evidence =~= Seq::empty());
            assert(r@.invocations =~= Seq::empty());
            assert(r@.feedback =~= Seq::empty());
            assert(r@.feedback_audit =~= Seq::empty());
            assert(r@.feedback_stats =~= Seq::empty());
        }
        r
    }

    pub fn find_revision(&self, id: &str) -> (r: Option<usize>)
        ensures
            match r {
                Some(i) => i < self.revisions@.len() && self@.revision_at(id@) == Some(i as int),
                None => self@.revision_at(id@) is None,
            },
    {
        let ghost p = revision_has_id(id@);
        let mut i: usize = 0;
        while i < self.revisions.len()
            invariant
                i <= self.revisions@.len(),
                p == revision_has_id(id@),
                forall|j: int| 0 <= j < i ==> !p(#[trigger] self@.revisions[j]),
            decreases self.revisions@.len() - i,
        {
            assert(self@.revisions[i as int] == self.revisions@[i as int]@);
            if text::same(&self.revisions[i].artifact.id, id) {
                proof {
                    lemma_position_found(self@.revisions, p, i as int);
                }
                return Some(i);
            }
            i = i + 1;
        }
        proof {
            lemma_position_missing(self@.revisions, p);
        }
        None
    }

    pub fn find_transition(&self, key: &str) -> (r: Option<usize>)
        ensures
            match r {
                Some(i) => i < self.transitions@.len() && position(
                    self@.transitions,
                    transition_has_key(key@),
                ) == Some(i as int),
                None => position(self@.transitions, transition_has_key(key@)) is None,
            },
    {
        let ghost p = transition_has_key(key@);
        let mut i: usize = 0;
        while i < self.transitions.len()
            invariant
                i <= self.transitions@.len(),
                p == transition_has_key(key@),
                forall|j: int| 0 <= j < i ==> !p(#[trigger] self@.transitions[j]),
            decreases self.transitions@.len() - i,
        {
            assert(self@.transitions[i as int] == self.transitions@[i as int]@);
            if text::same(&self.transitions[i].idempotency_key, key) {
                proof {
                    lemma_position_found(self@.transitions, p, i as int);
                }
                return Some(i);
            }
            i = i + 1;
        }
        proof {
            lemma_position_missing(self@.transitions, p);
        }
        None
    }

    pub fn find_approval(&self, id: &str) -> (r: Option<usize>)
        ensures
            match r {
                Some(i) => i < self.approvals@.len() && position(
                    self@.approvals,
                    approval_has_id(id@),
                ) == Some(i as int),
                None => position(self@.approvals, approval_has_id(id@)) is None,
            },
    {
        let ghost p = approval_has_id(id@);
        let mut i: usize = 0;
        while i < self.approvals.len()
            invariant
                i <= self.approvals@.len(),
                p == approval_has_id(id@),
                forall|j: int| 0 <= j < i ==> !p(#[trigger] self@.approvals[j]),
            decreases self.approvals@.len() - i,
        {
            assert(self@.approvals[i as int] == self.approvals@[i as int]@);
            if text::same(&self.approvals[i].approval_id, id) {
                proof {
                    lemma_position_found(self@.approvals, p, i as int);
                }
                return Some(i);
            }
            i = i + 1;
        }
        proof {
            lemma_position_missing(self@.approvals, p);
        }
        None
    }

    pub fn find_approval_for(&self, skill_id: &str, kind: &str) -> (r: Option<usize>)
        ensures
            match r {
                Some(i) => i < self.approvals@.len() && position(
                    self@.approvals,
                    approval_is_for(skill_id@, kind@),
                ) == Some(i as int),
                None => position(self@.approvals, approval_is_for(skill_id@, kind@)) is None,
            },
    {
        let ghost p = approval_is_for(skill_id@, kind@);
        let mut i: usize = 0;
        while i < self.approvals.len()
            invariant
                i <= self.approvals@.len(),
                p == approval_is_for(skill_id@, kind@),
                forall|j: int| 0 <= j < i ==> !p(#[trigger] self@.approvals[j]),
            decreases self.approvals@.len() - i,
        {
            assert(self@.approvals[i as int] == self.approvals@[i as int]@);
            if text::same(&self.approvals[i].skill_id, skill_id) && text::same(
                &self.approvals[i].approval_kind,
                kind,
            ) {
                proof {
                    lemma_position_found(self@.approvals, p, i as int);
                }
                return Some(i);
            }
            i = i + 1;
        }
        proof {
            lemma_position_missing(self@.approvals, p);
        }
        None
    }

    pub fn find_policy(&self, version: &str) -> (r: Option<usize>)
        ensures
            match r {
                Some(i) => i < self.policies@.len() && position(
                    self@.policies,
                    policy_has_version(version@),
                ) == Some(i as int),
                None => position(self@.policies, policy_has_version(version@)) is None,
            },
    {
        let ghost p = policy_has_version(version@);
        let mut i: usize = 0;
        while i < self.policies.len()
            invariant
                i <= self.policies@.len(),
                p == policy_has_version(version@),
                forall|j: int| 0 <= j < i ==> !p(#[trigger] self@.policies[j]),
            decreases self.policies@.len() - i,
        {
            assert(self@.policies[i as int] == self.policies@[i as int]@);
            if text::same(&self.policies[i].policy_version, version) {
                proof {
                    lemma_position_found(self@.policies, p, i as int);
                }
                return Some(i);
            }
            i = i + 1;
        }
        proof {
            lemma_position_missing(self@.policies, p);
        }
        None
    }

    pub fn find_evidence(&self, id: &str, policy_version: &str) -> (r: Option<usize>)
        ensures
            match r {
                Some(i) => i < self.evidence@.len() && position(
                    self@.evidence,
                    evidence_is(id@, policy_version@),
                ) == Some(i as int),
                None => position(self@.evidence, evidence_is(id@, policy_version@)) is None,
            },
    {
        let ghost p = evidence_is(id@, policy_version@);
        let mut i: usize = 0;
        while i < self.evidence.len()
            invariant
                i <= self.evidence@.len(),
                p == evidence_is(id@, policy_version@),
                forall|j: int| 0 <= j < i ==> !p(#[trigger] self@.evidence[j]),
            decreases self.evidence@.len() - i,
        {
            assert(self@.evidence[i as int] == self.evidence@[i as int]@);
            if text::same(&self.evidence[i].evidence_id, id) && text::same(
                &self.evidence[i].policy_version,
                policy_version,
            ) {
                proof {
                    lemma_position_found(self@.evidence, p, i as int);
                }
                return Some(i);
            }
            i = i + 1;
        }
        proof {
            lemma_position_missing(self@.evidence, p);
        }
        None
    }

    /// Reports whether a piece of evidence is stored under any policy version.
    pub fn has_evidence(&self, id: &str) -> (r: bool)
        ensures
            r == (position(self@.evidence, evidence_has_id(id@)) is Some),
    {
        let ghost p = evidence_has_id(id@);
        let mut i: usize = 0;
        while i < self.evidence.len()
            invariant
                i <= self.evidence@.len(),
                p == evidence_has_id(id@),
                forall|j: int| 0 <= j < i ==> !p(#[trigger] self@.evidence[j]),
            decreases self.evidence@.len() - i,
        {
            assert(self@.evidence[i as int] == self.evidence@[i as int]@);
            if text::same(&self.evidence[i].evidence_id, id) {
                proof {
                    lemma_position_found(self@.evidence, p, i as int);
                }
                return true;
            }
            i = i + 1;
        }
        proof {
            lemma_position_missing(self@.evidence, p);
        }
        false
    }

    /// Replaces the operational columns of the revision at `at`.
    pub fn update_revision(
        &mut self,
        at: usize,
        status: &str,
        row_version: i64,
        superseded_by_id: Option<String>,
        updated_at: i64,
    )
        requires
            at < old(self).revisions@.len(),
        ensures
            final(self)@ == (StoreModel {
                revisions: old(self)@.revisions.update(
                    at as int,
                    RevisionModel {
                        status: status@,
                        row_version,
                        superseded_by_id: text::opt_view(superseded_by_id),
                        updated_at,
                        ..old(self)@.revisions[at as int]
                    },
                ),
                ..old(self)@
            }),
    {
        let ghost before = self@;
        let row = &mut self.revisions[at];
        row.status = status.to_owned();
        row.row_version = row_version;
        row.superseded_by_id = superseded_by_id;
        row.updated_at = updated_at;
        proof {
            assert(self@.revisions =~= before.revisions.update(
                at as int,
                RevisionModel {
                    status: status@,
                    row_version,
                    superseded_by_id: text::opt_view(superseded_by_id),
                    updated_at,
                    ..before.revisions[at as int]
                },
            ));
        }
    }

    /// Appends a transition under the next number and returns that number.
    pub fn append_transition(&mut self, row: TransitionRow) -> (r: i64)
        requires
            old(self).next_transition_id < i64::MAX,
        ensures
            r == old(self).next_transition_id,
            final(self)@ == (StoreModel {
                transitions: old(self)@.transitions.push(
                    TransitionModel { transition_id: old(self).next_transition_id, ..row@ },
                ),
                next_transition_id: (old(self).next_transition_id + 1) as i64,
                ..old(self)@
            }),
    {
        let ghost before = self@;
        let id: i64 = self.next_transition_id;
        let mut row = row;
        row.transition_id = id;
        self.transitions.push(row);
        self.next_transition_id = id + 1;
        proof {
            assert(self@.transitions =~= before.transitions.push(row@));
        }
        id
    }

    pub fn append_approval(&mut self, row: ApprovalRow)
        ensures
            final(self)@ == (StoreModel {
                approvals: old(self)@.approvals.push(row@),
                ..old(self)@
            }),
    {
        let ghost before = self@;
        self.approvals.push(row);
        assert(self@.approvals =~= before.approvals.push(row@));
    }

    pub fn append_policy(&mut self, row: PolicyRow)
        ensures
            final(self)@ == (StoreModel { policies: old(self)@.policies.push(row@), ..old(self)@ }),
    {
        let ghost before = self@;
        self.policies.push(row);
        assert(self@.policies =~= before.policies.push(row@));
    }

    pub fn append_evidence(&mut self, row: EvidenceRow)
        ensures
            final(self)@ == (StoreModel { evidence: old(self)@.evidence.push(row@), ..old(self)@ }),
    {
        let ghost before = self@;
        self.evidence.push(row);
        assert(self@.evidence =~= before.evidence.push(row@));
    }

    /// Moves the desired generation.
    pub fn set_desired_generation(&mut self, generation: i64, updated_at: i64)
        ensures
            final(self)@ == (StoreModel {
                desired_generation: generation,
                generation_updated_at: updated_at,
                ..old(self)@
            }),
    {
        self.desired_generation = generation;
        self.generation_updated_at = updated_at;
    }
}

} // verus!
