//! The durable evidence behind a promotion, read again when the promotion is made.

use crate::admission;
use crate::lifecycle;
use crate::lifecycle::{
    LifecycleError, LifecycleFault, LifecycleStatus, PromotionAuthority,
    ReplacementTransitionRequest, RevisionState, RevisionStateModel,
};
use crate::policy;
use crate::policy::{
    DirectOutcome, InvocationEvidence, InvocationModel, PromotionContext, PromotionDecision,
    PromotionPolicy, QualifiedStatistics, RateFindings, SourceModel, TaskOutcomeSource,
};
use crate::store::{SkillStore, StoreError, StoreFault, StoreModel};
use crate::text;
use vstd::prelude::*;
use vstd::string::*;

verus! {

/// How an invocation of a skill ended, as it is stored. `production` and `complete` hold
/// of the beginning and of the end.
#[derive(Debug, Clone, PartialEq, Eq)]
pub struct TerminalRow {
    pub invocation_id: String,
    pub turn_id: String,
    pub event_kind: String,
    pub latency_us: Option<i64>,
    pub production: bool,
    pub complete: bool,
    pub created_at: i64,
}

/// The outcome that a kind of event stands for.
pub open spec fn outcome_of(kind: Seq<char>) -> Option<DirectOutcome> {
    if kind == "returned"@ {
        Some(DirectOutcome::Success)
    } else if kind == "threw"@ {
        Some(DirectOutcome::Throw)
    } else if kind == "timed_out"@ {
        Some(DirectOutcome::Timeout)
    } else if kind == "oom"@ {
        Some(DirectOutcome::Oom)
    } else if kind == "capability_denied"@ {
        Some(DirectOutcome::CapabilityDenied)
    } else {
        None
    }
}

/// The outcome that a kind of event stands for.
pub fn direct_outcome(kind: &str) -> (r: Option<DirectOutcome>)
    ensures
        r == outcome_of(kind@),
{
    if text::same(kind, "returned") {
        Some(DirectOutcome::Success)
    } else if text::same(kind, "threw") {
        Some(DirectOutcome::Throw)
    } else if text::same(kind, "timed_out") {
        Some(DirectOutcome::Timeout)
    } else if text::same(kind, "oom") {
        Some(DirectOutcome::Oom)
    } else if text::same(kind, "capability_denied") {
        Some(DirectOutcome::CapabilityDenied)
    } else {
        None
    }
}

/// A row is an end of an invocation within the window of the policy.
pub open spec fn counts_as_end(row: TerminalRow, policy: PromotionPolicy) -> bool {
    outcome_of(row.event_kind@) is Some && policy.window_start <= row.created_at
        <= policy.window_end
}

/// The evidence of rows, or none where a latency is negative.
pub open spec fn evidence_of(rows: Seq<TerminalRow>, skill_id: Seq<char>, policy: PromotionPolicy) -> Option<
    Seq<InvocationModel>,
>
    decreases rows.len(),
{
    if rows.len() == 0 {
        Some(Seq::empty())
    } else {
        let row = rows.last();
        match evidence_of(rows.drop_last(), skill_id, policy) {
            None => None,
            Some(before) => if !counts_as_end(row, policy) {
                Some(before)
            } else if row.latency_us is Some && row.latency_us->0 < 0 {
                None
            } else {
                Some(
                    before.push(
                        InvocationModel {
                            invocation_id: row.invocation_id@,
                            skill_id,
                            turn_id: row.turn_id@,
                            outcome: outcome_of(row.event_kind@)->0,
                            latency_us: match row.latency_us {
                                Some(n) => n as u64,
                                None => 0,
                            },
                            production: row.production,
                            observability_complete: row.complete,
                            created_at: row.created_at,
                        },
                    ),
                )
            },
        }
    }
}

proof fn lemma_evidence_stops(
    rows: Seq<TerminalRow>,
    skill_id: Seq<char>,
    policy: PromotionPolicy,
    n: int,
)
    requires
        0 <= n <= rows.len(),
        evidence_of(rows.take(n), skill_id, policy) is None,
    ensures
        evidence_of(rows, skill_id, policy) is None,
    decreases rows.len(),
{
    if n < rows.len() {
        assert(rows.drop_last().take(n) =~= rows.take(n));
        lemma_evidence_stops(rows.drop_last(), skill_id, policy, n);
    } else {
        assert(rows.take(n) =~= rows);
    }
}

/// Reads the evidence of a skill from its rows.
pub fn read_invocation_evidence(
    rows: &Vec<TerminalRow>,
    skill_id: &str,
    policy: &PromotionPolicy,
) -> (r: Result<Vec<InvocationEvidence>, LifecycleError>)
    ensures
        match evidence_of(rows@, skill_id@, *policy) {
            Some(evidence) => r is Ok && policy::invocation_views(r->Ok_0@) == evidence,
            None => r is Err && r->Err_0@ == LifecycleFault::PromotionHeld(
                "negative durable latency"@,
            ),
        },
{
    let mut out: Vec<InvocationEvidence> = Vec::new();
    let mut i: usize = 0;
    proof {
        assert(rows@.take(0).len() == 0);
        assert(policy::invocation_views(out@) =~= Seq::empty());
    }
    while i < rows.len()
        invariant
            i <= rows@.len(),
            evidence_of(rows@.take(i as int), skill_id@, *policy) == Some(
                policy::invocation_views(out@),
            ),
        decreases rows@.len() - i,
    {
        let ghost before = policy::invocation_views(out@);
        let row = &rows[i];
        proof {
            assert(rows@.take(i + 1).drop_last() =~= rows@.take(i as int));
            assert(rows@.take(i + 1).last() == rows@[i as int]);
        }
        if let Some(outcome) = direct_outcome(&row.event_kind) {
            if policy.window_start <= row.created_at && row.created_at <= policy.window_end {
                let latency_us: u64 = match row.latency_us {
                    None => 0,
                    Some(n) => {
                        if n < 0 {
                            proof {
                                lemma_evidence_stops(rows@, skill_id@, *policy, i + 1);
                            }
                            return Err(
                                LifecycleError::PromotionHeld(
                                    "negative durable latency".to_owned(),
                                ),
                            );
                        }
                        n as u64
                    },
                };
                let item = InvocationEvidence {
                    invocation_id: row.invocation_id.clone(),
                    skill_id: skill_id.to_owned(),
                    turn_id: row.turn_id.clone(),
                    outcome,
                    latency_us,
                    production: row.production,
                    observability_complete: row.complete,
                    created_at: row.created_at,
                };
                out.push(item);
                assert(policy::invocation_views(out@) =~= before.push(item@));
            }
        }
        i = i + 1;
    }
    assert(rows@.take(rows@.len() as int) =~= rows@);
    Ok(out)
}

/// The outcome of a task, as it is stored.
#[derive(Debug, Clone, PartialEq, Eq)]
pub struct TaskOutcomeRow {
    pub turn_id: String,
    pub verify_passed: bool,
    pub attempt: i64,
    pub source_kind: String,
    pub source_id: Option<String>,
    pub production: bool,
    pub evidence_complete: bool,
    pub created_at: i64,
}

/// The outcome of a task in which a skill took part.
#[derive(Debug, Clone, PartialEq, Eq)]
pub struct TaskOutcomeEvidence {
    pub turn_id: String,
    pub skill_ids: Vec<String>,
    pub verify_passed: bool,
    pub attempt: u32,
    pub source: TaskOutcomeSource,
    pub production: bool,
    pub evidence_complete: bool,
    pub created_at: i64,
}

/// The contents of a [`TaskOutcomeEvidence`].
#[verifier::ext_equal]
pub struct TaskOutcomeModel {
    pub turn_id: Seq<char>,
    pub skill_ids: Seq<Seq<char>>,
    pub verify_passed: bool,
    pub attempt: u32,
    pub source: SourceModel,
    pub production: bool,
    pub evidence_complete: bool,
    pub created_at: i64,
}

impl View for TaskOutcomeEvidence {
    type V = TaskOutcomeModel;

    open spec fn view(&self) -> TaskOutcomeModel {
        TaskOutcomeModel {
            turn_id: self.turn_id@,
            skill_ids: text::views(self.skill_ids@),
            verify_passed: self.verify_passed,
            attempt: self.attempt,
            source: self.source@,
            production: self.production,
            evidence_complete: self.evidence_complete,
            created_at: self.created_at,
        }
    }
}

pub open spec fn task_views(s: Seq<TaskOutcomeEvidence>) -> Seq<TaskOutcomeModel> {
    s.map_values(|t: TaskOutcomeEvidence| t@)
}

/// What is wrong with a row, within the window.
pub open spec fn task_row_fault(row: TaskOutcomeRow) -> Option<Seq<char>> {
    if policy::source_of_columns(row.source_kind@, text::opt_view(row.source_id)) is None {
        Some("invalid durable task-outcome source"@)
    } else if row.attempt < 0 || row.attempt > u32::MAX {
        Some("invalid durable task-outcome attempt"@)
    } else {
        None
    }
}

/// The outcomes of rows within the window, or what is wrong with the first bad one.
pub open spec fn outcomes_of(
    rows: Seq<TaskOutcomeRow>,
    skill_id: Seq<char>,
    policy: PromotionPolicy,
) -> Result<Seq<TaskOutcomeModel>, Seq<char>>
    decreases rows.len(),
{
    if rows.len() == 0 {
        Ok(Seq::empty())
    } else {
        let row = rows.last();
        match outcomes_of(rows.drop_last(), skill_id, policy) {
            Err(e) => Err(e),
            Ok(before) => if row.created_at < policy.window_start || row.created_at
                > policy.window_end {
                Ok(before)
            } else if task_row_fault(row) is Some {
                Err(task_row_fault(row)->0)
            } else {
                Ok(
                    before.push(
                        TaskOutcomeModel {
                            turn_id: row.turn_id@,
                            skill_ids: seq![skill_id],
                            verify_passed: row.verify_passed,
                            attempt: row.attempt as u32,
                            source: policy::source_of_columns(
                                row.source_kind@,
                                text::opt_view(row.source_id),
                            )->0,
                            production: row.production,
                            evidence_complete: row.evidence_complete,
                            created_at: row.created_at,
                        },
                    ),
                )
            },
        }
    }
}

proof fn lemma_outcomes_stop(
    rows: Seq<TaskOutcomeRow>,
    skill_id: Seq<char>,
    policy: PromotionPolicy,
    n: int,
)
    requires
        0 <= n <= rows.len(),
        outcomes_of(rows.take(n), skill_id, policy) is Err,
    ensures
        outcomes_of(rows, skill_id, policy) == outcomes_of(rows.take(n), skill_id, policy),
    decreases rows.len(),
{
    if n < rows.len() {
        assert(rows.drop_last().take(n) =~= rows.take(n));
        lemma_outcomes_stop(rows.drop_last(), skill_id, policy, n);
    } else {
        assert(rows.take(n) =~= rows);
    }
}

/// Reads the outcomes of the tasks of a skill from their rows. A row that cannot be read
/// holds the promotion.
pub fn read_task_outcomes(
    rows: &Vec<TaskOutcomeRow>,
    skill_id: &str,
    policy: &PromotionPolicy,
) -> (r: Result<Vec<TaskOutcomeEvidence>, LifecycleError>)
    ensures
        match outcomes_of(rows@, skill_id@, *policy) {
            Ok(outcomes) => r is Ok && task_views(r->Ok_0@) == outcomes,
            Err(reason) => r is Err && r->Err_0@ == LifecycleFault::PromotionHeld(reason),
        },
{
    let mut out: Vec<TaskOutcomeEvidence> = Vec::new();
    let mut i: usize = 0;
    proof {
        assert(rows@.take(0).len() == 0);
        assert(task_views(out@) =~= Seq::empty());
    }
    while i < rows.len()
        invariant
            i <= rows@.len(),
            outcomes_of(rows@.take(i as int), skill_id@, *policy) == Ok::<
                Seq<TaskOutcomeModel>,
                Seq<char>,
            >(task_views(out@)),
        decreases rows@.len() - i,
    {
        let ghost before = task_views(out@);
        let row = &rows[i];
        proof {
            assert(rows@.take(i + 1).drop_last() =~= rows@.take(i as int));
            assert(rows@.take(i + 1).last() == rows@[i as int]);
        }
        if policy.window_start <= row.created_at && row.created_at <= policy.window_end {
            let source = match policy::task_outcome_source_from_columns(
                &row.source_kind,
                text::clone_opt(&row.source_id),
            ) {
                Some(source) => source,
                None => {
                    proof {
                        lemma_outcomes_stop(rows@, skill_id@, *policy, i + 1);
                    }
                    return Err(
                        LifecycleError::PromotionHeld(
                            "invalid durable task-outcome source".to_owned(),
                        ),
                    );
                },
            };
            if row.attempt < 0 || row.attempt > u32::MAX as i64 {
                proof {
                    lemma_outcomes_stop(rows@, skill_id@, *policy, i + 1);
                }
                return Err(
                    LifecycleError::PromotionHeld(
                        "invalid durable task-outcome attempt".to_owned(),
                    ),
                );
            }
            let mut skill_ids: Vec<String> = Vec::new();
            skill_ids.push(skill_id.to_owned());
            assert(text::views(skill_ids@) =~= seq![skill_id@]);
            let item = TaskOutcomeEvidence {
                turn_id: row.turn_id.clone(),
                skill_ids,
                verify_passed: row.verify_passed,
                attempt: row.attempt as u32,
                source,
                production: row.production,
                evidence_complete: row.evidence_complete,
                created_at: row.created_at,
            };
            out.push(item);
            assert(task_views(out@) =~= before.push(item@));
        }
        i = i + 1;
    }
    assert(rows@.take(rows@.len() as int) =~= rows@);
    Ok(out)
}

/// There is feedback against a skill that nobody has resolved.
pub open spec fn unresolved_feedback(store: StoreModel, skill_id: Seq<char>) -> bool {
    exists|i: int|
        0 <= i < store.feedback.len() && {
            let row = #[trigger] store.feedback[i];
            &&& row.skill_id == skill_id
            &&& row.state == "active"@
            &&& row.feedback_kind == "negative"@ || row.feedback_kind == "severe"@
        }
}

fn has_unresolved_feedback(store: &SkillStore, skill_id: &str) -> (r: bool)
    ensures
        r == unresolved_feedback(store@, skill_id@),
{
    let ghost all = store@.feedback;
    let mut i: usize = 0;
    while i < store.feedback.len()
        invariant
            i <= store.feedback@.len(),
            all == store@.feedback,
            all.len() == store.feedback@.len(),
            forall|j: int|
                0 <= j < i ==> {
                    let row = #[trigger] all[j];
                    !(row.skill_id == skill_id@ && row.state == "active"@ && (row.feedback_kind
                        == "negative"@ || row.feedback_kind == "severe"@))
                },
        decreases store.feedback@.len() - i,
    {
        let row = &store.feedback[i];
        assert(all[i as int] == store.feedback@[i as int]@);
        if text::same(&row.skill_id, skill_id) && text::same(&row.state, "active") && (text::same(
            &row.feedback_kind,
            "negative",
        ) || text::same(&row.feedback_kind, "severe")) {
            assert(all[i as int].skill_id == skill_id@);
            return true;
        }
        i = i + 1;
    }
    false
}

/// What a promotion is judged on, from what is stored. A canary has passed its inherited
/// and held-out tests, because nothing else makes a canary.
pub open spec fn context_follows(
    store: StoreModel,
    request: ReplacementTransitionRequest,
    candidate: RevisionState,
    predecessor: RevisionState,
    desired_generation: i64,
    context: PromotionContext,
) -> bool {
    let new = store.revision(request.candidate_id@)->0.artifact;
    let old_one = store.revision(request.predecessor_id@)->0.artifact;
    &&& context.candidate_id@ == request.candidate_id@
    &&& text::opt_view(context.predecessor_id) == Some(request.predecessor_id@)
    &&& context.capability_tier == new.capability.tier
    &&& context.capability_increased == !admission::non_escalating(
        new.capability,
        old_one.capability,
    )
    &&& context.inherited_tests_passed == (candidate.status == LifecycleStatus::Canary)
    &&& context.held_out_tests_passed == (candidate.status == LifecycleStatus::Canary)
    &&& context.unresolved_negative_feedback == unresolved_feedback(store, request.candidate_id@)
    &&& context.identity_valid == (new.stored_fault() is None && old_one.stored_fault() is None)
    &&& context.row_version_current == (candidate.row_version == request.candidate_row_version
        && predecessor.row_version == request.predecessor_row_version)
    &&& context.generation_current == (desired_generation == request.snapshot.index_generation)
}

/// Gathers what a promotion is judged on, from what is stored.
pub fn promotion_context(
    store: &SkillStore,
    request: &ReplacementTransitionRequest,
    candidate: &RevisionState,
    predecessor: &RevisionState,
    desired_generation: i64,
) -> (r: Result<PromotionContext, LifecycleError>)
    ensures
        if store@.revision(request.candidate_id@) is None {
            r is Err && r->Err_0@ == LifecycleFault::Store(
                StoreFault::NotFound(request.candidate_id@),
            )
        } else if store@.revision(request.predecessor_id@) is None {
            r is Err && r->Err_0@ == LifecycleFault::Store(
                StoreFault::NotFound(request.predecessor_id@),
            )
        } else {
            r is Ok && context_follows(
                store@,
                *request,
                *candidate,
                *predecessor,
                desired_generation,
                r->Ok_0,
            )
        },
{
    let first = match store.find_revision(&request.candidate_id) {
        Some(i) => i,
        None => {
            return Err(
                LifecycleError::Store(StoreError::NotFound(request.candidate_id.clone())),
            );
        },
    };
    let second = match store.find_revision(&request.predecessor_id) {
        Some(i) => i,
        None => {
            return Err(
                LifecycleError::Store(StoreError::NotFound(request.predecessor_id.clone())),
            );
        },
    };
    proof {
        assert(store@.revisions[first as int] == store.revisions@[first as int]@);
        assert(store@.revisions[second as int] == store.revisions@[second as int]@);
    }
    let new = &store.revisions[first].artifact;
    let old_one = &store.revisions[second].artifact;
    let capability_increased = !admission::capability_is_non_escalating(
        &new.capability,
        &old_one.capability,
    );
    let passed = candidate.status == LifecycleStatus::Canary;
    Ok(
        PromotionContext {
            candidate_id: request.candidate_id.clone(),
            predecessor_id: Some(request.predecessor_id.clone()),
            capability_tier: new.capability.tier,
            capability_increased,
            inherited_tests_passed: passed,
            held_out_tests_passed: passed,
            unresolved_negative_feedback: has_unresolved_feedback(store, &request.candidate_id),
            identity_valid: new.verify_identity().is_ok() && old_one.verify_identity().is_ok(),
            row_version_current: candidate.row_version == request.candidate_row_version
                && predecessor.row_version == request.predecessor_row_version,
            generation_current: desired_generation == request.snapshot.index_generation,
        },
    )
}

/// Why a promotion is held, on what was gathered. `durable` is the policy that is stored
/// under the version that the snapshot names, or why it cannot be read.
pub open spec fn hold(
    durable: Result<PromotionPolicy, String>,
    policy_version: Seq<char>,
    context: PromotionContext,
    candidate: QualifiedStatistics,
    predecessor: QualifiedStatistics,
    rates: RateFindings,
) -> Option<Seq<char>> {
    match durable {
        Err(e) => Some("invalid durable policy: "@ + e@),
        Ok(policy) => if policy.version@ != policy_version {
            Some("durable policy version mismatch"@)
        } else if !policy.valid() {
            Some("invalid promotion policy configuration"@)
        } else if policy::promotion_decision(
            policy,
            context,
            candidate,
            Some(predecessor),
            rates,
        ) != PromotionDecision::Promote {
            Some(
                text::joined(
                    policy::promotion_reasons(
                        policy,
                        context,
                        candidate,
                        Some(predecessor),
                        rates,
                    ),
                    ","@,
                ),
            )
        } else {
            None
        },
    }
}

/// Judges a promotion again, on what is stored when it is made: it is held unless the
/// stored policy promotes it.
pub fn revalidate_promotion(
    durable: &Result<PromotionPolicy, String>,
    policy_version: &str,
    context: &PromotionContext,
    candidate: QualifiedStatistics,
    predecessor: QualifiedStatistics,
    rates: RateFindings,
) -> (r: Result<(), LifecycleError>)
    ensures
        match hold(*durable, policy_version@, *context, candidate, predecessor, rates) {
            None => r is Ok,
            Some(reason) => r is Err && r->Err_0@ == LifecycleFault::PromotionHeld(reason),
        },
{
    let policy = match durable {
        Err(e) => {
            return Err(
                LifecycleError::PromotionHeld(text::join2("invalid durable policy: ", e)),
            );
        },
        Ok(policy) => policy,
    };
    if !text::same(&policy.version, policy_version) {
        return Err(
            LifecycleError::PromotionHeld("durable policy version mismatch".to_owned()),
        );
    }
    match policy::decide_promotion(policy, context, candidate, Some(predecessor), rates) {
        Err(e) => Err(LifecycleError::PromotionHeld(e.message().to_owned())),
        Ok(evaluation) => {
            if evaluation.decision != PromotionDecision::Promote {
                return Err(
                    LifecycleError::PromotionHeld(text::join(&evaluation.reasons, ",")),
                );
            }
            Ok(())
        },
    }
}

/// Nothing is promoted over unresolved negative feedback, over moved rows or a moved
/// generation, or under an identity that does not hold, whatever the evidence says.
pub proof fn law_promotions_need_a_current_context(
    durable: Result<PromotionPolicy, String>,
    policy_version: Seq<char>,
    context: PromotionContext,
    candidate: QualifiedStatistics,
    predecessor: QualifiedStatistics,
    rates: RateFindings,
)
    requires
        hold(durable, policy_version, context, candidate, predecessor, rates) is None,
    ensures
        !context.unresolved_negative_feedback,
        context.identity_valid,
        context.row_version_current,
        context.generation_current,
        context.inherited_tests_passed,
        context.held_out_tests_passed,
        durable matches Ok(policy) && policy.version@ == policy_version && policy.valid(),
{
    policy::law_promotion_needs_every_gate(
        durable->Ok_0,
        context,
        candidate,
        Some(predecessor),
        rates,
    );
}

/// What is stored for a promotion beside the revisions and their feedback: the policy
/// under the version that the snapshot names, or why it cannot be read, how invocations
/// of the candidate and of its predecessor ended, and the outcomes of the tasks of the
/// candidate.
pub struct StoredEvidence {
    pub policy: Result<PromotionPolicy, String>,
    pub candidate: Vec<TerminalRow>,
    pub predecessor: Vec<TerminalRow>,
    pub tasks: Vec<TaskOutcomeRow>,
}

/// What a promotion is judged on, from what is stored.
pub open spec fn stored_context(
    store: StoreModel,
    request: ReplacementTransitionRequest,
    candidate: RevisionStateModel,
    predecessor: RevisionStateModel,
) -> PromotionContext {
    let new = store.revision(request.candidate_id@)->0.artifact;
    let old_one = store.revision(request.predecessor_id@)->0.artifact;
    PromotionContext {
        candidate_id: request.candidate_id,
        predecessor_id: Some(request.predecessor_id),
        capability_tier: new.capability.tier,
        capability_increased: !admission::non_escalating(new.capability, old_one.capability),
        inherited_tests_passed: candidate.status == LifecycleStatus::Canary,
        held_out_tests_passed: candidate.status == LifecycleStatus::Canary,
        unresolved_negative_feedback: unresolved_feedback(store, request.candidate_id@),
        identity_valid: new.stored_fault() is None && old_one.stored_fault() is None,
        row_version_current: candidate.row_version == request.candidate_row_version
            && predecessor.row_version == request.predecessor_row_version,
        generation_current: store.desired_generation == request.snapshot.index_generation,
    }
}

/// The statistics of a skill's evidence.
pub open spec fn evidence_statistics(
    policy: PromotionPolicy,
    skill_id: Seq<char>,
    evidence: Seq<InvocationModel>,
) -> QualifiedStatistics {
    policy::statistics_of(policy::turn_units(policy, skill_id, evidence))
}

/// Why a promotion is held, on what is stored. Nothing is found where a revision cannot
/// be read: such a promotion is refused for that.
pub open spec fn finding(
    store: StoreModel,
    request: ReplacementTransitionRequest,
    stored: StoredEvidence,
    rates: RateFindings,
) -> Option<Seq<char>> {
    let new = request.candidate_id@;
    let old_one = request.predecessor_id@;
    match (
        lifecycle::revision_state(store, new),
        lifecycle::revision_state(store, old_one),
        stored.policy,
    ) {
        (Err(_), _, _) => None,
        (_, Err(_), _) => None,
        (_, _, Err(e)) => Some("invalid durable policy: "@ + e@),
        (Ok(candidate), Ok(predecessor), Ok(policy)) => {
            let ends = evidence_of(stored.candidate@, new, policy);
            let old_ends = evidence_of(stored.predecessor@, old_one, policy);
            let outcomes = outcomes_of(stored.tasks@, new, policy);
            if policy.version@ != request.snapshot.policy_version@ {
                Some("durable policy version mismatch"@)
            } else if ends is None || old_ends is None {
                Some("negative durable latency"@)
            } else if outcomes is Err {
                Some(outcomes->Err_0)
            } else if !policy.valid() {
                Some("invalid promotion policy configuration"@)
            } else if policy::invocation_conflict(policy, new, ends->0)
                || policy::invocation_conflict(policy, old_one, old_ends->0) {
                Some("evidence contains an invocation ID conflict"@)
            } else {
                hold(
                    stored.policy,
                    request.snapshot.policy_version@,
                    stored_context(store, request, candidate, predecessor),
                    evidence_statistics(policy, new, ends->0),
                    evidence_statistics(policy, old_one, old_ends->0),
                    rates,
                )
            }
        },
    }
}

fn held_reason(error: LifecycleError) -> (r: Option<String>)
    requires
        error@ is PromotionHeld,
    ensures
        text::opt_view(r) == Some(error@->PromotionHeld_0),
{
    match error {
        LifecycleError::PromotionHeld(reason) => Some(reason),
        _ => None,
    }
}

/// Judges a promotion on what is stored: why it is held, if it is.
pub fn find_hold(
    store: &SkillStore,
    request: &ReplacementTransitionRequest,
    stored: &StoredEvidence,
    rates: RateFindings,
) -> (r: Option<String>)
    ensures
        text::opt_view(r) == finding(store@, *request, *stored, rates),
{
    let candidate = match lifecycle::read_revision(store, &request.candidate_id) {
        Ok(candidate) => candidate,
        Err(_) => {
            return None;
        },
    };
    let predecessor = match lifecycle::read_revision(store, &request.predecessor_id) {
        Ok(predecessor) => predecessor,
        Err(_) => {
            return None;
        },
    };
    let policy = match &stored.policy {
        Ok(policy) => policy,
        Err(e) => {
            return Some(text::join2("invalid durable policy: ", e));
        },
    };
    if !text::same(&policy.version, &request.snapshot.policy_version) {
        return Some("durable policy version mismatch".to_owned());
    }
    let context = match promotion_context(
        store,
        request,
        &candidate,
        &predecessor,
        store.desired_generation,
    ) {
        Ok(context) => context,
        Err(_) => {
            return None;
        },
    };
    let ends = match read_invocation_evidence(&stored.candidate, &request.candidate_id, policy) {
        Ok(ends) => ends,
        Err(e) => {
            return held_reason(e);
        },
    };
    let old_ends = match read_invocation_evidence(
        &stored.predecessor,
        &request.predecessor_id,
        policy,
    ) {
        Ok(ends) => ends,
        Err(e) => {
            return held_reason(e);
        },
    };
    match read_task_outcomes(&stored.tasks, &request.candidate_id, policy) {
        Ok(_) => {},
        Err(e) => {
            return held_reason(e);
        },
    }
    match policy.validate() {
        Ok(()) => {},
        Err(e) => {
            return Some(e.message().to_owned());
        },
    }
    let statistics = match policy::qualify(policy, &request.candidate_id, &ends) {
        Ok(statistics) => statistics,
        Err(e) => {
            return Some(e.message().to_owned());
        },
    };
    let old_statistics = match policy::qualify(policy, &request.predecessor_id, &old_ends) {
        Ok(statistics) => statistics,
        Err(e) => {
            return Some(e.message().to_owned());
        },
    };
    match revalidate_promotion(
        &stored.policy,
        &request.snapshot.policy_version,
        &context,
        statistics,
        old_statistics,
        rates,
    ) {
        Ok(()) => None,
        Err(e) => held_reason(e),
    }
}

/// A promotion that is made on evidence, and no replay of one, rests on what is stored
/// when it is made: the named policy is valid, the evidence can be read and does not
/// contradict itself, no gate of the policy gives a reason, both identities hold, and
/// nobody has left unresolved feedback against the candidate.
pub proof fn law_promotions_rest_on_stored_evidence(
    store: StoreModel,
    request: ReplacementTransitionRequest,
    stored: StoredEvidence,
    rates: RateFindings,
    held: Option<String>,
    created_at: i64,
)
    requires
        text::opt_view(held) == finding(store, request, stored, rates),
        lifecycle::pair_result(
            store,
            request,
            lifecycle::promotion_from(LifecycleStatus::Active),
            PromotionAuthority::EvidenceThreshold { held },
            created_at,
        ) matches Ok((outcome, _)) && !outcome.replayed,
    ensures
        stored.policy matches Ok(policy) && {
            let new = request.candidate_id@;
            let old_one = request.predecessor_id@;
            let ends = evidence_of(stored.candidate@, new, policy);
            let old_ends = evidence_of(stored.predecessor@, old_one, policy);
            let candidate = lifecycle::revision_state(store, new);
            let predecessor = lifecycle::revision_state(store, old_one);
            &&& policy.valid() && policy.version@ == request.snapshot.policy_version@
            &&& ends is Some && !policy::invocation_conflict(policy, new, ends->0)
            &&& old_ends is Some && !policy::invocation_conflict(policy, old_one, old_ends->0)
            &&& outcomes_of(stored.tasks@, new, policy) is Ok
            &&& candidate is Ok && candidate->Ok_0.status == LifecycleStatus::Canary
            &&& predecessor is Ok && predecessor->Ok_0.status == LifecycleStatus::Active
            &&& store.revision(new)->0.artifact.stored_fault() is None
            &&& store.revision(old_one)->0.artifact.stored_fault() is None
            &&& !unresolved_feedback(store, new)
            &&& policy::promotion_decision(
                policy,
                stored_context(store, request, candidate->Ok_0, predecessor->Ok_0),
                evidence_statistics(policy, new, ends->0),
                Some(evidence_statistics(policy, old_one, old_ends->0)),
                rates,
            ) == PromotionDecision::Promote
        },
{
    let candidate = lifecycle::revision_state(store, request.candidate_id@);
    let predecessor = lifecycle::revision_state(store, request.predecessor_id@);
    assert(held is None);
    assert(candidate is Ok && predecessor is Ok);
    let policy = stored.policy->Ok_0;
    law_promotions_need_a_current_context(
        stored.policy,
        request.snapshot.policy_version@,
        stored_context(store, request, candidate->Ok_0, predecessor->Ok_0),
        evidence_statistics(
            policy,
            request.candidate_id@,
            evidence_of(stored.candidate@, request.candidate_id@, policy)->0,
        ),
        evidence_statistics(
            policy,
            request.predecessor_id@,
            evidence_of(stored.predecessor@, request.predecessor_id@, policy)->0,
        ),
        rates,
    );
}

/// A stored row is an end of an invocation that a policy looks at: of one of the five kinds
/// there are, within the window.
pub open spec fn is_end(row: TerminalRow, policy: PromotionPolicy) -> bool {
    let kind = row.event_kind@;
    &&& kind == "returned"@ || kind == "threw"@ || kind == "timed_out"@ || kind == "oom"@ || kind
        == "capability_denied"@
    &&& policy.window_start <= row.created_at
    &&& row.created_at <= policy.window_end
}

/// What a stored end says.
pub open spec fn end_of(row: TerminalRow, skill_id: Seq<char>) -> InvocationModel {
    let kind = row.event_kind@;
    InvocationModel {
        invocation_id: row.invocation_id@,
        skill_id,
        turn_id: row.turn_id@,
        outcome: if kind == "returned"@ {
            DirectOutcome::Success
        } else if kind == "threw"@ {
            DirectOutcome::Throw
        } else if kind == "timed_out"@ {
            DirectOutcome::Timeout
        } else if kind == "oom"@ {
            DirectOutcome::Oom
        } else {
            DirectOutcome::CapabilityDenied
        },
        latency_us: if row.latency_us is Some {
            row.latency_us->0 as u64
        } else {
            0
        },
        production: row.production,
        observability_complete: row.complete,
        created_at: row.created_at,
    }
}

/// The ends of invocations that are stored within the window are the evidence of a skill,
/// all of them, in order, each as it is stored; and where one has a negative latency there
/// is no evidence.
pub proof fn law_stored_ends_are_the_evidence(
    rows: Seq<TerminalRow>,
    skill_id: Seq<char>,
    policy: PromotionPolicy,
)
    ensures
        evidence_of(rows, skill_id, policy) is None <==> exists|i: int|
            0 <= i < rows.len() && is_end(#[trigger] rows[i], policy) && rows[i].latency_us is Some
                && rows[i].latency_us->0 < 0,
        evidence_of(rows, skill_id, policy) is Some ==> evidence_of(rows, skill_id, policy)->0
            == rows.filter(|row: TerminalRow| is_end(row, policy)).map_values(
            |row: TerminalRow| end_of(row, skill_id),
        ),
    decreases rows.len(),
{
    reveal(Seq::filter);
    let ends = |row: TerminalRow| is_end(row, policy);
    let told = |row: TerminalRow| end_of(row, skill_id);
    if rows.len() > 0 {
        let init = rows.drop_last();
        let row = rows.last();
        law_stored_ends_are_the_evidence(init, skill_id, policy);
        assert(rows[rows.len() - 1] == row);
        assert(counts_as_end(row, policy) == is_end(row, policy));
        if evidence_of(init, skill_id, policy) is None {
            let i = choose|i: int|
                0 <= i < init.len() && is_end(#[trigger] init[i], policy) && init[i].latency_us
                    is Some && init[i].latency_us->0 < 0;
            assert(rows[i] == init[i]);
        } else if evidence_of(rows, skill_id, policy) is Some {
            assert forall|i: int| 0 <= i < rows.len() implies !(is_end(#[trigger] rows[i], policy)
                && rows[i].latency_us is Some && rows[i].latency_us->0 < 0) by {
                if i < init.len() {
                    assert(init[i] == rows[i]);
                }
            }
            if ends(row) {
                assert(init.filter(ends).push(row).map_values(told) =~= init.filter(
                    ends,
                ).map_values(told).push(told(row)));
            }
        }
    } else {
        assert(rows.filter(ends).map_values(told) =~= Seq::empty());
    }
}

/// A stored task outcome within the window.
pub open spec fn in_window(row: TaskOutcomeRow, policy: PromotionPolicy) -> bool {
    policy.window_start <= row.created_at && row.created_at <= policy.window_end
}

/// The task outcomes that are stored within the window can be read exactly where each names
/// a source that there is and an attempt that fits; what is outside the window does not
/// matter.
pub proof fn law_task_outcomes_must_be_readable(
    rows: Seq<TaskOutcomeRow>,
    skill_id: Seq<char>,
    policy: PromotionPolicy,
)
    ensures
        outcomes_of(rows, skill_id, policy) is Ok <==> forall|i: int|
            0 <= i < rows.len() && in_window(#[trigger] rows[i], policy)
                ==> policy::source_of_columns(
                rows[i].source_kind@,
                text::opt_view(rows[i].source_id),
            ) is Some && 0 <= rows[i].attempt <= 0xffff_ffff,
        outcomes_of(rows, skill_id, policy) is Ok ==> {
            let kept = rows.filter(|row: TaskOutcomeRow| in_window(row, policy));
            let told = outcomes_of(rows, skill_id, policy)->Ok_0;
            &&& told.len() == kept.len()
            &&& forall|i: int|
                0 <= i < kept.len() ==> {
                    let outcome = #[trigger] told[i];
                    &&& outcome.turn_id == kept[i].turn_id@
                    &&& outcome.verify_passed == kept[i].verify_passed
                    &&& outcome.attempt == kept[i].attempt
                    &&& outcome.production == kept[i].production
                    &&& outcome.evidence_complete == kept[i].evidence_complete
                    &&& outcome.created_at == kept[i].created_at
                    &&& outcome.skill_ids == seq![skill_id]
                }
        },
    decreases rows.len(),
{
    reveal(Seq::filter);
    if rows.len() > 0 {
        let init = rows.drop_last();
        let row = rows.last();
        law_task_outcomes_must_be_readable(init, skill_id, policy);
        assert(rows[rows.len() - 1] == row);
        assert forall|i: int| 0 <= i < init.len() implies #[trigger] rows[i] == init[i] by {}
        let fine = |r: TaskOutcomeRow|
            policy::source_of_columns(r.source_kind@, text::opt_view(r.source_id)) is Some && 0
                <= r.attempt <= 0xffff_ffff;
        if outcomes_of(rows, skill_id, policy) is Ok {
            assert forall|i: int|
                0 <= i < rows.len() && in_window(#[trigger] rows[i], policy) implies fine(
                rows[i],
            ) by {
                if i < init.len() {
                    assert(init[i] == rows[i]);
                }
            }
        }
        if forall|i: int|
            0 <= i < rows.len() && in_window(#[trigger] rows[i], policy) ==> fine(rows[i]) {
            assert forall|i: int|
                0 <= i < init.len() && in_window(#[trigger] init[i], policy) implies fine(
                init[i],
            ) by {
                assert(rows[i] == init[i]);
            }
            assert(in_window(rows[rows.len() - 1], policy) ==> fine(row));
        }
    }
}

/// What a promotion on evidence rests on, row by row: no end of the candidate in production
/// and in full view ran out of time or memory or was denied a capability; no report
/// against the candidate is open that is negative or severe; the candidate was seen in
/// enough turns; it has no effects and asks for nothing that its predecessor did not have;
/// and both revisions and the index are as the request says.
pub proof fn law_promotions_are_held_for_any_stored_reason(
    store: StoreModel,
    request: ReplacementTransitionRequest,
    stored: StoredEvidence,
    rates: RateFindings,
)
    requires
        finding(store, request, stored, rates) is None,
        lifecycle::revision_state(store, request.candidate_id@) is Ok,
        lifecycle::revision_state(store, request.predecessor_id@) is Ok,
        stored.candidate@.len() <= usize::MAX,
    ensures
        ({
            let new = store.revision(request.candidate_id@)->0;
            let old_one = store.revision(request.predecessor_id@)->0;
            &&& stored.policy is Ok
            &&& stored.policy->Ok_0.version@ == request.snapshot.policy_version@
            &&& forall|i: int|
                0 <= i < stored.candidate@.len() ==> {
                    let row = #[trigger] stored.candidate@[i];
                    let kind = row.event_kind@;
                    is_end(row, stored.policy->Ok_0) && row.production && row.complete ==> kind
                        == "returned"@ || kind == "threw"@
                }
            &&& forall|i: int|
                0 <= i < store.feedback.len() ==> {
                    let row = #[trigger] store.feedback[i];
                    row.skill_id == request.candidate_id@ && row.state == "active"@
                        ==> row.feedback_kind != "negative"@ && row.feedback_kind != "severe"@
                }
            &&& !(new.artifact.capability.tier is SideEffecting)
            &&& admission::non_escalating(new.artifact.capability, old_one.artifact.capability)
            &&& new.artifact.stored_fault() is None && old_one.artifact.stored_fault() is None
            &&& new.status == "canary"@
            &&& new.row_version == request.candidate_row_version
            &&& old_one.row_version == request.predecessor_row_version
            &&& store.desired_generation == request.snapshot.index_generation
            &&& !rates.error_rate_too_high && !rates.confidence_failed
                && !rates.relative_latency_exceeded
            &&& evidence_statistics(
                stored.policy->Ok_0,
                request.candidate_id@,
                evidence_of(stored.candidate@, request.candidate_id@, stored.policy->Ok_0)->0,
            ).distinct_turns >= stored.policy->Ok_0.min_distinct_turns
        }),
{
    let policy = stored.policy->Ok_0;
    let new = request.candidate_id@;
    let old_one = request.predecessor_id@;
    let candidate = lifecycle::revision_state(store, new)->Ok_0;
    let predecessor = lifecycle::revision_state(store, old_one)->Ok_0;
    let context = stored_context(store, request, candidate, predecessor);
    let ends = evidence_of(stored.candidate@, new, policy)->0;
    let old_ends = evidence_of(stored.predecessor@, old_one, policy)->0;
    let mine = evidence_statistics(policy, new, ends);
    let theirs = evidence_statistics(policy, old_one, old_ends);
    policy::law_each_gate_holds_by_itself(policy, context, mine, Some(theirs), rates);
    policy::law_only_proven_replacements_are_promoted(policy, context, mine, Some(theirs), rates);
    law_stored_ends_are_the_evidence(stored.candidate@, new, policy);
    let rows = stored.candidate@;
    let kept = rows.filter(|row: TerminalRow| is_end(row, policy));
    rows.lemma_filter_len(|row: TerminalRow| is_end(row, policy));
    policy::law_statistics_count_turns_by_their_events(policy, new, ends);
    policy::lemma_no_severe_event(policy, new, ends);
    assert forall|i: int| 0 <= i < rows.len() implies {
        let row = #[trigger] rows[i];
        let kind = row.event_kind@;
        is_end(row, policy) && row.production && row.complete ==> kind == "returned"@ || kind
            == "threw"@
    } by {
        let row = rows[i];
        if is_end(row, policy) && row.production && row.complete {
            let p = |r: TerminalRow| is_end(r, policy);
            rows.lemma_filter_contains(p, i);
            assert(kept == rows.filter(p));
            let k = kept.index_of(row);
            assert(ends[k] == end_of(row, new));
            assert(ends.contains(ends[k]));
        }
    }
    assert forall|i: int| 0 <= i < store.feedback.len() implies {
        let row = #[trigger] store.feedback[i];
        row.skill_id == new && row.state == "active"@ ==> row.feedback_kind != "negative"@
            && row.feedback_kind != "severe"@
    } by {
        assert(!unresolved_feedback(store, new));
        let row = store.feedback[i];
    }
}

} // verus!
