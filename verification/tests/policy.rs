use skills::artifact::{CapabilityManifest, CapabilityTier, SkillArtifact, SkillExport};
use skills::lifecycle::{
    EvidenceSnapshot, LifecycleError, LifecycleStatus, ReplacementTransitionRequest, RevisionState,
};
use skills::policy::{
    decide_promotion, evaluate_promotion, nearest_rank_percentile, qualify, sort_numbers, DirectOutcome,
    InvocationEvidence, PolicyError, PromotionContext, PromotionDecision, PromotionPolicy,
    QualifiedStatistics, RateFindings, TaskOutcomeSource,
};
use skills::promotion::{
    direct_outcome, promotion_context, read_invocation_evidence, read_task_outcomes,
    revalidate_promotion, TaskOutcomeRow, TerminalRow,
};
use skills::store::{FeedbackRow, RevisionRow, SkillStore};

fn policy() -> PromotionPolicy {
    PromotionPolicy::conservative("v1".to_string(), 0, 100)
}

fn event(id: &str, turn: &str, outcome: DirectOutcome, latency_us: u64) -> InvocationEvidence {
    InvocationEvidence {
        invocation_id: id.to_string(),
        skill_id: "skill".to_string(),
        turn_id: turn.to_string(),
        outcome,
        latency_us,
        production: true,
        observability_complete: true,
        created_at: 50,
    }
}

#[test]
fn a_turn_counts_as_its_worst_outcome() {
    let statistics = qualify(
        &policy(),
        "skill",
        &vec![
            event("1", "a", DirectOutcome::Success, 10),
            event("2", "a", DirectOutcome::Throw, 20),
            event("3", "b", DirectOutcome::Success, 30),
            InvocationEvidence {
                production: false,
                ..event("4", "c", DirectOutcome::Oom, 40)
            },
            InvocationEvidence {
                created_at: 101,
                ..event("5", "d", DirectOutcome::Oom, 40)
            },
        ],
    )
    .unwrap();
    let again = qualify(
        &policy(),
        "skill",
        &vec![
            event("1", "a", DirectOutcome::Throw, 20),
            event("3", "b", DirectOutcome::Success, 30),
        ],
    )
    .unwrap();
    assert_eq!(statistics, again);
    assert_eq!(
        qualify(
            &policy(),
            "skill",
            &vec![
                event("1", "a", DirectOutcome::Success, 10),
                event("1", "a", DirectOutcome::Throw, 10)
            ]
        ),
        Err(PolicyError::InvocationConflict)
    );
}

#[test]
fn the_order_of_events_does_not_matter() {
    let events = vec![
        event("1", "a", DirectOutcome::Success, 90),
        event("2", "b", DirectOutcome::Timeout, 20),
        event("3", "a", DirectOutcome::Throw, 30),
        event("4", "a", DirectOutcome::Throw, 40),
        event("5", "c", DirectOutcome::Success, 10),
    ];
    let forward = qualify(&policy(), "skill", &events).unwrap();
    let reversed: Vec<InvocationEvidence> = events.iter().rev().cloned().collect();
    assert_eq!(qualify(&policy(), "skill", &reversed).unwrap(), forward);
    assert_eq!(forward.distinct_turns, 3);
    assert_eq!(forward.failures, 2);
    assert_eq!(forward.severe_faults, 1);
    assert_eq!(forward.p95_latency_us, 40);
}

#[test]
fn percentiles_are_nearest_ranks() {
    let sorted = sort_numbers(&vec![5, 1, 4, 2, 3]);
    assert_eq!(sorted, vec![1, 2, 3, 4, 5]);
    assert_eq!(nearest_rank_percentile(&sorted, 50), Some(3));
    assert_eq!(nearest_rank_percentile(&sorted, 95), Some(5));
    assert_eq!(nearest_rank_percentile(&[], 95), None);
}

fn context() -> PromotionContext {
    PromotionContext {
        candidate_id: "new".to_string(),
        predecessor_id: Some("old".to_string()),
        capability_tier: CapabilityTier::Pure,
        capability_increased: false,
        inherited_tests_passed: true,
        held_out_tests_passed: true,
        unresolved_negative_feedback: false,
        identity_valid: true,
        row_version_current: true,
        generation_current: true,
    }
}

fn many(outcome: DirectOutcome, turns: usize) -> QualifiedStatistics {
    let events = (0..turns)
        .map(|i| event(&format!("i{i}"), &format!("t{i}"), outcome, 100))
        .collect();
    qualify(&policy(), "skill", &events).unwrap()
}

fn no_findings() -> RateFindings {
    RateFindings {
        error_rate_too_high: false,
        confidence_failed: false,
        relative_latency_exceeded: false,
    }
}

#[test]
fn a_promotion_needs_every_gate() {
    let good = many(DirectOutcome::Success, 25);
    let verdict = decide_promotion(&policy(), &context(), good, Some(good), no_findings()).unwrap();
    assert_eq!(verdict.decision, PromotionDecision::Promote);
    assert!(verdict.reasons.is_empty());
    let few = many(DirectOutcome::Success, 24);
    let held = decide_promotion(&policy(), &context(), few, Some(good), no_findings()).unwrap();
    assert_eq!(held.decision, PromotionDecision::Hold);
    let effects = PromotionContext {
        capability_tier: CapabilityTier::SideEffecting,
        ..context()
    };
    assert_eq!(
        decide_promotion(&policy(), &effects, good, Some(good), no_findings())
            .unwrap()
            .decision,
        PromotionDecision::HumanReview
    );
    let mut backwards = policy();
    backwards.window_end = -1;
    assert_eq!(
        decide_promotion(&backwards, &context(), good, Some(good), no_findings()),
        Err(PolicyError::InvalidConfiguration)
    );
}

#[test]
fn a_promotion_is_judged_again_when_it_is_made() {
    let good = many(DirectOutcome::Success, 25);
    let judge = |durable: Result<PromotionPolicy, String>, context: PromotionContext| {
        revalidate_promotion(&durable, "v1", &context, good, good, no_findings())
    };
    assert!(judge(Ok(policy()), context()).is_ok());
    let reason = |durable: Result<PromotionPolicy, String>, context: PromotionContext| {
        match judge(durable, context) {
            Err(LifecycleError::PromotionHeld(reason)) => reason,
            _ => panic!("the promotion should be held"),
        }
    };
    assert_eq!(
        reason(Err("eof".to_string()), context()),
        "invalid durable policy: eof"
    );
    assert_eq!(
        reason(
            Ok(PromotionPolicy::conservative("v2".to_string(), 0, 100)),
            context()
        ),
        "durable policy version mismatch"
    );
    assert!(!reason(
        Ok(policy()),
        PromotionContext {
            unresolved_negative_feedback: true,
            ..context()
        }
    )
    .is_empty());
}

fn terminal(id: &str, kind: &str, latency_us: Option<i64>) -> TerminalRow {
    TerminalRow {
        invocation_id: id.to_string(),
        turn_id: "turn".to_string(),
        event_kind: kind.to_string(),
        latency_us,
        production: true,
        complete: true,
        created_at: 50,
    }
}

#[test]
fn evidence_is_read_from_the_ends_of_invocations() {
    assert_eq!(direct_outcome("timed_out"), Some(DirectOutcome::Timeout));
    assert_eq!(direct_outcome("invoked"), None);
    let rows = vec![
        terminal("1", "returned", Some(7)),
        terminal("2", "invoked", Some(-1)),
        terminal("3", "capability_denied", None),
        TerminalRow {
            created_at: 101,
            ..terminal("4", "threw", Some(-1))
        },
    ];
    let evidence = read_invocation_evidence(&rows, "skill", &policy()).unwrap();
    assert_eq!(evidence.len(), 2);
    assert_eq!(evidence[0].latency_us, 7);
    assert_eq!(evidence[1].outcome, DirectOutcome::CapabilityDenied);
    assert_eq!(evidence[1].latency_us, 0);
    let bad = read_invocation_evidence(&vec![terminal("1", "oom", Some(-1))], "skill", &policy());
    match bad {
        Err(LifecycleError::PromotionHeld(reason)) => assert_eq!(reason, "negative durable latency"),
        _ => panic!("a negative latency holds the promotion"),
    }
}

#[test]
fn task_outcomes_that_cannot_be_read_hold_a_promotion() {
    let row = |kind: &str, attempt: i64| TaskOutcomeRow {
        turn_id: "turn".to_string(),
        verify_passed: true,
        attempt,
        source_kind: kind.to_string(),
        source_id: None,
        production: true,
        evidence_complete: true,
        created_at: 50,
    };
    let read = read_task_outcomes(&vec![row("gate_skipped", 2)], "skill", &policy()).unwrap();
    assert_eq!(read[0].source, TaskOutcomeSource::GateSkipped);
    assert_eq!(read[0].attempt, 2);
    assert_eq!(read[0].skill_ids, vec!["skill".to_string()]);
    let reason = |rows: Vec<TaskOutcomeRow>| match read_task_outcomes(&rows, "skill", &policy()) {
        Err(LifecycleError::PromotionHeld(reason)) => reason,
        _ => panic!("the promotion should be held"),
    };
    assert_eq!(
        reason(vec![row("mystery", 1)]),
        "invalid durable task-outcome source"
    );
    assert_eq!(
        reason(vec![row("gate_skipped", -1)]),
        "invalid durable task-outcome attempt"
    );
}

fn artifact(name: &str) -> SkillArtifact {
    SkillArtifact::new(
        format!("function {name}() {{}}"),
        "d".to_string(),
        Vec::new(),
        vec![SkillExport {
            name: name.to_string(),
            signature: "()".to_string(),
        }],
        vec!["true".to_string()],
        CapabilityManifest::pure(),
    )
    .unwrap()
}

#[test]
fn the_context_of_a_promotion_is_what_is_stored() {
    let new = artifact("new");
    let old = artifact("old");
    let new_id = new.id.clone();
    let old_id = old.id.clone();
    let mut store = SkillStore::empty();
    for (artifact, status) in [(new, "canary"), (old, "active")] {
        store.revisions.push(RevisionRow {
            artifact,
            status: status.to_string(),
            supersedes_id: None,
            superseded_by_id: None,
            lineage_root_id: None,
            row_version: 2,
            evaluation_report_id: None,
            updated_at: 1,
        });
    }
    let state = |id: &str, status: LifecycleStatus| RevisionState {
        id: id.to_string(),
        status,
        supersedes_id: None,
        superseded_by_id: None,
        lineage_root_id: id.to_string(),
        row_version: 2,
    };
    let request = ReplacementTransitionRequest {
        idempotency_key: "k".to_string(),
        candidate_id: new_id.clone(),
        predecessor_id: old_id.clone(),
        candidate_row_version: 2,
        predecessor_row_version: 2,
        reason: "r".to_string(),
        snapshot: EvidenceSnapshot::new(
            new_id.clone(),
            Some(old_id.clone()),
            "v1".to_string(),
            Vec::new(),
            Vec::new(),
            2,
            Some(2),
            7,
        )
        .unwrap(),
    };
    let candidate = state(&new_id, LifecycleStatus::Canary);
    let predecessor = state(&old_id, LifecycleStatus::Active);
    let context = promotion_context(&store, &request, &candidate, &predecessor, 7).unwrap();
    assert!(context.identity_valid && context.row_version_current && context.generation_current);
    assert!(context.held_out_tests_passed && !context.capability_increased);
    assert!(!context.unresolved_negative_feedback);
    store.feedback.push(FeedbackRow {
        feedback_id: "f".to_string(),
        idempotency_key: "k".to_string(),
        skill_id: new_id,
        invocation_id: None,
        actor_id: "owner".to_string(),
        feedback_kind: "negative".to_string(),
        reason_code: "wrong".to_string(),
        reason_text: None,
        state: "active".to_string(),
        version: 1,
        created_at: 1,
        updated_at: 1,
    });
    let context = promotion_context(&store, &request, &candidate, &predecessor, 8).unwrap();
    assert!(context.unresolved_negative_feedback);
    assert!(!context.generation_current);
    let lost = ReplacementTransitionRequest {
        predecessor_id: "absent".to_string(),
        ..request
    };
    assert!(promotion_context(&store, &lost, &candidate, &predecessor, 8).is_err());
}

#[test]
fn a_promotion_is_evaluated_from_the_events_of_both() {
    let events = |skill: &str, turns: usize| -> Vec<InvocationEvidence> {
        (0..turns)
            .map(|i| InvocationEvidence {
                skill_id: skill.to_string(),
                ..event(&format!("i{i}"), &format!("t{i}"), DirectOutcome::Success, 100)
            })
            .collect()
    };
    let verdict = evaluate_promotion(
        &policy(),
        &context(),
        &events("new", 25),
        &events("old", 25),
        no_findings(),
    )
    .unwrap();
    assert_eq!(verdict.decision, PromotionDecision::Promote);
    assert_eq!(verdict.candidate.distinct_turns, 25);
    assert_eq!(verdict.predecessor.map(|s| s.successes), Some(25));
    let sparse = evaluate_promotion(
        &policy(),
        &context(),
        &events("new", 25),
        &events("old", 3),
        no_findings(),
    )
    .unwrap();
    assert_eq!(sparse.reasons, vec!["sparse_predecessor_evidence"]);
    let mut conflicting = events("old", 2);
    conflicting[1].invocation_id = conflicting[0].invocation_id.clone();
    assert_eq!(
        evaluate_promotion(
            &policy(),
            &context(),
            &events("new", 25),
            &conflicting,
            no_findings()
        ),
        Err(PolicyError::InvocationConflict)
    );
}

#[test]
fn repeated_and_distant_events_change_nothing() {
    let events = vec![
        event("a", "t1", DirectOutcome::Success, 10),
        event("b", "t2", DirectOutcome::Throw, 20),
    ];
    let statistics = qualify(&policy(), "skill", &events).unwrap();
    let mut more = events.clone();
    more.insert(0, events[1].clone());
    more.push(events[0].clone());
    more.push(InvocationEvidence {
        created_at: 101,
        ..event("a", "t3", DirectOutcome::Oom, 99)
    });
    assert_eq!(qualify(&policy(), "skill", &more).unwrap(), statistics);
}
