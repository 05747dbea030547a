use skills::admission::{
    admission_error_kind, capability_is_non_escalating, check_worker_id, classify_held_out,
    classify_store, classify_verification, conclude_admission, evaluate_lease, evaluate_next,
    prepare_review, request_reevaluation, review_and_admit, worker_action, AdmissionError, AuthenticatedHumanDecision,
    CanaryApprovalResult, CurrentAnswers, EvaluationFailure, EvaluationReportRecord, GateAnswers,
    LeaseEvent, LeaseStage, LeaseStep, PreparedReview, ProposalLease, ProposalRecord,
    ProposalStatus, ReviewAction, ReviewAnswers, ReviewDecision, ReviewOutcome, Settlement,
    Settling, WorkerAction,
};
use skills::artifact::{
    CapabilityManifest, CapabilityTier, HostCapability, SkillArtifact, SkillExport,
};
use skills::embed::ModelMetadata;
use skills::lifecycle::ApprovalTransition;
use skills::fakes::FAKES_VERSION;
use skills::held_out::{
    HeldOutError, HeldOutEvaluationReport, StoreFailure, TestResult, VerificationError,
};

const VERIFIER: u32 = 5;

#[test]
fn verification_scheduler_queue_outage_is_retryable_admission_infrastructure() {
    let failure = classify_verification(
        &VerificationError::InfrastructureUnavailable("queue full".into()),
        "embedded_test_failed",
        "embedded verification failed",
    );
    assert!(matches!(failure, EvaluationFailure::Infrastructure { .. }));
}

fn artifact_with(manifest: CapabilityManifest) -> SkillArtifact {
    SkillArtifact::new(
        "function f(_cap) { return 1; }".to_string(),
        "Do f.".to_string(),
        vec!["t".to_string()],
        vec![SkillExport {
            name: "f".to_string(),
            signature: "() => number".to_string(),
        }],
        vec!["f() === 1".to_string()],
        manifest,
    )
    .unwrap()
}

fn artifact() -> SkillArtifact {
    artifact_with(CapabilityManifest::pure())
}

fn lease(attempt: u32, predecessor: Option<&str>) -> ProposalLease {
    ProposalLease {
        proposal_id: "proposal".to_string(),
        skill_id: artifact().id,
        predecessor_id: predecessor.map(|p| p.to_string()),
        attempt,
        row_version: 1,
        lease_expires_at: 30,
    }
}

fn model() -> ModelMetadata {
    ModelMetadata {
        model_id: "m".to_string(),
        model_revision: "r".to_string(),
        dimensions: 2,
        normalized: true,
    }
}

fn held_out() -> HeldOutEvaluationReport {
    HeldOutEvaluationReport {
        report_id: "h".to_string(),
        skill_id: artifact().id,
        predecessor_id: None,
        suite_hashes: vec!["hash".to_string()],
        verifier_version: VERIFIER,
        fakes_version: FAKES_VERSION,
        embedded_passed: true,
        inherited_passed: true,
        cases: Vec::new(),
    }
}

fn step(lease: &ProposalLease, stage: LeaseStage, event: LeaseEvent) -> LeaseStep {
    evaluate_lease(lease, stage, event, &model(), VERIFIER, 100)
}

fn next(lease: &ProposalLease, stage: LeaseStage, event: LeaseEvent) -> LeaseStage {
    match step(lease, stage, event) {
        LeaseStep::Next(stage) => stage,
        _ => panic!("the evaluation should go on"),
    }
}

fn failure(lease: &ProposalLease, stage: LeaseStage, event: LeaseEvent) -> EvaluationFailure {
    match step(lease, stage, event) {
        LeaseStep::Failed(failure) => failure,
        _ => panic!("the evaluation should fail"),
    }
}

fn rejected(code: &'static str, detail: &'static str) -> EvaluationFailure {
    EvaluationFailure::Deterministic { code, detail }
}

#[test]
fn an_evaluation_passes_through_every_gate_in_order() {
    let lease = lease(1, None);
    let stage = next(
        &lease,
        LeaseStage::Artifact,
        LeaseEvent::Artifact(Ok(Some(artifact()))),
    );
    let stage = next(&lease, stage, LeaseEvent::Duplicate(Ok(false)));
    // An answer to another stage changes nothing.
    let stage = next(&lease, stage, LeaseEvent::Completion(Ok(())));
    let stage = next(&lease, stage, LeaseEvent::HeldOut(Ok(held_out())));
    let stage = next(&lease, stage, LeaseEvent::Embedding(Ok(vec![vec![1, 2]])));
    match &stage {
        LeaseStage::StoredEmbedding { embedding, .. } => assert_eq!(embedding, &vec![1u8, 2]),
        _ => panic!("the vector should be stored next"),
    }
    let stage = next(&lease, stage, LeaseEvent::StoredEmbedding(Ok(())));
    match &stage {
        LeaseStage::ReportId { draft } => {
            assert_eq!(draft.proposal_id, "proposal");
            assert_eq!(draft.outcome, "passed");
        }
        _ => panic!("the id of the report should be derived next"),
    }
    // Nothing completes before the report has its id.
    let stage = next(&lease, stage, LeaseEvent::Completion(Ok(())));
    let stage = next(&lease, stage, LeaseEvent::ReportId("derived".to_string()));
    match &stage {
        LeaseStage::Completion { report } => assert_eq!(report.report_id, "derived"),
        _ => panic!("the report should be completed next"),
    }
    let report = match step(&lease, stage, LeaseEvent::Completion(Ok(()))) {
        LeaseStep::Passed(report) => report,
        _ => panic!("the evaluation should pass"),
    };
    assert_eq!(report.report_id, "derived");
    assert_eq!(report.outcome, "passed");
    assert_eq!(report.suite_hashes, vec!["hash".to_string()]);
    assert_eq!(report.embedding_model_id, Some("m".to_string()));
    assert!(report.summary_json.contains("\"held_out_case_count\":0"));
    assert_eq!(report.created_at, 100);
}

#[test]
fn each_gate_rejects_for_its_own_reason() {
    let plain = lease(1, None);
    assert_eq!(
        failure(&plain, LeaseStage::Artifact, LeaseEvent::Artifact(Ok(None))),
        rejected("identity_invalid", "artifact missing")
    );
    let mut tampered = artifact();
    tampered.source.push(' ');
    assert_eq!(
        failure(
            &plain,
            LeaseStage::Artifact,
            LeaseEvent::Artifact(Ok(Some(tampered)))
        ),
        rejected("identity_invalid", "artifact identity mismatch")
    );
    let replacing = lease(1, Some("before"));
    let stage = next(
        &replacing,
        LeaseStage::Artifact,
        LeaseEvent::Artifact(Ok(Some(artifact()))),
    );
    assert_eq!(
        failure(&replacing, stage, LeaseEvent::Predecessor(Ok(None))),
        rejected("inherited_regression_failed", "predecessor missing")
    );
    let wide = artifact_with(
        CapabilityManifest::new(CapabilityTier::ReadOnly, vec![HostCapability::ReadFile]).unwrap(),
    );
    assert_eq!(
        failure(
            &replacing,
            LeaseStage::Predecessor { artifact: wide },
            LeaseEvent::Predecessor(Ok(Some(artifact())))
        ),
        rejected("contract_invalid", "replacement capability escalation")
    );
    let duplicate = LeaseStage::Duplicate {
        artifact: artifact(),
        predecessor: None,
    };
    assert_eq!(
        failure(&plain, duplicate, LeaseEvent::Duplicate(Ok(true))),
        rejected(
            "duplicate_skill",
            "active skill has the same normalized contract"
        )
    );
    let empty = LeaseStage::Embedding {
        artifact: artifact(),
        held_out: held_out(),
    };
    assert_eq!(
        failure(&plain, empty, LeaseEvent::Embedding(Ok(Vec::new()))),
        EvaluationFailure::Retryable {
            code: "embedding_unavailable",
            error: "embedding result missing".to_string()
        }
    );
}

#[test]
fn failures_are_told_apart() {
    assert_eq!(
        classify_store(StoreFailure::Corrupt("x".into())),
        rejected("identity_invalid", "stored artifact is corrupt")
    );
    assert_eq!(
        classify_store(StoreFailure::Other("busy".into())),
        EvaluationFailure::Retryable {
            code: "evaluation_infrastructure_unavailable",
            error: "busy".to_string()
        }
    );
    let limit = rejected(
        "verification_resource_limit",
        "verification resource limit exceeded",
    );
    let plain = rejected("embedded_test_failed", "embedded verification failed");
    let embedded = |error: VerificationError| classify_held_out(HeldOutError::Embedded(error));
    assert_eq!(
        embedded(VerificationError::TestFailed {
            outcome: TestResult::Timeout
        }),
        limit
    );
    assert_eq!(
        embedded(VerificationError::TestFailed {
            outcome: TestResult::Failed
        }),
        plain
    );
    assert_eq!(
        embedded(VerificationError::SourceEvaluationFailed(
            "Out Of Memory".to_string()
        )),
        limit
    );
    assert_eq!(
        embedded(VerificationError::MutationPassFailed {
            reason: "no mutation".to_string()
        }),
        plain
    );
    assert_eq!(embedded(VerificationError::Other("timeout".into())), plain);
    assert_eq!(
        classify_held_out(HeldOutError::SuiteRequired),
        EvaluationFailure::SuiteRequired
    );
    assert_eq!(
        classify_held_out(HeldOutError::TamperedSuite("s".into())),
        rejected("held_out_failed", "held-out suite is invalid")
    );
    assert_eq!(
        classify_held_out(HeldOutError::UnsupportedVersion(9)),
        rejected("held_out_failed", "held-out suite is unsupported")
    );
    assert_eq!(
        classify_held_out(HeldOutError::CaseFailed {
            suite_id: "s".into(),
            case_index: 0
        }),
        rejected("held_out_failed", "held-out verification failed")
    );
}

/// Settles under the id `derived` where there is a report.
fn settled(settling: Settling) -> Settlement {
    match settling {
        Settling::Settled(settlement) => settlement,
        Settling::Report(failure) => failure.with_id("derived".to_string()),
    }
}

#[test]
fn an_outage_is_retried_and_a_failure_only_within_its_budget() {
    let settle = |attempt: u32, failure: EvaluationFailure| {
        settled(evaluate_next(
            &lease(attempt, None),
            Err(failure),
            3,
            VERIFIER,
            1000,
        ))
    };
    let busy = || EvaluationFailure::Retryable {
        code: "embedding_unavailable",
        error: "busy".to_string(),
    };
    match settle(2, busy()) {
        Settlement::Retry {
            next_attempt_at,
            error,
        } => {
            assert_eq!(next_attempt_at, 1002);
            assert_eq!(error, AdmissionError::Retryable("busy".to_string()));
        }
        other => panic!("{other:?}"),
    }
    match settle(3, busy()) {
        Settlement::Reject { report, code } => {
            assert_eq!(code, "embedding_unavailable");
            assert_eq!(report.reason_code, Some("embedding_unavailable".to_string()));
            assert!(report.summary_json.contains("retry budget exhausted"));
            assert_eq!(report.outcome, "rejected");
            assert_eq!(report.report_id, "derived");
        }
        other => panic!("{other:?}"),
    }
    match settle(
        99,
        EvaluationFailure::Infrastructure {
            error: "down".to_string(),
        },
    ) {
        Settlement::RetryOutage {
            next_attempt_at, ..
        } => assert_eq!(next_attempt_at, 1000 + 256),
        other => panic!("{other:?}"),
    }
    match settle(1, EvaluationFailure::SuiteRequired) {
        Settlement::Block { report, code } => {
            assert_eq!(code, "held_out_suite_required");
            assert_eq!(report.outcome, "retryable");
            assert_eq!(report.report_id, "derived");
            assert!(report.summary_json.contains("\"result\":\"blocked\""));
        }
        other => panic!("{other:?}"),
    }
    let renewed = lease(1, None).renew(7, i64::MAX);
    assert_eq!(renewed.row_version, 7);
    assert_eq!(renewed.lease_expires_at, i64::MAX);
}

#[test]
fn a_replacement_may_only_narrow_its_capability() {
    let pure = CapabilityManifest::pure();
    let reader =
        CapabilityManifest::new(CapabilityTier::ReadOnly, vec![HostCapability::ReadFile]).unwrap();
    let writer = CapabilityManifest::new(
        CapabilityTier::SideEffecting,
        vec![HostCapability::WriteFile],
    )
    .unwrap();
    assert!(capability_is_non_escalating(&pure, &reader));
    assert!(capability_is_non_escalating(&reader, &reader));
    assert!(!capability_is_non_escalating(&reader, &pure));
    assert!(!capability_is_non_escalating(&reader, &writer));
}

#[test]
fn workers_have_names_and_errors_have_kinds() {
    assert!(check_worker_id("worker-1").is_ok());
    assert_eq!(check_worker_id("  "), Err(AdmissionError::InvalidWorker));
    assert_eq!(
        check_worker_id(&"w".repeat(257)),
        Err(AdmissionError::InvalidWorker)
    );
    assert_eq!(admission_error_kind(&AdmissionError::StaleReview), "stale_review");
    assert_eq!(
        AdmissionError::NotFound("p".to_string()).message(),
        "proposal not found: p"
    );
    assert_eq!(
        AdmissionError::Store(StoreFailure::Other("disk".into())).message(),
        "disk"
    );
}

fn proposal(status: ProposalStatus) -> ProposalRecord {
    ProposalRecord {
        proposal_id: "proposal".to_string(),
        skill_id: artifact().id,
        predecessor_id: None,
        status,
        report_id: Some("report".to_string()),
        reason_code: None,
        next_attempt_at: None,
        infrastructure_attempt_count: 0,
        row_version: 8,
    }
}

fn report() -> EvaluationReportRecord {
    EvaluationReportRecord {
        report_id: "report".to_string(),
        proposal_id: "proposal".to_string(),
        skill_id: artifact().id,
        attempt: 1,
        verifier_version: VERIFIER,
        fakes_version: FAKES_VERSION,
        suite_hashes: vec!["hash".to_string()],
        predecessor_id: None,
        embedding_model_id: Some("m".to_string()),
        embedding_model_revision: Some("r".to_string()),
        outcome: "passed".to_string(),
        reason_code: None,
        summary_json: "{}".to_string(),
        created_at: 1,
    }
}

fn gates() -> GateAnswers {
    GateAnswers {
        predecessor: Ok(None),
        duplicate: Ok(false),
        held_out: Ok(held_out()),
        compatible_embedding: Ok(true),
    }
}

fn answers(status: ProposalStatus) -> ReviewAnswers {
    ReviewAnswers {
        proposal: Ok(Some(proposal(status))),
        canary: Ok(None),
        report: Ok(Some(report())),
        artifact: Ok(Some(artifact())),
        gates: gates(),
        artifact_version: Ok(Some(4)),
    }
}

fn current() -> CurrentAnswers {
    CurrentAnswers {
        proposal: Ok(Some(proposal(ProposalStatus::AwaitingApproval))),
        report: Ok(Some(report())),
        artifact: Ok(Some(artifact())),
        artifact_version: Ok(Some(4)),
        gates: gates(),
        manifest_digest: Ok("manifest".to_string()),
    }
}

fn approval(authenticated_at: i64) -> ReviewDecision {
    ReviewDecision::Approve(AuthenticatedHumanDecision::verified(
        "decision".to_string(),
        "owner".to_string(),
        authenticated_at,
    ))
}

fn refusal(answers: ReviewAnswers) -> AdmissionError {
    prepare_review("proposal", answers, VERIFIER)
        .err()
        .expect("the review should be refused")
}

#[test]
fn a_review_begins_only_on_a_proposal_that_awaits_it() {
    let mut missing = answers(ProposalStatus::AwaitingApproval);
    missing.proposal = Ok(None);
    assert_eq!(
        refusal(missing),
        AdmissionError::NotFound("proposal".to_string())
    );
    assert_eq!(
        refusal(answers(ProposalStatus::Pending)),
        AdmissionError::NotAwaitingApproval
    );
    assert_eq!(
        refusal(answers(ProposalStatus::Approved)),
        AdmissionError::NotAwaitingApproval
    );
    let mut done = answers(ProposalStatus::Approved);
    let result = CanaryApprovalResult {
        skill_id: "s".to_string(),
        generation: 2,
        idempotent: true,
    };
    done.canary = Ok(Some(result.clone()));
    match prepare_review("proposal", done, VERIFIER) {
        Ok(PreparedReview::Admitted(found)) => assert_eq!(found, result),
        _ => panic!("an approved proposal is admitted already"),
    }
    let mut unreported = answers(ProposalStatus::AwaitingApproval);
    unreported.report = Ok(None);
    assert_eq!(refusal(unreported), AdmissionError::MissingReport);
    let mut duplicate = answers(ProposalStatus::AwaitingApproval);
    duplicate.gates.duplicate = Ok(true);
    assert_eq!(refusal(duplicate), AdmissionError::StaleReview);
    let mut moved = answers(ProposalStatus::AwaitingApproval);
    moved.gates.held_out = Ok(HeldOutEvaluationReport {
        suite_hashes: vec!["other".to_string()],
        ..held_out()
    });
    assert_eq!(refusal(moved), AdmissionError::StaleReview);
}

#[test]
fn an_approval_binds_exactly_what_was_reviewed() {
    let subject = match prepare_review(
        "proposal",
        answers(ProposalStatus::AwaitingApproval),
        VERIFIER,
    ) {
        Ok(PreparedReview::Subject(subject)) => subject,
        _ => panic!("the review should begin"),
    };
    let packet = subject.packet();
    assert_eq!(packet.proposal_id, "proposal");
    assert!(packet.artifact.same(&artifact()));

    match review_and_admit(&subject, approval(900), current(), VERIFIER, 1000).unwrap() {
        ReviewAction::Approve {
            authorization,
            approval,
        } => {
            assert_eq!(authorization.authorization_id, "decision");
            assert_eq!(authorization.expires_at, 1300);
            assert_eq!(authorization.manifest_digest, "manifest");
            assert_eq!(authorization.transition, ApprovalTransition::VerifiedToCanary);
            assert_eq!(authorization.report_id, "report");
            assert_eq!(authorization.artifact_id, artifact().id);
            assert_eq!(approval.expected_artifact_version, 4);
            assert_eq!(approval.expected_proposal_version, 8);
        }
        other => panic!("{other:?}"),
    }
    // Too old, or from the future.
    for authenticated_at in [699, 1001, i64::MIN] {
        assert_eq!(
            review_and_admit(&subject, approval(authenticated_at), current(), VERIFIER, 1000),
            Err(AdmissionError::UnauthenticatedApproval)
        );
    }
    // Anything that moved makes the review stale.
    let mut moved = current();
    moved.artifact_version = Ok(Some(5));
    assert_eq!(
        review_and_admit(&subject, approval(1000), moved, VERIFIER, 1000),
        Err(AdmissionError::StaleReview)
    );
    let mut undigested = current();
    undigested.manifest_digest = Err(StoreFailure::Other("disk".to_string()));
    assert_eq!(
        review_and_admit(&subject, approval(1000), undigested, VERIFIER, 1000),
        Err(AdmissionError::Store(StoreFailure::Other(
            "disk".to_string()
        )))
    );
    let mut gone = current();
    gone.report = Ok(None);
    assert_eq!(
        review_and_admit(&subject, approval(1000), gone, VERIFIER, 1000),
        Err(AdmissionError::StaleReview)
    );
    match review_and_admit(
        &subject,
        ReviewDecision::Deny {
            reason_code: "no".to_string(),
        },
        current(),
        VERIFIER,
        1000,
    )
    .unwrap()
    {
        ReviewAction::Deny {
            expected_proposal_version,
            reason_code,
            ..
        } => {
            assert_eq!(expected_proposal_version, 8);
            assert_eq!(reason_code, "no");
        }
        other => panic!("{other:?}"),
    }
    assert_eq!(
        review_and_admit(&subject, ReviewDecision::TimedOut, current(), VERIFIER, 1000),
        Ok(ReviewAction::TimedOut)
    );
}

#[test]
fn a_canary_that_became_retrievable_is_an_error() {
    let result = || CanaryApprovalResult {
        skill_id: "s".to_string(),
        generation: 2,
        idempotent: false,
    };
    assert_eq!(
        conclude_admission(result(), Ok(false)),
        Ok(ReviewOutcome::Canary(result()))
    );
    assert_eq!(
        conclude_admission(result(), Ok(true)),
        Err(AdmissionError::CanaryBecameRetrievable)
    );
}

#[test]
fn a_settlement_is_answered_once_it_is_written() {
    let failure = || StoreFailure::Other("disk".to_string());
    let settle = |failure: EvaluationFailure| {
        settled(evaluate_next(
            &lease(1, None),
            Err(failure),
            3,
            VERIFIER,
            1000,
        ))
    };
    let blocked = settle(EvaluationFailure::SuiteRequired);
    let answered = blocked.clone().conclude(Ok(())).unwrap();
    assert_eq!(answered.outcome, "retryable");
    assert_eq!(answered.report_id, "derived");
    assert_eq!(answered.proposal_id, "proposal");
    assert_eq!(
        blocked.conclude(Err(failure())),
        Err(AdmissionError::Store(failure()))
    );
    let outage = settle(EvaluationFailure::Infrastructure {
        error: "queue full".to_string(),
    });
    assert_eq!(
        outage.clone().conclude(Ok(())),
        Err(AdmissionError::Retryable("queue full".to_string()))
    );
    assert_eq!(
        outage.conclude(Err(failure())),
        Err(AdmissionError::Store(failure()))
    );
}

#[test]
fn the_worker_warns_of_what_a_retry_does_not_cure() {
    assert_eq!(worker_action(&Ok(None)), WorkerAction::Wait);
    assert_eq!(
        worker_action(&Err(AdmissionError::Retryable("later".to_string()))),
        WorkerAction::Wait
    );
    assert_eq!(
        worker_action(&Err(AdmissionError::StaleReview)),
        WorkerAction::Warn("stale_review")
    );
}

#[test]
fn an_unknown_proposal_cannot_be_evaluated_again() {
    assert_eq!(
        request_reevaluation("p", Ok(None)),
        Err(AdmissionError::NotFound("p".to_string()))
    );
    let failure = StoreFailure::Other("disk".to_string());
    assert_eq!(
        request_reevaluation("p", Err(failure.clone())),
        Err(AdmissionError::Store(failure))
    );
}
