use skills::admission::{ProposalRecord, ProposalStatus};
use skills::lifecycle::{
    LifecycleStatus, ReplacementTransitionOutcome, RevisionState, TransitionOutcome,
};
use skills::commands::QuarantineAnswer;
use skills::operations::{OperationError, QuarantineReason};
use skills::owner::{
    activate, give_feedback, promote, ActivationEvent, ActivationProgress, ActivationStage,
    Contained, FeedbackEvent, FeedbackProgress, FeedbackStage, OwnerFailure, PromotionEvent,
    PromotionProgress, PromotionStage,
};

fn proposal(predecessor: Option<&str>, report: Option<&str>) -> Option<ProposalRecord> {
    Some(ProposalRecord {
        proposal_id: "p".to_string(),
        skill_id: "skill".to_string(),
        predecessor_id: predecessor.map(|s| s.to_string()),
        status: ProposalStatus::Approved,
        report_id: report.map(|s| s.to_string()),
        reason_code: None,
        next_attempt_at: None,
        infrastructure_attempt_count: 0,
        row_version: 1,
    })
}

fn target(proposal: Option<ProposalRecord>, status: &str) -> ActivationEvent {
    ActivationEvent::Target {
        proposal,
        status: Some(status.to_string()),
    }
}

fn next(stage: ActivationStage, event: ActivationEvent) -> ActivationStage {
    match activate("skill", stage, event) {
        ActivationProgress::Next(stage) => stage,
        ActivationProgress::Report(report) => panic!("{report:?}"),
        ActivationProgress::Failed(failure) => panic!("{failure:?}"),
    }
}

fn failure(stage: ActivationStage, event: ActivationEvent) -> String {
    match activate("skill", stage, event) {
        ActivationProgress::Failed(failure) => failure.message().expect("its own sentence"),
        _ => panic!("the activation fails"),
    }
}

#[test]
fn an_activation_goes_from_its_target_to_its_report() {
    let stage = next(
        ActivationStage::Target,
        target(proposal(None, Some("r")), "canary"),
    );
    assert!(matches!(stage, ActivationStage::Reconcile));
    let stage = next(stage, ActivationEvent::Reconciled(Ok(())));
    let stage = next(
        stage,
        ActivationEvent::Observed {
            proposal: proposal(None, Some("r")),
            row_version: Some(3),
        },
    );
    assert!(matches!(
        &stage,
        ActivationStage::Register { report_id, row_version: 3 } if report_id == "r"
    ));
    let stage = next(stage, ActivationEvent::Registered(Ok(())));
    let stage = next(stage, ActivationEvent::Authorized(Ok(())));
    let stage = next(stage, ActivationEvent::Generation(7));
    assert!(matches!(
        stage,
        ActivationStage::Activate {
            row_version: 3,
            generation: 7,
            ..
        }
    ));
    let outcome = TransitionOutcome {
        transition_id: 1,
        skill_id: "skill".to_string(),
        status: LifecycleStatus::Active,
        row_version: 4,
        desired_generation: 8,
        replayed: false,
    };
    match activate("skill", stage, ActivationEvent::Activated(Ok((outcome, true)))) {
        ActivationProgress::Report(report) => assert_eq!(
            report.render(false),
            "learned-skill activate: id=skill status=active generation=8 removal_only=true \
             idempotent=false"
        ),
        _ => panic!("the skill is active"),
    }
}

#[test]
fn an_activation_says_why_it_failed() {
    assert_eq!(
        failure(
            ActivationStage::Target,
            target(proposal(None, Some("r")), "verified")
        ),
        "learned-skill activation requires an approved canary; current status is verified"
    );
    match activate(
        "skill",
        ActivationStage::Target,
        target(proposal(None, Some("r")), "active"),
    ) {
        ActivationProgress::Report(report) => assert_eq!(
            report.render(false),
            "learned-skill activate: id=skill status=active idempotent=true"
        ),
        _ => panic!("nothing is left to do"),
    }
    assert_eq!(
        failure(
            ActivationStage::Reconcile,
            ActivationEvent::Reconciled(Err("disk".to_string()))
        ),
        "failed to reconcile learned-skill index before activation: disk"
    );
    let observed = |proposal: Option<ProposalRecord>, row_version: Option<u64>| {
        failure(
            ActivationStage::Observe,
            ActivationEvent::Observed {
                proposal,
                row_version,
            },
        )
    };
    assert_eq!(observed(None, Some(1)), "learned-skill proposal not found");
    assert_eq!(
        observed(proposal(None, None), Some(1)),
        "learned-skill evaluation report is missing"
    );
    assert_eq!(
        observed(proposal(None, Some("r")), None),
        "learned-skill revision not found"
    );
    assert_eq!(
        observed(proposal(None, Some("r")), Some(u64::MAX)),
        "learned-skill row version is out of range"
    );
    let activating = || ActivationStage::Activate {
        report_id: "r".to_string(),
        row_version: 3,
        generation: 7,
    };
    assert_eq!(
        failure(
            activating(),
            ActivationEvent::Activated(Err("refused".to_string()))
        ),
        "learned-skill activation failed: refused"
    );
    assert_eq!(
        failure(activating(), ActivationEvent::Unreadable("disk".to_string())),
        "disk"
    );
    match activate(
        "skill",
        ActivationStage::Generation {
            report_id: "r".to_string(),
            row_version: 3,
        },
        ActivationEvent::Generation(u64::MAX),
    ) {
        ActivationProgress::Failed(failed @ OwnerFailure::Plan(OperationError::Refused(_))) => {
            assert_eq!(failed.message(), None);
        }
        _ => panic!("there is no such generation"),
    }
    let stage = next(ActivationStage::Observe, ActivationEvent::Generation(1));
    assert!(matches!(stage, ActivationStage::Observe));
}

fn state(id: &str, status: LifecycleStatus, supersedes: Option<&str>) -> RevisionState {
    RevisionState {
        id: id.to_string(),
        status,
        supersedes_id: supersedes.map(|s| s.to_string()),
        superseded_by_id: None,
        lineage_root_id: "before".to_string(),
        row_version: 2,
    }
}

fn onward(stage: PromotionStage, event: PromotionEvent) -> PromotionStage {
    match promote("skill", stage, event) {
        PromotionProgress::Next(stage) => stage,
        PromotionProgress::Report(report) => panic!("{report:?}"),
        PromotionProgress::Failed(failure) => panic!("{failure:?}"),
    }
}

#[test]
fn a_promotion_looks_at_both_before_it_records_anything() {
    let replacement = || proposal(Some("before"), Some("r"));
    let stage = onward(PromotionStage::Reconcile, PromotionEvent::Reconciled(Ok(())));
    let stage = onward(stage, PromotionEvent::Proposal(replacement()));
    let canary = state("skill", LifecycleStatus::Canary, Some("before"));
    let stage = onward(stage, PromotionEvent::Candidate(canary));
    assert!(matches!(
        &stage,
        PromotionStage::Predecessor { predecessor_id, .. } if predecessor_id == "before"
    ));
    let stage = onward(
        stage,
        PromotionEvent::Predecessor {
            state: state("before", LifecycleStatus::Quarantined, None),
            generation: 5,
        },
    );
    assert!(matches!(stage, PromotionStage::Register { .. }));
    let stage = onward(stage, PromotionEvent::Registered(Ok(())));
    assert!(matches!(stage, PromotionStage::Record { .. }));
    let stage = onward(stage, PromotionEvent::Recorded(Ok(())));
    let stage = onward(stage, PromotionEvent::Authorized(Ok(())));
    let outcome = ReplacementTransitionOutcome {
        candidate_status: LifecycleStatus::Active,
        predecessor_status: LifecycleStatus::Superseded,
        candidate_row_version: 3,
        predecessor_row_version: 3,
        desired_generation: 6,
        replayed: false,
    };
    match promote("skill", stage, PromotionEvent::Promoted(Ok((outcome, false)))) {
        PromotionProgress::Report(report) => assert_eq!(
            report.render(false),
            "learned-skill promote: id=skill status=active predecessor=before \
             predecessor_status=superseded generation=6 removal_only=false idempotent=false"
        ),
        _ => panic!("the replacement is active"),
    }
}

#[test]
fn a_promotion_says_why_it_failed() {
    let failure = |stage: PromotionStage, event: PromotionEvent| match promote("skill", stage, event)
    {
        PromotionProgress::Failed(failure) => failure.message().expect("its own sentence"),
        _ => panic!("the promotion fails"),
    };
    assert_eq!(
        failure(
            PromotionStage::Reconcile,
            PromotionEvent::Reconciled(Err("disk".to_string()))
        ),
        "failed to reconcile the learned-skill index before promotion: disk"
    );
    assert_eq!(
        failure(PromotionStage::Proposal, PromotionEvent::Proposal(None)),
        "learned-skill proposal not found"
    );
    assert!(failure(
        PromotionStage::Proposal,
        PromotionEvent::Proposal(proposal(None, Some("r")))
    )
    .contains("is a lineage root with no predecessor"));
    let looking = || PromotionStage::Candidate {
        proposal: proposal(Some("before"), Some("r")).unwrap(),
    };
    assert!(failure(
        looking(),
        PromotionEvent::Candidate(state("skill", LifecycleStatus::Canary, None))
    )
    .contains("supersedes nothing"));
    match promote(
        "skill",
        looking(),
        PromotionEvent::Candidate(state("skill", LifecycleStatus::Active, Some("before"))),
    ) {
        PromotionProgress::Report(report) => assert_eq!(
            report.render(false),
            "learned-skill promote: id=skill status=active predecessor=before idempotent=true"
        ),
        _ => panic!("nothing is left to do"),
    }
    match promote(
        "skill",
        PromotionStage::Predecessor {
            predecessor_id: "before".to_string(),
            report_id: Some("r".to_string()),
            candidate: state("skill", LifecycleStatus::Canary, Some("before")),
        },
        PromotionEvent::Predecessor {
            state: state("before", LifecycleStatus::Retired, None),
            generation: 5,
        },
    ) {
        PromotionProgress::Failed(OwnerFailure::Plan(OperationError::Refused(reason))) => {
            assert!(reason.contains("predecessor before is retired"), "{reason}");
        }
        _ => panic!("a retired predecessor is not replaced"),
    }
}

fn feedback(kind: &str, stage: FeedbackStage, event: FeedbackEvent) -> FeedbackStage {
    match give_feedback("skill", kind, stage, event) {
        FeedbackProgress::Next(stage) => stage,
        FeedbackProgress::Report(report) => panic!("{report:?}"),
        FeedbackProgress::Failed(failure) => panic!("{failure:?}"),
    }
}

fn report(kind: &str, stage: FeedbackStage, status: Option<&str>) -> String {
    let status = FeedbackEvent::Status(status.map(|s| s.to_string()));
    match give_feedback("skill", kind, stage, status) {
        FeedbackProgress::Report(report) => report.render(false),
        _ => panic!("the feedback is reported"),
    }
}

#[test]
fn severe_feedback_is_stored_and_then_contains_its_target() {
    let stage = feedback("severe", FeedbackStage::Check, FeedbackEvent::Begun);
    assert!(matches!(stage, FeedbackStage::Submit));
    let stage = feedback("severe", stage, FeedbackEvent::Submitted(Ok("f".to_string())));
    assert!(matches!(stage, FeedbackStage::Target { .. }));
    let stage = feedback(
        "severe",
        stage,
        FeedbackEvent::Target(Some("active".to_string())),
    );
    let stage = feedback("severe", stage, FeedbackEvent::Reconciled(Ok(())));
    let observed = || FeedbackEvent::Observed {
        row_version: Some(2),
        desired_generation: 5,
        applied_generation: 5,
    };
    let stage = feedback("severe", stage, observed());
    assert!(matches!(
        stage,
        FeedbackStage::Quarantine {
            from: LifecycleStatus::Active,
            reason: QuarantineReason::AuthenticatedActiveIntegrityFeedback,
            row_version: 2,
            desired_generation: 5,
            applied_generation: 5,
            ..
        }
    ));
    let stage = feedback(
        "severe",
        stage,
        FeedbackEvent::Quarantined(QuarantineAnswer::Applied),
    );
    assert_eq!(
        report("severe", stage, Some("quarantined")),
        "learned-skill feedback: id=skill feedback_id=f kind=severe status=quarantined \
         quarantine=applied quarantine_reason=-"
    );
    let held = FeedbackStage::Status {
        feedback_id: "f".to_string(),
        contained: Contained::Held("stale".to_string()),
    };
    assert!(report("severe", held, None)
        .ends_with("status=absent quarantine=held quarantine_reason=stale"));
}

#[test]
fn feedback_that_contains_nothing_says_so() {
    let stage = feedback(
        "negative",
        FeedbackStage::Submit,
        FeedbackEvent::Submitted(Ok("f".to_string())),
    );
    assert!(report("negative", stage, Some("active"))
        .ends_with("quarantine=not_applicable quarantine_reason=-"));
    let target = || FeedbackStage::Target {
        feedback_id: "f".to_string(),
    };
    let stage = feedback(
        "severe",
        target(),
        FeedbackEvent::Target(Some("verified".to_string())),
    );
    assert!(report("severe", stage, Some("verified"))
        .ends_with("quarantine=skipped quarantine_reason=ineligible_status:verified"));
    let failure = |kind: &str, stage: FeedbackStage, event: FeedbackEvent| {
        match give_feedback("skill", kind, stage, event) {
            FeedbackProgress::Failed(failure) => failure.message().expect("its own sentence"),
            _ => panic!("the feedback fails"),
        }
    };
    assert_eq!(
        failure("loud", FeedbackStage::Check, FeedbackEvent::Begun),
        "invalid learned-skill feedback kind"
    );
    assert_eq!(
        failure(
            "severe",
            FeedbackStage::Submit,
            FeedbackEvent::Submitted(Err("disk".to_string()))
        ),
        "learned-skill feedback submission failed: disk"
    );
    assert_eq!(
        failure("severe", target(), FeedbackEvent::Target(None)),
        "feedback target disappeared"
    );
    let reason = QuarantineReason::AuthenticatedCanarySafetyFeedback;
    let observing = || FeedbackStage::Observe {
        feedback_id: "f".to_string(),
        from: LifecycleStatus::Canary,
        reason,
    };
    let observed = |row_version: Option<u64>, desired_generation: u64| FeedbackEvent::Observed {
        row_version,
        desired_generation,
        applied_generation: 0,
    };
    assert_eq!(
        failure("severe", observing(), observed(None, 0)),
        "feedback target disappeared before quarantine"
    );
    assert_eq!(
        failure("severe", observing(), observed(Some(u64::MAX), 0)),
        "feedback target row version is out of range"
    );
    assert_eq!(
        failure("severe", observing(), observed(Some(1), u64::MAX)),
        "feedback target generation is out of range"
    );
    assert_eq!(
        failure(
            "severe",
            FeedbackStage::Reconcile {
                feedback_id: "f".to_string(),
                from: LifecycleStatus::Canary,
                reason,
            },
            FeedbackEvent::Reconciled(Err("disk".to_string()))
        ),
        "failed to reconcile the learned-skill index before quarantine: disk"
    );
    assert_eq!(
        failure(
            "severe",
            FeedbackStage::Quarantine {
                feedback_id: "f".to_string(),
                from: LifecycleStatus::Canary,
                reason,
                row_version: 1,
                desired_generation: 1,
                applied_generation: 1,
            },
            FeedbackEvent::Quarantined(QuarantineAnswer::Failed)
        ),
        "severe feedback was stored but quarantine failed"
    );
}
