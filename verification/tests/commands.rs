use skills::admission::{CanaryApprovalResult, ProposalRecord, ProposalStatus, ReviewOutcome};
use skills::commands::{
    activate_report, begin_wait, check_package, compact_report, compaction_cutoff,
    disable_suite_report, import_target, live_revision_status, load_proposal, needs_attention,
    needs_requeue, promote_report, queue_total_line, reject_report, retire_report,
    review_proposal, run, seed_report, settle_quarantine, submit_feedback, Command,
    FeedbackOperation, ImportTarget, LibraryOperation, PurgeOperation, QuarantineAnswer,
    QUEUE_HEADER,
};
use skills::feedback::{ActorKind, FeedbackKind};
use skills::lifecycle::{LifecycleStatus, ReplacementTransitionOutcome, TransitionOutcome};
use skills::operations::{import_report, ProposalQueueRow};

fn feedback(kind: &str) -> FeedbackOperation {
    FeedbackOperation {
        skill_id: "s".to_string(),
        invocation_id: None,
        kind: kind.to_string(),
        reason_code: "wrong_result".to_string(),
        idempotency_key: "key".to_string(),
    }
}

fn proposal(status: ProposalStatus, reason: Option<&str>) -> ProposalRecord {
    ProposalRecord {
        proposal_id: "p".to_string(),
        skill_id: "s".to_string(),
        predecessor_id: None,
        status,
        report_id: None,
        reason_code: reason.map(str::to_string),
        next_attempt_at: None,
        infrastructure_attempt_count: 2,
        row_version: 1,
    }
}

#[test]
fn one_command_runs_and_the_library_goes_first() {
    let purge = PurgeOperation {
        skill_id: "s".to_string(),
        force: true,
    };
    assert_eq!(
        run(
            Some(purge.clone()),
            true,
            Some(feedback("severe")),
            Some(LibraryOperation::ListSuites)
        ),
        Some(Command::Library(LibraryOperation::ListSuites))
    );
    assert_eq!(
        run(Some(purge.clone()), true, None, None),
        Some(Command::Purge(purge))
    );
    assert_eq!(
        run(None, true, Some(feedback("severe")), None),
        Some(Command::Compact)
    );
    assert_eq!(
        run(None, false, Some(feedback("severe")), None),
        Some(Command::Feedback(feedback("severe")))
    );
    assert_eq!(run(None, false, None, None), None);
}

#[test]
fn compaction_looks_back_without_wrapping() {
    assert_eq!(compaction_cutoff(1000, 400), 600);
    assert_eq!(compaction_cutoff(i64::MIN, 1), i64::MIN);
    assert_eq!(compaction_cutoff(i64::MAX, -1), i64::MAX);
    assert_eq!(
        compact_report(3, 9).render(false),
        "learned-skill compact: events=3 through_event_id=9"
    );
}

#[test]
fn reports_say_what_changed() {
    assert_eq!(
        disable_suite_report("suite", true).render(false),
        "learned-skill disable-suite: id=suite enabled=false idempotent=false"
    );
    assert_eq!(
        retire_report("s", "retired", Some(4)).render(false),
        "learned-skill retire: id=s status=retired generation=4 idempotent=false"
    );
    assert_eq!(
        retire_report("s", "retired", None).render(false),
        "learned-skill retire: id=s status=retired idempotent=true"
    );
    assert_eq!(
        reject_report("s", "rejected").render(false),
        "learned-skill reject: id=s status=rejected idempotent=false"
    );
    let activated = TransitionOutcome {
        transition_id: 1,
        skill_id: "s".to_string(),
        status: LifecycleStatus::Active,
        row_version: 3,
        desired_generation: 5,
        replayed: false,
    };
    assert_eq!(
        activate_report("s", Some((&activated, false))).render(false),
        "learned-skill activate: id=s status=active generation=5 removal_only=false \
         idempotent=false"
    );
    assert_eq!(
        activate_report("s", None).render(false),
        "learned-skill activate: id=s status=active idempotent=true"
    );
    let promoted = ReplacementTransitionOutcome {
        candidate_status: LifecycleStatus::Active,
        predecessor_status: LifecycleStatus::Superseded,
        candidate_row_version: 3,
        predecessor_row_version: 4,
        desired_generation: 6,
        replayed: false,
    };
    assert_eq!(
        promote_report("s", "o", Some((&promoted, true))).render(false),
        "learned-skill promote: id=s status=active predecessor=o predecessor_status=superseded \
         generation=6 removal_only=true idempotent=false"
    );
    assert_eq!(
        promote_report("s", "o", None).render(false),
        "learned-skill promote: id=s status=active predecessor=o idempotent=true"
    );
    assert_eq!(live_revision_status(None), "absent");
    assert_eq!(live_revision_status(Some("canary".to_string())), "canary");
}

#[test]
fn a_proposal_is_found_in_any_status() {
    let row = |proposal: &str, skill: &str, status: &str| ProposalQueueRow {
        proposal_id: proposal.to_string(),
        skill_id: skill.to_string(),
        status: status.to_string(),
        reason_code: None,
        report_id: None,
        created_at: 1,
        updated_at: 2,
    };
    let rows = vec![row("p1", "s1", "pending"), row("p2", "s2", "rejected")];
    assert_eq!(load_proposal(&rows, "p2"), Some(1));
    assert_eq!(load_proposal(&rows, "s1"), Some(0));
    assert_eq!(load_proposal(&rows, "none"), None);
    assert!(needs_attention(&rows[1]));
    assert!(!needs_attention(&rows[0]));
    assert_eq!(queue_total_line(2), "total\t2\t-\t-\t-\t-\t-");
    assert_eq!(QUEUE_HEADER.split('\t').count(), 7);
}

#[test]
fn feedback_targets_its_own_skill_as_the_owner() {
    let (command, actor) = submit_feedback(&feedback("severe")).unwrap();
    assert_eq!(command.kind, FeedbackKind::Severe);
    assert_eq!(command.idempotency_key, "key");
    assert_eq!(command.reason_text, None);
    assert_eq!(actor.actor_id, "local-owner");
    assert_eq!(actor.kind, ActorKind::Owner);
    assert_eq!(actor.allowed_skill_ids, Some(vec!["s".to_string()]));
    assert_eq!(
        submit_feedback(&feedback("loud")).unwrap_err(),
        "invalid learned-skill feedback kind"
    );
    assert_eq!(
        settle_quarantine(QuarantineAnswer::Applied),
        Ok(("applied", None))
    );
    assert_eq!(
        settle_quarantine(QuarantineAnswer::Held("stale".to_string())),
        Ok(("held", Some("stale".to_string())))
    );
    assert!(settle_quarantine(QuarantineAnswer::Failed).is_err());
}

#[test]
fn a_decision_that_did_not_complete_is_an_error() {
    let result = CanaryApprovalResult {
        skill_id: "s".to_string(),
        generation: 3,
        idempotent: false,
    };
    assert_eq!(
        review_proposal(ReviewOutcome::Canary(result.clone())),
        Ok(result)
    );
    for outcome in [
        ReviewOutcome::Denied,
        ReviewOutcome::Cancelled,
        ReviewOutcome::TimedOut,
    ] {
        assert!(review_proposal(outcome).is_err());
    }
}

#[test]
fn imports_take_plain_files_and_directories() {
    assert_eq!(import_target(false, true, false), Ok(ImportTarget::File));
    assert_eq!(import_target(false, false, true), Ok(ImportTarget::Directory));
    assert!(import_target(true, true, false).is_err());
    assert!(import_target(false, false, false).is_err());
    assert_eq!(check_package(true, 262_144), Ok(()));
    assert_eq!(
        check_package(true, 262_145),
        Err("learned-skill package exceeds 256 KiB")
    );
    assert!(check_package(false, 1).is_err());
}

#[test]
fn an_import_requeues_what_its_suites_unblock() {
    assert!(needs_requeue(&proposal(
        ProposalStatus::Verified,
        Some("held_out_suite_required")
    )));
    assert!(!needs_requeue(&proposal(ProposalStatus::Verified, None)));
    assert!(!needs_requeue(&proposal(
        ProposalStatus::Pending,
        Some("held_out_suite_required")
    )));
    let wait = begin_wait(proposal(ProposalStatus::Pending, None), true, 10, 5);
    assert_eq!(wait.deadline, 15);
    assert_eq!(wait.infrastructure_attempts, 2);
    let reached = import_report(&proposal(ProposalStatus::AwaitingApproval, None), false);
    assert_eq!(
        seed_report("seed", &Ok(reached)).render(false),
        "learned-skill install-seed: id=s proposal_id=p status=awaiting_approval reason_code=- \
         report_id=- idempotent=false next_attempt_at=- blocked_by=- seed=seed"
    );
    assert_eq!(
        seed_report("seed", &Err("broken".to_string())).render(false),
        "learned-skill install-seed: seed=seed status=failed error=broken"
    );
}
