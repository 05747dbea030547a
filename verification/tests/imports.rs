use skills::admission::{ProposalRecord, ProposalStatus};
use skills::artifact::{CapabilityManifest, SkillArtifact, SkillExport};
use skills::held_out::{
    ExpectedJsValue, HeldOutCase, HeldOutSelector, HeldOutSuiteDraft, TranscriptExpectation,
};
use skills::imports::{
    import_package, ImportEvent, ImportFailure, ImportPlan, ImportProgress, ImportStage,
};
use skills::operations::{
    due_proposal_head, DueRow, EnqueueAnswers, EvaluationOutcome, ImportWait,
};

fn artifact() -> SkillArtifact {
    SkillArtifact::new(
        "function f(_cap) { return 1; }".to_string(),
        "Do f.".to_string(),
        vec!["t".to_string()],
        vec![SkillExport {
            name: "f".to_string(),
            signature: "()".to_string(),
        }],
        vec!["f() === 1".to_string()],
        CapabilityManifest::pure(),
    )
    .unwrap()
}

fn suite(expression: &str) -> HeldOutSuiteDraft {
    HeldOutSuiteDraft {
        selector: HeldOutSelector {
            tags: Vec::new(),
            exports: vec!["f".to_string()],
            capability_tier: None,
        },
        cases: vec![HeldOutCase {
            expression: expression.to_string(),
            expected: ExpectedJsValue::Boolean(true),
            fake_files: Vec::new(),
            transcript: TranscriptExpectation {
                reads: 0,
                writes: 0,
                spawns: 0,
                fetches: 0,
                read_paths: Vec::new(),
                spawn_programs: Vec::new(),
                fetch_urls: Vec::new(),
            },
        }],
    }
}

fn plan(suites: Vec<HeldOutSuiteDraft>) -> ImportPlan {
    ImportPlan {
        label: "package".to_string(),
        artifact: artifact(),
        predecessor_id: None,
        suites,
        budget: 50,
    }
}

fn answers(tombstoned: bool) -> EnqueueAnswers {
    EnqueueAnswers {
        tombstoned,
        predecessor_status: None,
        existing: None,
        proposal: None,
    }
}

fn proposal(status: ProposalStatus, reason_code: Option<&str>) -> ProposalRecord {
    ProposalRecord {
        proposal_id: "p".to_string(),
        skill_id: "s".to_string(),
        predecessor_id: None,
        status,
        next_attempt_at: None,
        report_id: None,
        reason_code: reason_code.map(|s| s.to_string()),
        row_version: 1,
        infrastructure_attempt_count: 2,
    }
}

fn next(plan: &ImportPlan, stage: ImportStage, event: ImportEvent) -> ImportStage {
    match import_package(plan, stage, event) {
        ImportProgress::Next(stage) => stage,
        ImportProgress::Sleep { .. } => panic!("there is nothing to wait for"),
        ImportProgress::Report(_) => panic!("there is more to do"),
        ImportProgress::Failed(failure) => panic!("{failure:?}"),
    }
}

fn failure(plan: &ImportPlan, stage: ImportStage, event: ImportEvent) -> String {
    match import_package(plan, stage, event) {
        ImportProgress::Failed(failure) => failure.message().expect("a sentence of its own"),
        _ => panic!("the import fails"),
    }
}

#[test]
fn an_import_stores_its_suites_then_its_proposal() {
    let plan = plan(vec![suite("f() === 1"), suite("f() === 2")]);
    let stage = next(&plan, ImportStage::Validate, ImportEvent::Begun);
    assert!(matches!(stage, ImportStage::Preflight));
    let stage = next(&plan, stage, ImportEvent::Answers(Ok(answers(false))));
    assert!(matches!(stage, ImportStage::Suites { at: 0 }));
    let stage = next(&plan, stage, ImportEvent::Stored(Ok(())));
    assert!(matches!(stage, ImportStage::Suites { at: 1 }));
    let stage = next(&plan, stage, ImportEvent::Stored(Ok(())));
    assert!(matches!(stage, ImportStage::Presence));
    let stage = next(&plan, stage, ImportEvent::Present(Ok(true)));
    assert!(matches!(
        stage,
        ImportStage::Enqueue {
            already_present: true
        }
    ));
    let stage = next(&plan, stage, ImportEvent::Enqueued(Ok("p".to_string())));
    assert!(matches!(
        &stage,
        ImportStage::Reread { proposal_id, .. } if proposal_id == "p"
    ));
    let parked = proposal(ProposalStatus::Verified, Some("held_out_suite_required"));
    let stage = next(&plan, stage, ImportEvent::Reread(Ok(Some(parked))));
    assert!(matches!(stage, ImportStage::Requeue { .. }));
    let stage = next(&plan, stage, ImportEvent::Requeued(Ok(())));
    let stage = next(&plan, stage, ImportEvent::Clock(7));
    match &stage {
        ImportStage::Look { wait } => {
            assert_eq!(wait.deadline, 57);
            assert_eq!(wait.infrastructure_attempts, 2);
            assert!(wait.already_present);
        }
        other => panic!("{other:?}"),
    }
    let due = || ImportEvent::Looked {
        current: Some(proposal(ProposalStatus::Pending, None)),
        head: Some("p".to_string()),
        now: 100,
        clock: 8,
    };
    let stage = next(&plan, stage, due());
    assert!(matches!(stage, ImportStage::Evaluate { .. }));
    let stage = next(
        &plan,
        stage,
        ImportEvent::Evaluated(EvaluationOutcome::Evaluated),
    );
    let done = ImportEvent::Looked {
        current: Some(proposal(ProposalStatus::AwaitingApproval, None)),
        head: None,
        now: 100,
        clock: 9,
    };
    match import_package(&plan, stage, done) {
        ImportProgress::Report(report) => {
            assert_eq!(report.status, ProposalStatus::AwaitingApproval);
        }
        _ => panic!("the proposal awaits approval"),
    }
}

#[test]
fn a_refused_import_asks_for_no_write() {
    let plan = plan(vec![suite("f() === 1")]);
    match import_package(
        &plan,
        ImportStage::Preflight,
        ImportEvent::Answers(Ok(answers(true))),
    ) {
        ImportProgress::Failed(refused @ ImportFailure::Refused(_)) => {
            let message = refused.message().unwrap();
            assert!(
                message.starts_with("learned-skill proposal cannot be enqueued: "),
                "{message}"
            );
            assert!(message.contains("was privacy-purged"), "{message}");
        }
        _ => panic!("a purged skill is refused"),
    }
    let empty = plan_without_cases();
    match import_package(&empty, ImportStage::Validate, ImportEvent::Begun) {
        ImportProgress::Failed(failed @ ImportFailure::Package(_)) => {
            assert_eq!(failed.message(), None);
        }
        _ => panic!("an invalid package is refused"),
    }
}

fn plan_without_cases() -> ImportPlan {
    let mut empty = suite("f() === 1");
    empty.cases.clear();
    plan(vec![empty])
}

#[test]
fn an_answer_to_another_stage_is_passed_over() {
    let plan = plan(vec![suite("f() === 1")]);
    let stage = next(&plan, ImportStage::Preflight, ImportEvent::Stored(Ok(())));
    assert!(matches!(stage, ImportStage::Preflight));
    let stage = next(&plan, ImportStage::Validate, ImportEvent::Clock(1));
    assert!(matches!(stage, ImportStage::Validate));
}

#[test]
fn a_failed_import_says_where_it_failed() {
    let plan = plan(vec![suite("f() === 1")]);
    let disk = || "disk".to_string();
    let enqueue = || ImportStage::Enqueue {
        already_present: false,
    };
    let reread = || ImportStage::Reread {
        proposal_id: "p".to_string(),
        already_present: false,
    };
    let wait = || ImportWait {
        proposal_id: "p".to_string(),
        already_present: false,
        deadline: 50,
        infrastructure_attempts: 2,
        blocked_since: None,
    };
    let evaluate = || ImportStage::Evaluate {
        wait: wait(),
        current: proposal(ProposalStatus::Pending, None),
        now: 1,
    };
    assert_eq!(
        failure(
            &plan,
            ImportStage::Preflight,
            ImportEvent::Answers(Err(disk()))
        ),
        "disk"
    );
    assert_eq!(
        failure(
            &plan,
            ImportStage::Suites { at: 0 },
            ImportEvent::Stored(Err(disk()))
        ),
        "failed to import learned-skill held-out baseline: disk"
    );
    assert_eq!(
        failure(&plan, enqueue(), ImportEvent::Enqueued(Err(disk()))),
        "failed to enqueue learned-skill proposal: disk"
    );
    assert_eq!(
        failure(&plan, reread(), ImportEvent::Reread(Ok(None))),
        "imported proposal disappeared"
    );
    assert_eq!(
        failure(
            &plan,
            ImportStage::Requeue {
                existing: proposal(ProposalStatus::Verified, None),
                already_present: false
            },
            ImportEvent::Requeued(Err(disk()))
        ),
        "failed to requeue proposal after held-out baseline import: disk"
    );
    assert_eq!(
        failure(&plan, evaluate(), ImportEvent::Gone),
        "imported proposal disappeared"
    );
    assert_eq!(
        failure(&plan, reread(), ImportEvent::Unreadable(disk())),
        "disk"
    );
    let outage = EvaluationOutcome::Failed {
        error: "no sandbox".to_string(),
        observed: ProposalRecord {
            infrastructure_attempt_count: 3,
            ..proposal(ProposalStatus::Pending, None)
        },
    };
    assert_eq!(
        failure(&plan, evaluate(), ImportEvent::Evaluated(outage)),
        "learned-skill verification could not run in a contained worker: id=s no sandbox"
    );
    let waiting = ImportEvent::Looked {
        current: Some(proposal(ProposalStatus::Pending, None)),
        head: Some("other".to_string()),
        now: 1,
        clock: 0,
    };
    match import_package(&plan, ImportStage::Look { wait: wait() }, waiting) {
        ImportProgress::Sleep {
            stage: ImportStage::Look { wait },
            ..
        } => assert_eq!(wait.blocked_since, Some(0)),
        _ => panic!("another proposal is due first"),
    }
}

#[test]
fn a_blocked_import_reports_a_queued_proposal_without_draining_the_other_one() {
    let neighbour = SkillArtifact::new(
        "function run() { return 3; }".to_string(),
        "Agent-originated queue neighbour".to_string(),
        vec![],
        vec![SkillExport {
            name: "run".to_string(),
            signature: "() => number".to_string(),
        }],
        vec!["run() === 3".to_string()],
        CapabilityManifest::pure(),
    )
    .unwrap();
    // Enqueued far in the past, so it owns the head of the due queue.
    let due = |id: &str, proposed_at: i64| DueRow {
        proposal_id: id.to_string(),
        status: "pending".to_string(),
        attempt_count: 0,
        next_attempt_at: None,
        lease_expires_at: None,
        proposed_at,
    };
    let mut queue = vec![due(&neighbour.id, 1)];
    let mut plan = plan(vec![suite("f() === 1")]);
    plan.label = "blocked-import".to_string();
    plan.budget = 30_000_000_000;
    let mut clock = 0;
    let mut stage = ImportStage::Validate;
    let report = loop {
        let event = match &stage {
            ImportStage::Validate => ImportEvent::Begun,
            ImportStage::Preflight => ImportEvent::Answers(Ok(answers(false))),
            ImportStage::Suites { .. } => ImportEvent::Stored(Ok(())),
            ImportStage::Presence => ImportEvent::Present(Ok(false)),
            ImportStage::Enqueue { .. } => {
                queue.push(due("p", 100));
                ImportEvent::Enqueued(Ok("p".to_string()))
            }
            ImportStage::Reread { .. } => {
                ImportEvent::Reread(Ok(Some(proposal(ProposalStatus::Pending, None))))
            }
            ImportStage::Begin { .. } => ImportEvent::Clock(clock),
            ImportStage::Look { .. } => ImportEvent::Looked {
                current: Some(proposal(ProposalStatus::Pending, None)),
                head: due_proposal_head(&queue, 3, 100),
                now: 100,
                clock,
            },
            ImportStage::Requeue { .. } | ImportStage::Evaluate { .. } => {
                panic!("an operator import must not spend an unrelated proposal's retry budget")
            }
        };
        match import_package(&plan, stage, event) {
            ImportProgress::Next(next) => stage = next,
            ImportProgress::Sleep { nanos, stage: next } => {
                clock += nanos;
                stage = next;
            }
            ImportProgress::Report(report) => break report,
            ImportProgress::Failed(failure) => panic!("{failure:?}"),
        }
    };
    // A proposal that is merely queued is not an import failure.
    assert_eq!(report.status, ProposalStatus::Pending);
    assert_eq!(report.blocked_by.as_deref(), Some(neighbour.id.as_str()));
    assert_eq!(clock, 2_000_000_000);
}
