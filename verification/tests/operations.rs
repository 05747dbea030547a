use skills::admission::{CanaryApprovalResult, ProposalRecord, ProposalStatus};
use skills::artifact::{CapabilityManifest, SkillArtifact, SkillExport};
use skills::feedback::FeedbackKind;
use skills::held_out::{
    ExpectedJsValue, HeldOutCase, HeldOutSelector, HeldOutSuiteDraft, TranscriptExpectation,
};
use skills::imports::{import_package, ImportEvent, ImportPlan, ImportProgress, ImportStage};
use skills::json::{parse_json, JsonValue};
use skills::lifecycle::{LifecycleStatus, RevisionState};
use skills::owner::{activate, ActivationEvent, ActivationProgress, ActivationStage};
use skills::operations::{
    activate_skill, approve_report, check_candidate, contain_severe_feedback, declared_effect_methods,
    dependant_suffix, directory_packages, due_proposal_head, estimate_round_trips_saved,
    feedback_kind, feedback_report, load_proposal_queue, load_skill_stats, plan_activation,
    preflight_enqueue, promote_replacement_skill, purge_report, purge_skill, quarantine_evidence,
    reevaluation_report, refuse_reevaluation, retire_skill, sleep_until_due, suite_listing_report,
    totals_line, validate_package, ActivationDecision, Containment, DirectoryEntry, DueRow,
    EnqueueAnswers, EvaluationOutcome, ImportAction, ImportWait, OperationError, OperatorReport,
    PromotionDecision, ProposalQueueRow, PurgePlan, QuarantineReason, ReportValue, RetireDecision,
    SeedTally, UsageRow, IMPORT_EVALUATION_BUDGET, IMPORT_MAX_SLEEP, IMPORT_POLL_INTERVAL,
    SKILL_STATS_HEADER,
};
use std::time::Duration;

#[test]
fn the_import_wait_sleeps_to_the_backoff_without_overrunning_its_budget() {
    let remaining = Duration::from_secs(60).as_nanos() as u64;
    // No scheduled retry: poll at the short cadence rather than busy-loop.
    assert_eq!(sleep_until_due(None, 100, remaining), IMPORT_POLL_INTERVAL);
    assert_eq!(
        Duration::from_nanos(IMPORT_POLL_INTERVAL),
        Duration::from_millis(50)
    );
    // A one-second backoff is waited out rather than spun through.
    assert_eq!(
        Duration::from_nanos(sleep_until_due(Some(101), 100, remaining)),
        Duration::from_secs(1)
    );
    // A long backoff is capped so the budget stays enforceable.
    assert_eq!(
        sleep_until_due(Some(100_000), 100, remaining),
        IMPORT_MAX_SLEEP
    );
    assert_eq!(Duration::from_nanos(IMPORT_MAX_SLEEP), Duration::from_secs(2));
    // An expired budget never sleeps.
    assert_eq!(
        Duration::from_nanos(sleep_until_due(Some(100_000), 100, 0)),
        Duration::ZERO
    );
}

#[test]
fn sleeps_are_right_at_the_ends_of_time() {
    let remaining = u64::MAX;
    assert_eq!(sleep_until_due(Some(i64::MAX), i64::MIN, remaining), IMPORT_MAX_SLEEP);
    assert_eq!(
        sleep_until_due(Some(i64::MIN), i64::MAX, remaining),
        IMPORT_POLL_INTERVAL
    );
    assert_eq!(sleep_until_due(Some(0), -1, remaining), 1_000_000_000);
    assert_eq!(sleep_until_due(Some(1), -1, remaining), IMPORT_MAX_SLEEP);
    assert_eq!(
        Duration::from_nanos(IMPORT_EVALUATION_BUDGET),
        Duration::from_secs(120)
    );
}

fn field<'a>(json: &'a JsonValue, name: &str) -> &'a JsonValue {
    match json {
        JsonValue::Object(entries) => entries
            .iter()
            .find(|(key, _)| key == name)
            .map(|(_, value)| value)
            .expect("the field is there"),
        _ => panic!("a report is an object"),
    }
}

#[test]
fn operator_reports_render_one_shape_in_text_and_json() {
    let report = OperatorReport::new("approve")
        .with_text("id", "abc")
        .with_text("status", "canary")
        .with("generation", ReportValue::Count(4))
        .with("idempotent", ReportValue::Flag(true))
        .with_optional("reason_code", &None);
    assert_eq!(
        report.render(false),
        "learned-skill approve: id=abc status=canary generation=4 idempotent=true reason_code=-"
    );
    let json = parse_json(&report.render(true)).expect("a report is a document");
    assert!(matches!(field(&json, "command"), JsonValue::Text(s) if s == "approve"));
    assert!(matches!(field(&json, "id"), JsonValue::Text(s) if s == "abc"));
    assert!(matches!(field(&json, "generation"), JsonValue::Unsigned(4)));
    assert!(matches!(field(&json, "idempotent"), JsonValue::Bool(true)));
    assert!(matches!(field(&json, "reason_code"), JsonValue::Null));
}

#[test]
fn an_idempotent_approval_reports_the_live_status_and_published_generation() {
    let replay = CanaryApprovalResult {
        skill_id: "a".repeat(64),
        generation: 2,
        idempotent: true,
    };
    // The revision moved on after the first approval: the report must say
    // so instead of restating "approved as canary" at generation 2.
    let line = approve_report(&replay, 9, "active").render(false);
    assert!(line.contains("idempotent=true"), "{line}");
    assert!(line.contains("status=active"), "{line}");
    assert!(line.contains("generation=9"), "{line}");
    assert!(line.contains("approval_generation=2"), "{line}");

    let first = CanaryApprovalResult {
        skill_id: "a".repeat(64),
        generation: 9,
        idempotent: false,
    };
    assert!(approve_report(&first, 9, "canary")
        .render(false)
        .contains("idempotent=false"));
}

#[test]
fn lists_and_numbers_render_on_a_line() {
    let report = OperatorReport::new("x")
        .with("none", ReportValue::List(Vec::new()))
        .with(
            "some",
            ReportValue::List(vec!["a".to_string(), String::new(), "b".to_string()]),
        )
        .with("low", ReportValue::Number(-5))
        .with_text("blank", "");
    assert_eq!(
        report.render(false),
        "learned-skill x: none=- some=a,-,b low=-5 blank=-"
    );
    let suites = suite_listing_report(vec![("s1".to_string(), true)]);
    let line = suites.render(false);
    assert!(line.contains("\"id\":\"s1\""), "{line}");
    assert!(line.contains("\"enabled\":true"), "{line}");
    assert_eq!(
        suite_listing_report(Vec::new()).render(false),
        "learned-skill list-suites: suites=-"
    );
}

fn usage(id: &str, successes: i64, capability_json: &str) -> UsageRow {
    UsageRow {
        skill_id: id.to_string(),
        identity_version: 2,
        status: "active".to_string(),
        invocations: 7,
        direct_successes: successes,
        direct_failures: 1,
        last_used: None,
        tasks_with: 2,
        passed_with: 1,
        baseline_tasks: 0,
        baseline_passes: 0,
        gym_tasks: 3,
        user_positive: 1,
        user_negative: -4,
        capability_json: capability_json.to_string(),
    }
}

#[test]
fn usage_is_read_from_rows_and_estimated_conservatively() {
    let grants = "{\"manifest\":{\"grants\":[1,2,3]}}";
    assert_eq!(declared_effect_methods(grants), 3);
    assert_eq!(declared_effect_methods("{\"manifest\":{}}"), 0);
    assert_eq!(declared_effect_methods("not json"), 0);
    assert_eq!(estimate_round_trips_saved(5, 3), 10);
    assert_eq!(estimate_round_trips_saved(5, 0), 0);
    assert_eq!(estimate_round_trips_saved(u64::MAX, 3), u64::MAX);
    let rows = load_skill_stats(vec![
        usage("b", -1, "{}"),
        usage("a", 6, grants),
        UsageRow {
            identity_version: 1,
            ..usage("old", 6, grants)
        },
    ]);
    assert_eq!(rows.len(), 2);
    assert_eq!(rows[0].estimated_round_trips_saved, 12);
    assert_eq!(rows[0].user_negative, 0);
    assert_eq!(rows[0].success_ratio(), Some((6, 7)));
    assert_eq!(rows[0].baseline_ratio(), None);
    assert_eq!(rows[1].direct_successes, 0);
    assert_eq!(
        rows[0].to_line("85.7%", "n/a"),
        "a\tactive\t7\t85.7%\tnever\t2\t1\tn/a\t3\t1\t0\t3\t12"
    );
    assert_eq!(SKILL_STATS_HEADER.split('\t').count(), 13);
    assert_eq!(
        totals_line(&rows),
        "total\t-\t14\t-\t-\t-\t-\t-\t6\t2\t0\t-\t12"
    );
}

#[test]
fn usage_is_listed_by_use_and_then_by_id() {
    let row = |id: &str, invocations: i64| UsageRow {
        invocations,
        ..usage(id, 1, "{}")
    };
    let listed = load_skill_stats(vec![row("c", 1), row("b", 9), row("a", 1)]);
    let ids: Vec<&str> = listed.iter().map(|row| row.skill_id.as_str()).collect();
    assert_eq!(ids, vec!["b", "a", "c"]);
}

fn queued(id: &str, status: &str, created_at: i64) -> ProposalQueueRow {
    ProposalQueueRow {
        proposal_id: id.to_string(),
        skill_id: "s".to_string(),
        status: status.to_string(),
        reason_code: None,
        report_id: Some("r".to_string()),
        created_at,
        updated_at: 9,
    }
}

#[test]
fn proposal_queue_lists_pending_operator_decisions_and_omits_terminal_ones() {
    let queue = load_proposal_queue(vec![
        queued("late", "awaiting_approval", 5),
        queued("gone", "rejected", 1),
        queued("b", "deferred", 2),
        queued("a", "pending", 2),
    ]);
    let ids: Vec<&str> = queue.iter().map(|row| row.proposal_id.as_str()).collect();
    assert_eq!(ids, vec!["a", "b", "late"]);
    assert_eq!(queue[0].to_line(), "a\ts\tpending\t-\tr\t2\t9");
    let line = queue[0].report(&Some("verified".to_string())).render(false);
    assert_eq!(
        line,
        "learned-skill proposal: id=s proposal_id=a status=pending revision_status=verified reason_code=- report_id=r created_at=2 updated_at=9"
    );
}

#[test]
fn purge_refuses_a_non_terminal_revision_without_the_force_flag() {
    let plan = PurgePlan {
        status: Some("active".to_string()),
        terminal: false,
        rerooted: vec!["child".to_string()],
    };
    let refused = purge_skill("skill", &plan, false).unwrap_err();
    assert!(refused.contains("terminal lifecycle status"), "{refused}");
    assert!(refused.contains("--purge-learned-skill-force"), "{refused}");
    assert!(
        refused.ends_with(" (this would also re-root 1 dependent revision(s): child)"),
        "{refused}"
    );
    assert!(purge_skill("skill", &plan, true).is_ok());
    assert_eq!(dependant_suffix(&Vec::new()), "");
}

#[test]
fn purge_names_the_dependants_a_terminal_target_would_reroot() {
    let plan = PurgePlan {
        status: Some("retired".to_string()),
        terminal: true,
        rerooted: vec!["one".to_string(), "two".to_string()],
    };
    assert_eq!(
        purge_skill("skill", &plan, false).unwrap_err(),
        "purging learned skill skill would re-root 2 dependent revision(s) (one,two); re-run with --purge-learned-skill-force to accept that"
    );
    let line = purge_report("skill", &plan, 3, true).render(false);
    assert!(line.contains("previous_status=retired generation=3"), "{line}");
    assert!(line.ends_with("idempotent=false rerooted=one,two"), "{line}");
    let gone = PurgePlan {
        status: None,
        terminal: true,
        rerooted: Vec::new(),
    };
    assert!(purge_skill("skill", &gone, false).is_ok());
    assert!(purge_report("skill", &gone, 3, true)
        .render(false)
        .contains("previous_status=- generation=3 removal_only=true idempotent=true"));
}

fn proposal(status: ProposalStatus) -> ProposalRecord {
    ProposalRecord {
        proposal_id: "mine".to_string(),
        skill_id: "skill".to_string(),
        predecessor_id: None,
        status,
        report_id: Some("report".to_string()),
        reason_code: Some("why".to_string()),
        next_attempt_at: None,
        infrastructure_attempt_count: 0,
        row_version: 1,
    }
}

#[test]
fn reevaluation_names_what_it_found() {
    let parked = proposal(ProposalStatus::Rejected);
    assert!(refuse_reevaluation(&parked).ends_with("; proposal mine is rejected (why)"));
    let line = reevaluation_report(&proposal(ProposalStatus::Deferred)).render(false);
    assert_eq!(
        line,
        "learned-skill reevaluate: id=skill proposal_id=mine previous_status=deferred previous_reason=why status=pending"
    );
}

#[test]
fn install_seeds_reports_every_seed_and_continues_past_a_failing_one() {
    let mut tally = SeedTally::new();
    tally.record(Err("first".to_string()));
    tally.record(Err("second".to_string()));
    assert_eq!(
        tally.conclude().unwrap_err(),
        "no bundled learned-skill seed reached an importable state (2 failed); first failure: first"
    );
    tally.record(Ok(()));
    assert!(tally.conclude().is_ok());
    assert_eq!(
        tally.report().render(false),
        "learned-skill install-seeds: imported=1 failed=2"
    );
}

#[test]
fn retirement_needs_an_active_revision() {
    let status = |s: &str| Some(s.to_string());
    assert_eq!(retire_skill("x", &status("retired")), RetireDecision::Already);
    assert_eq!(retire_skill("x", &status("active")), RetireDecision::Retire);
    assert_eq!(
        retire_skill("x", &status("canary")),
        RetireDecision::Refuse(
            "learned-skill retirement requires an active revision; revision x is canary"
                .to_string()
        )
    );
    assert!(matches!(retire_skill("x", &None), RetireDecision::Refuse(_)));
}

#[test]
fn a_directory_holds_one_to_thirty_two_packages() {
    let entry = |name: &str, regular: bool| DirectoryEntry {
        name: name.to_string(),
        regular,
    };
    assert_eq!(
        directory_packages(&vec![
            entry("b.json", true),
            entry("a.json", true),
            entry("c.json", false),
            entry(".json", true),
            entry("note.txt", true),
        ])
        .unwrap(),
        vec!["a.json".to_string(), "b.json".to_string()]
    );
    assert!(directory_packages(&Vec::new()).is_err());
    let many: Vec<DirectoryEntry> = (0..33).map(|i| entry(&format!("{i}.json"), true)).collect();
    assert_eq!(
        directory_packages(&many).unwrap_err(),
        "learned-skill directory must contain 1 to 32 regular JSON files"
    );
    assert!(directory_packages(&many[..32].to_vec()).is_ok());
}

#[test]
fn a_package_needs_a_valid_suite() {
    match validate_package(&Vec::new(), "label") {
        Err(OperationError::Refused(message)) => assert_eq!(
            message,
            "learned-skill package label requires at least one held-out suite"
        ),
        _ => panic!("a package without a suite is refused"),
    }
    let empty = HeldOutSuiteDraft {
        selector: skills::held_out::HeldOutSelector {
            tags: Vec::new(),
            exports: Vec::new(),
            capability_tier: None,
        },
        cases: Vec::new(),
    };
    assert!(matches!(
        validate_package(&vec![empty], "label"),
        Err(OperationError::Baseline(_))
    ));
}

fn artifact() -> SkillArtifact {
    SkillArtifact::new(
        "function f(_cap) { return 1; }".to_string(),
        "Do f.".to_string(),
        Vec::new(),
        vec![SkillExport {
            name: "f".to_string(),
            signature: "()".to_string(),
        }],
        vec!["f() === 1".to_string()],
        CapabilityManifest::pure(),
    )
    .unwrap()
}

fn nothing_known() -> EnqueueAnswers {
    EnqueueAnswers {
        tombstoned: false,
        predecessor_status: None,
        existing: None,
        proposal: None,
    }
}

fn baseline() -> HeldOutSuiteDraft {
    HeldOutSuiteDraft {
        selector: HeldOutSelector {
            tags: Vec::new(),
            exports: vec!["f".to_string()],
            capability_tier: None,
        },
        cases: vec![HeldOutCase {
            expression: "f() === 1".to_string(),
            expected: ExpectedJsValue::Boolean(true),
            fake_files: Vec::new(),
            transcript: TranscriptExpectation {
                reads: 0,
                writes: 0,
                spawns: 0,
                fetches: 0,
                read_paths: Vec::new(),
                spawn_programs: Vec::new(),
                fetch_urls: Vec::new(),
            },
        }],
    }
}

/// Imports into a store in which every write succeeds: the status that is reported, and
/// how many suites and proposals the store then holds.
fn import(
    plan: &ImportPlan,
    answers: EnqueueAnswers,
) -> (Result<ProposalStatus, String>, usize, usize) {
    let (mut held_out_suites, mut proposals) = (0, 0);
    let mut answers = Some(answers);
    let mut stage = ImportStage::Validate;
    loop {
        let event = match &stage {
            ImportStage::Validate => ImportEvent::Begun,
            ImportStage::Preflight => ImportEvent::Answers(Ok(answers.take().unwrap())),
            ImportStage::Suites { at } => {
                assert_eq!(*at, held_out_suites);
                held_out_suites += 1;
                ImportEvent::Stored(Ok(()))
            }
            ImportStage::Presence => ImportEvent::Present(Ok(false)),
            ImportStage::Enqueue { .. } => {
                proposals += 1;
                ImportEvent::Enqueued(Ok("proposal".to_string()))
            }
            ImportStage::Reread { .. } => {
                ImportEvent::Reread(Ok(Some(proposal(ProposalStatus::Pending))))
            }
            ImportStage::Begin { .. } => ImportEvent::Clock(0),
            ImportStage::Look { .. } => ImportEvent::Looked {
                current: Some(proposal(ProposalStatus::AwaitingApproval)),
                head: None,
                now: 100,
                clock: 0,
            },
            other => panic!("{other:?}"),
        };
        match import_package(plan, stage, event) {
            ImportProgress::Next(next) => stage = next,
            ImportProgress::Report(report) => {
                return (Ok(report.status), held_out_suites, proposals);
            }
            ImportProgress::Failed(failure) => {
                return (Err(failure.message().unwrap()), held_out_suites, proposals);
            }
            ImportProgress::Sleep { .. } => panic!("nothing to wait for"),
        }
    }
}

#[test]
fn a_replacement_import_names_the_predecessors_observed_state() {
    let skill = artifact();
    let before = Some("before".to_string());

    // The pre-flight refuses before any held-out baseline is written.
    let mut plan = ImportPlan {
        label: "absent-predecessor".to_string(),
        artifact: artifact(),
        predecessor_id: Some("b".repeat(64)),
        suites: vec![baseline(), baseline()],
        budget: 0,
    };
    let (refused, held_out_suites, proposals) = import(&plan, nothing_known());
    let absent = refused.unwrap_err();
    assert!(absent.contains("cannot be enqueued"), "{absent}");
    assert!(absent.contains("absent from the store"), "{absent}");
    assert_eq!(
        held_out_suites, 0,
        "a refused enqueue must not leave orphan trusted baselines behind"
    );
    assert_eq!(proposals, 0);
    plan.predecessor_id = None;
    let (reached, held_out_suites, proposals) = import(&plan, nothing_known());
    assert_eq!(reached.unwrap(), ProposalStatus::AwaitingApproval);
    assert_eq!((held_out_suites, proposals), (2, 1));

    let missing = preflight_enqueue(&skill, &Some("c".repeat(64)), &nothing_known()).unwrap_err();
    assert!(missing.contains("absent from the store"), "{missing}");
    assert!(preflight_enqueue(&skill, &None, &nothing_known()).is_ok());
    let absent = preflight_enqueue(&skill, &before, &nothing_known()).unwrap_err();
    assert!(absent.contains("before is absent from the store"), "{absent}");
    let mut answers = nothing_known();
    answers.predecessor_status = Some("retired".to_string());
    let ineligible = preflight_enqueue(&skill, &before, &answers).unwrap_err();
    assert!(ineligible.contains("before is retired"), "{ineligible}");
    assert_ne!(ineligible, missing);
    answers.predecessor_status = Some("quarantined".to_string());
    assert!(preflight_enqueue(&skill, &before, &answers).is_ok());
    answers.proposal = Some(proposal(ProposalStatus::Pending));
    let rebound = preflight_enqueue(&skill, &before, &answers).unwrap_err();
    assert!(
        rebound.ends_with("already proposed against predecessor none; an existing proposal cannot be rebound to before"),
        "{rebound}"
    );
    let mut purged = nothing_known();
    purged.tombstoned = true;
    assert!(preflight_enqueue(&skill, &None, &purged)
        .unwrap_err()
        .contains("was privacy-purged"));
    let mut other = artifact();
    other.description.push('!');
    let mut collision = nothing_known();
    collision.existing = Some(other);
    assert!(preflight_enqueue(&skill, &None, &collision)
        .unwrap_err()
        .starts_with("identity collision for learned skill"));
}

fn due(id: &str, status: &str, proposed_at: i64) -> DueRow {
    DueRow {
        proposal_id: id.to_string(),
        status: status.to_string(),
        attempt_count: 0,
        next_attempt_at: None,
        lease_expires_at: None,
        proposed_at,
    }
}

#[test]
fn the_oldest_due_proposal_is_claimed_next() {
    let rows = vec![
        due("late", "pending", 9),
        due("b", "pending", 5),
        due("a", "pending", 5),
        DueRow {
            attempt_count: 3,
            ..due("spent", "pending", 1)
        },
        DueRow {
            next_attempt_at: Some(200),
            ..due("resting", "pending", 1)
        },
        DueRow {
            lease_expires_at: Some(101),
            ..due("claimed", "evaluating", 1)
        },
        due("done", "approved", 1),
    ];
    assert_eq!(due_proposal_head(&rows, 3, 100), Some("a".to_string()));
    assert_eq!(due_proposal_head(&rows, 3, 101), Some("claimed".to_string()));
    assert_eq!(due_proposal_head(&Vec::new(), 3, 100), None);
}

fn wait() -> ImportWait {
    ImportWait {
        proposal_id: "mine".to_string(),
        already_present: false,
        deadline: 10_000_000_000,
        infrastructure_attempts: 0,
        blocked_since: None,
    }
}

#[test]
fn the_import_wait_polls_its_own_proposal_and_never_claims_another() {
    // Evaluation claims the oldest due proposal, so the neighbour is the head and an
    // import of the later proposal must not drive it.
    let mut queue = vec![due("other", "pending", 10), due("mine", "pending", 20)];
    assert_eq!(due_proposal_head(&queue, 3, 30).as_deref(), Some("other"));
    queue[0].next_attempt_at = Some(900);
    assert_eq!(due_proposal_head(&queue, 3, 30).as_deref(), Some("mine"));

    let mut import = wait();
    let current = proposal(ProposalStatus::Pending);
    let other = || Some("other".to_string());
    assert_eq!(
        import.import_package_within(&current, other(), 100, 0),
        ImportAction::Sleep(IMPORT_POLL_INTERVAL)
    );
    assert_eq!(import.blocked_since, Some(0));
    assert_eq!(
        import.import_package_within(&current, Some("mine".to_string()), 100, 1),
        ImportAction::Evaluate
    );
    assert_eq!(import.blocked_since, None);
    import.import_package_within(&current, other(), 100, 5);
    match import.import_package_within(&current, other(), 100, 5 + 2_000_000_000) {
        ImportAction::Report(report) => {
            assert_eq!(report.blocked_by, Some("other".to_string()));
            assert_eq!(report.next_attempt_at, Some(100));
            assert_eq!(report.status, ProposalStatus::Pending);
            let line = report.into_operator_report("import").render(false);
            assert!(line.ends_with("idempotent=false next_attempt_at=100 blocked_by=other"), "{line}");
        }
        action => panic!("{action:?}"),
    }
}

#[test]
fn an_import_waits_within_its_budget_and_names_what_it_reached() {
    let mut import = wait();
    let resting = ProposalRecord {
        next_attempt_at: Some(101),
        ..proposal(ProposalStatus::Pending)
    };
    assert_eq!(
        import.import_package_within(&resting, None, 100, 0),
        ImportAction::Sleep(1_000_000_000)
    );
    assert!(matches!(
        import.import_package_within(&resting, None, 100, 10_000_000_000),
        ImportAction::Report(_)
    ));
    assert!(matches!(
        import.import_package_within(&proposal(ProposalStatus::Evaluating), None, 100, 0),
        ImportAction::Report(_)
    ));
    assert!(matches!(
        import.import_package_within(&proposal(ProposalStatus::AwaitingApproval), None, 100, 0),
        ImportAction::Report(_)
    ));
    assert_eq!(
        import.import_package_within(&proposal(ProposalStatus::Rejected), None, 100, 0),
        ImportAction::Refuse(
            "learned-skill verification did not reach awaiting approval: id=skill status=rejected reason=why"
                .to_string()
        )
    );
    assert_eq!(
        import.import_package_within(&proposal(ProposalStatus::Deferred), None, 100, 0),
        ImportAction::Refuse(
            "learned-skill verification infrastructure is unavailable on this host: id=skill status=deferred reason=why"
                .to_string()
        )
    );
}

#[test]
fn an_outage_fails_an_import_at_once() {
    let mut import = wait();
    let current = proposal(ProposalStatus::Pending);
    assert_eq!(
        import.after_evaluation(&current, EvaluationOutcome::Evaluated, 100),
        ImportAction::Continue
    );
    let failed = |count: u32| EvaluationOutcome::Failed {
        error: "no sandbox".to_string(),
        observed: ProposalRecord {
            infrastructure_attempt_count: count,
            ..proposal(ProposalStatus::Pending)
        },
    };
    assert_eq!(
        import.after_evaluation(&current, failed(0), 100),
        ImportAction::Continue
    );
    assert_eq!(
        import.after_evaluation(&current, failed(1), 100),
        ImportAction::Refuse(
            "learned-skill verification could not run in a contained worker: id=skill no sandbox"
                .to_string()
        )
    );
    assert!(matches!(
        import.after_evaluation(&current, EvaluationOutcome::NothingDue, 100),
        ImportAction::Report(_)
    ));
}

#[test]
fn activation_validates_the_target_before_paying_for_an_index_rebuild() {
    let mistyped = ActivationEvent::Target {
        proposal: None,
        status: None,
    };
    match activate(&"a".repeat(64), ActivationStage::Target, mistyped) {
        ActivationProgress::Failed(failure) => {
            let error = failure.message().unwrap();
            assert!(error.contains("proposal not found"), "{error}");
        }
        _ => panic!("a mistyped identifier must be rejected before the embedding rebuild"),
    }
    let refused = |proposal: Option<ProposalRecord>, status: Option<&str>| match activate_skill(
        "skill",
        &proposal,
        &status.map(|s| s.to_string()),
    ) {
        ActivationDecision::Refuse(message) => message,
        other => panic!("{other:?}"),
    };
    assert_eq!(refused(None, None), "learned-skill proposal not found");
    let replacement = ProposalRecord {
        predecessor_id: Some("before".to_string()),
        ..proposal(ProposalStatus::Approved)
    };
    assert!(refused(Some(replacement), Some("canary")).contains("--promote-learned-skill"));
    let root = || Some(proposal(ProposalStatus::Approved));
    assert_eq!(refused(root(), None), "learned-skill revision not found");
    assert_eq!(
        refused(root(), Some("verified")),
        "learned-skill activation requires an approved canary; current status is verified"
    );
    assert_eq!(
        activate_skill("skill", &root(), &Some("active".to_string())),
        ActivationDecision::Already
    );
    assert_eq!(
        activate_skill("skill", &root(), &Some("canary".to_string())),
        ActivationDecision::Activate
    );
    assert!(plan_activation("skill", &None, Some(1), 0).is_err());
    assert!(plan_activation("skill", &Some("r".to_string()), Some(u64::MAX), 0).is_err());
    assert!(plan_activation("skill", &Some("r".to_string()), Some(1), u64::MAX).is_err());
    assert!(plan_activation("skill", &Some("r".to_string()), Some(0), 0).is_err());
}

fn state(status: LifecycleStatus, supersedes: Option<&str>) -> RevisionState {
    RevisionState {
        id: "skill".to_string(),
        status,
        supersedes_id: supersedes.map(|s| s.to_string()),
        superseded_by_id: None,
        lineage_root_id: "root".to_string(),
        row_version: 2,
    }
}

#[test]
fn operator_promotion_refuses_roots_non_canaries_and_ineligible_predecessors() {
    let replacement = || {
        Some(ProposalRecord {
            predecessor_id: Some("before".to_string()),
            ..proposal(ProposalStatus::Approved)
        })
    };
    let canary = state(LifecycleStatus::Canary, Some("before"));
    match check_candidate("skill", &Some(proposal(ProposalStatus::Approved)), &canary) {
        PromotionDecision::Refuse(message) => {
            assert!(message.contains("lineage root with no predecessor"), "{message}");
        }
        other => panic!("{other:?}"),
    }
    match check_candidate(
        "skill",
        &replacement(),
        &state(LifecycleStatus::Verified, Some("before")),
    ) {
        PromotionDecision::Refuse(message) => assert_eq!(
            message,
            "learned-skill replacement promotion requires an approved canary; revision skill is verified"
        ),
        other => panic!("{other:?}"),
    }
    match check_candidate("skill", &replacement(), &state(LifecycleStatus::Canary, None)) {
        PromotionDecision::Refuse(message) => {
            assert!(message.ends_with("supersedes nothing but its proposal names before"), "{message}");
        }
        other => panic!("{other:?}"),
    }
    assert_eq!(
        check_candidate(
            "skill",
            &replacement(),
            &state(LifecycleStatus::Active, Some("before"))
        ),
        PromotionDecision::Already {
            predecessor_id: "before".to_string()
        }
    );
    let report = Some("report".to_string());
    match promote_replacement_skill(
        "skill",
        "before",
        &report,
        &canary,
        &state(LifecycleStatus::Retired, None),
        4,
    ) {
        Err(OperationError::Refused(message)) => assert_eq!(
            message,
            "learned-skill replacement promotion requires an active or quarantined predecessor; predecessor before is retired"
        ),
        _ => panic!("a retired predecessor is refused"),
    }
    let plan = promote_replacement_skill(
        "skill",
        "before",
        &report,
        &canary,
        &state(LifecycleStatus::Active, None),
        4,
    )
    .unwrap();
    assert_eq!(plan.request.idempotency_key, "local-owner-promote:skill:2-2-4");
    assert!(plan.evidence_payload.contains("\"index_generation\":4"));
    assert!(plan.evidence_payload.contains("\"evidence_threshold_promotion\":false"));
    assert_eq!(plan.request.snapshot.evidence_ids, vec![plan.evidence_id.clone()]);
}

#[test]
fn severe_feedback_reports_whether_containment_actually_happened() {
    assert_eq!(feedback_kind("severe"), Ok(FeedbackKind::Severe));
    assert_eq!(
        feedback_kind("furious"),
        Err("invalid learned-skill feedback kind")
    );
    let status = |s: &str| Some(s.to_string());
    assert_eq!(
        contain_severe_feedback(&status("canary")),
        Ok(Containment::Quarantine {
            from: LifecycleStatus::Canary,
            reason: QuarantineReason::AuthenticatedCanarySafetyFeedback
        })
    );
    assert_eq!(
        contain_severe_feedback(&status("active")),
        Ok(Containment::Quarantine {
            from: LifecycleStatus::Active,
            reason: QuarantineReason::AuthenticatedActiveIntegrityFeedback
        })
    );
    assert_eq!(
        contain_severe_feedback(&status("verified")),
        Ok(Containment::Skipped("ineligible_status:verified".to_string()))
    );
    assert!(contain_severe_feedback(&status("odd")).is_err());
    assert!(contain_severe_feedback(&None).is_err());
    let evidence = quarantine_evidence(
        "skill",
        QuarantineReason::AuthenticatedActiveIntegrityFeedback,
        4,
        3,
    );
    assert!(!evidence.generation_current);
    assert_eq!(
        feedback_report("skill", "f", "severe", "active", "held", &Some("why".to_string()))
            .render(false),
        "learned-skill feedback: id=skill feedback_id=f kind=severe status=active quarantine=held quarantine_reason=why"
    );
}
