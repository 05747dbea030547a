use skills::artifact::{CapabilityManifest, SkillArtifact, SkillExport};
use skills::lifecycle::{
    approval_mismatch, consumption_request, insert_approval, validate_request,
    ApprovalAuthorization, ApprovalTransition, EvidenceSnapshot, HumanApproval, LifecycleError,
    LifecycleService, LifecycleStatus, PolicyInput, ReplacementTransitionRequest,
    TransitionRequest,
};
use skills::operations::{check_candidate, plan_activation, promote_replacement_skill};
use skills::operations::{OperationError, PromotionDecision, OPERATOR_PROMOTION_POLICY_JSON};
use skills::operations::{
    ACTIVATION_POLICY_JSON, ACTIVATION_POLICY_VERSION, OPERATOR_PROMOTION_POLICY_VERSION,
};
use skills::admission::{ProposalRecord, ProposalStatus};
use skills::policy::{
    task_outcome_source_columns, task_outcome_source_from_columns, PromotionPolicy, RateFindings,
    TaskOutcomeSource,
};
use skills::promotion::{StoredEvidence, TaskOutcomeRow, TerminalRow};
use skills::store::{ApprovalRow, EvidenceRow, RevisionRow, SkillStore, StoreError};

/// A durable `gate_skipped` row must decode to its own variant. If
/// the arm is dropped the row becomes undecodable and every promotion that
/// reads the window is held, so this pins the decode, not just "not None".
#[test]
fn a_gate_skipped_row_decodes_to_its_own_source() {
    assert_eq!(
        task_outcome_source_from_columns("gate_skipped", None),
        Some(TaskOutcomeSource::GateSkipped)
    );
    assert_eq!(
        task_outcome_source_from_columns("no_verify_command", None),
        Some(TaskOutcomeSource::NoVerifyCommand)
    );
    // The two skip reasons must stay distinguishable after a round trip
    // through the durable columns.
    let skipped = TaskOutcomeSource::GateSkipped;
    let (kind, id) = task_outcome_source_columns(&skipped);
    assert_eq!(kind, "gate_skipped");
    assert_eq!(id, None);
    assert_eq!(
        task_outcome_source_from_columns(&kind, id),
        Some(TaskOutcomeSource::GateSkipped)
    );
    // A source id on a skip reason is not a valid row.
    assert_eq!(
        task_outcome_source_from_columns("gate_skipped", Some("x".to_string())),
        None
    );
}

fn text(error: &LifecycleError) -> String {
    error.message().expect("an error of the lifecycle itself")
}

#[test]
fn approval_failures_name_the_field_and_the_observed_value() {
    let stale_row = approval_mismatch("skill-1", "row_version", "4", "7");
    let wrong_report = approval_mismatch("skill-1", "evaluation_report_id", "report-a", "report-b");
    let missing_first = approval_mismatch(
        "skill-1",
        "first_approval",
        "a distinct earlier approval",
        "none",
    );

    // Six preconditions used to produce one payload-less message.
    assert_ne!(text(&stale_row), text(&wrong_report));
    assert_ne!(text(&wrong_report), text(&missing_first));
    assert!(text(&stale_row).contains("row_version"));
    assert!(text(&stale_row).contains("expected 4"));
    assert!(text(&stale_row).contains("observed 7"));
    assert!(text(&wrong_report).contains("observed report-b"));
    assert!(matches!(
        stale_row,
        LifecycleError::ApprovalMismatch {
            field: "row_version",
            ..
        }
    ));
}

#[test]
fn an_illegal_transition_names_which_side_of_the_pair_was_wrong() {
    let candidate = LifecycleError::IllegalTransition {
        role: "candidate",
        skill_id: "skill-candidate".to_string(),
        from: LifecycleStatus::Verified,
        to: LifecycleStatus::Active,
    };
    let predecessor = LifecycleError::IllegalTransition {
        role: "predecessor",
        skill_id: "skill-predecessor".to_string(),
        from: LifecycleStatus::Retired,
        to: LifecycleStatus::Superseded,
    };
    assert!(text(&candidate).contains("candidate skill-candidate"));
    assert!(text(&predecessor).contains("predecessor skill-predecessor"));
    assert_ne!(text(&candidate), text(&predecessor));
}

#[test]
fn a_structurally_impossible_transition_names_the_revision_it_refused() {
    let request = TransitionRequest {
        idempotency_key: "key".to_string(),
        skill_id: "skill-2".to_string(),
        from_status: LifecycleStatus::Retired,
        to_status: LifecycleStatus::Active,
        expected_row_version: 1,
        reason: "test".to_string(),
        snapshot: EvidenceSnapshot::new(
            "skill-2".to_string(),
            None,
            "v1".to_string(),
            Vec::new(),
            Vec::new(),
            1,
            None,
            0,
        )
        .unwrap(),
    };
    let error = text(&validate_request(&request).unwrap_err());
    assert!(error.contains("revision skill-2"), "{error}");
    assert!(error.contains("retired -> active"), "{error}");
}

fn artifact(name: &str) -> SkillArtifact {
    SkillArtifact::new(
        format!("function {name}(_cap) {{ return 1; }}"),
        format!("Do {name}."),
        vec!["test".to_string()],
        vec![SkillExport {
            name: name.to_string(),
            signature: "() => number".to_string(),
        }],
        vec![format!("{name}() === 1")],
        CapabilityManifest::pure(),
    )
    .unwrap()
}

fn revision(artifact: SkillArtifact, status: &str, supersedes: Option<String>) -> RevisionRow {
    RevisionRow {
        lineage_root_id: supersedes.clone(),
        artifact,
        status: status.to_string(),
        supersedes_id: supersedes,
        superseded_by_id: None,
        row_version: 3,
        evaluation_report_id: Some("report-1".to_string()),
        updated_at: 1,
    }
}

#[test]
fn a_root_is_activated_by_two_distinct_approvals_and_once() {
    let root = artifact("root");
    let id = root.id.clone();
    let mut store = SkillStore::empty();
    store.revisions.push(revision(root, "canary", None));
    let plan = plan_activation(&id, &Some("report-1".to_string()), Some(3), 0).unwrap();
    assert_eq!(plan.idempotency_key, format!("local-owner-activate-{id}"));
    let mut service = LifecycleService::new(&mut store);
    service
        .register_policy(ACTIVATION_POLICY_VERSION, ACTIVATION_POLICY_JSON, 5)
        .unwrap();
    let second =
        HumanApproval::verified("second".into(), "owner".into(), "report-1".into(), 3).unwrap();
    let authorization = ApprovalAuthorization {
        authorization_id: "second".to_string(),
        principal: "owner".to_string(),
    };
    // Without an earlier approval there is nothing to be second to.
    let error = service
        .activate_root(
            &plan.idempotency_key,
            &id,
            &second,
            &authorization,
            &plan.snapshot,
            &Ok(()),
            6,
        )
        .unwrap_err();
    assert!(text(&error).contains("first_approval"), "{}", text(&error));

    let first =
        HumanApproval::verified("first".into(), "owner".into(), "report-1".into(), 3).unwrap();
    service.record_root_canary_approval(&id, &first, 4).unwrap();
    let outcome = service
        .activate_root(
            &plan.idempotency_key,
            &id,
            &second,
            &authorization,
            &plan.snapshot,
            &Ok(()),
            6,
        )
        .unwrap();
    assert_eq!(outcome.status, LifecycleStatus::Active);
    assert_eq!(outcome.row_version, 4);
    assert_eq!(outcome.desired_generation, 1);
    assert!(!outcome.replayed);
    // The same request again changes nothing.
    let replay = service
        .activate_root(
            &plan.idempotency_key,
            &id,
            &second,
            &authorization,
            &plan.snapshot,
            &Ok(()),
            9,
        )
        .unwrap();
    assert!(replay.replayed);
    assert_eq!(replay.desired_generation, 1);
    assert_eq!(
        service.revision(&id).unwrap().status,
        LifecycleStatus::Active
    );
    assert_eq!(store.transitions.len(), 1);
    assert_eq!(store.desired_generation, 1);
}

#[test]
fn an_authority_is_spent_for_just_what_it_was_issued_for() {
    let root = artifact("root");
    let id = root.id.clone();
    let mut store = SkillStore::empty();
    store.revisions.push(revision(root, "canary", None));
    let plan = plan_activation(&id, &Some("report-1".to_string()), Some(3), 0).unwrap();
    let mut service = LifecycleService::new(&mut store);
    service
        .register_policy(ACTIVATION_POLICY_VERSION, ACTIVATION_POLICY_JSON, 5)
        .unwrap();
    let approval =
        HumanApproval::verified("second".into(), "owner".into(), "report-1".into(), 3).unwrap();
    let digest = || Ok("manifest".to_string());
    let issued = service
        .authorize_root_local_owner(&id, &approval, digest(), 5)
        .unwrap();
    assert_eq!(issued.authorization_id, "second");
    assert_eq!(issued.principal, "owner");
    assert_eq!(issued.artifact_id, id);
    assert_eq!(issued.report_id, "report-1");
    assert_eq!(issued.manifest_digest, "manifest");
    assert_eq!(issued.transition, ApprovalTransition::CanaryToActive);
    assert_eq!(issued.issued_at, 5);
    assert!(matches!(
        service.authorize_replacement_local_owner(
            &id,
            &approval,
            Err(StoreError::Constraint("manifest".to_string())),
            5,
        ),
        Err(LifecycleError::Store(StoreError::Constraint(_)))
    ));
    assert!(matches!(
        service.authorize_root_local_owner("absent", &approval, digest(), 5),
        Err(LifecycleError::Store(StoreError::NotFound(_)))
    ));
    let authorization = ApprovalAuthorization {
        authorization_id: issued.authorization_id.clone(),
        principal: issued.principal.clone(),
    };
    let key = plan.idempotency_key.as_str();
    // Nothing is spent before every other check has passed.
    assert_eq!(
        service.root_consumption(key, &id, &approval, &authorization, &plan.snapshot, 6),
        None
    );
    let first =
        HumanApproval::verified("first".into(), "owner".into(), "report-1".into(), 3).unwrap();
    service.record_root_canary_approval(&id, &first, 4).unwrap();
    let asked = service
        .root_consumption(key, &id, &approval, &authorization, &plan.snapshot, 6)
        .unwrap();
    assert_eq!(asked, consumption_request(&id, &approval, &authorization, 6));
    assert_eq!(asked.authorization_id, issued.authorization_id);
    assert_eq!(asked.principal, issued.principal);
    assert_eq!(asked.artifact_id, issued.artifact_id);
    assert_eq!(asked.report_id, issued.report_id);
    assert_eq!(asked.transition, issued.transition);
    assert_eq!(asked.consumed_at, 6);
    // A refusal is passed on where the authority is asked for.
    assert!(matches!(
        service.activate_root(
            key,
            &id,
            &approval,
            &authorization,
            &plan.snapshot,
            &Err(StoreError::Unauthorized),
            6,
        ),
        Err(LifecycleError::Store(StoreError::Unauthorized))
    ));
    service
        .activate_root(key, &id, &approval, &authorization, &plan.snapshot, &Ok(()), 6)
        .unwrap();
    // What is done already needs no authority, and no answer makes a difference.
    assert_eq!(
        service.root_consumption(key, &id, &approval, &authorization, &plan.snapshot, 9),
        None
    );
    let replay = service
        .activate_root(
            key,
            &id,
            &approval,
            &authorization,
            &plan.snapshot,
            &Err(StoreError::Unauthorized),
            9,
        )
        .unwrap();
    assert!(replay.replayed);
}

#[test]
fn an_operator_promotion_moves_exactly_the_pair() {
    let old = artifact("old");
    let new = artifact("new");
    let old_id = old.id.clone();
    let new_id = new.id.clone();
    let mut store = SkillStore::empty();
    store.revisions.push(revision(old, "quarantined", None));
    store
        .revisions
        .push(revision(new, "canary", Some(old_id.clone())));
    let proposal = ProposalRecord {
        proposal_id: "p".to_string(),
        skill_id: new_id.clone(),
        predecessor_id: Some(old_id.clone()),
        status: ProposalStatus::Approved,
        report_id: Some("report-1".to_string()),
        reason_code: None,
        next_attempt_at: None,
        infrastructure_attempt_count: 0,
        row_version: 1,
    };
    store.approvals.push(ApprovalRow {
        approval_id: "canary".to_string(),
        skill_id: new_id.clone(),
        approval_kind: "phase4_canary".to_string(),
        actor_id: "owner".to_string(),
        artifact_row_version: 2,
        evaluation_report_id: "report-1".to_string(),
        created_at: 2,
    });
    let mut service = LifecycleService::new(&mut store);
    let candidate = service.revision(&new_id).unwrap();
    let predecessor = service.revision(&old_id).unwrap();
    assert_eq!(
        check_candidate(&new_id, &Some(proposal), &candidate),
        PromotionDecision::Promote {
            predecessor_id: old_id.clone()
        }
    );
    let plan = promote_replacement_skill(
        &new_id,
        &old_id,
        &Some("report-1".to_string()),
        &candidate,
        &predecessor,
        0,
    )
    .unwrap();
    assert_eq!(plan.evidence_id, format!("operator-promotion:{new_id}:3-3-0"));
    service
        .register_policy(
            OPERATOR_PROMOTION_POLICY_VERSION,
            OPERATOR_PROMOTION_POLICY_JSON,
            5,
        )
        .unwrap();
    service
        .record_operator_promotion_evidence(
            &plan.evidence_id,
            &new_id,
            OPERATOR_PROMOTION_POLICY_VERSION,
            &plan.evidence_payload,
            5,
        )
        .unwrap();
    let approval =
        HumanApproval::verified("promote".into(), "owner".into(), "report-1".into(), 3).unwrap();
    let authorization = ApprovalAuthorization {
        authorization_id: "promote".to_string(),
        principal: "owner".to_string(),
    };
    service
        .record_root_canary_approval(&new_id, &approval, 4)
        .expect_err("a replacement is no root");
    let asked = service
        .promotion_consumption(&plan.request, &approval, &authorization, plan.predecessor_from, 7)
        .unwrap();
    assert_eq!(asked.authorization_id, "promote");
    assert_eq!(asked.principal, "owner");
    assert_eq!(asked.artifact_id, new_id);
    assert_eq!(asked.report_id, "report-1");
    assert_eq!(asked.transition, ApprovalTransition::CanaryToActive);
    assert_eq!(asked.consumed_at, 7);
    assert_eq!(
        service.promotion_consumption(
            &plan.request,
            &approval,
            &authorization,
            LifecycleStatus::Retired,
            7,
        ),
        None
    );
    let outcome = service
        .promote_replacement_by_local_owner(
            &plan.request,
            &approval,
            &authorization,
            Ok(()),
            plan.predecessor_from,
            7,
        )
        .unwrap();
    assert_eq!(outcome.candidate_status, LifecycleStatus::Active);
    assert_eq!(outcome.predecessor_status, LifecycleStatus::Superseded);
    assert_eq!(outcome.candidate_row_version, 4);
    assert_eq!(outcome.predecessor_row_version, 4);
    assert_eq!(outcome.desired_generation, 1);
    assert!(!outcome.replayed);
    // What is done already needs no authority.
    assert_eq!(
        service.promotion_consumption(
            &plan.request,
            &approval,
            &authorization,
            plan.predecessor_from,
            8,
        ),
        None
    );
    let ineligible = promote_replacement_skill(
        &new_id,
        &old_id,
        &Some("report-1".to_string()),
        &candidate,
        &service.revision(&old_id).unwrap(),
        0,
    )
    .unwrap_err();
    match ineligible {
        OperationError::Refused(message) => {
            assert!(message.contains("requires an active or quarantined predecessor"));
        }
        other => panic!("wrong error: {other:?}"),
    }
}

#[test]
fn a_transition_is_applied_once_and_stale_requests_are_refused() {
    let skill = artifact("moving");
    let id = skill.id.clone();
    let mut store = SkillStore::empty();
    let mut row = revision(skill, "active", None);
    row.row_version = 1;
    store.revisions.push(row);
    let mut service = LifecycleService::new(&mut store);
    service.register_policy("v1", "{}", 1).unwrap();
    let request = |key: &str, version: i64| TransitionRequest {
        idempotency_key: key.to_string(),
        skill_id: id.clone(),
        from_status: LifecycleStatus::Active,
        to_status: LifecycleStatus::Retired,
        expected_row_version: version,
        reason: "done".to_string(),
        snapshot: EvidenceSnapshot::new(
            id.clone(),
            None,
            "v1".to_string(),
            Vec::new(),
            vec![PolicyInput {
                name: "why".to_string(),
                json: "1".to_string(),
            }],
            version,
            None,
            0,
        )
        .unwrap(),
    };
    let stale = service.transition(&request("k0", 2), 9).unwrap_err();
    assert!(matches!(stale, LifecycleError::StaleRowVersion { .. }), "{stale:?}");
    let first = service.transition(&request("k1", 1), 9).unwrap();
    assert_eq!(first.status, LifecycleStatus::Retired);
    assert_eq!(first.row_version, 2);
    let again = service.transition(&request("k1", 1), 10).unwrap();
    assert!(again.replayed);
    assert_eq!(again.transition_id, first.transition_id);
    let unknown = service.revision("absent").unwrap_err();
    assert!(matches!(
        unknown,
        LifecycleError::Store(StoreError::NotFound(_))
    ));
    assert_eq!(store.transitions.len(), 1);
}

#[test]
fn terminal_statuses_lead_nowhere_and_tokens_round_trip() {
    let all = [
        LifecycleStatus::Pending,
        LifecycleStatus::Verified,
        LifecycleStatus::Canary,
        LifecycleStatus::Active,
        LifecycleStatus::Quarantined,
        LifecycleStatus::Superseded,
        LifecycleStatus::Retired,
        LifecycleStatus::Rejected,
    ];
    for status in all {
        assert_eq!(LifecycleStatus::from_token(status.as_token()), Some(status));
        assert!(!LifecycleStatus::Rejected.may_transition_to(status));
        assert!(!LifecycleStatus::Retired.may_transition_to(status));
    }
    assert_eq!(LifecycleStatus::from_token("gone"), None);
    assert!(LifecycleStatus::Canary.may_transition_to(LifecycleStatus::Active));
}

#[test]
fn a_snapshot_is_encoded_in_one_way() {
    let snapshot = EvidenceSnapshot::new(
        "skill".to_string(),
        Some("before".to_string()),
        "v1".to_string(),
        vec!["b".to_string(), "a".to_string()],
        vec![PolicyInput {
            name: "n\"".to_string(),
            json: "{\"x\":1}".to_string(),
        }],
        2,
        Some(3),
        4,
    )
    .unwrap();
    assert_eq!(
        snapshot.canonical_json().unwrap(),
        "{\"schema_version\":1,\"artifact_id\":\"skill\",\"predecessor_id\":\"before\",\"policy_version\":\"v1\",\"evidence_ids\":[\"a\",\"b\"],\"policy_inputs\":{\"n\\\"\":{\"x\":1}},\"artifact_row_version\":2,\"predecessor_row_version\":3,\"index_generation\":4}"
    );
    let repeated = EvidenceSnapshot::new(
        "skill".to_string(),
        None,
        "v1".to_string(),
        vec!["a".to_string(), "a".to_string()],
        Vec::new(),
        1,
        None,
        0,
    )
    .unwrap_err();
    assert!(matches!(repeated, LifecycleError::DuplicateEvidenceId));
}

#[test]
fn a_local_owner_approval_has_a_fresh_id() {
    let one = HumanApproval::local_owner("report".to_string(), 1).unwrap();
    let two = HumanApproval::local_owner("report".to_string(), 1).unwrap();
    assert!(one.approval_id.starts_with("local-owner-activation-"));
    assert_eq!(one.approval_id.len(), "local-owner-activation-".len() + 36);
    assert_ne!(one.approval_id, two.approval_id);
    assert!(HumanApproval::local_owner(String::new(), 1).is_err());
    assert!(HumanApproval::local_owner("report".to_string(), 0).is_err());
}

#[test]
fn a_policy_version_means_one_thing_for_ever() {
    let mut store = SkillStore::empty();
    let mut service = LifecycleService::new(&mut store);
    service.register_policy("v1", "{\"a\":1}", 1).unwrap();
    service.register_policy("v1", "{ \"a\" : 1 }", 2).unwrap();
    assert!(service.register_policy("v1", "{\"a\":2}", 3).is_err());
    assert!(service.register_policy("v2", "not json", 3).is_err());
    assert_eq!(store.policies.len(), 1);
    assert_eq!(store.policies[0].policy_json, "{\"a\":1}");
    let _ = ReplacementTransitionRequest::clone;
}

fn pair_request(
    key: &str,
    new_id: &str,
    old_id: &str,
    versions: (i64, i64),
    generation: i64,
) -> ReplacementTransitionRequest {
    ReplacementTransitionRequest {
        idempotency_key: key.to_string(),
        candidate_id: new_id.to_string(),
        predecessor_id: old_id.to_string(),
        candidate_row_version: versions.0,
        predecessor_row_version: versions.1,
        reason: "because".to_string(),
        snapshot: EvidenceSnapshot::new(
            new_id.to_string(),
            Some(old_id.to_string()),
            "v1".to_string(),
            vec!["e".to_string()],
            vec![PolicyInput {
                name: "why".to_string(),
                json: "1".to_string(),
            }],
            versions.0,
            Some(versions.1),
            generation,
        )
        .unwrap(),
    }
}

/// What is stored for a promotion: both skills returned in so many turns.
fn stored(turns: usize) -> StoredEvidence {
    let rows = || -> Vec<TerminalRow> {
        (0..turns)
            .map(|i| TerminalRow {
                invocation_id: format!("i{i}"),
                turn_id: format!("t{i}"),
                event_kind: "returned".to_string(),
                latency_us: Some(100),
                production: true,
                complete: true,
                created_at: 50,
            })
            .collect()
    };
    StoredEvidence {
        policy: Ok(PromotionPolicy::conservative("v1".to_string(), 0, 100)),
        candidate: rows(),
        predecessor: rows(),
        tasks: Vec::new(),
    }
}

fn no_findings() -> RateFindings {
    RateFindings {
        error_rate_too_high: false,
        confidence_failed: false,
        relative_latency_exceeded: false,
    }
}

fn pair_store(old: SkillArtifact, new: SkillArtifact) -> SkillStore {
    let old_id = old.id.clone();
    let new_id = new.id.clone();
    let mut store = SkillStore::empty();
    store.revisions.push(revision(old, "active", None));
    store.revisions.push(revision(new, "canary", Some(old_id)));
    LifecycleService::new(&mut store)
        .register_policy("v1", "{}", 1)
        .unwrap();
    store.evidence.push(EvidenceRow {
        evidence_id: "e".to_string(),
        skill_id: new_id,
        evidence_kind: "qualified".to_string(),
        payload_json: "{}".to_string(),
        policy_version: "v1".to_string(),
        created_at: 1,
    });
    store
}

#[test]
fn a_rollback_undoes_a_promotion() {
    let old = artifact("old");
    let new = artifact("new");
    let (old_id, new_id) = (old.id.clone(), new.id.clone());
    let mut store = pair_store(old, new);
    let before = store.revisions[0].clone();
    let mut service = LifecycleService::new(&mut store);
    let held = service
        .promote_replacement(
            &pair_request("k1", &new_id, &old_id, (3, 3), 0),
            &stored(24),
            no_findings(),
            5,
        )
        .unwrap_err();
    assert!(matches!(held, LifecycleError::PromotionHeld(_)), "{held:?}");
    let promoted = service
        .promote_replacement(
            &pair_request("k1", &new_id, &old_id, (3, 3), 0),
            &stored(25),
            no_findings(),
            5,
        )
        .unwrap();
    assert_eq!(promoted.candidate_status, LifecycleStatus::Active);
    assert_eq!(promoted.predecessor_status, LifecycleStatus::Superseded);
    assert_eq!(service.index_generations(), (1, 0));
    let again = service
        .promote_replacement(
            &pair_request("k1", &new_id, &old_id, (3, 3), 0),
            &stored(25),
            no_findings(),
            6,
        )
        .unwrap();
    assert!(again.replayed);
    let undone = service
        .rollback_replacement(&pair_request("k2", &new_id, &old_id, (4, 4), 1), 7)
        .unwrap();
    assert_eq!(undone.candidate_status, LifecycleStatus::Quarantined);
    assert_eq!(undone.predecessor_status, LifecycleStatus::Active);
    assert_eq!(service.index_generations(), (2, 0));
    let after = &store.revisions[0];
    assert_eq!(after.status, before.status);
    assert_eq!(after.superseded_by_id, None);
    assert_eq!(after.artifact, before.artifact);
    assert_eq!(after.row_version, before.row_version + 2);
    assert_eq!(store.revisions[1].status, "quarantined");
}

#[test]
fn a_promotion_on_evidence_reads_what_is_stored() {
    let old = artifact("old");
    let new = artifact("new");
    let (old_id, new_id) = (old.id.clone(), new.id.clone());
    let reason = |store: &mut SkillStore, evidence: StoredEvidence| {
        let request = pair_request("k1", &new_id, &old_id, (3, 3), 0);
        match LifecycleService::new(store).promote_replacement(
            &request,
            &evidence,
            no_findings(),
            5,
        ) {
            Err(LifecycleError::PromotionHeld(reason)) => reason,
            other => panic!("{other:?}"),
        }
    };
    let mut store = pair_store(old.clone(), new.clone());
    let unread = StoredEvidence {
        policy: Err("eof".to_string()),
        ..stored(25)
    };
    assert_eq!(reason(&mut store, unread), "invalid durable policy: eof");
    let other = StoredEvidence {
        policy: Ok(PromotionPolicy::conservative("v2".to_string(), 0, 100)),
        ..stored(25)
    };
    assert_eq!(reason(&mut store, other), "durable policy version mismatch");
    let mut negative = stored(25);
    negative.predecessor[3].latency_us = Some(-1);
    assert_eq!(reason(&mut store, negative), "negative durable latency");
    let mut conflict = stored(25);
    conflict.candidate[3].invocation_id = "i4".to_string();
    assert_eq!(
        reason(&mut store, conflict),
        "evidence contains an invocation ID conflict"
    );
    let mut task = stored(25);
    task.tasks.push(TaskOutcomeRow {
        turn_id: "t".to_string(),
        verify_passed: true,
        attempt: 1,
        source_kind: "hearsay".to_string(),
        source_id: None,
        production: true,
        evidence_complete: true,
        created_at: 50,
    });
    assert_eq!(reason(&mut store, task), "invalid durable task-outcome source");
    let mut backwards = stored(25);
    if let Ok(policy) = &mut backwards.policy {
        policy.window_end = -1;
    }
    assert_eq!(
        reason(&mut store, backwards),
        "invalid promotion policy configuration"
    );
    store.feedback.push(skills::store::FeedbackRow {
        feedback_id: "f".to_string(),
        idempotency_key: "k".to_string(),
        skill_id: new_id.clone(),
        invocation_id: None,
        actor_id: "owner".to_string(),
        feedback_kind: "severe".to_string(),
        reason_code: "wrong".to_string(),
        reason_text: None,
        state: "active".to_string(),
        version: 1,
        created_at: 1,
        updated_at: 1,
    });
    assert!(!reason(&mut store, stored(25)).is_empty());
    assert_eq!(store.revisions[1].status, "canary");
}

#[test]
fn a_lineage_is_not_forked() {
    let old = artifact("old");
    let new = artifact("new");
    let sibling = artifact("sibling");
    let (old_id, new_id) = (old.id.clone(), new.id.clone());
    let mut store = pair_store(old, new);
    let mut row = revision(sibling, "active", Some(old_id.clone()));
    row.lineage_root_id = store.revisions[1].lineage_root_id.clone();
    store.revisions.push(row);
    let forked = LifecycleService::new(&mut store)
        .promote_replacement(
            &pair_request("k1", &new_id, &old_id, (3, 3), 0),
            &stored(25),
            no_findings(),
            5,
        )
        .unwrap_err();
    assert!(matches!(forked, LifecycleError::LineageFork), "{forked:?}");
    assert_eq!(store.revisions[1].status, "canary");
}

#[test]
fn an_approval_id_is_bound_to_one_approval() {
    let mut store = SkillStore::empty();
    let approval =
        HumanApproval::verified("a".into(), "owner".into(), "report-1".into(), 3).unwrap();
    insert_approval(&mut store, "skill-1", "phase4_canary", &approval, 4).unwrap();
    insert_approval(&mut store, "skill-1", "phase4_canary", &approval, 9).unwrap();
    assert_eq!(store.approvals.len(), 1);
    match insert_approval(&mut store, "skill-2", "phase4_canary", &approval, 9) {
        Err(LifecycleError::ApprovalMismatch {
            field,
            expected,
            observed,
            ..
        }) => {
            assert_eq!(field, "approval_id_binding");
            assert_eq!(
                expected,
                "(\"skill-2\", \"phase4_canary\", \"owner\", 3, \"report-1\")"
            );
            assert!(observed.contains("\"skill-1\""), "{observed}");
        }
        other => panic!("the id is bound already: {other:?}"),
    }
}

#[test]
fn a_snapshot_does_not_depend_on_the_order_of_what_was_gathered() {
    let input = |name: &str, json: &str| PolicyInput {
        name: name.to_string(),
        json: json.to_string(),
    };
    let encoded = |ids: [&str; 2], inputs: Vec<PolicyInput>| {
        EvidenceSnapshot::new(
            "skill".to_string(),
            None,
            "v1".to_string(),
            ids.iter().map(|id| id.to_string()).collect(),
            inputs,
            1,
            None,
            0,
        )
        .unwrap()
        .canonical_json()
        .unwrap()
    };
    let first = encoded(["b", "a"], vec![input("z", "1"), input("m", "2"), input("z", "3")]);
    let second = encoded(["a", "b"], vec![input("m", "2"), input("z", "3")]);
    assert_eq!(first, second);
    assert!(first.contains("\"policy_inputs\":{\"m\":2,\"z\":3}"), "{first}");
}
