use skills::artifact::{
    CapabilityManifest, CapabilityTier, HostCapability, IdentityError, SkillArtifact, SkillExport,
};
use skills::capability::{
    CapabilityContext, CapabilityDenialReason, CapabilityError, InvocationAuthorization,
    InvocationCapabilityRuntime, InvocationGrant, SkillExecutionAttribution,
};
use skills::coordinator::{
    pair_batch, rebuild_and_publish_inner, CoordinatorError, MissingDocument, RebuildEvent,
    RebuildStage, RebuildStep,
};
use skills::distill::{
    assemble, complete_once, object_text, package_from_generation, parse_generation, scaffold,
    DistillError, GeneratedSkill, ProposalLimits, StreamItem,
};
use skills::embed::ModelMetadata;
use skills::fakes::{FakeReadRecord, FakeTranscript};
use skills::feedback::{
    ActorKind, AuthenticatedActor, FeedbackCommand, FeedbackError, FeedbackKind, FeedbackService,
    FeedbackState,
};
use skills::held_out::{
    check_gates, evaluate, ExpectedJsValue, HeldOutCase, HeldOutError, HeldOutSelector,
    HeldOutSuite, PredecessorRun, TranscriptExpectation, VerificationError,
};
use skills::index::{validate_query, QueryShape, SkillIndexError};
use skills::lifecycle::{
    ApprovalAuthorization, EvidenceSnapshot, HumanApproval, LifecycleError, LifecycleService,
    LifecycleStatus, ReplacementTransitionRequest, TransitionRequest,
};
use skills::operations::{plan_activation, OperationError};
use skills::policy::RateFindings;
use skills::promotion::StoredEvidence;
use skills::store::{ApprovalRow, InvokedRow, RevisionRow, SkillStore, StoreError};

fn artifact(name: &str) -> SkillArtifact {
    SkillArtifact::new(
        format!("function {name}(_cap) {{ return 1; }}"),
        format!("Do {name}."),
        vec!["t".to_string()],
        vec![SkillExport {
            name: name.to_string(),
            signature: "()".to_string(),
        }],
        vec![format!("{name}() === 1")],
        CapabilityManifest::pure(),
    )
    .unwrap()
}

#[test]
fn an_export_needs_a_name() {
    let unnamed = SkillArtifact::new(
        "s".to_string(),
        "d".to_string(),
        Vec::new(),
        vec![SkillExport {
            name: String::new(),
            signature: "()".to_string(),
        }],
        Vec::new(),
        CapabilityManifest::pure(),
    );
    assert_eq!(unnamed, Err(IdentityError::EmptyExportName));
}

#[test]
fn capabilities_are_refused_for_their_reasons() {
    let skill_id = "a".repeat(64);
    let scope = |manifest: CapabilityManifest| SkillExecutionAttribution {
        skill_id: skill_id.clone(),
        export_name: "f".to_string(),
        manifest,
    };
    let mut context = CapabilityContext::default();
    let broken = CapabilityManifest {
        tier: CapabilityTier::Pure,
        allowed_hosts: vec![HostCapability::ReadFile],
    };
    assert!(matches!(
        context.enter(scope(broken)),
        Err(CapabilityError::InvalidManifest(
            IdentityError::CapabilityExceedsTier { .. }
        ))
    ));
    context.enter(scope(CapabilityManifest::pure())).unwrap();
    match context.authorize(HostCapability::ReadFile, true) {
        Err(CapabilityError::Denied(denied)) => {
            assert_eq!(denied.skill_id, skill_id);
            assert_eq!(denied.operation, HostCapability::ReadFile);
            assert_eq!(denied.reason, CapabilityDenialReason::Undeclared);
        }
        other => panic!("not denied: {other:?}"),
    }
    let manifest =
        CapabilityManifest::new(CapabilityTier::ReadOnly, vec![HostCapability::ReadFile]).unwrap();
    let mut runtime = InvocationCapabilityRuntime::new(1);
    let handle = runtime
        .prepare(
            InvocationAuthorization::new(
                "i".to_string(),
                skill_id.clone(),
                "f".to_string(),
                manifest.clone(),
                vec![InvocationGrant {
                    capability: HostCapability::ReadFile,
                    grant_id: "g".to_string(),
                }],
            )
            .unwrap(),
        )
        .unwrap();
    let token = runtime.begin(handle, &skill_id, "f", &manifest).unwrap();
    assert!(runtime
        .dispatch(token, HostCapability::ReadFile, "[\"a\"]")
        .is_ok());
    assert!(matches!(
        runtime.dispatch(token, HostCapability::ReadFile, "[\"a\"]"),
        Err(CapabilityError::DispatchDenied)
    ));
    runtime.unbind(handle);
}

#[test]
fn publications_fail_for_their_reasons() {
    let batch = vec![MissingDocument {
        skill_id: "s".to_string(),
        document: "d".to_string(),
    }];
    assert!(matches!(
        pair_batch(&batch, Vec::new()),
        Err(CoordinatorError::Embedding(_))
    ));
    match rebuild_and_publish_inner(
        RebuildStage::Build {
            generation: 3,
            acknowledge: true,
        },
        RebuildEvent::Built(Err("no index".to_string())),
    ) {
        RebuildStep::Failed(CoordinatorError::Index(reason)) => assert_eq!(reason, "no index"),
        _ => panic!("the build failed"),
    }
}

fn limits() -> ProposalLimits {
    ProposalLimits {
        description: 1024,
        export_name: 128,
        signature: 512,
        source: 200,
        test: 40,
    }
}

fn generated() -> GeneratedSkill {
    GeneratedSkill {
        export_name: "f".to_string(),
        signature: "() => number".to_string(),
        description: "Do f.".to_string(),
        source: "function f(_cap) { return 1; }".to_string(),
        tests: vec!["f() === 1".to_string()],
        held_out_expressions: vec!["f() === 1".to_string()],
        tags: Vec::new(),
    }
}

fn refusal(generated: GeneratedSkill) -> DistillError {
    package_from_generation(&generated, "s", "t", &limits()).unwrap_err()
}

#[test]
fn drafts_are_refused_for_their_reasons() {
    assert!(package_from_generation(&generated(), "s", "t", &limits()).is_ok());
    let with = |change: fn(&mut GeneratedSkill)| {
        let mut skill = generated();
        change(&mut skill);
        refusal(skill)
    };
    assert_eq!(
        with(|g| g.export_name = "1f".to_string()),
        DistillError::NotAnIdentifier("1f".to_string())
    );
    assert_eq!(
        with(|g| g.source = "function f(a) {}".to_string()),
        DistillError::NoCapabilityParameter("f".to_string())
    );
    assert_eq!(
        with(|g| g.description = " ".to_string()),
        DistillError::EmptyDescription
    );
    assert_eq!(
        with(|g| g.signature = String::new()),
        DistillError::UnusableSignature
    );
    assert_eq!(
        with(|g| g.signature = "(_cap) => number".to_string()),
        DistillError::SignatureNamesCapability
    );
    assert!(matches!(
        with(|g| g.tests = vec![" ".to_string()]),
        DistillError::NothingReturned(_)
    ));
    assert!(matches!(
        with(|g| g.tests = vec![format!("f() === {}", "1".repeat(60))]),
        DistillError::Oversized(_)
    ));
    assert!(matches!(
        with(|g| g.held_out_expressions = vec!["f()".to_string()]),
        DistillError::NotBoolean { .. }
    ));
    assert_eq!(
        with(|g| g.source = format!("function f(_cap) {{ return '{}'; }}", "x".repeat(200))),
        DistillError::SourceTooLarge { limit: 200 }
    );
    assert!(matches!(
        scaffold(&"x".repeat(300), "s", "t", &limits()),
        Err(DistillError::RecordingTooLarge {
            bytes: 300,
            limit: 200
        })
    ));
    let parts = |description: &str, tests: usize, held_out: usize| {
        assemble(
            "function f(_cap) { return 1; }".to_string(),
            description.to_string(),
            SkillExport {
                name: "f".to_string(),
                signature: "()".to_string(),
            },
            vec!["f() === 1".to_string(); tests],
            vec!["f() === 1".to_string(); held_out],
            Vec::new(),
        )
        .err()
    };
    assert_eq!(parts("d", 1, 1), None);
    assert_eq!(parts("d", 0, 1), Some(DistillError::NoTest));
    assert_eq!(parts("d", 1, 0), Some(DistillError::NoHeldOutCase));
    assert!(matches!(parts("", 1, 1), Some(DistillError::Identity(_))));
    assert!(matches!(parts("d", 1, 65), Some(DistillError::Suite(_))));
    assert_eq!(object_text("prose"), Err(DistillError::NoJsonObject));
    assert_eq!(
        parse_generation("{}", None, None),
        Err(DistillError::NotTheObject)
    );
    assert_eq!(
        complete_once(&vec![StreamItem::Failed("x".to_string())]),
        Err(DistillError::RequestFailed("x".to_string()))
    );
    assert_eq!(complete_once(&Vec::new()), Err(DistillError::EmptyResponse));
}

fn row(artifact: SkillArtifact, status: &str, supersedes: Option<String>) -> RevisionRow {
    RevisionRow {
        artifact,
        status: status.to_string(),
        lineage_root_id: supersedes.clone(),
        supersedes_id: supersedes,
        superseded_by_id: None,
        row_version: 1,
        evaluation_report_id: Some("report".to_string()),
        updated_at: 1,
    }
}

#[test]
fn feedback_is_refused_for_its_reasons() {
    let one = artifact("one");
    let two = artifact("two");
    let (one_id, two_id) = (one.id.clone(), two.id.clone());
    let mut store = SkillStore::empty();
    store.revisions.push(row(one, "active", None));
    store.revisions.push(row(two, "active", None));
    store.invocations.push(InvokedRow {
        invocation_id: "b".repeat(64),
        skill_id: two_id,
    });
    let actor = AuthenticatedActor {
        actor_id: "owner".to_string(),
        kind: ActorKind::Owner,
        allowed_skill_ids: None,
    };
    let command = FeedbackCommand {
        idempotency_key: "key-1".to_string(),
        skill_id: one_id.clone(),
        invocation_id: None,
        kind: FeedbackKind::Negative,
        reason_code: "wrong_result".to_string(),
        reason_text: None,
    };
    let mut service = FeedbackService::new(&mut store, 30);
    let mut submit = |command: &FeedbackCommand| service.submit(&actor, command, None, 5);
    assert!(matches!(
        submit(&FeedbackCommand {
            invocation_id: Some("b".repeat(64)),
            ..command.clone()
        }),
        Err(FeedbackError::InvocationSkillMismatch { .. })
    ));
    assert!(matches!(
        submit(&FeedbackCommand {
            idempotency_key: String::new(),
            ..command.clone()
        }),
        Err(FeedbackError::InvalidFeedback { .. })
    ));
    assert!(matches!(
        submit(&FeedbackCommand {
            kind: FeedbackKind::Severe,
            ..command.clone()
        }),
        Err(FeedbackError::UnsupportedSevereReasonCode { .. })
    ));
    let id = submit(&command).unwrap();
    let mut close = |version: i64| {
        service.change_state(&actor, &id, version, FeedbackState::Resolved, "fixed", 6)
    };
    assert!(close(1).is_ok());
    for version in [1, 2] {
        assert!(matches!(
            close(version),
            Err(FeedbackError::InvalidStateTransition)
        ));
    }
    assert_eq!(store.feedback_stats[0].user_negative_count, 1);
}

#[test]
fn trials_fail_for_their_reasons() {
    let skill = artifact("f");
    let before = artifact("g");
    let outage = VerificationError::RuntimeCreationFailed("none".to_string());
    assert_eq!(
        check_gates(&skill, Err(outage.clone()), None),
        Err(HeldOutError::Embedded(outage))
    );
    let broken = VerificationError::ContextCreationFailed("none".to_string());
    assert_eq!(
        check_gates(
            &skill,
            Ok(()),
            Some(PredecessorRun {
                artifact: &before,
                inherited: Err(broken.clone()),
            })
        ),
        Err(HeldOutError::Inherited(broken))
    );
    let suites = vec![HeldOutSuite {
        id: "suite".to_string(),
        content_hash: "hash".to_string(),
        selector: HeldOutSelector {
            tags: Vec::new(),
            exports: vec!["f".to_string()],
            capability_tier: None,
        },
        cases: vec![HeldOutCase {
            expression: "f() === 1".to_string(),
            expected: ExpectedJsValue::Boolean(true),
            fake_files: Vec::new(),
            transcript: TranscriptExpectation {
                reads: 0,
                writes: 0,
                spawns: 0,
                fetches: 0,
                read_paths: Vec::new(),
                spawn_programs: Vec::new(),
                fetch_urls: Vec::new(),
            },
        }],
        approved_by: "owner".to_string(),
        approved_at: 1,
    }];
    let mut transcript = FakeTranscript::new();
    transcript.reads.push(FakeReadRecord {
        path: "a".to_string(),
        result: Ok(String::new()),
    });
    assert_eq!(
        evaluate(&skill, Ok(()), None, &suites, &vec![Some(transcript)], 5),
        Err(HeldOutError::TranscriptMismatch {
            suite_id: "suite".to_string(),
            case_index: 0
        })
    );
}

#[test]
fn queries_are_refused_for_their_reasons() {
    let model = ModelMetadata {
        model_id: "m".to_string(),
        model_revision: "r".to_string(),
        dimensions: 2,
        normalized: true,
    };
    let shape = |width: usize| QueryShape {
        width,
        finite: true,
        unit: true,
    };
    assert_eq!(
        validate_query(&"x".repeat(8193), shape(2), &model),
        Err(SkillIndexError::QueryTooLarge)
    );
    assert_eq!(
        validate_query("x", shape(3), &model),
        Err(SkillIndexError::DimensionMismatch {
            expected: 2,
            actual: 3
        })
    );
    assert_eq!(validate_query("x", shape(2), &model), Ok(()));
}

fn snapshot(id: &str, evidence: &[&str], policy: &str, generation: i64) -> EvidenceSnapshot {
    EvidenceSnapshot::new(
        id.to_string(),
        None,
        policy.to_string(),
        evidence.iter().map(|e| e.to_string()).collect(),
        Vec::new(),
        1,
        None,
        generation,
    )
    .unwrap()
}

fn retirement(key: &str, id: &str, snapshot: EvidenceSnapshot) -> TransitionRequest {
    TransitionRequest {
        idempotency_key: key.to_string(),
        skill_id: id.to_string(),
        from_status: LifecycleStatus::Active,
        to_status: LifecycleStatus::Retired,
        expected_row_version: 1,
        reason: "done".to_string(),
        snapshot,
    }
}

#[test]
fn transitions_are_refused_for_their_reasons() {
    let skill = artifact("f");
    let id = skill.id.clone();
    let mut store = SkillStore::empty();
    store.revisions.push(row(skill, "active", None));
    let mut service = LifecycleService::new(&mut store);
    assert!(matches!(
        service.register_policy("v0", "not json", 1),
        Err(LifecycleError::Json(_))
    ));
    service.register_policy("v1", "{}", 1).unwrap();
    assert!(matches!(
        service.register_policy("v1", "[]", 2),
        Err(LifecycleError::IdempotencyConflict)
    ));
    let mut refuse = |request: TransitionRequest| service.transition(&request, 9).unwrap_err();
    let unknown = refuse(retirement("k", &id, snapshot(&id, &[], "v9", 0)));
    assert!(matches!(unknown, LifecycleError::UnknownPolicyVersion(_)));
    let unseen = refuse(retirement("k", &id, snapshot(&id, &["e"], "v1", 0)));
    assert!(matches!(unseen, LifecycleError::UnknownEvidence));
    let stale = refuse(retirement("k", &id, snapshot(&id, &[], "v1", 4)));
    assert!(matches!(
        stale,
        LifecycleError::StaleGeneration {
            expected: 4,
            actual: 0
        }
    ));
    let other = refuse(retirement("k", &id, snapshot("other", &[], "v1", 0)));
    assert!(matches!(other, LifecycleError::EvidenceMismatch));
    let future = refuse(retirement(
        "k",
        &id,
        EvidenceSnapshot {
            schema_version: 2,
            ..snapshot(&id, &[], "v1", 0)
        },
    ));
    assert!(matches!(
        future,
        LifecycleError::UnsupportedEvidenceSnapshot(2)
    ));
    let empty = refuse(retirement(
        "k",
        &id,
        EvidenceSnapshot {
            artifact_row_version: 0,
            ..snapshot(&id, &[], "v1", 0)
        },
    ));
    assert!(matches!(empty, LifecycleError::InvalidEvidenceSnapshot));
    let privileged = refuse(TransitionRequest {
        from_status: LifecycleStatus::Canary,
        to_status: LifecycleStatus::Active,
        ..retirement("k", &id, snapshot(&id, &[], "v1", 0))
    });
    assert!(matches!(privileged, LifecycleError::PrivilegedTransition));
    service
        .transition(&retirement("k", &id, snapshot(&id, &[], "v1", 0)), 9)
        .unwrap();
    let changed = retirement("k", &id, snapshot(&id, &[], "v1", 1));
    assert!(matches!(
        service.transition(&changed, 9),
        Err(LifecycleError::IdempotencyConflict)
    ));
    store.revisions[0].status = "odd".to_string();
    assert!(matches!(
        LifecycleService::new(&mut store).revision(&id),
        Err(LifecycleError::UnknownStatus(_))
    ));
    store.revisions[0].status = "rejected".to_string();
    store.revisions[0].row_version = 1;
    store.desired_generation = 0;
    assert!(matches!(
        LifecycleService::new(&mut store)
            .transition(&retirement("k2", &id, snapshot(&id, &[], "v1", 0)), 9),
        Err(LifecycleError::RejectedIsTerminal)
    ));
    store.revisions[0].status = "active".to_string();
    store.revisions[0].supersedes_id = Some(id.clone());
    assert!(matches!(
        LifecycleService::new(&mut store)
            .transition(&retirement("k3", &id, snapshot(&id, &[], "v1", 0)), 9),
        Err(LifecycleError::LineageCycle)
    ));
}

#[test]
fn activations_are_refused_for_their_reasons() {
    let skill = artifact("f");
    let id = skill.id.clone();
    let mut store = SkillStore::empty();
    store.revisions.push(row(skill, "canary", None));
    store.approvals.push(ApprovalRow {
        approval_id: "canary".to_string(),
        skill_id: id.clone(),
        approval_kind: "phase4_canary".to_string(),
        actor_id: "owner".to_string(),
        artifact_row_version: 1,
        evaluation_report_id: "report".to_string(),
        created_at: 1,
    });
    LifecycleService::new(&mut store)
        .register_policy("v1", "{}", 1)
        .unwrap();
    let approval =
        HumanApproval::verified("a".into(), "owner".into(), "report".into(), 1).unwrap();
    assert!(matches!(
        HumanApproval::verified(String::new(), "owner".into(), "report".into(), 1),
        Err(LifecycleError::InvalidHumanApproval)
    ));
    let authorization = |id: &str| ApprovalAuthorization {
        authorization_id: id.to_string(),
        principal: "owner".to_string(),
    };
    let activate = |store: &mut SkillStore, authority: &str, consumed: Result<(), StoreError>| {
        LifecycleService::new(store).activate_root(
            "k",
            &id,
            &approval,
            &authorization(authority),
            &snapshot(&id, &[], "v1", 0),
            &consumed,
            7,
        )
    };
    assert!(matches!(
        activate(&mut store, "b", Ok(())),
        Err(LifecycleError::Store(StoreError::Unauthorized))
    ));
    assert!(matches!(
        activate(
            &mut store,
            "a",
            Err(StoreError::Constraint("used".to_string()))
        ),
        Err(LifecycleError::Store(StoreError::Constraint(_)))
    ));
    let mut replacement = store.clone();
    replacement.revisions[0].supersedes_id = Some("x".to_string());
    assert!(matches!(
        activate(&mut replacement, "a", Ok(())),
        Err(LifecycleError::NotLineageRoot)
    ));
    assert_eq!(
        activate(&mut store, "a", Ok(())).unwrap().status,
        LifecycleStatus::Active
    );
}

#[test]
fn a_pair_must_be_the_one_its_evidence_speaks_of() {
    let mut store = SkillStore::empty();
    let request = ReplacementTransitionRequest {
        idempotency_key: "k".to_string(),
        candidate_id: "new".to_string(),
        predecessor_id: "old".to_string(),
        candidate_row_version: 1,
        predecessor_row_version: 1,
        reason: "because".to_string(),
        snapshot: snapshot("new", &["e"], "v1", 0),
    };
    assert!(matches!(
        LifecycleService::new(&mut store).promote_replacement(
            &request,
            &StoredEvidence {
                policy: Err("unread".to_string()),
                candidate: Vec::new(),
                predecessor: Vec::new(),
                tasks: Vec::new(),
            },
            RateFindings {
                error_rate_too_high: false,
                confidence_failed: false,
                relative_latency_exceeded: false,
            },
            1
        ),
        Err(LifecycleError::EvidenceMismatch)
    ));
}

#[test]
fn an_activation_needs_a_sound_snapshot() {
    assert!(matches!(
        plan_activation("", &Some("report".to_string()), Some(1), 0),
        Err(OperationError::Lifecycle(
            LifecycleError::InvalidEvidenceSnapshot
        ))
    ));
}
