use skills::artifact::{CapabilityManifest, CapabilityTier, SkillArtifact, SkillExport};
use skills::backoff::{rebuild_delay, retry_delay};
use skills::coordinator::{
    batch_end, build_generation, canary_candidate, coordinate_mutation, coordinate_removal,
    embedding_is_compatible, mutate_and_publish_hidden, routing_context,
    routing_key_for_generation,
    ensure_generation_current, fresh_routing_secret, missing_documents, needs_refresh, pair_batch,
    rebuild_and_publish_inner, refresh_snapshot_embeddings, replacement_candidate,
    resolve_active_ids, retain_bindable_ids, routing_key, routing_secret,
    superseding_removal_report, BackfillRow, BuildStage, BuildStep, CachedRoutingKey,
    CandidateRow, CoordinatedMutationError, CoordinatorError, DeclaredRow, HiddenEvent, HiddenStage, HiddenStep,
    FreshRow, GenerationState, MissingDocument, MutationAction, MutationEvent, MutationStage,
    MutationStep,
    PublicationReport, RebuildBackoff, RebuildEvent, RebuildStage, RebuildStep, RoutingKeyStep,
};
use skills::embed::ModelMetadata;
use skills::held_out::StoreFailure;
use skills::index::{SkillRecordMetadata, StoredEmbedding};

fn artifact(name: &str, description: &str) -> SkillArtifact {
    SkillArtifact::new(
        format!("function {name}(_cap, value) {{ return value; }}"),
        description.to_string(),
        vec!["coordinator".to_string()],
        vec![SkillExport {
            name: name.to_string(),
            signature: format!("{name}(value: string): string"),
        }],
        vec![format!("{name}('x') === 'x'")],
        CapabilityManifest::pure(),
    )
    .expect("test artifact")
}

fn state(desired: u64, applied: u64, mode: &str) -> GenerationState {
    GenerationState {
        desired_generation: desired,
        applied_generation: applied,
        publication_mode: mode.to_string(),
        model_id: "m".to_string(),
        model_revision: "r".to_string(),
        dimensions: 2,
        normalized: true,
    }
}

fn model() -> ModelMetadata {
    ModelMetadata {
        model_id: "m".to_string(),
        model_revision: "r".to_string(),
        dimensions: 2,
        normalized: true,
    }
}

fn stored(skill_id: &str) -> StoredEmbedding {
    StoredEmbedding {
        skill_id: skill_id.to_string(),
        model_id: "m".to_string(),
        model_revision: "r".to_string(),
        dimensions: 2,
        normalized: true,
        values: vec![1, 2],
        unit: true,
    }
}

fn go(stage: RebuildStage, event: RebuildEvent) -> RebuildStage {
    match rebuild_and_publish_inner(stage, event) {
        RebuildStep::Next(stage) => stage,
        RebuildStep::Done { .. } => panic!("the rebuild should go on"),
        RebuildStep::Failed(e) => panic!("the rebuild should go on: {e:?}"),
    }
}

#[test]
fn a_current_full_generation_is_not_rebuilt_and_re_embedded_again() {
    match rebuild_and_publish_inner(
        RebuildStage::Check,
        RebuildEvent::State {
            state: Ok(state(4, 4, "full")),
            hydrated: true,
        },
    ) {
        RebuildStep::Done {
            generation,
            with_graph,
        } => {
            assert_eq!(
                generation, 4,
                "a redundant rebuild must reuse the published generation"
            );
            assert!(!with_graph);
        }
        _ => panic!("a redundant rebuild must not request a brand-new generation"),
    }
}

#[test]
fn a_rebuild_publishes_only_what_durable_state_acknowledged() {
    let stage = go(
        RebuildStage::Check,
        RebuildEvent::State {
            state: Ok(state(4, 4, "removal_only")),
            hydrated: true,
        },
    );
    let stage = go(
        stage,
        RebuildEvent::State {
            state: Ok(state(4, 4, "removal_only")),
            hydrated: true,
        },
    );
    assert_eq!(stage, RebuildStage::Request);
    let stage = go(stage, RebuildEvent::Requested(Ok(5)));
    let stage = go(stage, RebuildEvent::Snapshot(Ok(257)));
    assert_eq!(
        stage,
        RebuildStage::Embed {
            generation: 5,
            acknowledge: true,
            batches: 2
        }
    );
    let stage = go(stage, RebuildEvent::Batch(Ok(())));
    let stage = go(stage, RebuildEvent::Batch(Ok(())));
    let stage = go(
        stage,
        RebuildEvent::Refreshed {
            rows: Ok(()),
            state: Ok(state(5, 4, "full")),
        },
    );
    let stage = go(stage, RebuildEvent::Built(Ok(())));
    assert_eq!(stage, RebuildStage::Acknowledge { generation: 5 });
    match rebuild_and_publish_inner(
        stage,
        RebuildEvent::Acknowledged(Err(StoreFailure::Other("moved".into()))),
    ) {
        RebuildStep::Failed(CoordinatorError::Store(_)) => {}
        _ => panic!("a refused acknowledgement must not publish"),
    }
    let stage = go(stage, RebuildEvent::Acknowledged(Ok(())));
    assert_eq!(stage, RebuildStage::Publish { generation: 5 });
    let stage = go(stage, RebuildEvent::Published { large: true });
    match rebuild_and_publish_inner(
        stage,
        RebuildEvent::Graph {
            state: Ok(state(6, 5, "full")),
            published: 5,
        },
    ) {
        RebuildStep::Done {
            generation,
            with_graph,
        } => {
            assert_eq!(generation, 5);
            assert!(!with_graph, "a stale graph must not be published");
        }
        _ => panic!("the rebuild should be done"),
    }
}

#[test]
fn a_generation_that_readers_lack_is_only_hydrated() {
    let plan = go(
        RebuildStage::Plan,
        RebuildEvent::State {
            state: Ok(state(4, 4, "full")),
            hydrated: false,
        },
    );
    assert_eq!(
        plan,
        RebuildStage::Snapshot {
            generation: 4,
            acknowledge: false
        }
    );
    let stage = go(plan, RebuildEvent::Snapshot(Ok(0)));
    assert_eq!(
        stage,
        RebuildStage::Refresh {
            generation: 4,
            acknowledge: false
        }
    );
    match rebuild_and_publish_inner(
        stage,
        RebuildEvent::Refreshed {
            rows: Ok(()),
            state: Ok(state(5, 4, "full")),
        },
    ) {
        RebuildStep::Failed(CoordinatorError::Constraint(message)) => assert_eq!(
            message,
            "lifecycle requested generation 4, durable generation is 5"
        ),
        _ => panic!("a moved generation must stop the rebuild"),
    }
}

#[test]
fn a_generation_superseded_by_a_concurrent_removal_reports_removal_only() {
    let refused = || MutationEvent::<String>::Marked {
        answer: Err(StoreFailure::Other("superseded".into())),
        state: Some(state(9, 8, "full")),
    };
    match coordinate_mutation(MutationStage::MarkRemoval { generation: 8 }, refused()) {
        MutationStep::Report { report, publish } => {
            assert!(
                report.removal_only,
                "a superseded build must be reported as removal-only"
            );
            assert_eq!(
                report.generation, 9,
                "the report must carry the newer durable generation"
            );
            assert!(!publish);
        }
        _ => panic!("a committed transition must not surface as a publication failure"),
    }
    match coordinate_mutation(
        MutationStage::MarkDegraded {
            generation: 8,
            diagnostic: "boom".to_string(),
        },
        refused(),
    ) {
        MutationStep::Report { report, .. } => {
            assert_eq!(report.diagnostic.as_deref(), Some("boom"));
        }
        _ => panic!("the newer generation should be reported"),
    }
}

#[test]
fn a_current_generation_still_surfaces_a_genuine_acknowledgement_failure() {
    assert!(
        superseding_removal_report(&Some(state(3, 2, "full")), 3, None).is_none(),
        "a generation that is still current must not be reported as superseded"
    );
    let report =
        superseding_removal_report(&Some(state(4, 2, "full")), 3, Some("boom".to_string()))
            .expect("a superseded generation must produce a removal-only report");
    assert_eq!(report.generation, 4);
    assert!(report.removal_only);
    assert_eq!(report.diagnostic.as_deref(), Some("boom"));

    match coordinate_mutation(
        MutationStage::MarkFull { generation: 3 },
        MutationEvent::<String>::Marked {
            answer: Err(StoreFailure::Other("disk".into())),
            state: Some(state(3, 2, "full")),
        },
    ) {
        MutationStep::Failed(CoordinatedMutationError::Publication(CoordinatorError::Store(
            StoreFailure::Other(message),
        ))) => {
            assert_eq!(message, "disk");
        }
        _ => panic!("a genuine failure must reach the caller"),
    }
    assert!(superseding_removal_report(&None, 3, None).is_none());
}

fn marked() -> MutationEvent<String> {
    MutationEvent::Marked {
        answer: Ok(()),
        state: None,
    }
}

fn next_of(step: MutationStep<String>) -> MutationStage {
    match step {
        MutationStep::Next(stage) => stage,
        _ => panic!("there is more to do"),
    }
}

fn asks(stage: &MutationStage) -> (u64, &'static str, Option<String>) {
    match stage.request() {
        MutationAction::Acknowledge {
            generation,
            mode,
            diagnostic,
        } => (generation, mode, diagnostic),
        _ => panic!("durable state is asked"),
    }
}

#[test]
fn a_mutation_publishes_its_build_or_says_why_not() {
    assert!(matches!(
        MutationStage::Commit.request(),
        MutationAction::Commit
    ));
    let stage = next_of(coordinate_mutation(
        MutationStage::Commit,
        MutationEvent::Committed(Ok(3)),
    ));
    assert!(matches!(
        stage.request(),
        MutationAction::Hide { generation: 3 }
    ));
    let stage = next_of(coordinate_mutation(stage, MutationEvent::Hidden));
    assert_eq!(asks(&stage), (3, "removal_only", None));
    let stage = next_of(coordinate_mutation(stage, marked()));
    assert!(matches!(
        stage.request(),
        MutationAction::Build { generation: 3 }
    ));
    let stage = next_of(coordinate_mutation(stage, MutationEvent::Built(Ok(()))));
    assert_eq!(asks(&stage), (3, "full", None));
    match coordinate_mutation(stage, marked()) {
        MutationStep::Report { report, publish } => {
            assert!(publish);
            assert_eq!(
                report,
                PublicationReport {
                    generation: 3,
                    removal_only: false,
                    diagnostic: None
                }
            );
        }
        _ => panic!("the generation is complete"),
    }
    let failed = next_of(coordinate_mutation(
        MutationStage::Build { generation: 3 },
        MutationEvent::Built(Err("no model".to_string())),
    ));
    assert_eq!(
        asks(&failed),
        (3, "removal_only", Some("no model".to_string()))
    );
    match coordinate_mutation(failed, marked()) {
        MutationStep::Report { report, publish } => {
            assert!(!publish);
            assert!(report.removal_only);
            assert_eq!(report.diagnostic.as_deref(), Some("no model"));
        }
        _ => panic!("the removals stay visible"),
    }
}

#[test]
fn a_change_that_is_not_made_publishes_nothing() {
    assert!(matches!(
        coordinate_mutation(
            MutationStage::Commit,
            MutationEvent::Committed(Err("refused".to_string()))
        ),
        MutationStep::Failed(CoordinatedMutationError::Mutation(reason)) if reason == "refused"
    ));
    assert!(matches!(
        coordinate_mutation(
            MutationStage::Build { generation: 3 },
            MutationEvent::<String>::Poisoned
        ),
        MutationStep::Failed(CoordinatedMutationError::Publication(
            CoordinatorError::Poisoned
        ))
    ));
    assert!(matches!(
        coordinate_mutation(MutationStage::Hide { generation: 3 }, marked()),
        MutationStep::Next(MutationStage::Hide { generation: 3 })
    ));
}

#[test]
fn a_removal_is_published_without_a_build() {
    let stage = next_of(coordinate_removal(
        MutationStage::Commit,
        MutationEvent::Committed(Ok(4)),
    ));
    let stage = next_of(coordinate_removal(stage, MutationEvent::Hidden));
    assert_eq!(asks(&stage), (4, "removal_only", None));
    match coordinate_removal(stage, marked()) {
        MutationStep::Report { report, publish } => {
            assert!(!publish);
            assert_eq!(
                report,
                PublicationReport {
                    generation: 4,
                    removal_only: true,
                    diagnostic: None
                }
            );
        }
        _ => panic!("the removal is published"),
    }
    assert!(matches!(
        coordinate_removal(
            MutationStage::MarkRemoval { generation: 4 },
            MutationEvent::<String>::Marked {
                answer: Err(StoreFailure::Other("x".into())),
                state: Some(state(9, 8, "full")),
            }
        ),
        MutationStep::Failed(CoordinatedMutationError::Publication(CoordinatorError::Store(
            StoreFailure::Other(_)
        )))
    ));
    assert!(matches!(
        coordinate_removal(
            MutationStage::Commit,
            MutationEvent::Committed(Err("refused".to_string()))
        ),
        MutationStep::Failed(CoordinatedMutationError::Mutation(_))
    ));
}

#[test]
fn one_unreadable_declared_row_does_not_drop_the_rest_of_the_batch() {
    let good = artifact("goodDeclaredSkill", "Keep a readable declared skill.");
    let mut tampered = artifact("tamperedDeclaredSkill", "Tamper with this row on disk.");
    tampered.source.push(' ');
    let id = good.id.clone();
    let resolved = resolve_active_ids(vec![
        DeclaredRow {
            status: Ok(Some("active".to_string())),
            artifact: Ok(Some(tampered)),
        },
        DeclaredRow {
            status: Ok(Some("active".to_string())),
            artifact: Ok(Some(good)),
        },
        DeclaredRow {
            status: Ok(Some("canary".to_string())),
            artifact: Ok(Some(artifact("other", "Not active."))),
        },
        DeclaredRow {
            status: Ok(None),
            artifact: Ok(None),
        },
        DeclaredRow {
            status: Ok(Some("active".to_string())),
            artifact: Err("disk".to_string()),
        },
        DeclaredRow {
            status: Err("disk".to_string()),
            artifact: Ok(None),
        },
    ]);

    assert_eq!(resolved.len(), 6);
    assert_eq!(resolved[4], Err("disk".to_string()));
    assert_eq!(resolved[5], Err("disk".to_string()));
    assert!(
        resolved[0].is_err(),
        "the tampered row must report its own diagnostic"
    );
    assert_eq!(
        resolved[1]
            .as_ref()
            .expect("readable row must still resolve")
            .as_ref()
            .map(|artifact| artifact.id.as_str()),
        Some(id.as_str())
    );
    assert!(matches!(resolved[2], Ok(None)));
    assert!(matches!(resolved[3], Ok(None)));
}

#[test]
fn only_active_and_canary_revisions_remain_bindable() {
    let bindable = retain_bindable_ids(
        &vec![
            "active-id".to_string(),
            "canary-id".to_string(),
            "retired-id".to_string(),
            "purged-revision-id".to_string(),
            "active-id".to_string(),
        ],
        &vec![
            Some("active".to_string()),
            Some("canary".to_string()),
            Some("retired".to_string()),
            None,
            Some("active".to_string()),
        ],
    );

    assert!(bindable.contains(&"active-id".to_string()));
    assert!(
        bindable.contains(&"canary-id".to_string()),
        "canary routing must survive the bindable filter"
    );
    assert!(
        !bindable.contains(&"retired-id".to_string()),
        "a retired revision must not stay bindable"
    );
    assert!(
        !bindable.contains(&"purged-revision-id".to_string()),
        "a purged revision must not stay bindable"
    );
    assert_eq!(bindable.len(), 2);
}

fn candidate(id: &str, invocations: u64, created_at: i64) -> CandidateRow {
    CandidateRow {
        id: id.to_string(),
        supersedes_id: Some("active".to_string()),
        lineage_root_id: "root".to_string(),
        status: "canary".to_string(),
        invocations,
        created_at,
    }
}

#[test]
fn the_least_tried_canary_of_the_lineage_is_next() {
    let lineage = Some("root".to_string());
    let rows = vec![
        candidate("c", 5, 1),
        candidate("b", 2, 9),
        candidate("a", 2, 9),
        CandidateRow {
            supersedes_id: None,
            ..candidate("root-canary", 0, 0)
        },
        CandidateRow {
            lineage_root_id: "other".to_string(),
            ..candidate("foreign", 0, 0)
        },
    ];
    let current = state(4, 4, "full");
    let pick = |id: &str, lineage: &Option<String>, generation: u64| {
        replacement_candidate(&current, generation, id, lineage, &rows)
    };
    assert_eq!(pick("active", &lineage, 4), Some(2));
    assert_eq!(pick("active", &lineage, 3), None);
    assert_eq!(pick("active", &None, 4), None);
    assert_eq!(pick("unknown", &lineage, 4), None);
    let skill = artifact("candidate", "A candidate.");
    let routed = canary_candidate(
        "a".to_string(),
        "root".to_string(),
        &skill,
        Some(&stored("a")),
        &model(),
    );
    assert!(routed.model_compatible);
    assert!(routed.identity_valid);
    assert!(routed.explicitly_idempotent);
    assert_eq!(routed.capability_tier, CapabilityTier::Pure);
    let unembedded =
        canary_candidate("a".to_string(), "root".to_string(), &skill, None, &model());
    assert!(!unembedded.model_compatible);
}

#[test]
fn routing_secrets_are_hashes_and_keys_have_one_length() {
    let secret = routing_secret(&vec![0; 16]);
    assert_eq!(secret.len(), 32);
    assert_ne!(secret, routing_secret(&vec![1; 16]));
    let one = fresh_routing_secret();
    let two = fresh_routing_secret();
    assert_eq!(one.len(), 32);
    assert_ne!(one, two);
    assert_eq!(routing_key(one.clone()).unwrap(), one);
    assert_eq!(
        routing_key(vec![1, 2, 3]).unwrap_err(),
        CoordinatorError::Constraint("canary routing key has an invalid length".to_string())
    );
}

#[test]
fn waits_double_up_to_their_bound() {
    let retries: Vec<i64> = (0..12).map(retry_delay).collect();
    assert_eq!(retries, vec![1, 1, 2, 4, 8, 16, 32, 64, 128, 256, 256, 256]);
    let rebuilds: Vec<u64> = (0..9).map(rebuild_delay).collect();
    assert_eq!(rebuilds, vec![1, 1, 2, 4, 8, 16, 32, 60, 60]);
    let mut backoff = RebuildBackoff::default();
    assert!(!backoff.is_active(0));
    backoff.record_failure("first".to_string(), 1000);
    assert!(backoff.is_active(1999));
    assert!(!backoff.is_active(2000));
    backoff.record_failure("second".to_string(), 2000);
    assert_eq!(backoff.retry_not_before, Some(4000));
    assert_eq!(backoff.diagnostic(3000), Some("second".to_string()));
    assert_eq!(backoff.diagnostic(4000), None);
    assert!(!backoff.schedule_rebuild(3000, false));
    assert!(backoff.schedule_rebuild(4000, false));
    assert!(!backoff.schedule_rebuild(4000, true));
    backoff.rebuild_and_publish(Err("third".to_string()), 5000);
    assert_eq!(backoff.retry_not_before, Some(9000));
    backoff.rebuild_and_publish(Ok(4), 6000);
    assert_eq!(backoff, RebuildBackoff::default());
}

#[test]
fn hidden_skills_are_published_once_the_change_is_made() {
    let failure = || StoreFailure::Other("x".to_string());
    let next = |stage, event| match mutate_and_publish_hidden(stage, event) {
        HiddenStep::Next(stage) => stage,
        HiddenStep::Done { .. } => panic!("the change goes on"),
    };
    let done = |stage, event| match mutate_and_publish_hidden(stage, event) {
        HiddenStep::Done { publish, result } => (publish, result),
        HiddenStep::Next(_) => panic!("the change has ended"),
    };
    let requested = next(HiddenStage::Prepare, HiddenEvent::Prepared);
    assert_eq!(requested, HiddenStage::Request);
    let changing = next(requested, HiddenEvent::Requested(Ok(7)));
    assert_eq!(changing, HiddenStage::Mutate { generation: 7 });
    let made = next(changing, HiddenEvent::Mutated(Ok(())));
    assert_eq!(made, HiddenStage::Acknowledge { generation: 7 });
    assert_eq!(
        done(made, HiddenEvent::Acknowledged(Ok(()))),
        (Some(7), Ok(7))
    );
    assert_eq!(
        done(made, HiddenEvent::Acknowledged(Err(failure()))),
        (Some(7), Err(CoordinatorError::Store(failure())))
    );
    assert_eq!(next(made, HiddenEvent::Poisoned), made);
    assert_eq!(
        done(changing, HiddenEvent::Mutated(Err(failure()))),
        (None, Err(CoordinatorError::Store(failure())))
    );
    assert_eq!(
        done(requested, HiddenEvent::Requested(Err(failure()))),
        (None, Err(CoordinatorError::Store(failure())))
    );
    assert_eq!(
        done(HiddenStage::Prepare, HiddenEvent::Poisoned),
        (None, Err(CoordinatorError::Poisoned))
    );
}

#[test]
fn a_routing_key_is_reused_for_its_generation_only() {
    let cached = Some(CachedRoutingKey {
        generation: 3,
        key: vec![1; 32],
    });
    assert_eq!(
        routing_key_for_generation(&cached, 3, None, vec![9; 32]),
        RoutingKeyStep::Cached(vec![1; 32])
    );
    assert_eq!(
        routing_key_for_generation(&cached, 4, None, vec![9; 32]),
        RoutingKeyStep::Create(vec![9; 32])
    );
    assert_eq!(
        routing_key_for_generation(&None, 4, Some(vec![2; 32]), vec![9; 32]),
        RoutingKeyStep::Stored(CachedRoutingKey {
            generation: 4,
            key: vec![2; 32],
        })
    );
    assert!(matches!(
        routing_key_for_generation(&None, 4, Some(vec![2; 31]), vec![9; 32]),
        RoutingKeyStep::Failed(CoordinatorError::Constraint(_))
    ));
}

#[test]
fn a_routing_context_is_for_the_leased_generation() {
    let skill = artifact("candidate", "A candidate.");
    let routed = canary_candidate(
        skill.id.clone(),
        "root".to_string(),
        &skill,
        None,
        &model(),
    );
    let ids = vec!["a".to_string(), "b".to_string()];
    let found = || vec![None, Some((skill.clone(), routed.clone()))];
    let context =
        routing_context(&state(4, 4, "full"), 4, vec![7; 32], &ids, found()).expect("current");
    assert_eq!(context.key, vec![7; 32]);
    assert_eq!(context.candidates.len(), 1);
    assert_eq!(context.candidates[0].0, "b");
    assert_eq!(context.candidates[0].1.id, skill.id);
    assert!(routing_context(&state(5, 4, "full"), 4, vec![7; 32], &ids, found()).is_none());
    let twice = vec!["b".to_string(), "b".to_string()];
    let both = vec![
        Some((skill.clone(), routed.clone())),
        Some((skill.clone(), routed.clone())),
    ];
    let context =
        routing_context(&state(4, 4, "full"), 4, vec![7; 32], &twice, both).expect("current");
    assert_eq!(context.candidates.len(), 1);
}

#[test]
fn a_build_goes_from_its_rows_to_its_index() {
    let next = |stage: BuildStage, event: RebuildEvent| match build_generation(4, stage, event) {
        BuildStep::Next(stage) => stage,
        _ => panic!("the build goes on"),
    };
    let current = || RebuildEvent::State {
        state: Ok(state(4, 3, "removal_only")),
        hydrated: true,
    };
    assert_eq!(next(BuildStage::Check, current()), BuildStage::Snapshot);
    assert_eq!(
        next(BuildStage::Snapshot, RebuildEvent::Snapshot(Ok(257))),
        BuildStage::Embed { batches: 2 }
    );
    assert_eq!(
        next(BuildStage::Snapshot, RebuildEvent::Snapshot(Ok(0))),
        BuildStage::Refresh
    );
    assert_eq!(
        next(BuildStage::Embed { batches: 1 }, RebuildEvent::Batch(Ok(()))),
        BuildStage::Refresh
    );
    let refreshed = |desired: u64| RebuildEvent::Refreshed {
        rows: Ok(()),
        state: Ok(state(desired, 3, "removal_only")),
    };
    assert_eq!(next(BuildStage::Refresh, refreshed(4)), BuildStage::Build);
    match build_generation(4, BuildStage::Refresh, refreshed(5)) {
        BuildStep::Failed(CoordinatorError::Constraint(message)) => assert_eq!(
            message,
            "lifecycle requested generation 4, durable generation is 5"
        ),
        _ => panic!("the generation was overtaken"),
    }
    assert!(matches!(
        build_generation(4, BuildStage::Build, RebuildEvent::Built(Ok(()))),
        BuildStep::Done
    ));
}

#[test]
fn a_refresh_is_needed_until_a_full_generation_is_read() {
    assert!(!needs_refresh(false, true, &state(3, 3, "full")));
    assert!(needs_refresh(true, true, &state(3, 3, "full")));
    assert!(needs_refresh(false, false, &state(3, 3, "full")));
    assert!(needs_refresh(false, true, &state(4, 3, "full")));
    assert!(needs_refresh(false, true, &state(3, 3, "removal_only")));
    assert!(!state(3, 3, "full").model_changed(&model()));
    let other = ModelMetadata {
        model_revision: "r2".to_string(),
        ..model()
    };
    assert!(state(3, 3, "full").model_changed(&other));
    assert!(state(3, 3, "full").is_current(3));
    assert!(ensure_generation_current(&state(3, 2, "full"), 3).is_ok());
}

#[test]
fn only_missing_vectors_are_made_and_every_one_is_paired() {
    let first = artifact("first", "First.");
    let second = artifact("second", "Second.");
    let first_id = first.id.clone();
    let second_id = second.id.clone();
    let old = StoredEmbedding {
        model_revision: "r0".to_string(),
        ..stored(&second_id)
    };
    assert!(embedding_is_compatible(&stored(&first_id), &model()));
    assert!(!embedding_is_compatible(&old, &model()));
    let missing = missing_documents(
        &vec![
            BackfillRow {
                embedding: Some(stored(&first_id)),
                artifact: first,
            },
            BackfillRow {
                embedding: Some(old),
                artifact: second,
            },
        ],
        &model(),
    );
    assert_eq!(missing.len(), 1);
    assert_eq!(missing[0].skill_id, second_id);
    assert!(missing[0].document.starts_with("Second.\nExports: "));
    assert_eq!(
        pair_batch(&missing, vec![vec![7, 8]]).unwrap(),
        vec![(second_id, vec![7, 8])]
    );
    assert!(pair_batch(&missing, Vec::new()).is_err());
    assert_eq!(batch_end(0, 10), 10);
    assert_eq!(batch_end(0, 600), 256);
    assert_eq!(batch_end(512, 600), 600);
    let _ = MissingDocument::clone;
}

fn fresh(skill_id: &str, embedding: Option<StoredEmbedding>) -> FreshRow {
    FreshRow {
        skill_id: skill_id.to_string(),
        embedding,
        metadata: SkillRecordMetadata {
            status: "active".to_string(),
            supersedes_id: None,
        },
    }
}

#[test]
fn a_snapshot_needs_a_vector_for_every_row() {
    let skill = artifact("one", "One.");
    let id = skill.id.clone();
    let initial = vec![skill];
    let reason = |rows: Vec<FreshRow>| match refresh_snapshot_embeddings(&initial, &rows, &model()) {
        Err(CoordinatorError::MalformedEmbedding { reason, .. }) => reason,
        _ => panic!("the snapshot should be refused"),
    };
    assert_eq!(reason(Vec::new()), "active row disappeared during rebuild");
    assert_eq!(
        reason(vec![fresh(&id, None)]),
        "compatible vector is missing after rebuild"
    );
    let mut wrong = stored(&id);
    wrong.values = vec![1];
    assert_eq!(
        reason(vec![fresh(&id, Some(wrong))]),
        "embedding metadata is incompatible after rebuild"
    );
    assert_eq!(
        refresh_snapshot_embeddings(
            &initial,
            &vec![fresh("x", None), fresh(&id, Some(stored(&id)))],
            &model()
        )
        .unwrap(),
        vec![1]
    );
}
