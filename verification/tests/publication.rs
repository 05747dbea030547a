use skills::artifact::{CapabilityManifest, SkillArtifact, SkillExport};
use skills::coordinator::{CoordinatedMutationError, CoordinatorError};
use skills::embed::ModelMetadata;
use skills::index::{ImmutableSkillIndex, IndexRow, SkillRecordMetadata, StoredEmbedding};
use skills::lifecycle::{
    EvidenceSnapshot, LifecycleError, LifecycleService, LifecycleStatus, PolicyInput,
    ReplacementTransitionRequest,
};
use skills::policy::{PromotionPolicy, RateFindings};
use skills::promotion::{StoredEvidence, TerminalRow};
use skills::publication::{CoordinatedLifecycle, LifecyclePublicationError};
use skills::store::{EvidenceRow, RevisionRow, SkillStore};

fn artifact(name: &str) -> SkillArtifact {
    SkillArtifact::new(
        format!("function {name}(_cap) {{ return 1; }}"),
        format!("Do {name}."),
        vec!["t".to_string()],
        vec![SkillExport {
            name: name.to_string(),
            signature: format!("{name}(): number"),
        }],
        vec![format!("{name}() === 1")],
        CapabilityManifest::pure(),
    )
    .unwrap()
}

fn revision(artifact: &SkillArtifact, status: &str, supersedes: Option<String>) -> RevisionRow {
    RevisionRow {
        artifact: artifact.clone(),
        status: status.to_string(),
        lineage_root_id: supersedes.clone(),
        supersedes_id: supersedes,
        superseded_by_id: None,
        row_version: 3,
        evaluation_report_id: Some("report".to_string()),
        updated_at: 1,
    }
}

fn index(artifacts: &[&SkillArtifact]) -> ImmutableSkillIndex {
    let model = ModelMetadata {
        model_id: "m".to_string(),
        model_revision: "r".to_string(),
        dimensions: 1,
        normalized: true,
    };
    let rows = artifacts
        .iter()
        .map(|artifact| IndexRow {
            artifact: (*artifact).clone(),
            embedding: StoredEmbedding {
                skill_id: artifact.id.clone(),
                model_id: "m".to_string(),
                model_revision: "r".to_string(),
                dimensions: 1,
                normalized: true,
                values: vec![1.0f32.to_bits()],
                unit: true,
            },
            metadata: SkillRecordMetadata {
                status: "active".to_string(),
                supersedes_id: None,
            },
            serialized_grants: Vec::new(),
        })
        .collect();
    ImmutableSkillIndex::build(0, model, rows).unwrap()
}

fn request(
    key: &str,
    new: &str,
    old: &str,
    version: i64,
    generation: i64,
) -> ReplacementTransitionRequest {
    ReplacementTransitionRequest {
        idempotency_key: key.to_string(),
        candidate_id: new.to_string(),
        predecessor_id: old.to_string(),
        candidate_row_version: version,
        predecessor_row_version: version,
        reason: "because".to_string(),
        snapshot: EvidenceSnapshot::new(
            new.to_string(),
            Some(old.to_string()),
            "v1".to_string(),
            vec!["e".to_string()],
            vec![PolicyInput {
                name: "why".to_string(),
                json: "1".to_string(),
            }],
            version,
            Some(version),
            generation,
        )
        .unwrap(),
    }
}

/// What is stored for a promotion: both skills returned in so many turns.
fn stored(turns: usize) -> StoredEvidence {
    let rows = || -> Vec<TerminalRow> {
        (0..turns)
            .map(|i| TerminalRow {
                invocation_id: format!("i{i}"),
                turn_id: format!("t{i}"),
                event_kind: "returned".to_string(),
                latency_us: Some(100),
                production: true,
                complete: true,
                created_at: 50,
            })
            .collect()
    };
    StoredEvidence {
        policy: Ok(PromotionPolicy::conservative("v1".to_string(), 0, 100)),
        candidate: rows(),
        predecessor: rows(),
        tasks: Vec::new(),
    }
}

fn no_findings() -> RateFindings {
    RateFindings {
        error_rate_too_high: false,
        confidence_failed: false,
        relative_latency_exceeded: false,
    }
}

#[test]
fn readers_lose_what_a_committed_change_takes_away() {
    let old = artifact("old");
    let new = artifact("new");
    let other = artifact("other");
    let mut store = SkillStore::empty();
    store.revisions.push(revision(&old, "active", None));
    store
        .revisions
        .push(revision(&new, "canary", Some(old.id.clone())));
    LifecycleService::new(&mut store)
        .register_policy("v1", "{}", 1)
        .unwrap();
    store.evidence.push(EvidenceRow {
        evidence_id: "e".to_string(),
        skill_id: new.id.clone(),
        evidence_kind: "qualified".to_string(),
        payload_json: "{}".to_string(),
        policy_version: "v1".to_string(),
        created_at: 1,
    });
    let lifecycle = CoordinatedLifecycle::new(index(&[&old, &other]));

    let (lifecycle, refused) = lifecycle.promote_replacement(
        &mut store,
        &request("k0", &new.id, &old.id, 9, 0),
        &stored(25),
        no_findings(),
        5,
    );
    assert!(refused.is_err());
    assert!(lifecycle.published.contains_id(&old.id));

    let (lifecycle, promoted) = lifecycle.promote_replacement(
        &mut store,
        &request("k1", &new.id, &old.id, 3, 0),
        &stored(25),
        no_findings(),
        5,
    );
    assert_eq!(promoted.unwrap().candidate_status, LifecycleStatus::Active);
    assert!(!lifecycle.published.contains_id(&old.id));
    assert!(lifecycle.published.contains_id(&other.id));
    assert_eq!(lifecycle.published.generation, 1);
    assert_eq!(lifecycle.published.len(), 1);

    let rebuilt = CoordinatedLifecycle::new(index(&[&new, &other]));
    let (rolled_back, undone) =
        rebuilt.rollback_replacement(&mut store, &request("k2", &new.id, &old.id, 4, 1), 6);
    assert_eq!(
        undone.unwrap().candidate_status,
        LifecycleStatus::Quarantined
    );
    assert!(!rolled_back.published.contains_id(&new.id));
    assert!(rolled_back.published.contains_id(&other.id));
    assert_eq!(store.revisions[0].status, "active");
}

#[test]
fn a_failure_says_whether_the_change_was_made() {
    assert!(matches!(
        LifecyclePublicationError::from(CoordinatedMutationError::Mutation(
            LifecycleError::LineageFork
        )),
        LifecyclePublicationError::Lifecycle(LifecycleError::LineageFork)
    ));
    assert!(matches!(
        LifecyclePublicationError::from(CoordinatedMutationError::Publication(
            CoordinatorError::Poisoned
        )),
        LifecyclePublicationError::Publication(CoordinatorError::Poisoned)
    ));
}
