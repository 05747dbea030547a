use skills::artifact::{CapabilityManifest, SkillArtifact, SkillExport};
use skills::feedback::{
    feedback_id, validate_hex_id, validate_idempotency_key, validate_reason_code,
    validate_timestamp, ActorKind, AuthenticatedActor, FeedbackCommand, FeedbackError,
    FeedbackKind, FeedbackService, FeedbackState,
};
use skills::store::{InvokedRow, RevisionRow, SkillStore};

fn store() -> (String, SkillStore) {
    let artifact = SkillArtifact::new(
        "function f() {}".to_string(),
        "d".to_string(),
        Vec::new(),
        vec![SkillExport {
            name: "f".to_string(),
            signature: "()".to_string(),
        }],
        vec!["true".to_string()],
        CapabilityManifest::pure(),
    )
    .unwrap();
    let id = artifact.id.clone();
    let mut store = SkillStore::empty();
    store.revisions.push(RevisionRow {
        artifact,
        status: "active".to_string(),
        supersedes_id: None,
        superseded_by_id: None,
        lineage_root_id: None,
        row_version: 1,
        evaluation_report_id: None,
        updated_at: 1,
    });
    store.invocations.push(InvokedRow {
        invocation_id: "b".repeat(64),
        skill_id: id.clone(),
    });
    (id, store)
}

fn owner() -> AuthenticatedActor {
    AuthenticatedActor {
        actor_id: "owner".to_string(),
        kind: ActorKind::Owner,
        allowed_skill_ids: None,
    }
}

fn command(skill_id: &str) -> FeedbackCommand {
    FeedbackCommand {
        idempotency_key: "key-1".to_string(),
        skill_id: skill_id.to_string(),
        invocation_id: None,
        kind: FeedbackKind::Negative,
        reason_code: "wrong_result".to_string(),
        reason_text: None,
    }
}

#[test]
fn feedback_is_recorded_once_and_can_be_resolved() {
    let (id, mut store) = store();
    let mut service = FeedbackService::new(&mut store, 30);
    let first = service.submit(&owner(), &command(&id), None, 5).unwrap();
    assert_eq!(first, feedback_id(&command(&id)));
    assert_eq!(first.len(), 64);
    let again = service.submit(&owner(), &command(&id), None, 6).unwrap();
    assert_eq!(again, first);
    let mut other = command(&id);
    other.kind = FeedbackKind::Positive;
    assert_eq!(
        service.submit(&owner(), &other, None, 6),
        Err(FeedbackError::IdempotencyConflict)
    );
    service
        .change_state(&owner(), &first, 1, FeedbackState::Resolved, "fixed", 7)
        .unwrap();
    assert!(service
        .change_state(&owner(), &first, 1, FeedbackState::Resolved, "fixed", 8)
        .is_err());
    assert_eq!(store.feedback.len(), 1);
    assert_eq!(store.feedback[0].state, "resolved");
}

#[test]
fn feedback_needs_an_actor_who_may_give_it() {
    let (id, mut store) = store();
    let mut service = FeedbackService::new(&mut store, 30);
    let model = AuthenticatedActor {
        kind: ActorKind::Model,
        ..owner()
    };
    assert_eq!(
        service.submit(&model, &command(&id), None, 5),
        Err(FeedbackError::Unauthorized)
    );
    let narrow = AuthenticatedActor {
        allowed_skill_ids: Some(vec!["other".to_string()]),
        ..owner()
    };
    assert!(!narrow.may_target(&id));
    assert_eq!(
        service.submit(&narrow, &command(&id), None, 5),
        Err(FeedbackError::Unauthorized)
    );
    assert!(store.feedback.is_empty());
}

#[test]
fn feedback_must_name_what_exists() {
    let (id, mut store) = store();
    let mut service = FeedbackService::new(&mut store, 30);
    let unknown = command(&"a".repeat(64));
    assert!(matches!(
        service.submit(&owner(), &unknown, None, 5),
        Err(FeedbackError::UnknownSkill { .. })
    ));
    let mut invocation = command(&id);
    invocation.invocation_id = Some("c".repeat(64));
    let error = service.submit(&owner(), &invocation, None, 5).unwrap_err();
    assert!(matches!(error, FeedbackError::UnknownInvocation { .. }));
    assert!(error.message().contains("30"), "{}", error.message());
    invocation.invocation_id = Some("b".repeat(64));
    service.submit(&owner(), &invocation, None, 5).unwrap();
    assert_eq!(
        service.change_state(&owner(), &"d".repeat(64), 1, FeedbackState::Resolved, "x", 5),
        Err(FeedbackError::UnknownFeedback {
            feedback_id: "d".repeat(64)
        })
    );
}

#[test]
fn every_field_has_its_rule() {
    assert!(validate_idempotency_key("a.b_c:d-1").is_ok());
    assert!(validate_idempotency_key("").is_err());
    assert!(validate_idempotency_key(&"k".repeat(129)).is_err());
    assert!(validate_idempotency_key("a b").is_err());
    assert!(validate_reason_code("wrong_result").is_ok());
    assert!(validate_reason_code("Wrong").is_err());
    assert!(validate_reason_code(&"r".repeat(65)).is_err());
    assert!(validate_hex_id("skill_id", &"0".repeat(64)).is_ok());
    assert!(matches!(
        validate_hex_id("skill_id", "short"),
        Err(FeedbackError::MalformedId { .. })
    ));
    assert!(validate_timestamp(0).is_ok());
    assert!(validate_timestamp(-1).is_err());
}

#[test]
fn different_feedback_has_different_identities() {
    let (id, _) = store();
    let base = feedback_id(&command(&id));
    let mut other = command(&id);
    other.reason_code = "slow".to_string();
    assert_ne!(base, feedback_id(&other));
    let mut key = command(&id);
    key.idempotency_key = "key-2".to_string();
    assert_ne!(base, feedback_id(&key));
}
