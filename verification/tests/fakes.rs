use skills::artifact::{CapabilityManifest, CapabilityTier, HostCapability};
use skills::fakes::{
    FakeHostGlobals, FakeReadRecord, FakeTranscript, FakeWriteRecord,
    VerificationTranscriptBudget, VERIFICATION_TRANSCRIPT_MAX_BYTES,
    VERIFICATION_TRANSCRIPT_MAX_CALLS,
    VERIFICATION_TRANSCRIPT_MAX_VALUE_BYTES,
};

#[test]
fn wire_transcripts_bound_counts_and_utf8_values() {
    let long = format!("{}é", "x".repeat(VERIFICATION_TRANSCRIPT_MAX_VALUE_BYTES));
    let transcript = FakeTranscript {
        reads: (0..=VERIFICATION_TRANSCRIPT_MAX_CALLS)
            .map(|_| FakeReadRecord {
                path: long.clone(),
                result: Ok(long.clone()),
            })
            .collect(),
        writes: vec![],
        spawns: vec![],
        fetches: vec![],
    };

    assert!(transcript.exceeds_wire_call_limit());
    let bounded = transcript.bounded_for_wire();
    assert_eq!(bounded.reads.len(), VERIFICATION_TRANSCRIPT_MAX_CALLS);
    assert_eq!(
        bounded.reads[0].path.len(),
        VERIFICATION_TRANSCRIPT_MAX_VALUE_BYTES
    );
    assert!(bounded.reads[0]
        .path
        .is_char_boundary(bounded.reads[0].path.len()));
    assert_eq!(
        bounded.reads[0].result.as_ref().unwrap().len(),
        VERIFICATION_TRANSCRIPT_MAX_VALUE_BYTES
    );

    let mut mixed = FakeTranscript {
        reads: vec![FakeReadRecord {
            path: "a".into(),
            result: Ok(String::new()),
        }],
        writes: vec![FakeWriteRecord {
            path: "b".into(),
            content: String::new(),
            result: Ok(()),
        }],
        spawns: vec![],
        fetches: vec![],
    };
    let mut budget = 1;
    mixed.limit_call_count(&mut budget);
    assert_eq!(mixed.call_count(), 1);
    assert_eq!(budget, 0);
}

#[test]
fn a_cut_never_splits_a_character() {
    let value = format!("{}é", "x".repeat(VERIFICATION_TRANSCRIPT_MAX_VALUE_BYTES - 1));
    let transcript = FakeTranscript {
        reads: vec![FakeReadRecord {
            path: value,
            result: Ok(String::new()),
        }],
        writes: vec![],
        spawns: vec![],
        fetches: vec![],
    };
    let bounded = transcript.bounded_for_wire();
    assert_eq!(
        bounded.reads[0].path.len(),
        VERIFICATION_TRANSCRIPT_MAX_VALUE_BYTES - 1
    );
}

fn everything() -> FakeHostGlobals {
    FakeHostGlobals::new(
        CapabilityManifest::new(
            CapabilityTier::SideEffecting,
            vec![
                HostCapability::ReadFile,
                HostCapability::WriteFile,
                HostCapability::Spawn,
                HostCapability::Fetch,
            ],
        )
        .unwrap(),
    )
}

#[test]
fn a_read_gives_back_what_a_write_wrote() {
    let mut host = everything();
    host.write_file("a.txt", "first").unwrap();
    assert_eq!(host.read_file("a.txt").unwrap(), "first");
    host.write_file("a.txt", "second").unwrap();
    assert_eq!(host.read_file("a.txt").unwrap(), "second");
    let transcript = host.transcript();
    assert_eq!(transcript.reads.len(), 2);
    assert_eq!(transcript.writes.len(), 2);
    assert_eq!(transcript.call_count(), 4);
}

#[test]
fn an_operation_that_was_not_declared_is_refused_and_recorded() {
    let mut host = FakeHostGlobals::new(CapabilityManifest::pure());
    assert!(!host.allows(HostCapability::ReadFile));
    assert!(host.read_file("a.txt").is_err());
    assert!(host.write_file("a.txt", "x").is_err());
    assert!(host.spawn("ls", &vec![]).is_err());
    assert!(host.fetch("https://example.com", "GET").is_err());
    assert!(everything().allows(HostCapability::Spawn));
}

#[test]
fn a_missing_file_is_an_error_and_a_seeded_one_is_not() {
    let mut host = everything();
    assert!(host.read_file("absent").is_err());
    host.seed_file("present", "content").unwrap();
    assert_eq!(host.read_file("present").unwrap(), "content");
}

#[test]
fn an_exceeded_budget_stays_exceeded() {
    let mut budget = VerificationTranscriptBudget::new();
    assert!(!budget.exceeded());
    assert!(budget.reserve(usize::MAX).is_err());
    assert!(budget.exceeded());
    assert!(budget.reserve(0).is_err());
    assert!(budget.exceeded());
}

#[test]
fn reservations_stay_within_the_request() {
    let mut budget = VerificationTranscriptBudget::new();
    for _ in 0..VERIFICATION_TRANSCRIPT_MAX_CALLS {
        assert!(budget.reserve(1).is_ok());
    }
    assert!(!budget.exceeded());
    assert_eq!(
        budget.reserve(0),
        Err("fake transcript limit exceeded".to_string())
    );
    let mut bytes = VerificationTranscriptBudget::new();
    assert!(bytes.reserve(VERIFICATION_TRANSCRIPT_MAX_BYTES).is_ok());
    assert!(bytes.reserve(1).is_err());
    assert!(bytes.reserve(0).is_err());
}

#[test]
fn the_hosts_of_a_request_share_one_budget() {
    let manifest = || everything().manifest;
    let mut first = FakeHostGlobals::new(manifest());
    for _ in 0..VERIFICATION_TRANSCRIPT_MAX_CALLS - 1 {
        let _ = first.read_file("a");
    }
    let (recorded, budget) = first.finish();
    assert_eq!(recorded.call_count(), VERIFICATION_TRANSCRIPT_MAX_CALLS - 1);
    let mut second = FakeHostGlobals::with_transcript_budget(manifest(), budget);
    second.seed_file("a", "x").unwrap();
    assert_eq!(second.read_file("a"), Ok("x".to_string()));
    assert_eq!(
        second.read_file("a"),
        Err("fake transcript limit exceeded".to_string())
    );
    let (recorded, budget) = second.finish();
    assert_eq!(recorded.call_count(), 1);
    assert!(budget.exceeded());
    let mut third = FakeHostGlobals::with_transcript_budget(manifest(), budget);
    assert!(third.fetch("https://example.com", "GET").is_err());
    assert_eq!(third.transcript().call_count(), 0);
}

#[test]
fn a_read_gives_back_the_last_write_that_succeeded() {
    let mut host = everything();
    host.seed_file("a", "seeded").unwrap();
    host.write_file("b", "other").unwrap();
    assert_eq!(host.read_file("a"), Ok("seeded".to_string()));
    host.write_file("a", "written").unwrap();
    assert!(host.seed_file("a", &"x".repeat(1 << 24)).is_err());
    assert_eq!(host.read_file("a"), Ok("written".to_string()));
    assert_eq!(
        host.read_file("c"),
        Err("File not found: c".to_string())
    );
}
