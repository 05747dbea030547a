use skills::artifact::{
    settle_tags, CapabilityManifest, IdentityError, SkillArtifact, SkillExport,
};
use skills::embed::{key_from_hash, DeterministicBackend};
use skills::held_out::{
    open_record, selector_applies, ExpectedJsValue, HeldOutCase, HeldOutError, HeldOutSelector,
    HeldOutSuiteDraft, HeldOutSuiteRecord, ParsedPayload, TranscriptExpectation,
};
use skills::index::lexical_tokens;
use skills::json::parse_json;
use skills::lifecycle::EvidenceSnapshot;
use skills::operations::count_grants;

fn texts(words: &[&str]) -> Vec<String> {
    words.iter().map(|word| word.to_string()).collect()
}

fn artifact() -> SkillArtifact {
    SkillArtifact::new(
        "function f(_cap) { return 1; }".to_string(),
        "Do f.".to_string(),
        texts(&["one", "two"]),
        vec![SkillExport {
            name: "f".to_string(),
            signature: "f(): number".to_string(),
        }],
        texts(&["f() === 1"]),
        CapabilityManifest::pure(),
    )
    .unwrap()
}

#[test]
fn folded_tags_are_settled() {
    assert_eq!(
        settle_tags(&texts(&["b", "", "a", "b"])),
        texts(&["a", "b"])
    );
}

#[test]
fn a_stored_identity_is_held_against_the_computed_one() {
    let skill = artifact();
    assert_eq!(skill.check_against(skill.id.clone()), Ok(()));
    let other = "0".repeat(64);
    assert_eq!(
        skill.check_against(other.clone()),
        Err(IdentityError::IdentityMismatch {
            claimed: skill.id.clone(),
            computed: other,
        })
    );
}

#[test]
fn a_record_is_opened_under_its_own_hash() {
    let draft = HeldOutSuiteDraft {
        selector: HeldOutSelector {
            tags: texts(&["one"]),
            exports: Vec::new(),
            capability_tier: None,
        },
        cases: vec![HeldOutCase {
            expression: "f() === 1".to_string(),
            expected: ExpectedJsValue::Boolean(true),
            fake_files: Vec::new(),
            transcript: TranscriptExpectation {
                reads: 0,
                writes: 0,
                spawns: 0,
                fetches: 0,
                read_paths: Vec::new(),
                spawn_programs: Vec::new(),
                fetch_urls: Vec::new(),
            },
        }],
    };
    let record = HeldOutSuiteRecord {
        suite_id: "hash".to_string(),
        selector_json: "s".to_string(),
        cases_json: "c".to_string(),
        content_hash: "hash".to_string(),
        canonical_payload: "p".to_string(),
        approved_by: "owner".to_string(),
        approved_at: 4,
        enabled: true,
    };
    let parsed = |cases: &str| {
        Ok(ParsedPayload {
            version: 1,
            draft: draft.clone(),
            selector_json: "s".to_string(),
            cases_json: cases.to_string(),
        })
    };
    let suite = open_record(record.clone(), "hash", parsed("c")).unwrap();
    assert_eq!(suite.id, "hash");
    assert_eq!(suite.approved_at, 4);
    assert_eq!(
        open_record(record.clone(), "other", parsed("c")),
        Err(HeldOutError::TamperedSuite("hash".to_string()))
    );
    assert_eq!(
        open_record(record.clone(), "hash", parsed("changed")),
        Err(HeldOutError::TamperedSuite("hash".to_string()))
    );
    assert_eq!(
        open_record(record, "hash", Err("broken".to_string())),
        Err(HeldOutError::Json("broken".to_string()))
    );
}

#[test]
fn a_selector_applies_by_folded_tags_exports_and_tier() {
    let skill = artifact();
    let selector = |exports: &[&str], tier: Option<&str>| HeldOutSelector {
        tags: Vec::new(),
        exports: texts(exports),
        capability_tier: tier.map(str::to_string),
    };
    assert!(selector_applies(&texts(&["two"]), &selector(&["f"], Some("pure")), &skill));
    assert!(!selector_applies(&texts(&["three"]), &selector(&["f"], None), &skill));
    assert!(!selector_applies(&texts(&[]), &selector(&["g"], None), &skill));
    assert!(!selector_applies(&texts(&[]), &selector(&[], Some("read_only")), &skill));
}

#[test]
fn a_hash_gives_pairs_and_a_key() {
    let hash: Vec<u8> = (0..32).collect();
    assert_eq!(
        DeterministicBackend::pairs_from_hash(&hash, 33)[30..],
        [(30, 31), (31, 0), (0, 1)]
    );
    assert_eq!(key_from_hash("v1", &vec![0, 255]), "v1:00ff");
}

#[test]
fn grants_are_counted_in_a_document() {
    let tree = parse_json("{\"manifest\":{\"grants\":[\"read_file\",\"fetch\"]}}").unwrap();
    assert_eq!(count_grants(&tree), 2);
    assert_eq!(count_grants(&parse_json("{\"manifest\":[]}").unwrap()), 0);
}

#[test]
fn snapshots_escape_what_json_does_not_take() {
    let snapshot = EvidenceSnapshot::new(
        "a\"\\\u{8}\t\n\u{c}\r\u{1}\u{1f}\u{7f}é".to_string(),
        None,
        "v".to_string(),
        Vec::new(),
        Vec::new(),
        1,
        None,
        0,
    )
    .unwrap();
    let json = snapshot.canonical_json().unwrap();
    assert!(
        json.contains("\"a\\\"\\\\\\b\\t\\n\\f\\r\\u0001\\u001f\u{7f}é\""),
        "{json}"
    );
    assert!(parse_json(&json).is_some());
}

#[test]
fn terms_are_runs_of_letters_digits_and_underscores() {
    assert_eq!(
        lexical_tokens("Parse the JSON-file, v2_x ÄÖ!"),
        texts(&["parse", "json", "file", "v2_x", "äö"])
    );
}
