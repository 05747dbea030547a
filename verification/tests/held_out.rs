use skills::artifact::{CapabilityManifest, SkillArtifact, SkillExport};
use skills::fakes::{FakeReadRecord, FakeTranscript, VirtualFile};
use skills::held_out::{
    decode_record, evaluate, hash_payload, plan_suites, select_suites, selector_matches,
    transcript_matches, ExpectedJsValue, HeldOutCase, HeldOutError, HeldOutSelector, HeldOutSuite,
    HeldOutSuiteDraft, ParsedPayload, PredecessorRun, TestResult, TranscriptExpectation,
    VerificationError,
};

fn expectation() -> TranscriptExpectation {
    TranscriptExpectation {
        reads: 0,
        writes: 0,
        spawns: 0,
        fetches: 0,
        read_paths: Vec::new(),
        spawn_programs: Vec::new(),
        fetch_urls: Vec::new(),
    }
}

fn case(expression: &str) -> HeldOutCase {
    HeldOutCase {
        expression: expression.to_string(),
        expected: ExpectedJsValue::Boolean(true),
        fake_files: Vec::new(),
        transcript: expectation(),
    }
}

fn draft(cases: Vec<HeldOutCase>) -> HeldOutSuiteDraft {
    HeldOutSuiteDraft {
        selector: HeldOutSelector {
            tags: vec![" T ".to_string()],
            exports: vec!["f".to_string()],
            capability_tier: Some("pure".to_string()),
        },
        cases,
    }
}

fn artifact() -> SkillArtifact {
    SkillArtifact::new(
        "function f(_cap) { return 1; }".to_string(),
        "Do f.".to_string(),
        vec!["t".to_string()],
        vec![SkillExport {
            name: "f".to_string(),
            signature: "()".to_string(),
        }],
        vec!["f() === 1".to_string()],
        CapabilityManifest::pure(),
    )
    .unwrap()
}

fn suite(id: &str, cases: Vec<HeldOutCase>) -> HeldOutSuite {
    HeldOutSuite {
        id: id.to_string(),
        content_hash: format!("hash-{id}"),
        selector: draft(Vec::new()).selector,
        cases,
        approved_by: "owner".to_string(),
        approved_at: 1,
    }
}

fn refusal(suite: HeldOutSuiteDraft) -> String {
    suite.validate().unwrap_err().message()
}

#[test]
fn a_suite_is_bounded_in_every_part() {
    assert!(draft(vec![case("f() === 1")]).validate().is_ok());
    assert_eq!(
        refusal(draft(Vec::new())),
        "invalid held-out suite: suite must contain between 1 and 64 cases"
    );
    let mut selector = draft(vec![case("f() === 1")]);
    selector.selector.tags = vec![" ".to_string()];
    assert_eq!(
        refusal(selector),
        "invalid held-out suite: selector contains too many values"
    );
    let mut tier = draft(vec![case("f() === 1")]);
    tier.selector.capability_tier = Some("admin".to_string());
    assert_eq!(
        refusal(tier),
        "invalid held-out suite: selector capability tier is invalid"
    );
    assert_eq!(
        refusal(draft(vec![case("f()"), case("\0")])),
        "invalid held-out suite: held-out expression is empty or oversized"
    );
    let mut files = case("f()");
    files.fake_files = vec![VirtualFile {
        path: String::new(),
        content: "x".to_string(),
    }];
    assert_eq!(
        refusal(draft(vec![files])),
        "invalid held-out suite: held-out fake file fixture is invalid"
    );
    for bits in [f64::NAN.to_bits(), f64::INFINITY.to_bits(), f64::NEG_INFINITY.to_bits()] {
        let mut float = case("f()");
        float.expected = ExpectedJsValue::Float(bits);
        assert_eq!(
            refusal(draft(vec![float])),
            "invalid held-out suite: held-out expected value is invalid"
        );
    }
    for value in [0.0f64, -1.5, f64::MAX, f64::MIN_POSITIVE] {
        let mut float = case("f()");
        float.expected = ExpectedJsValue::Float(value.to_bits());
        assert!(draft(vec![float]).validate().is_ok());
    }
    let mut calls = case("f()");
    calls.transcript.reads = 257;
    assert_eq!(
        refusal(draft(vec![calls])),
        "invalid held-out suite: held-out transcript expectation is invalid"
    );
}

fn parsed() -> ParsedPayload {
    ParsedPayload {
        version: 1,
        draft: draft(vec![case("f() === 1")]),
        selector_json: "selector".to_string(),
        cases_json: "cases".to_string(),
    }
}

#[test]
fn an_imported_suite_opens_and_a_tampered_one_does_not() {
    let record = parsed()
        .draft
        .import("selector".to_string(), "cases".to_string())
        .unwrap();
    assert_eq!(
        record.canonical_payload,
        "{\"version\":1,\"selector\":selector,\"cases\":cases}"
    );
    assert_eq!(record.suite_id, hash_payload(&record.canonical_payload));
    assert_eq!(record.content_hash, record.suite_id);
    assert_eq!(
        hash_payload("payload"),
        "239f59ed55e737c77147cf55ad0c1b030b6d7ee748a7426952f9b852d5a935e5"
    );
    let opened = decode_record(record.clone(), Ok(parsed())).unwrap();
    assert_eq!(opened.id, record.suite_id);
    assert_eq!(opened.cases.len(), 1);

    let mut tampered = record.clone();
    tampered.canonical_payload.push(' ');
    assert!(matches!(
        decode_record(tampered, Ok(parsed())),
        Err(HeldOutError::TamperedSuite(_))
    ));
    let mut edited = record.clone();
    edited.cases_json.push(' ');
    assert!(matches!(
        decode_record(edited, Ok(parsed())),
        Err(HeldOutError::TamperedSuite(_))
    ));
    let mut future = parsed();
    future.version = 2;
    assert_eq!(
        decode_record(record.clone(), Ok(future)).unwrap_err().message(),
        "unsupported held-out suite version: 2"
    );
    assert_eq!(
        decode_record(record, Err("bad json".to_string()))
            .unwrap_err()
            .message(),
        "bad json"
    );
}

#[test]
fn suites_are_selected_by_tags_exports_and_tier() {
    assert!(selector_matches(&draft(Vec::new()).selector, &artifact()));
    let mut other = draft(Vec::new()).selector;
    other.exports.push("g".to_string());
    assert!(!selector_matches(&other, &artifact()));
    let mut tier = draft(Vec::new()).selector;
    tier.capability_tier = Some("read_only".to_string());
    assert!(!selector_matches(&tier, &artifact()));
    let mut unmatched = suite("a", Vec::new());
    unmatched.selector.tags = vec!["absent".to_string()];
    let selected = select_suites(
        vec![suite("c", Vec::new()), unmatched, suite("b", Vec::new())],
        &artifact(),
    );
    let ids: Vec<&str> = selected.iter().map(|s| s.id.as_str()).collect();
    assert_eq!(ids, vec!["b", "c"]);
}

#[test]
fn a_replacement_also_runs_the_suites_of_its_predecessor() {
    let planned = plan_suites(
        vec![suite("b", vec![case("f()")])],
        Some(vec![suite("a", vec![case("f()")]), suite("b", Vec::new())]),
    )
    .unwrap();
    let ids: Vec<&str> = planned.iter().map(|s| s.id.as_str()).collect();
    assert_eq!(ids, vec!["a", "b"]);
    assert_eq!(
        plan_suites(Vec::new(), None).unwrap_err().message(),
        "held-out_suite_required"
    );
    let many = vec![
        suite("a", (0..40).map(|_| case("f()")).collect()),
        suite("b", (0..25).map(|_| case("f()")).collect()),
    ];
    assert!(matches!(
        plan_suites(many, None),
        Err(HeldOutError::InvalidSuite(_))
    ));
}

fn reading(path: &str) -> FakeTranscript {
    FakeTranscript {
        reads: vec![FakeReadRecord {
            path: path.to_string(),
            result: Ok(String::new()),
        }],
        writes: Vec::new(),
        spawns: Vec::new(),
        fetches: Vec::new(),
    }
}

fn reading_case(path: &str) -> HeldOutCase {
    let mut case = case("f()");
    case.transcript.reads = 1;
    case.transcript.read_paths = vec![path.to_string()];
    case
}

#[test]
fn transcripts_must_be_exactly_what_was_expected() {
    let expected = reading_case("a.txt").transcript;
    assert!(transcript_matches(&expected, &reading("a.txt")));
    assert!(!transcript_matches(&expected, &reading("b.txt")));
    assert!(!transcript_matches(&expectation(), &reading("a.txt")));
    assert!(transcript_matches(&expectation(), &FakeTranscript::new()));
}

#[test]
fn an_evaluation_passes_only_if_every_case_does() {
    let suites = || {
        vec![
            suite("a", vec![case("f()"), reading_case("a.txt")]),
            suite("b", vec![case("f()")]),
        ]
    };
    let run = |runs: Vec<Option<FakeTranscript>>| {
        evaluate(&artifact(), Ok(()), None, &suites(), &runs, 5)
    };
    let report = run(vec![
        Some(FakeTranscript::new()),
        Some(reading("a.txt")),
        Some(FakeTranscript::new()),
    ])
    .unwrap();
    assert_eq!(report.cases.len(), 3);
    assert_eq!(report.cases[1].suite_id, "a");
    assert_eq!(report.cases[1].case_index, 1);
    assert_eq!(report.suite_hashes, vec!["hash-a".to_string(), "hash-b".to_string()]);
    assert_eq!(report.report_id.len(), 64);
    assert_eq!(
        run(vec![Some(FakeTranscript::new()), None]).unwrap_err().message(),
        "held_out_failed for suite a case 1"
    );
    assert_eq!(
        run(vec![Some(FakeTranscript::new()), Some(reading("b.txt"))])
            .unwrap_err()
            .message(),
        "held_out_failed transcript for suite a case 1"
    );
    // A case without a run did not pass.
    assert_eq!(
        run(vec![Some(FakeTranscript::new()), Some(reading("a.txt"))])
            .unwrap_err()
            .message(),
        "held_out_failed for suite b case 0"
    );
}

#[test]
fn identities_and_earlier_tests_are_checked_before_any_case() {
    let mut tampered = artifact();
    tampered.source.push(' ');
    assert!(matches!(
        evaluate(&tampered, Ok(()), None, &Vec::new(), &Vec::new(), 5),
        Err(HeldOutError::Identity(_))
    ));
    let failed = || VerificationError::TestFailed {
        outcome: TestResult::Failed,
    };
    assert_eq!(
        evaluate(&artifact(), Err(failed()), None, &Vec::new(), &Vec::new(), 5)
            .unwrap_err()
            .message(),
        "embedded_test_failed"
    );
    let before = artifact();
    assert_eq!(
        evaluate(
            &artifact(),
            Ok(()),
            Some(PredecessorRun {
                artifact: &before,
                inherited: Err(failed()),
            }),
            &Vec::new(),
            &Vec::new(),
            5
        )
        .unwrap_err()
        .message(),
        "inherited_regression_failed"
    );
    assert!(matches!(
        evaluate(&artifact(), Ok(()), None, &Vec::new(), &Vec::new(), 5),
        Err(HeldOutError::SuiteRequired)
    ));
    let with = |verifier: u32| {
        evaluate(
            &artifact(),
            Ok(()),
            None,
            &vec![suite("a", vec![case("f()")])],
            &vec![Some(FakeTranscript::new())],
            verifier,
        )
        .unwrap()
        .report_id
    };
    assert_eq!(with(5), with(5));
    assert_ne!(with(5), with(6));
}

#[test]
fn the_files_of_a_case_stand_once_and_in_the_order_of_their_paths() {
    let add = |case: HeldOutCase, path: &str, content: &str| {
        case.with_file(path.to_string(), content.to_string())
    };
    let made = add(add(add(case("f()"), "b", "2"), "a", "1"), "c", "3");
    let shown = |case: &HeldOutCase| -> Vec<(String, String)> {
        case.fake_files
            .iter()
            .map(|file| (file.path.clone(), file.content.clone()))
            .collect()
    };
    let pair = |path: &str, content: &str| (path.to_string(), content.to_string());
    assert_eq!(
        shown(&made),
        vec![pair("a", "1"), pair("b", "2"), pair("c", "3")]
    );
    assert_eq!(made.expression, "f()");
    // The order in which files are given makes no difference, and the later content counts.
    let again = add(add(add(add(case("f()"), "c", "0"), "a", "1"), "b", "2"), "c", "3");
    assert_eq!(again, made);
}
