use skills::artifact::{CapabilityManifest, SkillArtifact, SkillExport};
use skills::distill::{
    asserts_boolean, bounded_assertions, calls_global, complete_once, declares_capability_parameter,
    default_file_name, detect_effect_globals, distil, generalization_preamble,
    generalization_prompt, is_identifier, locate_javascript, object_text, output_stem,
    package_from_generation, parse_generation, scaffold, StreamItem, DistillError, Generalization, GeneratedSkill, LocateError,
    MessageRole, PersistedToolMessage, ProposalLimits, SessionMessage, PLACEHOLDER_ASSERTION,
};
use skills::held_out::{selector_matches, ExpectedJsValue};
use skills::json::{render_json, JsonValue};

const MAX_SOURCE_BYTES: usize = 65_536;

fn limits() -> ProposalLimits {
    ProposalLimits {
        description: 1024,
        export_name: 128,
        signature: 512,
        source: MAX_SOURCE_BYTES,
        test: 4096,
    }
}

fn message(
    role: MessageRole,
    tool_call_id: Option<&str>,
    tool: Option<PersistedToolMessage>,
) -> SessionMessage {
    SessionMessage {
        role,
        tool_call_id: tool_call_id.map(|id| id.to_string()),
        tool,
    }
}

fn js_call(code: &str) -> PersistedToolMessage {
    PersistedToolMessage::Call {
        name: "js".to_string(),
        arguments: JsonValue::Object(vec![(
            "code".to_string(),
            JsonValue::Text(code.to_string()),
        )]),
    }
}

fn transcript() -> Vec<SessionMessage> {
    vec![
        message(MessageRole::User, None, None),
        message(
            MessageRole::ToolCall,
            Some("call-earlier"),
            Some(js_call("1 + 1")),
        ),
        message(
            MessageRole::SubagentToolCall,
            Some("call-sub"),
            Some(js_call("'subagent code'")),
        ),
        message(
            MessageRole::ToolCall,
            Some("call-target"),
            Some(js_call(
                "const total = [1,2,3].reduce((a, b) => a + b, 0); total",
            )),
        ),
        message(
            MessageRole::ToolResult,
            Some("call-target"),
            Some(PersistedToolMessage::Result {
                output: "6".to_string(),
            }),
        ),
    ]
}

#[test]
fn the_recorded_javascript_comes_from_the_matching_tool_call_record() {
    let messages = transcript();
    let code = locate_javascript(&messages, "session-1", "call-target").unwrap();
    assert_eq!(
        code,
        "const total = [1,2,3].reduce((a, b) => a + b, 0); total"
    );
    assert_eq!(
        locate_javascript(&messages, "session-1", "call-earlier").unwrap(),
        "1 + 1"
    );
}

#[test]
fn an_absent_tool_call_id_is_reported_as_absent() {
    let messages = transcript();
    assert_eq!(
        locate_javascript(&messages, "session-1", "call-missing").unwrap_err(),
        LocateError::NoSuchToolCall {
            session: "session-1".to_string(),
            tool_call: "call-missing".to_string(),
        }
    );
}

#[test]
fn a_subagent_record_is_never_a_distillation_target() {
    let messages = transcript();
    assert_eq!(
        locate_javascript(&messages, "session-1", "call-sub").unwrap_err(),
        LocateError::WrongRole {
            session: "session-1".to_string(),
            tool_call: "call-sub".to_string(),
            role: "subagent_tool_call",
        },
        "a subagent tool call carries a different payload and must not be distilled"
    );
}

#[test]
fn a_result_record_alone_is_reported_by_its_role() {
    // Only the result survives: matching on the id alone would find it and
    // then fail with a confusing payload error instead of naming the role.
    let messages = vec![message(
        MessageRole::ToolResult,
        Some("call-target"),
        Some(PersistedToolMessage::Result {
            output: "6".to_string(),
        }),
    )];
    assert_eq!(
        locate_javascript(&messages, "session-1", "call-target").unwrap_err(),
        LocateError::WrongRole {
            session: "session-1".to_string(),
            tool_call: "call-target".to_string(),
            role: "tool_result",
        }
    );
}

#[test]
fn only_the_javascript_tool_can_be_distilled() {
    let messages = vec![
        message(
            MessageRole::ToolCall,
            Some("call-bash"),
            Some(PersistedToolMessage::Call {
                name: "bash".to_string(),
                arguments: JsonValue::Object(vec![(
                    "command".to_string(),
                    JsonValue::Text("ls".to_string()),
                )]),
            }),
        ),
        message(
            MessageRole::ToolCall,
            Some("call-empty"),
            Some(js_call("   \n ")),
        ),
        message(
            MessageRole::ToolCall,
            Some("call-argless"),
            Some(PersistedToolMessage::Call {
                name: "js".to_string(),
                arguments: JsonValue::Object(Vec::new()),
            }),
        ),
        message(MessageRole::ToolCall, Some("call-bare"), None),
    ];
    assert!(matches!(
        locate_javascript(&messages, "s", "call-bash").unwrap_err(),
        LocateError::NotJavaScript { .. }
    ));
    assert!(matches!(
        locate_javascript(&messages, "s", "call-empty").unwrap_err(),
        LocateError::EmptyCode { .. }
    ));
    assert!(matches!(
        locate_javascript(&messages, "s", "call-argless").unwrap_err(),
        LocateError::NoCode { .. }
    ));
    assert!(matches!(
        locate_javascript(&messages, "s", "call-bare").unwrap_err(),
        LocateError::NoPayload { .. }
    ));
    assert_eq!(
        locate_javascript(&messages, "s", "call-bash")
            .unwrap_err()
            .message(),
        "tool call call-bash in session s called `bash`, not `js`; only a JavaScript tool call can be distilled into a learned skill"
    );
}

fn generation() -> GeneratedSkill {
    GeneratedSkill {
        export_name: "sumNumbers".to_string(),
        signature: "(values: number[]) => number".to_string(),
        description: "Sum an array of numbers.".to_string(),
        source: "function sumNumbers(_cap, values) { return values.reduce((a, b) => a + b, 0); }"
            .to_string(),
        tests: vec![
            "sumNumbers([1, 2, 3]) === 6".to_string(),
            "sumNumbers([]) === 0".to_string(),
        ],
        held_out_expressions: vec![
            "sumNumbers([10, -4]) === 6".to_string(),
            "sumNumbers([2.5, 2.5]) === 5".to_string(),
        ],
        tags: vec!["Numbers".to_string(), " sum ".to_string()],
    }
}

#[test]
fn a_well_formed_generation_becomes_an_importable_package() {
    let (package, artifact) =
        package_from_generation(&generation(), "session-1", "call-target", &limits()).unwrap();
    assert_eq!(package.proposal.capability_tier, "pure");
    assert!(package.proposal.grants.is_empty());
    assert_eq!(package.proposal.tests.len(), 2);
    assert_eq!(package.held_out_suites.len(), 1);
    assert_eq!(package.held_out_suites[0].cases.len(), 2);
    assert_eq!(
        package.held_out_suites[0].cases[0].expected,
        ExpectedJsValue::Boolean(true),
        "a held-out case must expect the boolean true, not a truthy value"
    );
    assert!(
        package
            .proposal
            .source
            .starts_with("// Distilled from session session-1"),
        "{}",
        package.proposal.source
    );
    artifact.verify_identity().unwrap();
}

#[test]
fn the_emitted_suite_selects_the_artifact_it_ships_with() {
    let (package, artifact) =
        package_from_generation(&generation(), "session-1", "call-target", &limits()).unwrap();
    let selector = &package.held_out_suites[0].selector;
    assert!(
        selector_matches(selector, &artifact),
        "a distilled proposal whose suite does not select ends at \
         status=verified reason=held_out_suite_required, which is not approvable"
    );

    // A different artifact must not pick this suite up: the selector is
    // specific, not a catch-all that would baseline every skill.
    let other = SkillArtifact::new(
        "function other(_cap) { return 1; }".to_string(),
        "Unrelated".to_string(),
        vec!["distilled".to_string()],
        vec![SkillExport {
            name: "other".to_string(),
            signature: "() => number".to_string(),
        }],
        vec!["other() === 1".to_string()],
        CapabilityManifest::pure(),
    )
    .unwrap();
    assert!(!selector_matches(selector, &other));
}

#[test]
fn a_generation_that_drops_the_capability_parameter_is_refused() {
    let mut generated = generation();
    generated.source =
        "function sumNumbers(values) { return values.reduce((a, b) => a + b, 0); }".to_string();
    let error = package_from_generation(&generated, "s", "c", &limits()).unwrap_err();
    assert!(
        error.message().contains("_cap"),
        "argument 0 is the injected capability object: {}",
        error.message()
    );
    assert!(declares_capability_parameter(
        "function sumNumbers(_cap, values) { return values; }",
        "sumNumbers"
    ));
    assert!(!declares_capability_parameter(
        "function sumNumbers(_capacity, values) { return values; }",
        "sumNumbers"
    ));
}

#[test]
fn a_non_boolean_assertion_is_refused() {
    let mut generated = generation();
    generated.tests = vec!["sumNumbers([1, 2, 3])".to_string()];
    let error = package_from_generation(&generated, "s", "c", &limits()).unwrap_err();
    assert!(
        error.message().contains("boolean assertion"),
        "a truthy number fails the verifier: {}",
        error.message()
    );
    assert!(asserts_boolean("run() === 2"));
    assert!(!asserts_boolean("run()"));
}

#[test]
fn a_generation_with_no_held_out_expression_is_refused() {
    let mut generated = generation();
    generated.held_out_expressions = Vec::new();
    let error = package_from_generation(&generated, "s", "c", &limits()).unwrap_err();
    assert!(
        error.message().contains("held-out"),
        "a proposal with no matching suite is not approvable: {}",
        error.message()
    );
}

#[test]
fn the_scaffold_is_structurally_valid_and_cannot_pass_verification_unfinished() {
    let (package, artifact) = scaffold(
        "const total = 1 + 1;\ntotal",
        "session-1",
        "call-target",
        &limits(),
    )
    .unwrap();
    artifact.verify_identity().unwrap();
    assert!(
        package
            .proposal
            .source
            .contains("function distilledStep(_cap)"),
        "{}",
        package.proposal.source
    );
    assert!(package.proposal.source.contains("  const total = 1 + 1;"));
    assert_eq!(
        package.proposal.tests,
        vec![PLACEHOLDER_ASSERTION.to_string()]
    );
    assert_eq!(package.held_out_suites.len(), 1);
    assert_eq!(
        package.held_out_suites[0].cases[0].expression,
        PLACEHOLDER_ASSERTION
    );
    assert!(
        package.proposal.tests[0].contains("TODO"),
        "an unfinished scaffold must be impossible to admit by accident"
    );
    assert!(artifact.tags.contains(&"todo".to_string()));
}

#[test]
fn a_recording_too_large_for_a_proposal_is_refused_rather_than_truncated() {
    let oversized = "x".repeat(MAX_SOURCE_BYTES + 1);
    let error = scaffold(&oversized, "s", "c", &limits()).unwrap_err();
    assert!(error.message().contains("limited to"), "{}", error.message());
}

#[test]
fn effect_globals_in_the_recording_are_detected_without_false_positives() {
    let detected = detect_effect_globals("const t = read_file('a.txt'); spawn('rg', []);");
    assert_eq!(detected, vec!["read_file", "spawn"]);
    assert!(detect_effect_globals("const my_read_file = 1; my_read_file;").is_empty());
    assert!(detect_effect_globals("fs.read_file('a')").is_empty());
    assert!(detect_effect_globals("const x = 1 + 1;").is_empty());
}

#[test]
fn a_fenced_or_chatty_response_still_yields_the_generation() {
    let fenced = "Sure!\n```json\n{\"export_name\":\"f\",\"signature\":\"() => number\",\
                  \"description\":\"d\",\"source\":\"function f(_cap) { return 1; }\",\
                  \"tests\":[\"f() === 1\"],\"held_out_expressions\":[\"f() === 1\"]}\n```";
    let object = object_text(fenced).unwrap();
    assert!(object.starts_with("{\"export_name\":\"f\""), "{object}");
    assert!(object.ends_with("[\"f() === 1\"]}"), "{object}");
    assert!(object_text("no json here").is_err());
    assert_eq!(
        object_text("} {").unwrap_err().message(),
        "generalization response contains no JSON object"
    );
}

#[test]
fn a_default_output_path_is_a_portable_file_name() {
    let name = default_file_name("toolu_01/../../etc");
    assert_eq!(name, "toolu_01-------etc.json", "{name}");
    assert_eq!(output_stem("///"), None);
    let unnamed = default_file_name("///");
    assert_eq!(unnamed.len(), 36 + 5);
    assert!(unnamed.ends_with(".json"));
    assert_ne!(unnamed, default_file_name("///"));
    let long = "a".repeat(60);
    assert_eq!(output_stem(&long), Some("a".repeat(48)));
}

#[test]
fn a_call_may_stand_apart_from_its_parenthesis() {
    assert!(calls_global("glob\n ('*')", "glob"));
    assert!(calls_global("x=glob(1)", "glob"));
    assert!(!calls_global("globals(1)", "glob"));
    assert!(!calls_global("glob", "glob"));
    assert!(calls_global("my_glob(1); glob(2)", "glob"));
}

#[test]
fn identifiers_are_plain_and_bounded() {
    assert!(is_identifier("_a$1", 10));
    assert!(!is_identifier("1a", 10));
    assert!(!is_identifier("", 10));
    assert!(!is_identifier("a-b", 10));
    assert!(!is_identifier("abcdef", 5));
}

#[test]
fn every_refusal_of_a_generation_has_its_own_reason() {
    let refuse = |change: fn(&mut GeneratedSkill)| -> DistillError {
        let mut generated = generation();
        change(&mut generated);
        package_from_generation(&generated, "s", "c", &limits()).unwrap_err()
    };
    assert_eq!(
        refuse(|g| g.export_name = "sum numbers".to_string()).message(),
        "generalization named a non-identifier export `sum numbers`"
    );
    assert_eq!(
        refuse(|g| g.description = " ".to_string()),
        DistillError::EmptyDescription
    );
    assert_eq!(
        refuse(|g| g.signature = " ".to_string()),
        DistillError::UnusableSignature
    );
    assert_eq!(
        refuse(|g| g.signature = "(_cap) => 1".to_string()),
        DistillError::SignatureNamesCapability
    );
    assert_eq!(
        refuse(|g| g.tests = Vec::new()).message(),
        "generalization returned no test"
    );
    assert_eq!(
        refuse(|g| g.tests = vec!["x === ".to_string() + &"y".repeat(5000)]).message(),
        "generalization returned an oversized test"
    );
    assert_eq!(
        refuse(|g| g.source += &" ".repeat(MAX_SOURCE_BYTES)).message(),
        "generalized source exceeds the 65536-byte proposal limit"
    );
    assert!(matches!(
        refuse(|g| g.held_out_expressions = vec!["\0 === 1".to_string()]),
        DistillError::Suite(_)
    ));
}

#[test]
fn only_the_first_assertions_are_kept() {
    let many: Vec<String> = (0..12).map(|i| format!("f({i}) === {i}")).collect();
    let kept = bounded_assertions(&many, 8, "test", 100).unwrap();
    assert_eq!(kept.len(), 8);
    assert_eq!(kept[7], "f(7) === 7");
    let spaced = vec!["  ".to_string(), "a === b".to_string()];
    assert_eq!(
        bounded_assertions(&spaced, 8, "test", 100).unwrap(),
        vec!["a === b".to_string()]
    );
}

#[test]
fn the_prompt_holds_the_recording_between_its_marks() {
    let prompt = generalization_prompt("1 + 1");
    assert!(prompt.contains("<recorded_javascript>\n1 + 1\n</recorded_javascript>\n"));
    assert!(prompt.contains("`function name(_cap, a, b) { ... }`"));
    assert!(generalization_preamble().starts_with("You turn one recorded JavaScript snippet"));
}

#[test]
fn an_unusable_attempt_ends_in_a_scaffold_that_says_why() {
    let scaffolded = distil(
        "spawn('x')",
        "session-1",
        "call-1",
        Err("no provider".to_string()),
        &limits(),
    )
    .unwrap();
    assert_eq!(scaffolded.generalization, Generalization::Scaffold);
    assert_eq!(scaffolded.note, Some("no provider".to_string()));
    assert_eq!(scaffolded.effects, vec!["spawn".to_string()]);
    let lines = scaffolded.report_lines("/tmp/p.json");
    assert_eq!(lines.len(), 4);
    assert!(lines[0].contains("generalization=scaffold effects=spawn complete=false"));
    assert!(lines[1].contains("generalization unavailable (no provider)"));
    assert_eq!(
        lines[3],
        "learned-skill distill next: mini-agent --import-learned-skill /tmp/p.json"
    );

    let made = package_from_generation(&generation(), "s", "c", &limits()).unwrap();
    let modelled = distil("1 + 1", "s", "c", Ok(made), &limits()).unwrap();
    assert_eq!(modelled.generalization, Generalization::Model);
    assert_eq!(modelled.report_lines("p").len(), 2);
    let document = render_json(modelled.report_document("p")).unwrap();
    assert!(document.contains("\"command\":\"distill\""), "{document}");
    assert!(document.contains("\"complete\":true"), "{document}");
    assert!(document.contains("\"held_out_cases\":2"), "{document}");
    assert!(document.contains("\"note\":null"), "{document}");
}

#[test]
fn an_answer_is_put_together_from_its_pieces() {
    let text = |s: &str| StreamItem::Text(s.to_string());
    assert_eq!(
        complete_once(&vec![text("a"), StreamItem::Other, text("b")]).unwrap(),
        "ab"
    );
    assert_eq!(
        complete_once(&vec![
            text("a"),
            StreamItem::Complete("whole".to_string()),
            StreamItem::Failed("late".to_string()),
        ])
        .unwrap(),
        "whole"
    );
    assert_eq!(
        complete_once(&vec![text("a"), StreamItem::Failed("gone".to_string())])
            .unwrap_err()
            .message(),
        "generalization request failed: gone"
    );
    assert_eq!(
        complete_once(&vec![text(" ")]).unwrap_err().message(),
        "generalization returned an empty response"
    );
    assert_eq!(
        DistillError::TimedOut.message(),
        "generalization timed out after 120 seconds"
    );
}

#[test]
fn an_answer_is_read_whole_or_from_the_object_in_it() {
    let skill = |name: &str| GeneratedSkill {
        export_name: name.to_string(),
        signature: String::new(),
        description: String::new(),
        source: String::new(),
        tests: Vec::new(),
        held_out_expressions: Vec::new(),
        tags: Vec::new(),
    };
    let read = |response: &str, whole: Option<&str>, part: Option<&str>| {
        parse_generation(response, whole.map(skill), part.map(skill))
            .map(|skill| skill.export_name)
            .map_err(|error| error.message())
    };
    assert_eq!(read("{}", Some("a"), None), Ok("a".to_string()));
    assert_eq!(read("x {} y", None, Some("b")), Ok("b".to_string()));
    assert_eq!(
        read("x {} y", None, None),
        Err("generalization response is not the requested JSON object".to_string())
    );
    assert_eq!(
        read("prose", None, Some("b")),
        Err("generalization response contains no JSON object".to_string())
    );
}
