use skills::artifact::{CapabilityManifest, CapabilityTier, HostCapability};
use skills::capability::{
    decode_operation, encode_effect_result, tier_may_automate, CapabilityContext, CapabilityError,
    EffectErrorCode, EffectOperation, EffectResult, HttpMethod, InvocationAuthorization,
    InvocationCapabilityRuntime, InvocationGrant, SkillExecutionAttribution,
};
use skills::json::parse_json;

fn skill_id() -> String {
    "a".repeat(64)
}

fn reader() -> CapabilityManifest {
    CapabilityManifest::new(CapabilityTier::ReadOnly, vec![HostCapability::ReadFile]).unwrap()
}

fn authorization(invocation: &str, grant: &str) -> InvocationAuthorization {
    InvocationAuthorization::new(
        invocation.to_string(),
        skill_id(),
        "f".to_string(),
        reader(),
        vec![InvocationGrant {
            capability: HostCapability::ReadFile,
            grant_id: grant.to_string(),
        }],
    )
    .unwrap()
}

#[test]
fn an_invocation_runs_from_its_grant_to_its_effects() {
    let mut runtime = InvocationCapabilityRuntime::new(2);
    let handle = runtime.prepare(authorization("i1", "g1")).unwrap();
    let token = runtime
        .begin(handle, &skill_id(), "f", &reader())
        .unwrap();
    assert_eq!(runtime.active_count(), 1);
    let effect = runtime
        .dispatch(token, HostCapability::ReadFile, "[\"a.txt\"]")
        .unwrap();
    assert_eq!(effect.invocation_id, "i1");
    assert_eq!(effect.grant_id, "g1");
    assert!(matches!(
        effect.operation,
        EffectOperation::ReadFile { ref path } if path == "a.txt"
    ));
    assert!(matches!(
        runtime.dispatch(token, HostCapability::WriteFile, "[\"a\",\"b\"]"),
        Err(CapabilityError::Revoked)
    ));
    runtime.finish(token);
    assert_eq!(runtime.active_count(), 0);
    assert!(matches!(
        runtime.dispatch(token, HostCapability::ReadFile, "[\"a.txt\"]"),
        Err(CapabilityError::Revoked)
    ));
}

#[test]
fn a_handle_serves_once_and_a_grant_is_never_reused() {
    let mut runtime = InvocationCapabilityRuntime::new(2);
    let handle = runtime.prepare(authorization("i1", "g1")).unwrap();
    runtime.begin(handle, &skill_id(), "f", &reader()).unwrap();
    assert!(matches!(
        runtime.begin(handle, &skill_id(), "f", &reader()),
        Err(CapabilityError::InvalidInvocation)
    ));
    assert!(runtime.prepare(authorization("i2", "g1")).is_err());
    assert!(runtime.prepare(authorization("i1", "g2")).is_err());
    runtime.cancel("i1");
    assert_eq!(runtime.active_count(), 0);
}

#[test]
fn a_bound_handle_is_claimed_by_the_export_it_was_made_for() {
    let mut runtime = InvocationCapabilityRuntime::new(2);
    let handle = runtime.prepare(authorization("i1", "g1")).unwrap();
    runtime.bind(handle).unwrap();
    assert!(runtime.bind(handle).is_err());
    let token = runtime.claim_bound(&skill_id(), "f", &reader()).unwrap();
    assert!(runtime.claim_bound(&skill_id(), "f", &reader()).is_err());
    runtime.finish(token);
    let other = runtime.prepare(authorization("i2", "g2")).unwrap();
    assert!(runtime.begin(other, &skill_id(), "g", &reader()).is_err());
    runtime.recycle();
    assert_eq!(runtime.active_count(), 0);
}

#[test]
fn grants_must_be_exactly_what_the_manifest_declares() {
    let missing = InvocationAuthorization::new(
        "i".to_string(),
        skill_id(),
        "f".to_string(),
        reader(),
        Vec::new(),
    );
    assert!(matches!(missing, Err(CapabilityError::InvalidInvocation)));
    let unnamed = InvocationAuthorization::new(
        "i".to_string(),
        String::new(),
        "f".to_string(),
        reader(),
        Vec::new(),
    );
    assert!(matches!(unnamed, Err(CapabilityError::InvalidAttribution)));
}

fn attribution(manifest: CapabilityManifest) -> SkillExecutionAttribution {
    SkillExecutionAttribution {
        skill_id: skill_id(),
        export_name: "f".to_string(),
        manifest,
    }
}

#[test]
fn nested_scopes_intersect() {
    let mut context = CapabilityContext::default();
    assert!(context.authorize(HostCapability::ReadFile, true).is_ok());
    let outer = context.enter(attribution(reader())).unwrap();
    assert!(context.authorize(HostCapability::ReadFile, true).is_ok());
    assert!(context.authorize(HostCapability::ReadFile, false).is_err());
    let inner = context
        .enter(attribution(CapabilityManifest::pure()))
        .unwrap();
    assert!(context.authorize(HostCapability::ReadFile, true).is_err());
    assert_eq!(context.take_denials().len(), 2);
    assert!(context.take_denials().is_empty());
    context.leave(inner);
    assert!(context.authorize(HostCapability::ReadFile, true).is_ok());
    context.leave(outer);
    assert!(context.current().is_none());
    assert!(context.pop().is_err());
    context.clear();
}

#[test]
fn operations_are_decoded_strictly() {
    let decode = |operation: HostCapability, text: &str| decode_operation(operation, text);
    assert!(decode(HostCapability::ReadFile, "[\"a\"]").is_ok());
    for bad in ["[1]", "[]", "[\"a\",\"b\"]", "{\"path\":\"a\"}", "not json"] {
        assert!(
            matches!(
                decode(HostCapability::ReadFile, bad),
                Err(CapabilityError::InvalidArguments)
            ),
            "{bad}"
        );
    }
    match decode(HostCapability::Spawn, "[\"rg\",[\"-n\",\"x\"]]") {
        Ok(EffectOperation::Spawn { program, arguments }) => {
            assert_eq!(program, "rg");
            assert_eq!(arguments, vec!["-n".to_string(), "x".to_string()]);
        }
        _ => panic!("a spawn was encoded"),
    }
    match decode(
        HostCapability::Fetch,
        "[\"https://a\",{\"method\":\"POST\",\"headers\":{\"X\":\"1\"},\"body\":\"b\"}]",
    ) {
        Ok(EffectOperation::Fetch {
            url,
            method,
            headers,
            body,
        }) => {
            assert_eq!(url, "https://a");
            assert!(matches!(method, HttpMethod::Post));
            assert_eq!(headers.len(), 1);
            assert_eq!(headers[0].name, "X");
            assert_eq!(body, Some("b".to_string()));
        }
        _ => panic!("a fetch was encoded"),
    }
    assert!(decode(HostCapability::Fetch, "[\"https://a\",{\"mode\":\"x\"}]").is_err());
    assert!(decode(HostCapability::Fetch, "[\"https://a\",{\"method\":\"PUT\"}]").is_err());
}

#[test]
fn results_are_encoded_as_documents() {
    let text = encode_effect_result(EffectResult::ReadFile {
        content: "line\n".to_string(),
    })
    .unwrap();
    assert_eq!(text, "\"line\\n\"");
    assert_eq!(encode_effect_result(EffectResult::WriteFile).unwrap(), "null");
    let spawned = encode_effect_result(EffectResult::Spawn {
        stdout: "o".to_string(),
        stderr: String::new(),
        exit_code: None,
        timed_out: true,
        stdout_truncated: false,
        stderr_truncated: false,
    })
    .unwrap();
    assert!(parse_json(&spawned).is_some(), "{spawned}");
    assert!(spawned.contains("\"timed_out\":true"), "{spawned}");
    assert!(encode_effect_result(EffectResult::Error(EffectErrorCode::TimedOut)).is_err());
}

#[test]
fn only_tiers_without_effects_may_automate() {
    assert!(tier_may_automate(CapabilityTier::Pure));
    assert!(!tier_may_automate(CapabilityTier::SideEffecting));
}

#[test]
fn only_the_first_refusals_of_a_step_are_kept_until_they_are_taken() {
    let mut context = CapabilityContext::default();
    assert!(context.authorize(HostCapability::Spawn, false).is_err());
    assert!(context.take_denials().is_empty());
    context
        .push(SkillExecutionAttribution {
            skill_id: skill_id(),
            export_name: "f".to_string(),
            manifest: reader(),
        })
        .unwrap();
    for _ in 0..256 {
        assert!(context.authorize(HostCapability::Spawn, true).is_err());
    }
    assert!(context.authorize(HostCapability::Fetch, true).is_err());
    let kept = context.take_denials();
    assert_eq!(kept.len(), 256);
    assert!(kept.iter().all(|d| d.operation == HostCapability::Spawn));
    assert!(context.authorize(HostCapability::Fetch, true).is_err());
    assert_eq!(context.take_denials()[0].operation, HostCapability::Fetch);
    assert!(context.take_denials().is_empty());
}

#[test]
fn a_recycled_runtime_knows_no_grant_and_repeats_no_handle() {
    let mut runtime = InvocationCapabilityRuntime::new(2);
    assert_eq!(runtime.prepare(authorization("i1", "g1")).unwrap(), 1);
    runtime.cancel("i1");
    assert!(runtime.prepare(authorization("i1", "g1")).is_err());
    assert_eq!(runtime.prepare(authorization("i1", "g2")).unwrap(), 2);
    runtime.recycle();
    assert_eq!(runtime.prepare(authorization("i1", "g1")).unwrap(), 3);
}

#[test]
fn a_binding_is_spent_by_the_first_claim() {
    let mut runtime = InvocationCapabilityRuntime::new(2);
    let handle = runtime.prepare(authorization("i1", "g1")).unwrap();
    runtime.bind(handle).unwrap();
    assert!(runtime.bind(handle).is_err());
    assert!(runtime.claim_bound(&skill_id(), "other", &reader()).is_err());
    assert!(runtime.claim_bound(&skill_id(), "f", &reader()).is_err());
    runtime.bind(handle).unwrap();
    runtime.claim_bound(&skill_id(), "f", &reader()).unwrap();
    assert!(runtime.claim_bound(&skill_id(), "f", &reader()).is_err());
    assert!(runtime.bind(handle).is_err());
    assert!(runtime.begin(handle, &skill_id(), "f", &reader()).is_err());
}
