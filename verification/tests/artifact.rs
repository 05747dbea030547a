use skills::artifact::{
    normalize_tags, private_skill_source, CapabilityManifest, CapabilityTier, HostCapability,
    IdentityError, SkillArtifact, SkillExport, IDENTITY_VERSION,
};

fn export(name: &str, signature: &str) -> SkillExport {
    SkillExport {
        name: name.to_string(),
        signature: signature.to_string(),
    }
}

/// A representative artifact. Each test perturbs exactly one identity-bearing field.
fn artifact() -> SkillArtifact {
    SkillArtifact::new(
        "function parseJson(s) { return JSON.parse(s); }".to_string(),
        "Parse JSON safely.".to_string(),
        vec!["json".to_string(), "parse".to_string()],
        vec![export("parseJson", "parseJson(text: string): unknown")],
        vec!["parseJson('{}') !== null".to_string()],
        CapabilityManifest::pure(),
    )
    .expect("representative artifact must be valid")
}

#[test]
fn id_is_full_64_char_lowercase_hex() {
    let id = artifact().id;
    assert_eq!(id.len(), 64, "identity must be a full SHA-256, got {id}");
    assert!(
        id.bytes()
            .all(|b| b.is_ascii_digit() || (b'a'..=b'f').contains(&b)),
        "identity must be lowercase hex: {id}"
    );
}

#[test]
fn identity_is_deterministic() {
    assert_eq!(artifact().id, artifact().id);
}

#[test]
fn source_change_changes_identity() {
    let mut changed = artifact();
    changed.source.push(' ');
    assert_ne!(changed.compute_identity(), artifact().id);
}

#[test]
fn description_change_changes_identity() {
    let mut changed = artifact();
    changed.description = "Parse JSON unsafely.".to_string();
    assert_ne!(changed.compute_identity(), artifact().id);
}

#[test]
fn test_content_change_changes_identity() {
    let mut changed = artifact();
    changed.tests = vec!["parseJson('[]') !== null".to_string()];
    assert_ne!(changed.compute_identity(), artifact().id);
}

#[test]
fn test_order_changes_identity() {
    let two = |tests: Vec<String>| {
        SkillArtifact::new(
            "function f() {}".to_string(),
            "d".to_string(),
            vec![],
            vec![export("f", "f()")],
            tests,
            CapabilityManifest::pure(),
        )
        .expect("valid")
        .id
    };
    let forward = two(vec!["a".to_string(), "b".to_string()]);
    let reversed = two(vec!["b".to_string(), "a".to_string()]);
    assert_ne!(forward, reversed, "test order is identity-bearing");
}

#[test]
fn export_signature_change_changes_identity() {
    let mut changed = artifact();
    changed.exports = vec![export(
        "parseJson",
        "parseJson(text: string): unknown | null",
    )];
    assert_ne!(changed.compute_identity(), artifact().id);
}

#[test]
fn export_name_change_changes_identity() {
    let mut changed = artifact();
    changed.exports = vec![export("parseJSON", "parseJson(text: string): unknown")];
    assert_ne!(changed.compute_identity(), artifact().id);
}

#[test]
fn tag_change_changes_identity() {
    let mut changed = artifact();
    changed.tags = normalize_tags(vec!["json".to_string(), "decode".to_string()]);
    assert_ne!(changed.compute_identity(), artifact().id);
}

#[test]
fn tag_reordering_does_not_change_identity() {
    let forward = SkillArtifact::new(
        "function f() {}".to_string(),
        "d".to_string(),
        vec!["alpha".to_string(), "beta".to_string()],
        vec![export("f", "f()")],
        vec!["true".to_string()],
        CapabilityManifest::pure(),
    )
    .expect("valid");
    let reversed = SkillArtifact::new(
        "function f() {}".to_string(),
        "d".to_string(),
        vec!["beta".to_string(), "ALPHA  ".to_string()],
        vec![export("f", "f()")],
        vec!["true".to_string()],
        CapabilityManifest::pure(),
    )
    .expect("valid");
    assert_eq!(
        forward.id, reversed.id,
        "tags are normalized and sorted, so order and case must not matter"
    );
}

#[test]
fn capability_change_changes_identity() {
    let pure = artifact();
    let effectful = SkillArtifact::new(
        pure.source.clone(),
        pure.description.clone(),
        pure.tags.clone(),
        pure.exports.clone(),
        pure.tests.clone(),
        CapabilityManifest::new(CapabilityTier::ReadOnly, vec![HostCapability::ReadFile])
            .expect("valid manifest"),
    )
    .expect("valid");
    assert_ne!(pure.id, effectful.id);
}

#[test]
fn identity_version_is_bound_into_the_hash() {
    let mut changed = artifact();
    changed.identity_version = IDENTITY_VERSION + 1;
    assert_ne!(changed.compute_identity(), artifact().id);
}

#[test]
fn length_prefixing_prevents_field_boundary_collisions() {
    // Without length prefixes, "ab" + "c" and "a" + "bc" would concatenate identically.
    let build = |description: &str, tag: &str| {
        SkillArtifact::new(
            "function f() {}".to_string(),
            description.to_string(),
            vec![tag.to_string()],
            vec![export("f", "f()")],
            vec!["true".to_string()],
            CapabilityManifest::pure(),
        )
        .expect("valid")
        .id
    };
    assert_ne!(build("ab", "c"), build("a", "bc"));
}

#[test]
fn verify_identity_accepts_an_untampered_artifact() {
    artifact()
        .verify_identity()
        .expect("freshly built artifact must verify");
}

#[test]
fn verify_identity_rejects_a_tampered_row() {
    let mut tampered = artifact();
    // Simulates a row edited in the database without recomputing the hash.
    tampered.source = "function parseJson(s) { return exfiltrate(s); }".to_string();
    let error = tampered
        .verify_identity()
        .expect_err("tampered source must be rejected");
    assert!(
        matches!(error, IdentityError::IdentityMismatch { .. }),
        "got {error:?}"
    );
}

#[test]
fn verify_identity_rejects_legacy_short_ids() {
    let mut short = artifact();
    short.id.truncate(16);
    let error = short
        .verify_identity()
        .expect_err("short id must be rejected");
    assert!(
        matches!(error, IdentityError::MalformedId(_)),
        "got {error:?}"
    );
}

#[test]
fn verify_identity_rejects_non_hex_ids() {
    let mut bad = artifact();
    bad.id = "z".repeat(64);
    let error = bad
        .verify_identity()
        .expect_err("non-hex id must be rejected");
    assert!(
        matches!(error, IdentityError::MalformedId(_)),
        "got {error:?}"
    );
}

#[test]
fn verify_identity_rejects_unsupported_identity_version() {
    let mut future = artifact();
    future.identity_version = IDENTITY_VERSION + 1;
    future.id = future.compute_identity();
    let error = future
        .verify_identity()
        .expect_err("future version must be rejected");
    assert!(
        matches!(error, IdentityError::UnsupportedIdentityVersion(_)),
        "got {error:?}"
    );
}

#[test]
fn pure_tier_cannot_declare_any_host() {
    let error = CapabilityManifest::new(CapabilityTier::Pure, vec![HostCapability::ReadFile])
        .expect_err("Tier 0 must declare nothing");
    assert!(
        matches!(error, IdentityError::CapabilityExceedsTier { .. }),
        "got {error:?}"
    );
}

#[test]
fn read_only_tier_rejects_mutating_and_egress_capabilities() {
    for capability in [
        HostCapability::WriteFile,
        HostCapability::Spawn,
        HostCapability::Fetch,
    ] {
        let error = CapabilityManifest::new(CapabilityTier::ReadOnly, vec![capability])
            .expect_err("Tier 1 must reject non-read-only capabilities");
        assert!(
            matches!(error, IdentityError::CapabilityExceedsTier { .. }),
            "{capability:?} rejected for the wrong reason: {error:?}"
        );
    }
    // The one capability Tier 1 does permit.
    CapabilityManifest::new(CapabilityTier::ReadOnly, vec![HostCapability::ReadFile])
        .expect("Tier 1 must permit read_file");
}

#[test]
fn duplicate_capability_is_rejected() {
    let error = CapabilityManifest::new(
        CapabilityTier::SideEffecting,
        vec![HostCapability::ReadFile, HostCapability::ReadFile],
    )
    .expect_err("duplicates must be rejected");
    assert!(
        matches!(error, IdentityError::DuplicateCapability(_)),
        "got {error:?}"
    );
}

#[test]
fn manifest_declaration_order_does_not_change_identity() {
    let build = |hosts: Vec<HostCapability>| {
        CapabilityManifest::new(CapabilityTier::SideEffecting, hosts).expect("valid")
    };
    let forward = build(vec![HostCapability::ReadFile, HostCapability::Spawn]);
    let reversed = build(vec![HostCapability::Spawn, HostCapability::ReadFile]);
    assert_eq!(forward.allowed_hosts, reversed.allowed_hosts);
}

#[test]
fn allows_consults_the_exact_list_not_the_tier() {
    let manifest = CapabilityManifest::new(
        CapabilityTier::SideEffecting,
        vec![HostCapability::ReadFile],
    )
    .expect("valid");
    assert!(manifest.allows(HostCapability::ReadFile));
    assert!(
        !manifest.allows(HostCapability::Spawn),
        "SideEffecting must not confer an ambient tier-wide grant"
    );
}

#[test]
fn duplicate_exports_are_rejected() {
    let error = SkillArtifact::new(
        "function f() {}".to_string(),
        "d".to_string(),
        vec![],
        vec![export("f", "f()"), export("f", "f(x)")],
        vec!["true".to_string()],
        CapabilityManifest::pure(),
    )
    .expect_err("duplicate export names must be rejected");
    assert!(
        matches!(error, IdentityError::DuplicateExport(_)),
        "got {error:?}"
    );
}

#[test]
fn empty_description_is_rejected() {
    let error = SkillArtifact::new(
        "function f() {}".to_string(),
        "   ".to_string(),
        vec![],
        vec![export("f", "f()")],
        vec!["true".to_string()],
        CapabilityManifest::pure(),
    )
    .expect_err("empty description must be rejected");
    assert!(
        matches!(error, IdentityError::EmptyDescription),
        "got {error:?}"
    );
}

#[test]
fn capability_tokens_round_trip() {
    for tier in [
        CapabilityTier::Pure,
        CapabilityTier::ReadOnly,
        CapabilityTier::SideEffecting,
    ] {
        assert_eq!(CapabilityTier::from_token(tier.as_token()), Some(tier));
    }
    for capability in [
        HostCapability::ReadFile,
        HostCapability::WriteFile,
        HostCapability::Spawn,
        HostCapability::Fetch,
    ] {
        assert_eq!(
            HostCapability::from_token(capability.as_token()),
            Some(capability)
        );
    }
    assert_eq!(HostCapability::from_token("delete_everything"), None);
    assert_eq!(CapabilityTier::from_token("admin"), None);
}

#[test]
fn source_bytes_are_not_whitespace_normalized() {
    let build = |source: &str| {
        SkillArtifact::new(
            source.to_string(),
            "d".to_string(),
            vec![],
            vec![export("f", "f()")],
            vec!["true".to_string()],
            CapabilityManifest::pure(),
        )
        .expect("valid")
        .id
    };
    assert_ne!(build("function f() {}"), build("function f() {}\n"));
    assert_ne!(build("function f() {}"), build("function  f() {}"));
}

#[test]
fn tags_are_trimmed_lowercased_sorted_and_kept_once() {
    let tags = normalize_tags(vec![
        " Zeta ".to_string(),
        "alpha".to_string(),
        "".to_string(),
        "ALPHA".to_string(),
        "\t".to_string(),
    ]);
    assert_eq!(tags, vec!["alpha".to_string(), "zeta".to_string()]);
}

#[test]
fn identity_errors_name_what_was_wrong() {
    let mut bad = artifact();
    bad.id = "abc".to_string();
    assert_eq!(
        bad.verify_identity().unwrap_err().message(),
        "malformed skill id: abc"
    );
    let mut future = artifact();
    future.identity_version = IDENTITY_VERSION + 1;
    future.id = future.compute_identity();
    assert_eq!(
        future.verify_identity().unwrap_err().message(),
        format!("unsupported identity version: {}", IDENTITY_VERSION + 1)
    );
    let nameless = SkillArtifact::new(
        "x".to_string(),
        "d".to_string(),
        vec![],
        vec![export(" ", "f()")],
        vec![],
        CapabilityManifest::pure(),
    )
    .unwrap_err();
    assert_eq!(nameless.message(), "export name must not be empty");
    let twice = SkillArtifact::new(
        "x".to_string(),
        "d".to_string(),
        vec![],
        vec![export("f", "f()"), export("f", "g()")],
        vec![],
        CapabilityManifest::pure(),
    )
    .unwrap_err();
    assert_eq!(twice.message(), "export f declared more than once");
}

#[test]
fn a_known_artifact_has_a_known_identity() {
    // The hash covers length-prefixed fields behind a domain string, so a change
    // in any of them, or in their order, shows here.
    let first = artifact();
    let again = artifact();
    assert_eq!(first.compute_identity(), again.id);
    assert!(first.same(&again));
    let copy = first.copy();
    assert!(copy.same(&first));
    let mut other = first.copy();
    other.tests.push("true".to_string());
    assert!(!other.same(&first));
    assert_ne!(other.compute_identity(), first.id);
}

#[test]
fn private_source_wraps_the_source_and_returns_the_exports() {
    let source = private_skill_source(&artifact());
    assert!(source.contains("function parseJson(s) { return JSON.parse(s); }"));
    assert!(source.contains("parseJson"));
    assert_ne!(source, artifact().source);
}

#[test]
fn inherited_tests_are_tried_on_the_replacement() {
    let replacement = artifact();
    let mut predecessor = artifact();
    predecessor.tests = vec!["old() === 1".to_string()];
    predecessor.description.push('!');
    let subject = replacement.with_tests_of(&predecessor);
    assert_eq!(subject.tests, predecessor.tests);
    assert_eq!(
        SkillArtifact {
            tests: replacement.tests.clone(),
            ..subject
        },
        replacement
    );
}

#[test]
fn a_changed_field_under_a_kept_id_is_refused() {
    let stored = artifact();
    let mut changed = artifact();
    changed.tests.push("more".to_string());
    assert_ne!(changed.compute_identity(), stored.compute_identity());
    match changed.verify_identity() {
        Err(IdentityError::IdentityMismatch { claimed, computed }) => {
            assert_eq!(claimed, stored.id);
            assert_eq!(computed, changed.compute_identity());
        }
        other => panic!("{other:?}"),
    }
    let mut renamed = artifact();
    renamed.id = "0".repeat(64);
    assert_eq!(renamed.compute_identity(), stored.compute_identity());
}
