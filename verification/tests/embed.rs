use std::sync::Arc;

use skills::embed::{
    cache_key, check_documents, check_embeddings, check_query, choose_backend, place_vectors,
    redact_url, CacheStats, DeterministicBackend, EmbeddingBackendKind, EmbeddingConfig,
    EmbeddingError, ExternalBackend, ModelMetadata, QueryCache, ResponseEntry, ResponseVector,
    SkillDocument, VectorShape, DEFAULT_EXTERNAL_API_KEY_ENV,
};
use skills::json::render_json;

#[test]
fn test_skill_document_builder() {
    let doc = SkillDocument::new("Parse JSON safely".to_string())
        .with_export(
            "parseJson".to_string(),
            "(text: string): unknown | null".to_string(),
        )
        .with_tags(vec!["json".to_string(), "utility".to_string()])
        .with_identifiers(vec!["parse_json_v1".to_string()]);

    let rendered = doc.render();
    assert!(rendered.contains("Parse JSON safely"));
    assert!(rendered.contains("Exports:"));
    assert!(rendered.contains("parseJson"));
    assert!(rendered.contains("Tags:"));
    assert!(rendered.contains("json"));
    assert!(rendered.contains("utility"));
    assert!(rendered.contains("Identifiers:"));
    assert!(rendered.contains("parse_json_v1"));
}

#[test]
fn test_skill_document_sorted_ids() {
    let doc = SkillDocument::new("Test".to_string()).with_identifiers(vec![
        "z".to_string(),
        "a".to_string(),
        "m".to_string(),
    ]);

    let rendered = doc.render();
    // Should be sorted
    assert!(rendered.contains("Identifiers: a, m, z"));
}

#[test]
fn test_skill_document_bounded_ids() {
    let ids: Vec<String> = (0..20).map(|i| format!("id{}", i)).collect();
    let doc = SkillDocument::new("Test".to_string()).with_identifiers(ids);

    let rendered = doc.render();
    let id_count = rendered.matches(',').count() + 1; // count commas + 1
    assert!(id_count <= 10, "should bound identifiers to 10");
}

#[test]
fn test_embedding_error_display() {
    assert_eq!(
        EmbeddingError::EmptyDocument.message(),
        "empty document provided"
    );
    assert_eq!(EmbeddingError::EmptyQuery.message(), "empty query provided");
    assert_eq!(
        EmbeddingError::NonFiniteValue.message(),
        "embedding contains non-finite value"
    );
}

/// A fully specified external config, so each test can invalidate one field.
fn valid_config() -> EmbeddingConfig {
    EmbeddingConfig {
        backend: EmbeddingBackendKind::External,
        base_url: Some("https://api.example.com/v1".to_string()),
        model: Some("text-embedding-3-small".into()),
        api_key_env: Some("MINI_AGENT_TEST_EMBED_KEY".into()),
        dimensions: Some(1536),
        model_revision: None,
        timeout_secs: Some(5),
        headers: Vec::new(),
    }
}

#[test]
fn default_config_selects_the_deterministic_backend() {
    assert_eq!(
        EmbeddingConfig::default().backend,
        EmbeddingBackendKind::Deterministic
    );
}

#[test]
fn deterministic_backend_does_not_impersonate_a_real_model() {
    // Vector compatibility is decided from (model_id, model_revision). If the
    // offline hash backend claimed to be BGE, its vectors would be treated as
    // interchangeable with real BGE vectors.
    let backend = DeterministicBackend::new();
    assert!(
        !backend.model_id().contains("bge") && !backend.model_id().contains("BAAI"),
        "deterministic backend must not claim a real model id, got {}",
        backend.model_id()
    );
}

#[test]
fn external_backend_defaults_every_field_to_the_openrouter_llm_settings() {
    // A bare `backend = "external"` must work without repeating provider
    // config: it inherits the same endpoint and credential the LLM uses.
    let config = EmbeddingConfig {
        backend: EmbeddingBackendKind::External,
        ..EmbeddingConfig::default()
    };
    let backend = ExternalBackend::from_config_with_key(&config, "k".to_string())
        .ok()
        .expect("a bare external config must resolve against defaults");
    assert_eq!(backend.endpoint, "https://openrouter.ai/api/v1/embeddings");
    assert_eq!(backend.model_id(), "openai/text-embedding-3-small");
    assert_eq!(backend.dimensions(), 1536);
}

#[test]
fn explicit_fields_override_the_defaults() {
    let mut config = valid_config();
    config.base_url = Some("https://api.openai.com/v1".to_string());
    config.model = Some("text-embedding-3-large".into());
    config.dimensions = Some(3072);
    let backend = ExternalBackend::from_config_with_key(&config, "k".to_string())
        .ok()
        .expect("explicit config must be honoured");
    assert_eq!(backend.endpoint, "https://api.openai.com/v1/embeddings");
    assert_eq!(backend.model_id(), "text-embedding-3-large");
    assert_eq!(backend.dimensions(), 3072);
}

#[test]
fn external_backend_rejects_zero_dimensions() {
    let mut config = valid_config();
    config.dimensions = Some(0);
    let error = ExternalBackend::from_config_with_key(&config, "k".to_string())
        .err()
        .expect("zero dims must be rejected");
    assert!(
        matches!(error, EmbeddingError::InvalidConfiguration(ref m) if m.contains("dimensions")),
        "got {error:?}"
    );
}

#[test]
fn base_url_trailing_slash_is_tolerated() {
    let mut config = valid_config();
    config.base_url = Some("https://api.example.com/v1/".to_string());
    let backend =
        ExternalBackend::from_config_with_key(&config, "k".to_string()).ok().expect("must build");
    assert_eq!(backend.endpoint, "https://api.example.com/v1/embeddings");
}

#[test]
fn model_revision_defaults_to_the_model_name() {
    let backend = ExternalBackend::from_config_with_key(&valid_config(), "k".to_string())
        .ok().expect("must build");
    assert_eq!(backend.model_revision(), "text-embedding-3-small");
    assert_eq!(backend.dimensions(), 1536);
}

#[test]
fn explicit_model_revision_is_preserved() {
    let mut config = valid_config();
    config.model_revision = Some("2026-01-snapshot".into());
    let backend =
        ExternalBackend::from_config_with_key(&config, "k".to_string()).ok().expect("must build");
    assert_eq!(backend.model_revision(), "2026-01-snapshot");
}

#[test]
fn redact_url_strips_endpoints_from_error_text() {
    let redacted =
        redact_url("error sending request for url https://api.example.com/v1?key=sk-secret");
    assert!(!redacted.contains("sk-secret"), "got: {redacted}");
    assert!(!redacted.contains("api.example.com"), "got: {redacted}");
    assert!(redacted.contains("<url>"), "got: {redacted}");
}

/// Config with every field defaulted — the whole point is that pointing at
/// OpenRouter requires nothing beyond selecting the backend.
fn defaulted_external_config() -> EmbeddingConfig {
    EmbeddingConfig {
        backend: EmbeddingBackendKind::External,
        ..EmbeddingConfig::default()
    }
}

#[test]
fn defaults_resolve_to_openrouter_without_any_extra_config() {
    let backend = ExternalBackend::from_config_with_key(
        &defaulted_external_config(),
        "placeholder".to_string(),
    )
    .ok()
    .expect("a bare external config must resolve against the OpenRouter defaults");

    assert_eq!(backend.endpoint, "https://openrouter.ai/api/v1/embeddings");
    assert_eq!(backend.model_id(), "openai/text-embedding-3-small");
    assert_eq!(backend.dimensions(), 1536);
    assert_eq!(DEFAULT_EXTERNAL_API_KEY_ENV, "OPENROUTER_API_KEY");
}

#[test]
fn a_custom_model_must_declare_its_dimensions() {
    let mut config = defaulted_external_config();
    config.model = Some("some/other-embedding-model".into());
    let error = ExternalBackend::from_config_with_key(&config, "placeholder".to_string())
        .err()
        .expect("dimensions must not be guessed for an unknown model");
    assert!(
        matches!(error, EmbeddingError::InvalidConfiguration(ref m) if m.contains("dimensions")),
        "got {error:?}"
    );
}

#[test]
fn external_backend_reports_a_missing_api_key_env_var_by_name() {
    let mut config = valid_config();
    config.api_key_env = Some("MINI_AGENT_DEFINITELY_UNSET_KEY_VAR".into());
    assert_eq!(
        ExternalBackend::api_key_variable(&config),
        "MINI_AGENT_DEFINITELY_UNSET_KEY_VAR"
    );
    let error = ExternalBackend::from_config(&config, None)
        .err()
        .expect("unset key must be rejected");
    match error {
        EmbeddingError::InvalidConfiguration(message) => {
            assert!(
                message.contains("MINI_AGENT_DEFINITELY_UNSET_KEY_VAR"),
                "error must name the variable so it is actionable, got: {message}"
            );
        }
        other => panic!("wrong error: {other:?}"),
    }
}

#[test]
fn a_blank_key_is_refused_and_a_set_one_is_used() {
    let config = valid_config();
    let error = ExternalBackend::from_config(&config, Some("  ".to_string()))
        .err()
        .expect("a blank key must be rejected");
    assert_eq!(
        error,
        EmbeddingError::InvalidConfiguration(
            "environment variable `MINI_AGENT_TEST_EMBED_KEY` (from [embedding] api_key_env) is empty"
                .to_string()
        )
    );
    let backend = ExternalBackend::from_config(&config, Some("k".to_string()))
        .ok()
        .expect("a set key must be used");
    assert_eq!(backend.api_key, "k");
    assert_eq!(backend.timeout_secs, 5);
}

#[test]
fn absent_config_yields_the_deterministic_backend() {
    assert_eq!(
        choose_backend(None, false).expect("default embedder must build"),
        EmbeddingBackendKind::Deterministic
    );
    assert_eq!(DeterministicBackend::new().model_id(), "deterministic-hash");
}

#[test]
fn local_backend_without_its_feature_is_a_clear_error_not_a_silent_downgrade() {
    let config = EmbeddingConfig {
        backend: EmbeddingBackendKind::Local,
        ..EmbeddingConfig::default()
    };
    let error = choose_backend(Some(&config), false)
        .expect_err("local backend must fail without its feature");
    assert!(
        matches!(error, EmbeddingError::InvalidConfiguration(ref m) if m.contains("skills-embed")),
        "error must name the missing feature, got {error:?}"
    );
    assert_eq!(
        choose_backend(Some(&config), true).expect("a build with the model"),
        EmbeddingBackendKind::Local
    );
}

#[test]
fn test_query_cache_arc_sharing_on_hit() {
    // Unit test: verify that get() returns the same Arc, not a cloned vector.
    let mut cache: QueryCache<Arc<[f32]>> = QueryCache::new(10, usize::MAX);
    let embedding: Arc<[f32]> = vec![1.0f32, 2.0, 3.0, 4.0].into();
    let key = "test_key".to_string();

    cache.insert(key.clone(), embedding, 16);

    // First get
    let arc1 = Arc::clone(cache.get(&key).expect("should find key"));

    // Second get on same key
    let arc2 = Arc::clone(cache.get(&key).expect("should find key"));

    // Both should point to the same Arc allocation
    assert!(Arc::ptr_eq(&arc1, &arc2), "cache should return the same Arc on hit");

    // Verify the data is correct
    assert_eq!(arc1.len(), 4);
    assert_eq!(arc1[0], 1.0);
}

#[test]
fn test_query_cache_rejects_entries_that_cannot_fit() {
    let embedding: Arc<[f32]> = vec![1.0f32, 2.0].into();

    let mut entry_limited: QueryCache<Arc<[f32]>> = QueryCache::new(0, usize::MAX);
    entry_limited.insert("entry-limit".to_string(), Arc::clone(&embedding), 8);
    assert_eq!(entry_limited.stats().entries, 0);
    assert_eq!(entry_limited.stats().bytes, 0);

    let mut byte_limited: QueryCache<Arc<[f32]>> = QueryCache::new(1, 4);
    byte_limited.insert("byte-limit".to_string(), embedding, 8);
    assert_eq!(byte_limited.stats().entries, 0);
    assert_eq!(byte_limited.stats().bytes, 0);
}

#[test]
fn the_cache_evicts_the_least_recently_used_entry() {
    let mut cache: QueryCache<u32> = QueryCache::new(2, 100);
    cache.insert("query1".to_string(), 1, 10);
    cache.insert("query2".to_string(), 2, 10);
    assert_eq!(cache.get("query1"), Some(&1));
    cache.insert("query3".to_string(), 3, 10);
    assert_eq!(cache.get("query2"), None);
    assert_eq!(cache.get("query1"), Some(&1));
    assert_eq!(
        cache.stats(),
        CacheStats {
            entries: 2,
            bytes: 20,
            hits: 2,
            evictions: 1
        }
    );
    // The byte bound evicts as many as must go.
    cache.insert("query4".to_string(), 4, 95);
    assert_eq!(cache.stats().entries, 1);
    assert_eq!(cache.stats().bytes, 95);
    assert_eq!(cache.stats().evictions, 3);
    // A key that is there is replaced, not doubled.
    cache.insert("query4".to_string(), 5, 1);
    assert_eq!(cache.get("query4"), Some(&5));
    assert_eq!(cache.stats().entries, 1);
    cache.clear();
    assert_eq!(cache.stats().entries, 0);
    assert_eq!(cache.stats().evictions, 3);
}

#[test]
fn cache_keys_hold_the_revision_and_the_hash_of_the_trimmed_query() {
    assert_eq!(cache_key("v1", " abc "), cache_key("v1", "abc"));
    assert_eq!(
        cache_key("v1", "abc"),
        "v1:ba7816bf8f01cfea414140de5dae2223b00361a396177a9cb410ff61f20015ad"
    );
    assert_ne!(cache_key("v1", "abc"), cache_key("v2", "abc"));
}

#[test]
fn hash_pairs_walk_round_the_hash() {
    let pairs = DeterministicBackend::hash_to_vector("text", "deterministic-v1", 0, 384);
    assert_eq!(pairs.len(), 384);
    // The bytes go round every thirty-two coordinates, and neighbours share one.
    assert_eq!(pairs[0], pairs[32]);
    assert_eq!(pairs[0].1, pairs[1].0);
    assert_eq!(pairs[31].1, pairs[0].0);
    let again = DeterministicBackend::hash_to_vector("text", "deterministic-v1", 0, 384);
    assert_eq!(pairs, again);
    let other = DeterministicBackend::hash_to_vector("text", "deterministic-v1", 1, 384);
    assert_ne!(pairs, other);
}

#[test]
fn blank_documents_and_queries_are_refused() {
    assert_eq!(
        check_documents(&vec!["a".to_string(), "  ".to_string()]),
        Err(EmbeddingError::EmptyDocument)
    );
    assert_eq!(check_documents(&Vec::new()), Ok(()));
    assert_eq!(check_query(" \n"), Err(EmbeddingError::EmptyQuery));
    assert_eq!(check_query(" q "), Ok("q".to_string()));
}

#[test]
fn vectors_are_checked_against_the_model() {
    let good = VectorShape {
        width: 3,
        finite: true,
    };
    assert_eq!(check_embeddings(&vec![good, good], 3), Ok(()));
    let error = check_embeddings(
        &vec![
            good,
            VectorShape {
                width: 2,
                finite: false,
            },
        ],
        3,
    )
    .unwrap_err();
    assert_eq!(error.message(), "dimension mismatch: expected 3, got 2");
    assert_eq!(
        check_embeddings(
            &vec![VectorShape {
                width: 3,
                finite: false
            }],
            3
        ),
        Err(EmbeddingError::NonFiniteValue)
    );
    let nameless = ModelMetadata {
        model_id: "m".to_string(),
        model_revision: String::new(),
        dimensions: 3,
        normalized: true,
    };
    assert!(nameless.validate().is_err());
    let flat = ModelMetadata {
        model_id: "m".to_string(),
        model_revision: "r".to_string(),
        dimensions: 0,
        normalized: true,
    };
    assert_eq!(
        flat.validate().unwrap_err().message(),
        "invalid embedding configuration: backend reports zero dimensions"
    );
}

fn numbers(index: Option<u64>, bits: u32) -> ResponseEntry {
    ResponseEntry {
        index,
        vector: ResponseVector::Numbers {
            width: 1,
            normalized: Some(vec![bits]),
        },
    }
}

#[test]
fn vectors_are_placed_by_their_index_whatever_their_order() {
    let placed = place_vectors(
        Some(vec![numbers(Some(2), 30), numbers(Some(0), 10), numbers(Some(1), 20)]),
        3,
        1,
    )
    .unwrap();
    assert_eq!(placed, vec![vec![10], vec![20], vec![30]]);
    // Without an index the position counts.
    let plain = place_vectors(Some(vec![numbers(None, 1), numbers(None, 2)]), 2, 1).unwrap();
    assert_eq!(plain, vec![vec![1], vec![2]]);
}

#[test]
fn answers_that_do_not_fit_the_request_are_refused() {
    let message = |data: Option<Vec<ResponseEntry>>, inputs: usize| -> String {
        place_vectors(data, inputs, 1).unwrap_err().message()
    };
    assert_eq!(
        message(None, 1),
        "embedding request failed: response has no `data` array"
    );
    assert_eq!(
        message(Some(vec![numbers(None, 1)]), 2),
        "embedding request failed: expected 2 embeddings, got 1"
    );
    assert_eq!(
        message(Some(vec![numbers(Some(7), 1)]), 1),
        "embedding request failed: response index 7 out of range"
    );
    assert_eq!(
        message(Some(vec![numbers(Some(1), 1), numbers(Some(1), 2)]), 2),
        "embedding request failed: response repeated index 1"
    );
    let missing = ResponseEntry {
        index: None,
        vector: ResponseVector::Missing,
    };
    assert_eq!(
        message(Some(vec![missing]), 1),
        "embedding request failed: response entry has no `embedding`"
    );
    let endless = ResponseEntry {
        index: None,
        vector: ResponseVector::NonFinite,
    };
    assert_eq!(
        place_vectors(Some(vec![endless]), 1, 1),
        Err(EmbeddingError::NonFiniteValue)
    );
    let wide = ResponseEntry {
        index: None,
        vector: ResponseVector::Numbers {
            width: 2,
            normalized: Some(vec![1, 2]),
        },
    };
    assert_eq!(
        place_vectors(Some(vec![wide]), 1, 1),
        Err(EmbeddingError::DimensionMismatch {
            expected: 1,
            actual: 2
        })
    );
}

#[test]
fn headers_are_sent_in_order_and_the_body_names_the_model() {
    let mut config = valid_config();
    config.headers = vec![
        ("X-B".to_string(), "2".to_string()),
        ("X-A".to_string(), "1".to_string()),
    ];
    let backend = ExternalBackend::from_config_with_key(&config, "k".to_string())
        .ok()
        .expect("must build");
    assert_eq!(
        backend.headers,
        vec![
            ("X-A".to_string(), "1".to_string()),
            ("X-B".to_string(), "2".to_string())
        ]
    );
    let body = render_json(backend.request_body(&vec!["one".to_string(), "two".to_string()]))
        .expect("a body renders");
    assert!(body.contains("\"model\":\"text-embedding-3-small\""), "{body}");
    assert!(body.contains("\"input\":[\"one\",\"two\"]"), "{body}");
}

#[test]
fn a_document_is_rendered_section_by_section() {
    let doc = SkillDocument::new("Parse".to_string())
        .with_exports(vec![("f".to_string(), "(x)".to_string()), ("g".to_string(), "()".to_string())])
        .with_tags(vec!["a".to_string(), "b".to_string()])
        .with_identifiers(vec!["g".to_string(), "f".to_string(), "g".to_string()]);
    assert_eq!(
        doc.render(),
        "Parse\nExports: f(x); g()\nTags: a, b\nIdentifiers: f, g"
    );
    assert_eq!(SkillDocument::new("Bare".to_string()).render(), "Bare");
}

#[test]
fn a_document_gathers_what_is_added_to_it() {
    let doc = SkillDocument::new("d".to_string())
        .with_export("a".to_string(), "()".to_string())
        .with_exports(vec![("b".to_string(), "(x)".to_string())])
        .with_exports(vec![("c".to_string(), "(y)".to_string())])
        .with_tags(vec!["first".to_string()])
        .with_tags(vec!["second".to_string()])
        .with_identifiers(vec!["n".to_string()])
        .with_identifiers(vec!["m".to_string(), "n".to_string()]);
    assert_eq!(
        doc.exports,
        vec![
            ("a".to_string(), "()".to_string()),
            ("b".to_string(), "(x)".to_string()),
            ("c".to_string(), "(y)".to_string()),
        ]
    );
    assert_eq!(doc.tags, vec!["first".to_string(), "second".to_string()]);
    assert_eq!(doc.identifiers, vec!["m".to_string(), "n".to_string()]);
}
