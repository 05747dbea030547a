use std::sync::Arc;

use skills::embed::{
    read_entries, DeterministicBackend, Embedder, EmbeddingConfig, EmbeddingError,
    EndpointAnswer, ExternalBackend, InferenceFailure, ModelMetadata, QueryCache, QueryStep,
    ResponseEntry, ResponseVector, VectorShape,
};
use skills::json::parse_json;

/// The vector whose coordinates stand behind pairs of hash bytes.
fn projected(pairs: &[(u8, u8)]) -> Vec<f32> {
    let mut vector: Vec<f32> = pairs
        .iter()
        .map(|(base, perturb)| {
            (f32::from(*base) / 255.0 + f32::from(*perturb) / 255.0) / 2.0 - 0.5
        })
        .collect();
    let norm = vector.iter().map(|v| v * v).sum::<f32>().sqrt();
    for value in &mut vector {
        *value /= norm;
    }
    vector
}

fn embedder(cache: QueryCache<Arc<[f32]>>) -> Embedder<Arc<[f32]>> {
    let backend = DeterministicBackend::new();
    Embedder {
        metadata: ModelMetadata {
            model_id: backend.model_id().to_string(),
            model_revision: backend.model_revision().to_string(),
            dimensions: backend.dimensions(),
            normalized: backend.normalized(),
        },
        cache,
    }
}

/// Embeds a query with the offline backend unless its vector is kept.
fn embed_query_cached(
    embedder: &mut Embedder<Arc<[f32]>>,
    query: &str,
) -> Result<Arc<[f32]>, EmbeddingError> {
    let (key, text) = match embedder.embed_query_cached(query)? {
        QueryStep::Cached(embedding) => return Ok(Arc::clone(embedding)),
        QueryStep::Infer { key, query } => (key, query),
    };
    let vector = projected(&DeterministicBackend::new().embed_query(&text)?);
    let shape = VectorShape {
        width: vector.len(),
        finite: vector.iter().all(|v| v.is_finite()),
    };
    let embedding: Arc<[f32]> = vector.into();
    embedder.finish_query(key, Ok((Arc::clone(&embedding), shape)))?;
    Ok(embedding)
}

#[test]
fn test_deterministic_backend_creates_embeddings() {
    let backend = DeterministicBackend::new();
    let docs = vec!["hello world".to_string(), "goodbye world".to_string()];
    let embeddings = backend.embed_documents(&docs).unwrap();
    assert_eq!(embeddings.len(), 2);
    assert_eq!(embeddings[0].len(), 384);
    assert_eq!(embeddings[1].len(), 384);
}

#[test]
fn test_deterministic_backend_normalized() {
    let backend = DeterministicBackend::new();
    let docs = vec!["test document".to_string()];
    let embeddings = backend.embed_documents(&docs).unwrap();
    let vec = projected(&embeddings[0]);
    let norm: f32 = vec.iter().map(|v| v * v).sum::<f32>().sqrt();
    assert!(
        (norm - 1.0).abs() < 1e-5,
        "vector not normalized: norm={}",
        norm
    );
}

#[test]
fn test_deterministic_backend_query() {
    let backend = DeterministicBackend::new();
    let query = projected(&backend.embed_query("what is rust?").unwrap());
    assert_eq!(query.len(), 384);
    let norm: f32 = query.iter().map(|v| v * v).sum::<f32>().sqrt();
    assert!((norm - 1.0).abs() < 1e-5);
}

#[test]
fn test_deterministic_backend_empty_rejects() {
    let backend = DeterministicBackend::new();
    assert_eq!(backend.embed_documents(&vec![]).unwrap().len(), 0);
    assert_eq!(
        backend.embed_documents(&vec!["  ".to_string()]),
        Err(EmbeddingError::EmptyDocument)
    );
    assert_eq!(backend.embed_query("  "), Err(EmbeddingError::EmptyQuery));
}

#[test]
fn test_deterministic_backend_consistent() {
    let backend = DeterministicBackend::new();
    let doc = "same text".to_string();
    let emb1 = backend.embed_documents(&vec![doc.clone()]).unwrap()[0].clone();
    let emb2 = backend.embed_documents(&vec![doc]).unwrap()[0].clone();
    assert_eq!(
        emb1, emb2,
        "deterministic backend not producing same embedding"
    );
}

#[test]
fn test_model_metadata() {
    let embedder = Embedder::<Arc<[f32]>>::new().unwrap();
    let meta = embedder.model_metadata();
    // The offline backend advertises its own identity, not a real model's.
    assert_eq!(meta.model_id, "deterministic-hash");
    assert_eq!(meta.dimensions, 384);
    assert!(meta.normalized);
}

#[test]
fn test_embedder_embed_documents() {
    let embedder = Embedder::<Arc<[f32]>>::new().unwrap();
    let docs = vec!["hello".to_string(), "world".to_string()];
    let embeddings = DeterministicBackend::new().embed_documents(&docs).unwrap();
    assert_eq!(embeddings.len(), 2);
    assert_eq!(embeddings[0].len(), 384);
    let shapes = embeddings
        .iter()
        .map(|pairs| VectorShape {
            width: pairs.len(),
            finite: true,
        })
        .collect();
    assert_eq!(embedder.embed_documents(&docs, Ok(shapes)), Ok(()));
    assert_eq!(
        embedder.embed_documents(&vec![" ".to_string()], Ok(Vec::new())),
        Err(EmbeddingError::EmptyDocument)
    );
    assert_eq!(
        embedder.embed_documents(
            &docs,
            Ok(vec![VectorShape {
                width: 3,
                finite: true
            }])
        ),
        Err(EmbeddingError::DimensionMismatch {
            expected: 384,
            actual: 3
        })
    );
    assert_eq!(
        embedder.embed_documents(&docs, Err(EmbeddingError::WorkerSaturated)),
        Err(EmbeddingError::WorkerSaturated)
    );
}

#[test]
fn test_embedder_cache_hit() {
    let mut embedder = Embedder::<Arc<[f32]>>::new().unwrap();
    embedder.clear_cache();

    let query = "what is rust?";
    let emb1 = embed_query_cached(&mut embedder, query).unwrap();
    let stats1 = embedder.cache_stats();
    assert_eq!(stats1.entries, 1);
    assert_eq!(stats1.hits, 0);

    let emb2 = embed_query_cached(&mut embedder, query).unwrap();
    let stats2 = embedder.cache_stats();
    assert_eq!(stats2.entries, 1);
    assert_eq!(stats2.hits, 1);
    assert_eq!(emb1, emb2);
}

#[test]
fn test_embedder_cache_eviction_by_count() {
    let mut embedder = embedder(QueryCache::new(3, usize::MAX));
    let queries = vec!["query1", "query2", "query3", "query4"];
    for q in &queries {
        embed_query_cached(&mut embedder, q).unwrap();
    }

    let stats = embedder.cache_stats();
    assert_eq!(stats.entries, 3, "cache should have evicted old entry");
    assert_eq!(stats.evictions, 1);
}

#[test]
fn test_embedder_cache_eviction_by_bytes() {
    let mut embedder = embedder(QueryCache::new(usize::MAX, 2000));
    embed_query_cached(&mut embedder, "query1").unwrap();
    embed_query_cached(&mut embedder, "query2").unwrap();

    let stats = embedder.cache_stats();
    assert!(stats.evictions > 0, "cache should have evicted");
    assert_eq!(stats.bytes, 384 * 4);
}

#[test]
fn test_cache_hit_does_not_reallocate_embedding() {
    let mut embedder = embedder(QueryCache::new(100, usize::MAX));
    let query = "test query for arc sharing";
    let emb1 = embed_query_cached(&mut embedder, query).unwrap();
    let emb2 = embed_query_cached(&mut embedder, query).unwrap();

    assert!(Arc::ptr_eq(&emb1, &emb2));
    assert_eq!(embedder.cache.hits, 1);
}

#[test]
fn test_cache_lru_eviction_respects_recency() {
    let mut embedder = embedder(QueryCache::new(2, usize::MAX));
    embed_query_cached(&mut embedder, "query1").unwrap();
    embed_query_cached(&mut embedder, "query2").unwrap();
    let stats = embedder.cache_stats();
    assert_eq!(stats.entries, 2);
    assert_eq!(stats.evictions, 0);

    // Access q1 again, making it recently used
    embed_query_cached(&mut embedder, "query1").unwrap();

    // Insert q3: should evict q2 (least recently used), not q1
    embed_query_cached(&mut embedder, "query3").unwrap();
    let stats = embedder.cache_stats();
    assert_eq!(stats.entries, 2, "should have evicted exactly one entry");
    assert_eq!(stats.evictions, 1, "should have evicted q2");

    // Verify q1 is still cached
    let hits_before = embedder.cache_stats().hits;
    embed_query_cached(&mut embedder, "query1").unwrap();
    assert_eq!(
        embedder.cache_stats().hits,
        hits_before + 1,
        "q1 should still be in cache"
    );

    // Verify q2 was evicted
    embed_query_cached(&mut embedder, "query2").unwrap();
    // One more eviction to make room for q2
    assert!(
        embedder.cache_stats().evictions >= 2,
        "q2 should have been evicted earlier"
    );
}

#[test]
fn failed_inference_is_reported_and_nothing_is_kept() {
    let mut embedder = Embedder::<Arc<[f32]>>::new().unwrap();
    let fail = |embedder: &mut Embedder<Arc<[f32]>>, failure: InferenceFailure| {
        embedder.finish_query("k".to_string(), Err(failure))
    };
    assert_eq!(
        fail(&mut embedder, InferenceFailure::Cancelled),
        Err(EmbeddingError::Cancelled)
    );
    assert_eq!(
        fail(&mut embedder, InferenceFailure::Panicked),
        Err(EmbeddingError::WorkerPanic)
    );
    assert_eq!(
        fail(
            &mut embedder,
            InferenceFailure::Backend(EmbeddingError::WorkerSaturated)
        ),
        Err(EmbeddingError::WorkerSaturated)
    );
    let vector: Arc<[f32]> = vec![1.0f32; 384].into();
    let shape = VectorShape {
        width: 384,
        finite: false,
    };
    assert_eq!(
        embedder.finish_query("k".to_string(), Ok((vector, shape))),
        Err(EmbeddingError::NonFiniteValue)
    );
    assert_eq!(embedder.cache_stats().entries, 0);
}

#[test]
fn a_new_revision_does_not_find_old_vectors() {
    let mut embedder = Embedder::<Arc<[f32]>>::new().unwrap();
    embed_query_cached(&mut embedder, " spaced query ").unwrap();
    assert!(matches!(
        embedder.embed_query_cached("spaced query"),
        Ok(QueryStep::Cached(_))
    ));
    embedder.metadata.model_revision = "deterministic-v2".to_string();
    match embedder.embed_query_cached("spaced query") {
        Ok(QueryStep::Infer { key, query }) => {
            assert!(key.starts_with("deterministic-v2:"));
            assert_eq!(query, "spaced query");
        }
        _ => panic!("the vector belongs to another revision"),
    }
}

fn external(dimensions: usize) -> ExternalBackend {
    let config = EmbeddingConfig {
        dimensions: Some(dimensions),
        ..EmbeddingConfig::default()
    };
    ExternalBackend::from_config_with_key(&config, "k".to_string()).unwrap()
}

fn answer(bits: u32) -> EndpointAnswer {
    EndpointAnswer::Entries(Some(vec![ResponseEntry {
        index: None,
        vector: ResponseVector::Numbers {
            width: 1,
            normalized: Some(vec![bits]),
        },
    }]))
}

#[test]
fn a_request_is_concluded_from_what_came_of_it() {
    let backend = external(1);
    assert_eq!(backend.request(1, answer(5)), Ok(vec![vec![5]]));
    assert_eq!(backend.embed_query("q", answer(5)), Ok(vec![5]));
    assert_eq!(
        backend.embed_documents(&vec!["d".to_string()], answer(5)),
        Ok(vec![vec![5]])
    );
    assert_eq!(
        backend.embed_query(" ", answer(5)),
        Err(EmbeddingError::EmptyQuery)
    );
    assert_eq!(
        backend.embed_documents(&vec![" ".to_string()], answer(5)),
        Err(EmbeddingError::EmptyDocument)
    );
    assert_eq!(
        backend.request(0, EndpointAnswer::Failed("never sent".to_string())),
        Ok(Vec::new())
    );
    assert_eq!(
        backend.request(1, EndpointAnswer::Status("503 Service Unavailable".to_string())),
        Err(EmbeddingError::RequestFailed(
            "embeddings endpoint returned HTTP 503 Service Unavailable".to_string()
        ))
    );
    assert_eq!(
        backend.request(
            1,
            EndpointAnswer::Failed("error for https://h/?key=s now".to_string())
        ),
        Err(EmbeddingError::RequestFailed("error for <url> now".to_string()))
    );
    assert_eq!(
        backend.request(1, EndpointAnswer::Unreadable("bad http://x".to_string())),
        Err(EmbeddingError::RequestFailed("bad <url>".to_string()))
    );
    assert_eq!(
        backend.request(1, EndpointAnswer::Entries(None)),
        Err(EmbeddingError::RequestFailed(
            "response has no `data` array".to_string()
        ))
    );
}

#[test]
fn answers_are_read_from_their_document() {
    let payload = parse_json(
        "{\"data\":[{\"index\":1,\"embedding\":[0.5,2]},{\"embedding\":\"none\"},{\"index\":-1}]}",
    )
    .unwrap();
    let entries = read_entries(&payload).unwrap();
    assert_eq!(entries.len(), 3);
    assert_eq!(entries[0].index, Some(1));
    assert_eq!(entries[0].values.map(|values| values.len()), Some(2));
    assert_eq!(entries[1].index, None);
    assert!(entries[1].values.is_none());
    assert_eq!(entries[2].index, None);
    assert!(read_entries(&parse_json("{\"data\":{}}").unwrap()).is_none());
    assert!(read_entries(&parse_json("[]").unwrap()).is_none());
}
