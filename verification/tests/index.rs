use skills::artifact::{CapabilityManifest, SkillArtifact, SkillExport};
use skills::embed::ModelMetadata;
use skills::index::{
    fts_query, is_stop_word, lexical_query_terms, lexical_row, lexical_tokens, manifest_size,
    rank_best, semantic_key, validate_query, ImmutableSkillIndex, IndexRow, LexicalHit, Neighbour,
    QueryShape, RetrievalPolicy, SearchStageDurations, SkillIndexError, SkillRecordMetadata,
    StoredEmbedding,
};
use std::time::Duration;

fn model() -> ModelMetadata {
    ModelMetadata {
        model_id: "m".to_string(),
        model_revision: "r".to_string(),
        dimensions: 2,
        normalized: true,
    }
}

fn artifact(name: &str) -> SkillArtifact {
    SkillArtifact::new(
        format!("function {name}() {{}}"),
        format!("Do {name}."),
        vec!["t".to_string()],
        vec![SkillExport {
            name: name.to_string(),
            signature: "()".to_string(),
        }],
        vec!["true".to_string()],
        CapabilityManifest::pure(),
    )
    .unwrap()
}

fn row(name: &str, supersedes: Option<&str>) -> IndexRow {
    let artifact = artifact(name);
    IndexRow {
        embedding: StoredEmbedding {
            skill_id: artifact.id.clone(),
            model_id: "m".to_string(),
            model_revision: "r".to_string(),
            dimensions: 2,
            normalized: true,
            values: vec![1, 2],
            unit: true,
        },
        metadata: SkillRecordMetadata {
            status: "active".to_string(),
            supersedes_id: supersedes.map(|s| s.to_string()),
        },
        serialized_grants: Vec::new(),
        artifact,
    }
}

fn index(names: &[&str]) -> ImmutableSkillIndex {
    ImmutableSkillIndex::build(
        7,
        model(),
        names.iter().map(|name| row(name, None)).collect(),
    )
    .unwrap()
}

#[test]
fn a_snapshot_holds_its_rows_in_the_order_of_their_ids() {
    let built = index(&["a", "b", "c"]);
    assert_eq!(built.generation, 7);
    assert_eq!(built.len(), 3);
    assert!(!built.is_empty());
    assert!(!built.ann_recommended());
    for pair in built.entries.windows(2) {
        assert!(pair[0].artifact.id < pair[1].artifact.id);
    }
    assert!(ImmutableSkillIndex::empty(1, model()).is_empty());
}

#[test]
fn a_snapshot_refuses_rows_that_do_not_belong() {
    let refuse = |change: fn(&mut IndexRow)| {
        let mut bad = row("a", None);
        change(&mut bad);
        ImmutableSkillIndex::build(1, model(), vec![bad])
            .err()
            .expect("the row should be refused")
    };
    assert!(matches!(
        refuse(|r| r.metadata.status = "canary".to_string()),
        SkillIndexError::IneligibleArtifact { .. }
    ));
    assert!(matches!(
        refuse(|r| r.artifact.source.push(' ')),
        SkillIndexError::IneligibleArtifact { .. }
    ));
    assert!(matches!(
        refuse(|r| r.embedding.model_revision = "r2".to_string()),
        SkillIndexError::IncompatibleEmbedding { .. }
    ));
    assert!(matches!(
        refuse(|r| r.embedding.unit = false),
        SkillIndexError::IncompatibleEmbedding { .. }
    ));
    let id = artifact("a").id;
    assert_eq!(
        refuse(|r| r.embedding.values.push(3)).message(),
        format!("snapshot row {id} has incompatible embedding metadata")
    );
}

#[test]
fn hidden_skills_are_no_longer_offered() {
    let id_a = artifact("a").id;
    let id_b = artifact("b").id;
    let built = index(&["a", "b"]);
    assert!(built.contains_id(&id_a));
    let narrowed = built.without_ids(8, &vec![id_a.clone(), "absent".to_string()]);
    assert_eq!(narrowed.generation, 8);
    assert!(!narrowed.contains_id(&id_a));
    assert!(narrowed.contains_id(&id_b));
    assert_eq!(narrowed.len(), 1);
    let emptied = narrowed.without_ids(9, &vec![id_b]);
    assert!(emptied.is_empty());
    assert!(!emptied.contains_id(&id_a));
}

#[test]
fn candidates_are_ranked_by_score_and_then_by_position() {
    assert_eq!(
        rank_best(&vec![0, 1, 2, 3], &vec![5, 9, 9, -1], 3),
        vec![1, 2, 0]
    );
    assert_eq!(rank_best(&vec![3, 2, 1, 0], &vec![1, 1, 1, 1], 4), vec![0, 1, 2, 3]);
    assert!(rank_best(&vec![0], &vec![1], 0).is_empty());
    let built = index(&["a", "b", "c"]);
    // Fewer than asked for stay in their order.
    assert_eq!(
        built.exact_dense_candidates(&vec![1, 2, 3], &vec![true, true, false], 5),
        vec![0, 1]
    );
    assert_eq!(
        built.exact_dense_candidates(&vec![1, 2, 3], &vec![true, true, true], 2),
        vec![2, 1]
    );
    let hidden_id = built.entries[2].artifact.id.clone();
    let narrowed = built.without_ids(8, &vec![hidden_id.clone()]);
    assert_eq!(
        narrowed.exact_dense_candidates(&vec![1, 2, 3], &vec![true, true, true], 2),
        vec![1, 0]
    );
    let found = vec![
        Neighbour {
            index: 2,
            reaches: true,
        },
        Neighbour {
            index: 0,
            reaches: true,
        },
        Neighbour {
            index: 1,
            reaches: false,
        },
        Neighbour {
            index: 99,
            reaches: true,
        },
    ];
    assert_eq!(narrowed.dense_candidates(&found, &vec![1, 2, 3], 5), vec![0]);
    let kept_id = narrowed.entries[0].artifact.id.clone();
    let hits = vec![
        LexicalHit {
            id: hidden_id,
            reaches: true,
        },
        LexicalHit {
            id: kept_id.clone(),
            reaches: true,
        },
        LexicalHit {
            id: "absent".to_string(),
            reaches: true,
        },
    ];
    assert_eq!(narrowed.lexical_candidates(&hits), vec![0]);
    assert_eq!(narrowed.ann_candidate_count(5), 3);
}

#[test]
fn both_searches_are_brought_together() {
    let built = index(&["a", "b", "c"]);
    let fused = built.fuse(&vec![2, 0], &vec![0]);
    assert_eq!(fused.len(), 2);
    assert_eq!(fused[0].index, 0);
    assert_eq!(fused[0].dense, Some(1));
    assert_eq!(fused[0].lexical, Some(0));
    assert_eq!(fused[1].index, 2);
    assert_eq!(fused[1].dense, Some(0));
    assert_eq!(fused[1].lexical, None);
}

#[test]
fn a_choice_stays_within_its_budgets() {
    let built = index(&["a", "b", "c"]);
    let policy = RetrievalPolicy::default();
    assert_eq!(policy.max_skills, 3);
    let scores = vec![10, 30, 20];
    assert_eq!(
        built.fuse_and_budget(&vec![0, 1, 2], &scores, &policy),
        vec![1, 2, 0]
    );
    let two = RetrievalPolicy {
        max_skills: 2,
        ..policy.clone()
    };
    assert_eq!(
        built.fuse_and_budget(&vec![0, 1, 2], &scores, &two),
        vec![1, 2]
    );
    let cost = built.entries[0].manifest_bytes;
    let tight = RetrievalPolicy {
        manifest_byte_budget: cost,
        ..policy.clone()
    };
    assert_eq!(
        built.fuse_and_budget(&vec![0, 1, 2], &scores, &tight),
        vec![1]
    );
    // Of one lineage only the best is looked at.
    let lineage = ImmutableSkillIndex::build(
        1,
        model(),
        vec![row("a", Some("root")), row("b", Some("root"))],
    )
    .unwrap();
    assert_eq!(
        lineage.fuse_and_budget(&vec![0, 1], &vec![1, 2], &policy),
        vec![1]
    );
}

#[test]
fn costs_and_keys_follow_the_texts() {
    let skill = artifact("a");
    assert_eq!(
        manifest_size(&skill, &vec!["\"x\"".to_string()]),
        64 + "Do a.".len() + 1 + 2 + 3 + 128
    );
    assert_eq!(semantic_key(&skill), "do a.\0a\0()");
    let lexical = lexical_row(&skill);
    assert_eq!(lexical.identifiers, "a");
    assert_eq!(lexical.exports, "a ()");
    assert_eq!(lexical.tags, "t");
}

#[test]
fn queries_are_bounded_and_fit_the_model() {
    let good = QueryShape {
        width: 2,
        finite: true,
        unit: true,
    };
    assert!(validate_query("q", good, &model()).is_ok());
    assert_eq!(
        validate_query(&"q".repeat(8193), good, &model())
            .unwrap_err()
            .message(),
        "query exceeds the 8192-byte retrieval limit"
    );
    assert_eq!(
        validate_query("q", QueryShape { width: 3, ..good }, &model())
            .unwrap_err()
            .message(),
        "query embedding dimensions mismatch: expected 2, got 3"
    );
    assert_eq!(
        validate_query(
            "q",
            QueryShape {
                finite: false,
                ..good
            },
            &model()
        ),
        Err(SkillIndexError::NonFiniteQuery)
    );
    assert_eq!(
        validate_query("q", QueryShape { unit: false, ..good }, &model()),
        Err(SkillIndexError::UnnormalizedQuery)
    );
}

#[test]
fn terms_are_folded_without_stop_words() {
    assert_eq!(
        lexical_tokens("How do I parse the JSON, parse_it?"),
        vec!["parse", "json", "parse_it"]
    );
    assert_eq!(
        lexical_query_terms("Zeta alpha ZETA beta the"),
        vec!["alpha", "beta", "zeta"]
    );
    assert_eq!(lexical_tokens("Ünïcode-Größe"), vec!["ünïcode", "größe"]);
    assert!(is_stop_word("please"));
    assert!(!is_stop_word("parse"));
    let many: Vec<String> = (0..100).map(|i| format!("w{i}")).collect();
    assert_eq!(lexical_tokens(&many.join(" ")).len(), 64);
    assert_eq!(lexical_query_terms(&many.join(" ")).len(), 64);
}

#[test]
fn the_weightiest_terms_are_searched_for() {
    let terms = vec!["a".to_string(), "b\"c".to_string(), "d".to_string()];
    assert_eq!(
        fts_query(&terms, &vec![Some(1), Some(2), None]),
        Some("\"a\" OR \"b\"\"c\"".to_string())
    );
    assert_eq!(fts_query(&terms, &vec![None, None, None]), None);
    let many: Vec<String> = (0..20).map(|i| format!("w{i:02}")).collect();
    let weights: Vec<Option<i64>> = (0..20).map(Some).collect();
    let query = fts_query(&many, &weights).unwrap();
    assert_eq!(query.split(" OR ").count(), 16);
    assert!(query.starts_with("\"w04\""), "{query}");
    let stages = SearchStageDurations {
        dense: Duration::ZERO,
        lexical: Duration::ZERO,
        fusion_and_budgets: Duration::ZERO,
    };
    assert_eq!(stages.dense, Duration::ZERO);
}
