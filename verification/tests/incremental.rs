use paideia_as_elaborator::incremental::{
    DefinitionKey, DefinitionKeySet, ElaboratedSnapshot, QueryEngine,
};

#[test]
fn memoise_hit_miss() {
    let mut engine = QueryEngine::new();

    // First set: should be a miss
    engine.set_document("file:///test.pdx", "x = 0");
    let parsed1 = engine.query_parse("file:///test.pdx");
    assert!(parsed1.is_some());
    assert_eq!(engine.stats.misses, 1);
    assert_eq!(engine.stats.hits, 0);

    // Second set with same text: should be no-op
    engine.set_document("file:///test.pdx", "x = 0");
    let parsed2 = engine.query_parse("file:///test.pdx");
    assert!(parsed2.is_some());
    assert_eq!(engine.stats.parse_calls, 2);
    assert_eq!(engine.stats.hits, 1);
}

#[test]
fn revision_monotonic_on_insert() {
    let mut engine = QueryEngine::new();

    assert_eq!(engine.revision, 0);

    for i in 1..=5 {
        engine.set_document("file:///test.pdx", &format!("revision {}", i));
        assert_eq!(engine.revision, i as u64);
    }
}

#[test]
fn cascade_invalidate_same_file() {
    let mut engine = QueryEngine::new();

    engine.set_document("file:///a.pdx", "module A");
    let key = DefinitionKey {
        uri: "file:///a.pdx".to_string(),
        name: "main".to_string(),
    };

    let mut elab = ElaboratedSnapshot {
        rev: engine.revision,
        deps_from: DefinitionKeySet::new(),
        diagnostics_count: 0,
    };
    let file_key = DefinitionKey {
        uri: "file:///a.pdx".to_string(),
        name: "<module>".to_string(),
    };
    elab.deps_from.insert(file_key);
    engine.elaborated_definitions.insert(key.clone(), elab);

    assert_eq!(engine.elaborated_definitions.len(), 1);

    // Mutate document: should cascade-invalidate
    engine.set_document("file:///a.pdx", "module A modified");
    assert_eq!(engine.elaborated_definitions.len(), 0);
}

#[test]
fn cross_file_invalidate() {
    let mut engine = QueryEngine::new();

    engine.set_document("file:///a.pdx", "import B");
    engine.set_document("file:///b.pdx", "module B");

    let key_a = DefinitionKey {
        uri: "file:///a.pdx".to_string(),
        name: "main".to_string(),
    };

    let key_b = DefinitionKey {
        uri: "file:///b.pdx".to_string(),
        name: "<module>".to_string(),
    };

    let mut elab_a = ElaboratedSnapshot {
        rev: engine.revision,
        deps_from: DefinitionKeySet::new(),
        diagnostics_count: 0,
    };
    elab_a.deps_from.insert(key_b);
    engine.elaborated_definitions.insert(key_a.clone(), elab_a);

    assert_eq!(engine.elaborated_definitions.len(), 1);

    // Mutate B: should invalidate A
    engine.set_document("file:///b.pdx", "module B modified");
    assert_eq!(engine.elaborated_definitions.len(), 0);
}

#[test]
fn stats_counters_track_calls() {
    let mut engine = QueryEngine::new();

    engine.set_document("file:///test.pdx", "x = 0");
    assert_eq!(engine.stats.parse_calls, 0);
    assert_eq!(engine.stats.elab_calls, 0);

    let _ = engine.query_parse("file:///test.pdx");
    assert_eq!(engine.stats.parse_calls, 1);

    let key = DefinitionKey {
        uri: "file:///test.pdx".to_string(),
        name: "main".to_string(),
    };
    let _ = engine.query_elab(&key);
    assert_eq!(engine.stats.elab_calls, 1);

    // Second parse query should hit
    let _ = engine.query_parse("file:///test.pdx");
    assert_eq!(engine.stats.parse_calls, 2);
    assert_eq!(engine.stats.hits, 1);
}

#[test]
fn hundred_sequential_edits_bounded() {
    let mut engine = QueryEngine::new();

    for i in 0..100 {
        engine.set_document("file:///test.pdx", &format!("rev {}", i));
    }

    assert_eq!(engine.documents.len(), 1);
    assert!(engine.elaborated_definitions.len() <= engine.documents.len());
}

#[test]
fn set_document_twice_with_same_text_keeps_revision() {
    let mut engine = QueryEngine::new();
    engine.set_document("file:///x.pdx", "let a = 1");
    engine.set_document("file:///x.pdx", "let a = 1");
    assert_eq!(engine.revision, 1);
    engine.set_document("file:///y.pdx", "let a = 1");
    assert_eq!(engine.revision, 2);
    assert_eq!(engine.documents.len(), 2);
}

#[test]
fn content_hash_is_blake3_of_text() {
    let mut engine = QueryEngine::new();
    engine.set_document("file:///h.pdx", "abc");
    let doc = engine.documents.get("file:///h.pdx").unwrap();
    assert_eq!(doc.content_hash, *blake3::hash(b"abc").as_bytes());
    assert_eq!(doc.text, "abc");
    assert_eq!(doc.rev, 1);
}

#[test]
fn query_parse_unknown_uri_is_a_miss_returning_none() {
    let mut engine = QueryEngine::new();
    assert!(engine.query_parse("file:///missing.pdx").is_none());
    assert_eq!(engine.stats.parse_calls, 1);
    assert_eq!(engine.stats.misses, 1);
    assert_eq!(engine.stats.hits, 0);
}

#[test]
fn query_parse_records_byte_length_and_revision() {
    let mut engine = QueryEngine::new();
    engine.set_document("file:///u.pdx", "é = 1");
    let parsed = engine.query_parse("file:///u.pdx").unwrap();
    assert_eq!(parsed.source_len, 6);
    assert_eq!(parsed.rev, 1);
    assert!(parsed.deps_from.is_empty());
    // Changing the text drops the parse; the next query recomputes it.
    engine.set_document("file:///u.pdx", "é = 22");
    assert!(engine.parsed.get("file:///u.pdx").is_none());
    let parsed = engine.query_parse("file:///u.pdx").unwrap();
    assert_eq!(parsed.rev, 2);
    assert_eq!(parsed.source_len, 7);
    assert_eq!(engine.stats.misses, 2);
}

#[test]
fn query_elab_second_call_hits() {
    let mut engine = QueryEngine::new();
    engine.set_document("file:///m.pdx", "module M");
    let key = DefinitionKey {
        uri: "file:///m.pdx".to_string(),
        name: "f".to_string(),
    };
    let first = engine.query_elab(&key).unwrap();
    assert_eq!(first.rev, 1);
    assert_eq!(first.diagnostics_count, 0);
    assert_eq!(engine.stats.misses, 1);
    let second = engine.query_elab(&key).unwrap();
    assert_eq!(second.rev, 1);
    assert_eq!(engine.stats.hits, 1);
    assert_eq!(engine.stats().elab_calls, 2);
}

#[test]
fn query_elab_recomputes_when_dependency_is_newer() {
    let mut engine = QueryEngine::new();
    let dep = DefinitionKey {
        uri: "file:///d.pdx".to_string(),
        name: "g".to_string(),
    };
    let key = DefinitionKey {
        uri: "file:///k.pdx".to_string(),
        name: "f".to_string(),
    };
    let mut deps = DefinitionKeySet::new();
    assert!(deps.insert(dep.clone()));
    assert!(!deps.insert(dep.clone()));
    assert_eq!(deps.len(), 1);
    engine.elaborated_definitions.insert(
        key.clone(),
        ElaboratedSnapshot { rev: 3, deps_from: deps, diagnostics_count: 7 },
    );
    engine.elaborated_definitions.insert(
        dep.clone(),
        ElaboratedSnapshot { rev: 5, deps_from: DefinitionKeySet::new(), diagnostics_count: 0 },
    );
    let r = engine.query_elab(&key).unwrap();
    // Stale: recomputed at the engine revision with no dependencies.
    assert_eq!(r.rev, 0);
    assert_eq!(r.diagnostics_count, 0);
    assert_eq!(r.deps_from.len(), 0);
    assert_eq!(engine.stats.misses, 1);
    assert_eq!(engine.elaborated_definitions.len(), 2);
}

#[test]
fn unchanged_document_accepted_at_revision_limit() {
    let mut engine = QueryEngine::new();
    engine.set_document("file:///a.pdx", "x = 1");
    engine.revision = u64::MAX;
    // The same text changes nothing, even at the largest revision.
    engine.set_document("file:///a.pdx", "x = 1");
    assert_eq!(engine.revision, u64::MAX);
    assert!(engine.set_document_checked("file:///a.pdx", "x = 1"));
    // A changed text cannot get a new revision.
    assert!(!engine.set_document_checked("file:///a.pdx", "x = 2"));
    assert_eq!(engine.revision, u64::MAX);
}

#[test]
fn checked_ingest_twice_same_as_once() {
    let mut engine = QueryEngine::new();
    assert!(engine.set_document_checked("file:///a.pdx", "x = 1"));
    let rev = engine.revision;
    assert!(engine.set_document_checked("file:///a.pdx", "x = 1"));
    assert_eq!(engine.revision, rev);
    engine.revision = u64::MAX;
    assert!(!engine.set_document_checked("file:///a.pdx", "x = 3"));
    assert!(!engine.set_document_checked("file:///a.pdx", "x = 3"));
    assert_eq!(engine.revision, u64::MAX);
    assert_eq!(engine.documents.len(), 1);
}
