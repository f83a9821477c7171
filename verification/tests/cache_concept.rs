use file_scanner::cache::{
    CachedFileEmbeddings, map_find, map_put, new_cache_entry, reconcile_file, sha256_hex,
    store_get, store_put, store_flush,
};
use file_scanner::codec::{encode_entry, decode_entry};
use file_scanner::concept::{
    new_concept_batch, add_file, pending_texts, apply_embeddings, entry_value_for_slot,
    embedded_docs, ranked_results, embedding_text, validate_concept_request, ConceptRequestError,
};
use file_scanner::structs::FunctionInfo;

fn f(name: &str, body: Option<&str>) -> FunctionInfo {
    FunctionInfo {
        name: name.to_string(),
        body: body.map(|b| b.to_string()),
        comment: None,
    }
}

#[test]
fn sha256_digest_of_known_text() {
    assert_eq!(
        sha256_hex("abc"),
        "ba7816bf8f01cfea414140de5dae2223b00361a396177a9cb410ff61f20015ad"
    );
    assert_ne!(sha256_hex("abc"), sha256_hex("abd"));
    assert_eq!(sha256_hex(""), "e3b0c44298fc1c149afbf4c8996fb92427ae41e4649b934ca495991b7852b855");
}

#[test]
fn entry_map_lookup_and_overwrite() {
    let mut entry = new_cache_entry("h".to_string());
    assert!(map_find(&entry.function_embeddings, "a").is_none());
    map_put(&mut entry.function_embeddings, "a".to_string(), vec![1u32, 2]);
    map_put(&mut entry.function_embeddings, "b".to_string(), vec![3u32]);
    assert_eq!(map_find(&entry.function_embeddings, "a"), Some(vec![1u32, 2]));
    assert_eq!(map_find(&entry.function_embeddings, "b"), Some(vec![3u32]));
    map_put(&mut entry.function_embeddings, "a".to_string(), vec![9u32]);
    assert_eq!(map_find(&entry.function_embeddings, "a"), Some(vec![9u32]));
}

#[test]
fn codec_round_trip() {
    let entry = CachedFileEmbeddings {
        file_content_hash: "deadbeef".to_string(),
        function_embeddings: vec![
            ("alpha".to_string(), vec![1u32, 2, 3]),
            ("beta".to_string(), Vec::new()),
            ("".to_string(), vec![u32::MAX]),
        ],
    };
    let bytes = encode_entry(&entry).expect("encodable");
    let back = decode_entry(&bytes).expect("decodable");
    assert_eq!(back.file_content_hash, "deadbeef");
    assert_eq!(back.function_embeddings.len(), 3);
    assert_eq!(back.function_embeddings[0], ("alpha".to_string(), vec![1u32, 2, 3]));
    assert_eq!(back.function_embeddings[1], ("beta".to_string(), Vec::new()));
    assert_eq!(back.function_embeddings[2], ("".to_string(), vec![u32::MAX]));
}

#[test]
fn codec_rejects_foreign_bytes() {
    assert!(decode_entry(&Vec::new()).is_none());
    assert!(decode_entry(&vec![1u8, 2, 3]).is_none());
    // a valid encoding with a trailing byte is not an encoding
    let entry = CachedFileEmbeddings {
        file_content_hash: "h".to_string(),
        function_embeddings: vec![("n".to_string(), vec![7u32])],
    };
    let mut bytes = encode_entry(&entry).unwrap();
    bytes.push(0u8);
    assert!(decode_entry(&bytes).is_none());
}

#[test]
fn reconciliation_reuses_a_warm_cache() {
    let fns = vec![f("a", None), f("b", None)];
    let mut entry = new_cache_entry("hash1".to_string());
    map_put(&mut entry.function_embeddings, "a".to_string(), vec![1u32]);
    map_put(&mut entry.function_embeddings, "b".to_string(), vec![2u32]);
    let r = reconcile_file(&fns, Some(&entry), "hash1");
    assert_eq!(r.to_embed.len(), 0);
    assert_eq!(r.reused.len(), 2);
    assert_eq!(r.reused[0], (0usize, vec![1u32]));
    assert_eq!(r.reused[1], (1usize, vec![2u32]));
}

#[test]
fn reconciliation_reembeds_everything_on_hash_mismatch() {
    let fns = vec![f("a", None), f("b", None)];
    let mut entry = new_cache_entry("hash1".to_string());
    map_put(&mut entry.function_embeddings, "a".to_string(), vec![1u32]);
    map_put(&mut entry.function_embeddings, "b".to_string(), vec![2u32]);
    let r = reconcile_file(&fns, Some(&entry), "hash2");
    assert_eq!(r.reused.len(), 0);
    assert_eq!(r.to_embed, vec![0usize, 1]);
    let r2 = reconcile_file(&fns, None, "hash1");
    assert_eq!(r2.reused.len(), 0);
    assert_eq!(r2.to_embed, vec![0usize, 1]);
}

#[test]
fn reconciliation_queues_only_new_functions() {
    let fns = vec![f("a", None), f("new_one", None)];
    let mut entry = new_cache_entry("hash1".to_string());
    map_put(&mut entry.function_embeddings, "a".to_string(), vec![1u32]);
    let r = reconcile_file(&fns, Some(&entry), "hash1");
    assert_eq!(r.reused, vec![(0usize, vec![1u32])]);
    assert_eq!(r.to_embed, vec![1usize]);
}

#[test]
fn embedding_template_text() {
    let body = Some("fn x() {}".to_string());
    assert_eq!(
        embedding_text("x", "/p/a.rs", &body),
        "Function: x\nFile: /p/a.rs\nBody:\nfn x() {}"
    );
    assert_eq!(
        embedding_text("y", "/p/b.rs", &None),
        "Function: y\nFile: /p/b.rs\nBody:\n"
    );
}

#[test]
fn concept_request_validation() {
    let exts = vec!["rs".to_string()];
    let none: Vec<String> = Vec::new();
    assert!(matches!(
        validate_concept_request("r", "q", &exts, 0),
        Some(ConceptRequestError::ZeroTimeout)
    ));
    assert!(matches!(
        validate_concept_request("", "q", &exts, 1),
        Some(ConceptRequestError::EmptyRoot)
    ));
    assert!(matches!(
        validate_concept_request("r", "", &exts, 1),
        Some(ConceptRequestError::EmptyQuery)
    ));
    assert!(matches!(
        validate_concept_request("r", "q", &none, 1),
        Some(ConceptRequestError::NoExtensions)
    ));
    assert!(validate_concept_request("r", "q", &exts, 1).is_none());
}

#[test]
fn cold_batch_queues_everything_and_second_run_reuses_everything() {
    let fns = vec![f("a", Some("fn a() {}")), f("b", None)];
    let content = "fn a() {}\nfn b() {}\n";

    // first run: nothing stored, both functions need embedding
    let mut batch = new_concept_batch();
    add_file(&mut batch, "src/x.rs", "/r/src/x.rs", content, &fns, None);
    let texts = pending_texts(&batch);
    assert_eq!(
        texts,
        vec![
            "Function: a\nFile: /r/src/x.rs\nBody:\nfn a() {}".to_string(),
            "Function: b\nFile: /r/src/x.rs\nBody:\n".to_string(),
        ]
    );
    apply_embeddings(&mut batch, &vec![vec![1u32, 2], vec![3u32, 4]]);
    assert!(pending_texts(&batch).is_empty());
    let value = entry_value_for_slot(&batch, 0).expect("encodable slot");
    assert!(entry_value_for_slot(&batch, 1).is_none());

    // second run over the unchanged file: every vector comes from the store,
    // nothing is queued for the embedding model
    let mut batch2 = new_concept_batch();
    add_file(&mut batch2, "src/x.rs", "/r/src/x.rs", content, &fns, Some(&value));
    assert!(pending_texts(&batch2).is_empty());
    let docs = embedded_docs(&batch2);
    assert_eq!(docs.len(), 2);
    assert_eq!(docs[0].vector, Some(vec![1u32, 2]));
    assert_eq!(docs[1].vector, Some(vec![3u32, 4]));

    // a content change invalidates the whole file
    let mut batch3 = new_concept_batch();
    add_file(&mut batch3, "src/x.rs", "/r/src/x.rs", "fn a() {}\nfn b() { 1 }\n", &fns, Some(&value));
    assert_eq!(pending_texts(&batch3).len(), 2);
}

#[test]
fn sibling_files_keep_their_cache_when_one_changes() {
    let fns = vec![f("only", None)];
    let mut batch = new_concept_batch();
    add_file(&mut batch, "a.rs", "/r/a.rs", "content a", &fns, None);
    add_file(&mut batch, "b.rs", "/r/b.rs", "content b", &fns, None);
    apply_embeddings(&mut batch, &vec![vec![10u32], vec![20u32]]);
    let value_a = entry_value_for_slot(&batch, 0).unwrap();
    let value_b = entry_value_for_slot(&batch, 1).unwrap();

    // a.rs changes, b.rs does not: only a.rs is re-embedded
    let mut batch2 = new_concept_batch();
    add_file(&mut batch2, "a.rs", "/r/a.rs", "content a changed", &fns, Some(&value_a));
    add_file(&mut batch2, "b.rs", "/r/b.rs", "content b", &fns, Some(&value_b));
    assert_eq!(pending_texts(&batch2).len(), 1);
    assert_eq!(
        pending_texts(&batch2)[0],
        "Function: only\nFile: /r/a.rs\nBody:\n"
    );
}

#[test]
fn short_embedding_results_leave_candidates_out() {
    let fns = vec![f("a", None), f("b", None)];
    let mut batch = new_concept_batch();
    add_file(&mut batch, "x.rs", "/r/x.rs", "text", &fns, None);
    apply_embeddings(&mut batch, &vec![vec![5u32]]);
    let docs = embedded_docs(&batch);
    assert_eq!(docs.len(), 1);
    assert_eq!(docs[0].function, "a");
}

#[test]
fn no_write_back_value_without_vectors() {
    let fns = vec![f("a", None)];
    let mut batch = new_concept_batch();
    add_file(&mut batch, "x.rs", "/r/x.rs", "text", &fns, None);
    // the embedding pass produced nothing: no cache value may be framed
    assert!(entry_value_for_slot(&batch, 0).is_none());
    apply_embeddings(&mut batch, &vec![vec![8u32]]);
    assert!(entry_value_for_slot(&batch, 0).is_some());
}

#[test]
fn ranked_result_items() {
    let fns = vec![f("low", None), f("high", Some("body")), f("mid", None)];
    let mut batch = new_concept_batch();
    add_file(&mut batch, "x.rs", "/r/x.rs", "text", &fns, None);
    apply_embeddings(&mut batch, &vec![vec![1u32], vec![2u32], vec![3u32]]);
    let docs = embedded_docs(&batch);
    let scores = vec![-5i64, 100, 7];
    let items = ranked_results(&docs, &scores, 2);
    assert_eq!(items.len(), 2);
    assert_eq!(items[0].function, "high");
    assert_eq!(items[0].similarity, 100);
    assert_eq!(items[0].body.as_deref(), Some("body"));
    assert_eq!(items[1].function, "mid");
    assert_eq!(items[1].similarity, 7);
}

#[test]
fn store_round_trip_through_sled() {
    let db = sled::Config::new().temporary(true).open().expect("temp store");
    assert!(store_get(&db, "missing").is_none());
    assert!(store_put(&db, "k", vec![1u8, 2, 3]));
    assert_eq!(store_get(&db, "k"), Some(vec![1u8, 2, 3]));
    assert!(store_put(&db, "k", vec![9u8]));
    assert_eq!(store_get(&db, "k"), Some(vec![9u8]));
    assert!(store_flush(&db));
}

#[test]
fn stored_entry_survives_the_store() {
    let db = sled::Config::new().temporary(true).open().expect("temp store");
    let fns = vec![f("a", None)];
    let mut batch = new_concept_batch();
    add_file(&mut batch, "x.rs", "/r/x.rs", "text", &fns, None);
    apply_embeddings(&mut batch, &vec![vec![42u32]]);
    let value = entry_value_for_slot(&batch, 0).unwrap();
    assert!(store_put(&db, "x.rs", value));
    assert!(store_flush(&db));
    let loaded = store_get(&db, "x.rs").expect("stored value");
    let entry = decode_entry(&loaded).expect("decodable");
    assert_eq!(entry.file_content_hash, sha256_hex("text"));
    assert_eq!(map_find(&entry.function_embeddings, "a"), Some(vec![42u32]));
}
