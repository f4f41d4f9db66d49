use ygrep_core::embedding::{CacheStats, EmbeddingCache, ModelType};
use ygrep_core::error::YgrepError;
use ygrep_core::vector::{Found, StoredVector, VectorData, VectorIndex};
use ygrep_core::workspace::{
    batches, select_for_embedding, tally, use_hybrid, Batch, EmbeddingCandidate, FileOutcome,
};

fn bits(v: &[f32]) -> Vec<u32> {
    v.iter().map(|x| x.to_bits()).collect()
}

fn floats(v: &[u32]) -> Vec<f32> {
    v.iter().map(|x| f32::from_bits(*x)).collect()
}

fn cosine_distance(a: &[f32], b: &[f32]) -> f32 {
    let dot: f32 = a.iter().zip(b).map(|(x, y)| x * y).sum();
    let na: f32 = a.iter().map(|x| x * x).sum::<f32>().sqrt();
    let nb: f32 = b.iter().map(|x| x * x).sum::<f32>().sqrt();
    1.0 - dot / (na * nb)
}

/// The k nearest stored vectors, nearest first, by exhaustive comparison.
fn nearest(index: &VectorIndex, query: &[f32], k: usize) -> Vec<Found> {
    let mut all: Vec<(usize, f32)> = Vec::new();
    let mut id = 0;
    while let Some(v) = index.vector_at(id) {
        all.push((id, cosine_distance(&floats(v), query)));
        id += 1;
    }
    all.sort_by(|a, b| a.1.partial_cmp(&b.1).unwrap());
    all.truncate(k);
    all.into_iter().map(|(id, d)| Found { id, distance: d.to_bits() }).collect()
}

#[test]
fn test_model_dimensions() {
    assert_eq!(ModelType::BgeSmall.dimension(), 384);
    assert_eq!(ModelType::AllMiniLmL6.dimension(), 384);
}

#[test]
fn model_names() {
    assert_eq!(ModelType::BgeSmall.name(), "BAAI/bge-small-en-v1.5");
    assert_eq!(ModelType::AllMiniLmL6.name(), "sentence-transformers/all-MiniLM-L6-v2");
    assert_eq!(ModelType::default(), ModelType::AllMiniLmL6);
}

#[test]
fn test_cache_operations() {
    let mut cache = EmbeddingCache::new(1, 384);
    let embedding = bits(&vec![0.1f32; 384]);
    cache.insert("hello", embedding.clone());
    let retrieved = cache.get("hello");
    assert!(retrieved.is_some());
    assert_eq!(retrieved.unwrap(), embedding);
    let missed = cache.get("world");
    assert!(missed.is_none());
    let stats = cache.stats();
    assert_eq!(stats.hits, 1);
    assert_eq!(stats.misses, 1);
    assert_eq!(stats.size, 1);
    assert_eq!(stats.hit_rate, 500_000);
}

#[test]
fn test_get_or_insert() {
    let mut cache = EmbeddingCache::new(1, 384);
    let mut computed = false;
    let embedding = cache.get_or_insert("test", || {
        computed = true;
        bits(&vec![0.5f32; 384])
    });
    assert!(computed);
    assert_eq!(embedding.len(), 384);
    computed = false;
    let embedding2 = cache.get_or_insert("test", || {
        computed = true;
        bits(&vec![0.0f32; 384])
    });
    assert!(!computed);
    assert_eq!(embedding2, embedding);
}

#[test]
fn the_cache_forgets_the_entry_used_least_recently() {
    // 1 MB of two-component embeddings would be more than 100 entries; a
    // cache of zero megabytes holds the minimum of 100
    let mut cache = EmbeddingCache::new(0, 2);
    for i in 0..100 {
        cache.insert(&format!("text {}", i), vec![i, i]);
    }
    assert_eq!(cache.stats().size, 100);
    // use the oldest entry, so that the second oldest is the one to go
    assert_eq!(cache.get("text 0"), Some(vec![0, 0]));
    cache.insert("one more", vec![7, 7]);
    assert_eq!(cache.stats().size, 100);
    assert_eq!(cache.get("text 1"), None);
    assert_eq!(cache.get("text 0"), Some(vec![0, 0]));
    assert_eq!(cache.get("one more"), Some(vec![7, 7]));
    // putting under a key that is held replaces the value
    cache.insert("one more", vec![8, 8]);
    assert_eq!(cache.stats().size, 100);
    assert_eq!(cache.get("one more"), Some(vec![8, 8]));
    cache.clear();
    let stats = cache.stats();
    assert_eq!(stats.size, 0);
    assert_eq!((stats.hits, stats.misses), (4, 1));
    assert_eq!(stats.hit_rate, 800_000);
}

#[test]
fn cache_capacity_from_megabytes() {
    // 1 MiB / (384 * 4) = 682 entries
    let mut cache = EmbeddingCache::new(1, 384);
    for i in 0..683u32 {
        cache.insert(&format!("t{}", i), vec![i]);
    }
    assert_eq!(cache.stats().size, 682);
    assert_eq!(cache.get("t0"), None);
    assert!(cache.get("t1").is_some());
    assert_eq!(
        EmbeddingCache::new(1, 384).stats(),
        CacheStats { hits: 0, misses: 0, hit_rate: 0, size: 0 }
    );
}

#[test]
fn test_vector_index_basic() {
    let mut index = VectorIndex::new(4);
    let v1 = vec![1.0, 0.0, 0.0, 0.0];
    let v2 = vec![0.0, 1.0, 0.0, 0.0];
    let v3 = vec![0.9, 0.1, 0.0, 0.0];
    index.insert("doc1", &bits(&v1)).unwrap();
    index.insert("doc2", &bits(&v2)).unwrap();
    index.insert("doc3", &bits(&v3)).unwrap();
    assert_eq!(index.len(), 3);
    let params = index.plan_search(v1.len(), 2).unwrap().unwrap();
    assert_eq!((params.k, params.ef_search), (2, 30));
    let results = index.search(v1.len(), &nearest(&index, &v1, params.k)).unwrap();
    assert_eq!(results.len(), 2);
    let doc_ids: Vec<_> = results.iter().map(|m| m.doc_id.as_str()).collect();
    assert!(doc_ids.contains(&"doc1"));
    assert!(doc_ids.contains(&"doc3"));
}

#[test]
fn test_vector_index_save_load() {
    let data = {
        let mut index = VectorIndex::new(4);
        index.insert("doc1", &bits(&[1.0, 0.0, 0.0, 0.0])).unwrap();
        index.insert("doc2", &bits(&[0.0, 1.0, 0.0, 0.0])).unwrap();
        index.save()
    };
    let index = VectorIndex::load(data);
    assert_eq!(index.len(), 2);
    assert_eq!(index.dimension(), 4);
    let query = [1.0, 0.0, 0.0, 0.0];
    let results = index.search(4, &nearest(&index, &query, 1)).unwrap();
    assert_eq!(results.len(), 1);
    assert_eq!(results[0].doc_id, "doc1");
}

#[test]
fn vector_identifiers_are_positions() {
    let mut index = VectorIndex::new(2);
    assert!(index.is_empty());
    for k in 0..5u64 {
        assert_eq!(index.insert(&format!("d{}", k), &[1, 2]).unwrap(), k);
        assert_eq!(index.len() as u64, k + 1);
    }
    assert!(!index.is_empty());
    assert_eq!(index.vector_at(4), Some(&vec![1, 2]));
    assert_eq!(index.vector_at(5), None);
    assert_eq!(index.rebuild_capacity(), 10_000);
    index.clear();
    assert_eq!(index.len(), 0);
    assert_eq!(index.dimension(), 2);
    assert_eq!(index.insert("again", &[3, 4]).unwrap(), 0);
}

#[test]
fn as_many_vectors_as_successful_inserts() {
    let mut index = VectorIndex::new(3);
    let mut succeeded = 0;
    for k in 0..20u32 {
        let vector: Vec<u32> = if k % 4 == 0 { vec![k] } else { vec![k, k, k] };
        if index.insert("d", &vector).is_ok() {
            succeeded += 1;
        }
        assert_eq!(index.len(), succeeded);
    }
    assert_eq!(succeeded, 15);
}

#[test]
fn vectors_of_another_dimension_are_refused() {
    let mut index = VectorIndex::new(4);
    match index.insert("d", &[1, 2, 3]) {
        Err(YgrepError::Config(m)) => {
            assert_eq!(m, "Embedding dimension mismatch: expected 4, got 3")
        }
        _ => panic!("expected Config"),
    }
    assert_eq!(index.len(), 0);
    match index.plan_search(5, 1) {
        Err(YgrepError::Config(m)) => assert_eq!(m, "Query dimension mismatch: expected 4, got 5"),
        _ => panic!("expected Config"),
    }
    match index.search(5, &Vec::new()) {
        Err(YgrepError::Config(m)) => assert_eq!(m, "Query dimension mismatch: expected 4, got 5"),
        _ => panic!("expected Config"),
    }
}

#[test]
fn an_empty_vector_index_finds_nothing() {
    let index = VectorIndex::new(4);
    assert_eq!(index.plan_search(4, 3).unwrap(), None);
    let stray = vec![Found { id: 0, distance: 0 }];
    assert!(index.search(4, &stray).unwrap().is_empty());
    assert!(index.search(4, &Vec::new()).unwrap().is_empty());
}

#[test]
fn search_passes_over_unknown_positions() {
    let mut index = VectorIndex::new(1);
    index.insert("a", &[1]).unwrap();
    index.insert("b", &[2]).unwrap();
    let found = vec![
        Found { id: 1, distance: 10 },
        Found { id: 9, distance: 20 },
        Found { id: 0, distance: 30 },
    ];
    let matches = index.search(1, &found).unwrap();
    let got: Vec<(u64, u32, &str)> =
        matches.iter().map(|m| (m.id, m.distance, m.doc_id.as_str())).collect();
    assert_eq!(got, vec![(1, 10, "b"), (0, 30, "a")]);
    assert_eq!(index.plan_search(1, 50).unwrap().unwrap().ef_search, 50);
}

#[test]
fn loading_keeps_what_was_saved() {
    let data = VectorData {
        dimension: 3,
        vectors: vec![
            StoredVector { doc_id: "x".to_string(), vector: vec![1, 2, 3] },
            StoredVector { doc_id: "y".to_string(), vector: vec![4, 5, 6] },
        ],
    };
    let index = VectorIndex::load(data);
    let again = index.save();
    assert_eq!(again.dimension, 3);
    assert_eq!(again.vectors.len(), 2);
    assert_eq!(again.vectors[1].doc_id, "y");
    assert_eq!(again.vectors[1].vector, vec![4, 5, 6]);
}

#[test]
fn counters_add_up_to_the_files_walked() {
    let outcomes = vec![
        FileOutcome::Indexed,
        FileOutcome::TooLarge,
        FileOutcome::Indexed,
        FileOutcome::Failed,
        FileOutcome::Indexed,
    ];
    let stats = tally(&outcomes, 5);
    assert_eq!((stats.indexed, stats.skipped, stats.errors), (3, 1, 1));
    assert_eq!(stats.indexed + stats.skipped + stats.errors, outcomes.len());
    assert_eq!(stats.unique_paths, 5);
    let none = tally(&Vec::new(), 0);
    assert_eq!((none.indexed, none.skipped, none.errors), (0, 0, 0));
}

fn candidate(doc_id: &str, len: usize) -> EmbeddingCandidate {
    EmbeddingCandidate { doc_id: doc_id.to_string(), content: "x".repeat(len) }
}

#[test]
fn documents_sent_to_the_embedder() {
    let candidates = vec![
        candidate("tiny", 49),
        candidate("least", 50),
        candidate("long", 9000),
        candidate("most", 50_000),
        candidate("huge", 50_001),
    ];
    let inputs = select_for_embedding(&candidates);
    let got: Vec<(&str, usize)> = inputs.iter().map(|i| (i.doc_id.as_str(), i.text.len())).collect();
    assert_eq!(got, vec![("least", 50), ("long", 8192), ("most", 8192)]);
    assert!(inputs.iter().all(|i| i.text.iter().all(|b| *b == b'x')));
}

#[test]
fn embedding_batches() {
    assert!(batches(0).is_empty());
    assert_eq!(batches(1), vec![Batch { start: 0, end: 1 }]);
    assert_eq!(batches(32), vec![Batch { start: 0, end: 32 }]);
    assert_eq!(
        batches(70),
        vec![
            Batch { start: 0, end: 32 },
            Batch { start: 32, end: 64 },
            Batch { start: 64, end: 70 },
        ]
    );
}

#[test]
fn hybrid_search_needs_vectors() {
    assert!(use_hybrid(false, 3));
    assert!(!use_hybrid(true, 3));
    assert!(!use_hybrid(false, 0));
}
