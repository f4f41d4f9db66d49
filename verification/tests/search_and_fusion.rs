use ygrep_core::config::SearchConfig;
use ygrep_core::document::{index_file, Document};
use ygrep_core::config::IndexerConfig;
use ygrep_core::hybrid::{
    merge_rankings, phrase_query, rank_neighbors, rank_retrieved, reciprocal_rank_fusion,
    HybridSearcher, Neighbor, RankedResult,
};
use ygrep_core::results::{truncate_snippet, SearchHit, SearchResult};
use ygrep_core::search::{
    apply_filters, collect_hits, contains_literally, create_relevant_snippet, join_with_spaces,
    normalize_score, query_terms, scale_limit, Retrieved, SearchFilters, Searcher,
};

fn document(doc_id: &str, path: &str, content: &str) -> Document {
    Document {
        doc_id: doc_id.to_string(),
        path: path.to_string(),
        workspace: "/test".to_string(),
        content: content.to_string(),
        mtime: 0,
        size: 100,
        extension: "rs".to_string(),
        line_start: 1,
        line_end: 1,
        chunk_id: String::new(),
        parent_doc: String::new(),
    }
}

fn retrieved(doc_id: &str, path: &str, content: &str, score: u32) -> Retrieved {
    Retrieved { document: document(doc_id, path, content), score }
}

#[test]
fn test_basic_search() {
    let docs = vec![retrieved(
        "test1",
        "src/main.rs",
        "fn main() { println!(\"Hello, world!\"); }",
        1_500_000,
    )];
    let searcher = Searcher::new(SearchConfig::default());
    let result = searcher.search("hello", None, &docs, 3);
    assert_eq!(result.hits.len(), 1);
    assert_eq!(result.hits[0].path, "src/main.rs");
    assert_eq!(result.hits[0].doc_id, "test1");
    assert_eq!(result.hits[0].score, 1_000_000);
    assert_eq!(result.total, 1);
    assert_eq!(result.query_time_ms, 3);
}

#[test]
fn test_workspace_index_and_search() {
    let config = IndexerConfig::with_defaults("/data".to_string(), None);
    let files = [
        ("/w/hello.rs", "fn hello_world() { println!(\"Hello!\"); }"),
        ("/w/goodbye.rs", "fn goodbye_world() { println!(\"Bye!\"); }"),
    ];
    let mut stored = Vec::new();
    for (path, content) in files {
        let file = index_file(path, "/w", content, content.len() as u64, 0, &config).unwrap();
        stored.push(Retrieved { document: file.document, score: 1_000_000 });
    }
    assert!(stored.len() >= 2);
    let searcher = Searcher::new(SearchConfig::default());
    let result = searcher.search("hello", None, &stored, 1);
    assert!(!result.is_empty());
    assert!(result.hits.iter().any(|h| h.path.contains("hello")));
    assert!(result.hits.iter().all(|h| !h.path.contains("goodbye")));
}

#[test]
fn search_is_literal_and_ignores_case() {
    let docs = vec![retrieved("a", "src/a.rs", "FOO_BAR_BAZ\nfn x(){}", 2_000_000)];
    let searcher = Searcher::new(SearchConfig::default());
    assert_eq!(searcher.search("FOO_BAR_BAZ", None, &docs, 0).hits.len(), 1);
    assert_eq!(searcher.search("foo_bar_baz", None, &docs, 0).hits.len(), 1);
    assert_eq!(searcher.search(".*foo.*", None, &docs, 0).hits.len(), 0);
}

#[test]
fn an_empty_query_has_the_empty_result() {
    let docs = vec![retrieved("a", "a.rs", "anything", 1)];
    let searcher = Searcher::new(SearchConfig::default());
    for query in ["", "   ", "()", "-- ++"] {
        let result = searcher.search(query, None, &docs, 99);
        assert!(result.is_empty());
        assert_eq!(result.total, 0);
        assert_eq!(result.query_time_ms, 0);
        assert!(searcher.plan(query, None).is_none());
    }
}

#[test]
fn query_plans() {
    let searcher = Searcher::new(SearchConfig::default());
    let plan = searcher.plan("fn main($x)", None).unwrap();
    assert_eq!(plan.terms, "fn main x");
    assert_eq!(plan.limit, 10);
    assert_eq!(plan.fetch_limit, 100);
    let plan = searcher.plan("a", Some(1000)).unwrap();
    assert_eq!(plan.limit, 100);
    assert_eq!(plan.fetch_limit, 1000);
    let plan = searcher.plan("a", Some(7)).unwrap();
    assert_eq!(plan.limit, 7);
    assert_eq!(plan.fetch_limit, 70);
    assert_eq!(searcher.filtered_fetch(Some(5)), Some(10));
    assert_eq!(searcher.filtered_fetch(None), Some(200));
    assert_eq!(scale_limit(usize::MAX, 2), usize::MAX);
    assert_eq!(scale_limit(0, 10), 0);
}

#[test]
fn query_words() {
    assert_eq!(query_terms("foo_bar baz-qux"), vec!["foo_bar", "baz", "qux"]);
    assert_eq!(query_terms("$var->get("), vec!["var", "get"]);
    assert_eq!(query_terms("héllo wörld"), vec!["héllo", "wörld"]);
    assert!(query_terms("").is_empty());
    assert_eq!(join_with_spaces(&vec!["a".to_string(), "b".to_string()]), "a b");
    assert_eq!(join_with_spaces(&vec!["a".to_string()]), "a");
    assert_eq!(join_with_spaces(&Vec::new()), "");
}

#[test]
fn hits_keep_the_order_and_stop_at_the_limit() {
    let docs = vec![
        retrieved("1", "a.rs", "needle one", 4_000_000),
        retrieved("2", "b.rs", "nothing here", 3_000_000),
        retrieved("3", "c.rs", "NEEDLE two", 2_000_000),
        retrieved("4", "d.rs", "needle three", 1_000_000),
    ];
    let hits = collect_hits(&docs, "needle", 2);
    let ids: Vec<&str> = hits.iter().map(|h| h.doc_id.as_str()).collect();
    assert_eq!(ids, vec!["1", "3"]);
    assert_eq!(hits[0].score, 1_000_000);
    assert_eq!(hits[1].score, 500_000);
    assert!(collect_hits(&docs, "needle", 0).is_empty());
    assert_eq!(collect_hits(&docs, "needle", 10).len(), 3);
}

#[test]
fn the_best_score_is_the_highest_one() {
    let docs = vec![
        retrieved("1", "a.rs", "needle", 1_000_000),
        retrieved("2", "b.rs", "other", 8_000_000),
        retrieved("3", "c.rs", "needle", 4_000_000),
    ];
    let hits = collect_hits(&docs, "needle", 10);
    assert_eq!(hits.iter().map(|h| h.score).collect::<Vec<_>>(), vec![125_000, 500_000]);
    assert!(hits.iter().all(|h| h.score <= 1_000_000));
    let zero = vec![retrieved("1", "a.rs", "needle", 0)];
    assert_eq!(collect_hits(&zero, "needle", 10)[0].score, 0);
}

#[test]
fn scores_are_relative_to_the_best() {
    assert_eq!(normalize_score(3, 4), 750_000);
    assert_eq!(normalize_score(1, 3), 333_333);
    assert_eq!(normalize_score(5, 5), 1_000_000);
    assert_eq!(normalize_score(5, 0), 0);
    assert_eq!(normalize_score(u32::MAX, 1), u32::MAX as u64 * 1_000_000);
}

#[test]
fn literal_containment() {
    assert!(contains_literally("Hello World", "hello w"));
    assert!(contains_literally("abc", ""));
    assert!(!contains_literally("abc", "abd"));
    assert!(contains_literally("ÄÖÜ", "äö"));
}

#[test]
fn snippets_show_the_first_matching_line() {
    let content: String = (1..=30).map(|i| format!("line {}\n", i)).collect();
    let content = content.replace("line 12\n", "the Needle is here\n");
    let snippet = create_relevant_snippet(&content, "NEEDLE", 10);
    let lines: Vec<&str> = snippet.lines().collect();
    assert_eq!(lines.len(), 10);
    assert_eq!(lines[0], "line 10");
    assert_eq!(lines[2], "the Needle is here");
    assert_eq!(lines[9], "line 19");
    // no line matches: the first lines
    let snippet = create_relevant_snippet(&content, "absent", 10);
    assert_eq!(snippet.lines().count(), 10);
    assert!(snippet.starts_with("line 1\nline 2\n"));
    // clipped at both ends
    assert_eq!(create_relevant_snippet("needle\nb", "needle", 10), "needle\nb");
    assert_eq!(create_relevant_snippet("a\nb\nneedle", "needle", 10), "a\nb\nneedle");
    assert_eq!(create_relevant_snippet("", "needle", 10), "");
    assert_eq!(create_relevant_snippet("a\nb\nc", "", 2), "a\nb");
}

fn hit(path: &str) -> SearchHit {
    SearchHit {
        path: path.to_string(),
        line_start: 1,
        line_end: 2,
        snippet: String::new(),
        score: 0,
        is_chunk: false,
        doc_id: path.to_string(),
    }
}

#[test]
fn filters_by_extension_and_path() {
    let hits = vec![hit("src/a.rs"), hit("src/b.TS"), hit("docs/c.md"), hit("Makefile")];
    let by_ext = SearchFilters { extensions: Some(vec!["RS".to_string(), "ts".to_string()]), paths: None };
    let kept = apply_filters(&hits, &by_ext, 10);
    assert_eq!(kept.iter().map(|h| h.path.as_str()).collect::<Vec<_>>(), vec!["src/a.rs", "src/b.TS"]);
    let by_path = SearchFilters { extensions: None, paths: Some(vec!["docs".to_string(), "ake".to_string()]) };
    let kept = apply_filters(&hits, &by_path, 10);
    assert_eq!(kept.iter().map(|h| h.path.as_str()).collect::<Vec<_>>(), vec!["docs/c.md", "Makefile"]);
    let both = SearchFilters { extensions: Some(vec!["rs".to_string()]), paths: Some(vec!["src/".to_string()]) };
    assert_eq!(apply_filters(&hits, &both, 10).len(), 1);
    assert_eq!(apply_filters(&hits, &SearchFilters::default(), 10).len(), 4);
    assert_eq!(apply_filters(&hits, &SearchFilters::default(), 3).len(), 3);
}

#[test]
fn filtered_search() {
    let docs = vec![
        retrieved("1", "src/a.rs", "needle", 3),
        retrieved("2", "src/b.py", "needle", 2),
        retrieved("3", "src/c.rs", "needle", 1),
    ];
    let searcher = Searcher::new(SearchConfig::default());
    let filters = SearchFilters { extensions: Some(vec!["rs".to_string()]), paths: None };
    let result = searcher.search_filtered("needle", Some(1), &filters, &docs, 5);
    assert_eq!(result.total, 1);
    assert_eq!(result.hits[0].path, "src/a.rs");
    let result = searcher.search_filtered("needle", None, &filters, &docs, 5);
    assert_eq!(result.total, 2);
    assert!(searcher.search_filtered("", None, &filters, &docs, 5).is_empty());
}

#[test]
fn test_lines_str() {
    let hit = SearchHit {
        path: "test.rs".to_string(),
        line_start: 10,
        line_end: 25,
        snippet: "content".to_string(),
        score: 800_000,
        is_chunk: false,
        doc_id: "abc123".to_string(),
    };
    assert_eq!(hit.lines_str(), "10-25");
    let single_line = SearchHit { line_start: 5, line_end: 5, ..hit.clone() };
    assert_eq!(single_line.lines_str(), "5");
}

#[test]
fn snippets_are_cut_at_a_line_end() {
    assert_eq!(truncate_snippet("short", 200), "short");
    assert_eq!(truncate_snippet("abc\ndefgh", 6), "abc");
    assert_eq!(truncate_snippet("abcdefgh", 3), "abc");
    assert_eq!(truncate_snippet("ab\ncd\nefgh", 8), "ab\ncd");
    assert!(SearchResult::empty().is_empty());
}

fn ranked(doc_id: &str, rank: u32) -> RankedResult {
    RankedResult {
        doc_id: doc_id.to_string(),
        path: format!("{}.rs", doc_id),
        content: format!("fn {}() {{ println!(\"x\"); }}\nsecond line", doc_id),
        line_start: 1,
        line_end: 2,
        is_chunk: false,
        rank,
        score: 0,
    }
}

fn ids(hits: &[SearchHit]) -> Vec<&str> {
    hits.iter().map(|h| h.doc_id.as_str()).collect()
}

#[test]
fn fusion_totals() {
    let bm25 = vec![ranked("a", 1), ranked("b", 2)];
    let vector = vec![ranked("b", 1), ranked("c", 2)];
    let hits = reciprocal_rank_fusion(&bm25, &vector, 500_000, 500_000);
    assert_eq!(ids(&hits), vec!["b", "a", "c"]);
    // b: 0.5/62 + 0.5/61, a: 0.5/61, c: 0.5/62, in millionths, rounded down
    assert_eq!(hits[0].score, 16261);
    assert_eq!(hits[1].score, 8196);
    assert_eq!(hits[2].score, 8064);
    for pair in hits.windows(2) {
        assert!(pair[0].score >= pair[1].score);
    }
}

#[test]
fn fusing_a_ranking_with_itself_keeps_its_order() {
    let list: Vec<RankedResult> =
        ["d", "a", "c", "b", "e"].iter().enumerate().map(|(i, id)| ranked(id, i as u32 + 1)).collect();
    let hits = reciprocal_rank_fusion(&list, &list, 500_000, 500_000);
    assert_eq!(ids(&hits), vec!["d", "a", "c", "b", "e"]);
    let hits = reciprocal_rank_fusion(&list, &list, 0, 0);
    assert_eq!(ids(&hits), vec!["d", "a", "c", "b", "e"]);
}

#[test]
fn fusion_without_vectors_is_the_lexical_ranking() {
    let bm25 = vec![ranked("x", 1), ranked("y", 2), ranked("z", 3)];
    let hits = reciprocal_rank_fusion(&bm25, &Vec::new(), 500_000, 500_000);
    assert_eq!(ids(&hits), vec!["x", "y", "z"]);
    assert!(reciprocal_rank_fusion(&Vec::new(), &Vec::new(), 1, 1).is_empty());
}

#[test]
fn fusion_weights_decide() {
    let bm25 = vec![ranked("a", 1)];
    let vector = vec![ranked("b", 1)];
    assert_eq!(ids(&reciprocal_rank_fusion(&bm25, &vector, 1_000_000, 0)), vec!["a", "b"]);
    assert_eq!(ids(&reciprocal_rank_fusion(&bm25, &vector, 0, 1_000_000)), vec!["b", "a"]);
    // equal totals keep the order of first appearance
    assert_eq!(ids(&reciprocal_rank_fusion(&bm25, &vector, 500_000, 500_000)), vec!["a", "b"]);
}

#[test]
fn a_document_named_twice_counts_with_its_last_rank() {
    let bm25 = vec![ranked("a", 1), ranked("b", 2), ranked("a", 3)];
    let entries = merge_rankings(&bm25, &Vec::new());
    assert_eq!(entries.len(), 2);
    assert_eq!(entries[0].result.doc_id, "a");
    assert_eq!(entries[0].result.rank, 1);
    assert_eq!(entries[0].bm25_rank, Some(3));
    assert_eq!(entries[0].vector_rank, None);
    let hits = reciprocal_rank_fusion(&bm25, &Vec::new(), 500_000, 500_000);
    assert_eq!(ids(&hits), vec!["b", "a"]);
}

#[test]
fn hybrid_hits_are_ordered_and_show_the_content() {
    let bm25 = vec![ranked("hello", 1), ranked("goodbye", 2)];
    let vector = vec![ranked("goodbye", 1), ranked("other", 2), ranked("hello", 3)];
    let searcher = HybridSearcher::new(SearchConfig::default());
    assert_eq!(searcher.fetch_limit(None), 30);
    assert_eq!(searcher.fetch_limit(Some(7)), 21);
    let result = searcher.search(Some(2), &bm25, &vector, 4);
    assert_eq!(result.total, 2);
    assert_eq!(result.query_time_ms, 4);
    assert_eq!(ids(&result.hits), vec!["goodbye", "hello"]);
    for hit in &result.hits {
        assert!(hit.snippet.to_lowercase().contains("println"));
    }
    let all = searcher.search(None, &bm25, &vector, 0);
    assert_eq!(all.total, 3);
    for pair in all.hits.windows(2) {
        assert!(pair[0].score >= pair[1].score);
    }
}

#[test]
fn rankings_from_retrieved_documents() {
    let docs = vec![retrieved("1", "a.rs", "x", 9), retrieved("2", "b.rs", "y", 8)];
    let ranking = rank_retrieved(&docs);
    assert_eq!(ranking.len(), 2);
    assert_eq!((ranking[0].doc_id.as_str(), ranking[0].rank, ranking[0].score), ("1", 1, 9));
    assert_eq!((ranking[1].doc_id.as_str(), ranking[1].rank, ranking[1].score), ("2", 2, 8));
    assert!(!ranking[0].is_chunk);
    let mut chunk = document("p:0", "a.rs", "x");
    chunk.chunk_id = "p:0".to_string();
    let neighbors = vec![
        Neighbor { doc_id: "gone".to_string(), score: 900_000, document: None },
        Neighbor { doc_id: "p:0".to_string(), score: 800_000, document: Some(chunk) },
    ];
    let ranking = rank_neighbors(&neighbors);
    assert_eq!(ranking.len(), 1);
    assert_eq!(ranking[0].doc_id, "p:0");
    assert_eq!(ranking[0].rank, 2);
    assert!(ranking[0].is_chunk);
}

#[test]
fn phrase_queries_are_quoted() {
    assert_eq!(phrase_query("fn main"), "\"fn main\"");
    assert_eq!(phrase_query("say \"hi\""), "\"say \\\"hi\\\"\"");
    assert_eq!(phrase_query(""), "\"\"");
}
