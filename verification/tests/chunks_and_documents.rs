use ygrep_core::chunker::{chunk_ranges, ChunkRange};
use ygrep_core::config::IndexerConfig;
use ygrep_core::document::{
    content_id, decode_content, extension_for_storage, index_file, Document,
};
use ygrep_core::error::YgrepError;
use ygrep_core::config::Config;
use ygrep_core::index::{operations, IndexOp, Indexer};
use ygrep_core::workspace::Workspace;
use ygrep_core::text::{decimal, from_chars, hex16, join_range, split_lines, to_chars};

fn config() -> IndexerConfig {
    IndexerConfig::with_defaults("/data".to_string(), Some(8))
}

fn numbered_lines(n: usize) -> String {
    let mut s = String::new();
    for i in 1..=n {
        s.push_str(&format!("line {}\n", i));
    }
    s
}

#[test]
fn chunks_of_120_lines() {
    let chunks = chunk_ranges(120, 50, 10);
    assert_eq!(
        chunks,
        vec![
            ChunkRange { start: 0, end: 50 },
            ChunkRange { start: 40, end: 90 },
            ChunkRange { start: 80, end: 120 },
        ]
    );
}

#[test]
fn file_of_exactly_one_window_has_no_chunks() {
    assert!(chunk_ranges(50, 50, 10).is_empty());
    assert!(chunk_ranges(0, 50, 10).is_empty());
    assert!(chunk_ranges(49, 50, 10).is_empty());
    assert_eq!(chunk_ranges(51, 50, 10).len(), 2);
}

#[test]
fn chunks_cover_every_line_and_overlap() {
    for n in 51..400usize {
        let chunks = chunk_ranges(n, 50, 10);
        assert_eq!(chunks[0].start, 0);
        assert_eq!(chunks[chunks.len() - 1].end, n);
        for k in 0..chunks.len() - 1 {
            assert!(chunks[k + 1].start < chunks[k].end);
            if chunks[k].end - chunks[k].start == 50 {
                assert_eq!(chunks[k].end - chunks[k + 1].start, 10);
            }
        }
    }
}

#[test]
fn a_cut_chunk_shares_less_than_the_overlap() {
    let chunks = chunk_ranges(125, 50, 10);
    assert_eq!(chunks.len(), 4);
    assert_eq!(chunks[2], ChunkRange { start: 80, end: 125 });
    assert_eq!(chunks[3], ChunkRange { start: 120, end: 125 });
}

#[test]
fn chunks_without_overlap() {
    assert_eq!(
        chunk_ranges(5, 2, 0),
        vec![
            ChunkRange { start: 0, end: 2 },
            ChunkRange { start: 2, end: 4 },
            ChunkRange { start: 4, end: 5 },
        ]
    );
}

#[test]
fn test_index_file() {
    let content = "fn main() {\n    println!(\"hello\");\n}";
    let file = index_file("/w/test.rs", "/w", content, content.len() as u64, 7, &config()).unwrap();
    assert!(!file.doc_id.is_empty());
    assert_eq!(file.doc_id.len(), 16);
    assert_eq!(file.document.doc_id, file.doc_id);
    assert_eq!(file.document.path, "test.rs");
    assert_eq!(file.document.workspace, "/w");
    assert_eq!(file.document.content, content);
    assert_eq!(file.document.mtime, 7);
    assert_eq!(file.document.size, content.len() as u64);
    assert_eq!(file.document.extension, "rs");
    assert_eq!(file.document.line_start, 1);
    assert_eq!(file.document.line_end, 3);
    assert_eq!(file.document.chunk_id, "");
    assert_eq!(file.document.parent_doc, "");
    assert!(file.chunks.is_empty());
}

#[test]
fn a_long_file_gets_chunk_documents() {
    let content = numbered_lines(120);
    let file = index_file("/w/src/long.txt", "/w", &content, content.len() as u64, 0, &config())
        .unwrap();
    assert_eq!(file.document.line_end, 120);
    assert_eq!(file.chunks.len(), 3);
    let ranges: Vec<(u64, u64)> = file.chunks.iter().map(|c| (c.line_start, c.line_end)).collect();
    assert_eq!(ranges, vec![(1, 50), (41, 90), (81, 120)]);
    for (k, chunk) in file.chunks.iter().enumerate() {
        assert_eq!(chunk.chunk_id, format!("{}:{}", file.doc_id, k));
        assert_eq!(chunk.doc_id, chunk.chunk_id);
        assert_eq!(chunk.parent_doc, file.doc_id);
        assert_eq!(chunk.path, "src/long.txt");
        assert_eq!(chunk.mtime, 0);
        assert_eq!(chunk.extension, "");
        assert_eq!(chunk.size, chunk.content.len() as u64);
    }
    assert!(file.chunks[0].content.starts_with("line 1\nline 2\n"));
    assert!(file.chunks[0].content.ends_with("line 50"));
    assert!(file.chunks[1].content.starts_with("line 41\n"));
    assert!(file.chunks[2].content.ends_with("line 120"));
}

#[test]
fn an_oversized_file_is_rejected() {
    let mut cfg = config();
    cfg.max_file_size = 10;
    match index_file("/w/big.txt", "/w", "0123456789ab", 12, 0, &cfg) {
        Err(YgrepError::FileTooLarge { path, size, max }) => {
            assert_eq!(path, "/w/big.txt");
            assert_eq!(size, 12);
            assert_eq!(max, 10);
        }
        _ => panic!("expected FileTooLarge"),
    }
    assert!(index_file("/w/ok.txt", "/w", "0123456789", 10, 0, &cfg).is_ok());
}

#[test]
fn bytes_that_are_not_text_are_not_indexed() {
    let indexer = Indexer::new(config(), "/w").unwrap();
    let invalid = vec![b'a', 0xff, 0xfe, b'b'];
    assert!(matches!(decode_content(invalid.clone()), Err(YgrepError::Io(_))));
    assert!(matches!(indexer.index_bytes("/w/a.txt", invalid, 4, 0), Err(YgrepError::Io(_))));
    assert_eq!(decode_content("grüß".as_bytes().to_vec()).unwrap(), "grüß");
    let file = indexer.index_bytes("/w/a.txt", "grüß".as_bytes().to_vec(), 6, 0).unwrap();
    assert_eq!(file.document.content, "grüß");
    assert_eq!(file.doc_id, content_id("grüß"));
}

#[test]
fn content_ids_are_hashes_in_hex() {
    assert_eq!(content_id(""), "2d06800538d394c2");
    assert_eq!(content_id("abc"), format!("{:016x}", xxhash_rust::xxh3::xxh3_64(b"abc")));
    assert_ne!(content_id("abc"), content_id("abd"));
    assert_eq!(content_id("needle").len(), 16);
}

#[test]
fn stored_extensions_are_lower_case() {
    assert_eq!(extension_for_storage("/w/A.RS"), "rs");
    assert_eq!(extension_for_storage("/w/a.Md"), "md");
    assert_eq!(extension_for_storage("/w/Makefile"), "");
}

#[test]
fn numbers_as_text() {
    assert_eq!(from_chars(&decimal(0)), "0");
    assert_eq!(from_chars(&decimal(7)), "7");
    assert_eq!(from_chars(&decimal(120)), "120");
    assert_eq!(from_chars(&decimal(u64::MAX)), "18446744073709551615");
    assert_eq!(from_chars(&hex16(0)), "0000000000000000");
    assert_eq!(from_chars(&hex16(0xdead_beef)), "00000000deadbeef");
    assert_eq!(from_chars(&hex16(u64::MAX)), "ffffffffffffffff");
}

#[test]
fn lines_are_split_like_the_standard_library() {
    for text in ["", "a", "a\n", "a\nb", "a\r\nb\r\n", "\n", "\n\n", "a\r", "a\rb\n", "x\n\ny"] {
        let ours: Vec<String> =
            split_lines(&to_chars(text)).iter().map(|l| from_chars(l)).collect();
        let theirs: Vec<String> = text.lines().map(|l| l.to_string()).collect();
        assert_eq!(ours, theirs, "text {:?}", text);
    }
    let lines = split_lines(&to_chars("a\nb\nc"));
    assert_eq!(from_chars(&join_range(&lines, 0, 3)), "a\nb\nc");
    assert_eq!(from_chars(&join_range(&lines, 1, 2)), "b");
    assert_eq!(from_chars(&join_range(&lines, 1, 1)), "");
}

fn apply(index: &mut Vec<Document>, ops: Vec<IndexOp>) {
    for op in ops {
        match op {
            IndexOp::DeleteByPath(p) => index.retain(|d| d.path != p),
            IndexOp::DeleteById(id) => index.retain(|d| d.doc_id != id),
            IndexOp::Add(d) => index.push(d),
        }
    }
}

#[test]
fn reindexing_a_file_leaves_no_stale_document() {
    let mut index: Vec<Document> = Vec::new();
    let old = numbered_lines(120);
    let first = index_file("/w/a.txt", "/w", &old, old.len() as u64, 1, &config()).unwrap();
    let other = index_file("/w/b.txt", "/w", "other", 5, 1, &config()).unwrap();
    apply(&mut index, operations(&first));
    apply(&mut index, operations(&other));
    assert_eq!(index.len(), 5);
    let second = index_file("/w/a.txt", "/w", "fresh content", 13, 2, &config()).unwrap();
    apply(&mut index, operations(&second));
    let whole: Vec<&Document> =
        index.iter().filter(|d| d.path == "a.txt" && d.chunk_id.is_empty()).collect();
    assert_eq!(whole.len(), 1);
    assert_eq!(whole[0].content, "fresh content");
    assert_eq!(whole[0].doc_id, content_id("fresh content"));
    assert!(index.iter().all(|d| !d.content.contains("line 1")));
    assert_eq!(index.iter().filter(|d| d.path == "b.txt").count(), 1);
}

#[test]
fn delete_requests() {
    let workspace = Workspace::open_with_config("/w", Config::with_defaults("/data".to_string(), None));
    match workspace.delete_file("/w/src/a.rs") {
        IndexOp::DeleteById(id) => assert_eq!(id, "src/a.rs"),
        _ => panic!("expected DeleteById"),
    }
    let indexer = Indexer::new(config(), "/w").unwrap();
    match indexer.delete_by_path("src/a.rs") {
        IndexOp::DeleteByPath(p) => assert_eq!(p, "src/a.rs"),
        _ => panic!("expected DeleteByPath"),
    }
    match indexer.delete_by_id("abc") {
        IndexOp::DeleteById(id) => assert_eq!(id, "abc"),
        _ => panic!("expected DeleteById"),
    }
}

#[test]
fn an_indexer_needs_usable_chunks() {
    let mut cfg = config();
    cfg.chunk_overlap = 50;
    assert!(matches!(Indexer::new(cfg, "/w"), Err(YgrepError::Config(_))));
    let indexer = Indexer::new(config(), "/w").unwrap();
    let file = indexer.index_file("/w/a.rs", "fn a() {}", 9, 3).unwrap();
    assert_eq!(file.document.path, "a.rs");
    assert_eq!(file.doc_id, content_id("fn a() {}"));
    let mut cfg = config();
    cfg.max_file_size = 1;
    let indexer = Indexer::new(cfg, "/w").unwrap();
    assert!(matches!(
        indexer.index_file("/w/a.rs", "fn a() {}", 9, 3),
        Err(YgrepError::FileTooLarge { .. })
    ));
}

#[test]
fn bringing_one_file_up_to_date() {
    let workspace = Workspace::open_with_config("/w", Config::with_defaults("/data".to_string(), None));
    let indexer = Indexer::new(config(), workspace.root()).unwrap();
    let ops = workspace.index_file(indexer.index_file("/w/a.rs", "fn a() {}", 9, 3)).unwrap();
    assert_eq!(ops.len(), 2);
    assert!(matches!(&ops[0], IndexOp::DeleteByPath(p) if p == "a.rs"));
    assert!(matches!(&ops[1], IndexOp::Add(d) if d.path == "a.rs"));
    let too_large = Err(YgrepError::FileTooLarge { path: "/w/b".to_string(), size: 2, max: 1 });
    assert!(workspace.index_file(too_large).unwrap().is_empty());
    let failed = workspace.index_file(Err(YgrepError::Io("denied".to_string())));
    assert!(matches!(failed, Err(YgrepError::Io(m)) if m == "denied"));
}
