use ygrep_core::config::IndexerConfig;
use ygrep_core::error::YgrepError;
use ygrep_core::symlink::{
    link_destination, parent, PathProbe, ResolvedPath, SkipReason, SymlinkResolver,
};
use ygrep_core::walker::{
    has_known_text_extension, has_known_text_name, head_has_no_nul, is_allowed_extension,
    is_text_file, needs_content, FileWalker, WalkStats,
};

fn plain(canonical: &str) -> PathProbe {
    PathProbe::Plain { canonical: Some(canonical.to_string()) }
}

fn link(target: &str, canonical: &str) -> PathProbe {
    PathProbe::Link { target: Some(target.to_string()), canonical: Some(canonical.to_string()) }
}

#[test]
fn test_regular_file() {
    let mut resolver = SymlinkResolver::new(true, 10);
    let result = resolver.resolve("/tmp/d/test.txt", &plain("/tmp/d/test.txt")).unwrap();
    match result {
        ResolvedPath::Resolved { is_symlink, .. } => {
            assert!(!is_symlink);
        }
        _ => panic!("Expected Resolved"),
    }
}

#[test]
fn test_symlink_detection() {
    let mut resolver = SymlinkResolver::new(true, 10);
    let result =
        resolver.resolve("/tmp/d/link.txt", &link("/tmp/d/target.txt", "/tmp/d/target.txt")).unwrap();
    match result {
        ResolvedPath::Resolved { is_symlink, .. } => {
            assert!(is_symlink);
        }
        _ => panic!("Expected Resolved"),
    }
}

#[test]
fn test_duplicate_detection() {
    let mut resolver = SymlinkResolver::new(true, 10);
    let result1 = resolver.resolve("/tmp/d/test.txt", &plain("/tmp/d/test.txt")).unwrap();
    assert!(!result1.is_skipped());
    let result2 = resolver.resolve("/tmp/d/test.txt", &plain("/tmp/d/test.txt")).unwrap();
    match result2 {
        ResolvedPath::Skipped(SkipReason::Duplicate) => {}
        _ => panic!("Expected Skipped(Duplicate)"),
    }
}

#[test]
fn a_link_to_a_visited_target_is_circular() {
    let mut resolver = SymlinkResolver::new(true, 10);
    let first = resolver.resolve("/r/target.txt", &plain("/r/target.txt")).unwrap();
    assert_eq!(first.canonical(), Some("/r/target.txt"));
    let second = resolver.resolve("/r/link.txt", &link("target.txt", "/r/target.txt")).unwrap();
    assert!(second.is_skipped());
    match second {
        ResolvedPath::Skipped(SkipReason::CircularSymlink) => {}
        _ => panic!("Expected Skipped(CircularSymlink)"),
    }
    assert_eq!(resolver.visited_count(), 1);
}

#[test]
fn resolver_outcomes() {
    let mut resolver = SymlinkResolver::new(false, 10);
    match resolver.resolve("/r/l", &link("/r/t", "/r/t")).unwrap() {
        ResolvedPath::Skipped(SkipReason::SymlinkNotFollowed) => {}
        _ => panic!("Expected SymlinkNotFollowed"),
    }
    let mut resolver = SymlinkResolver::new(true, 10);
    match resolver.resolve("/r/gone", &PathProbe::NotFound).unwrap() {
        ResolvedPath::Skipped(SkipReason::NotFound) => {}
        _ => panic!("Expected NotFound"),
    }
    match resolver.resolve("/r/l", &PathProbe::Link { target: None, canonical: None }).unwrap() {
        ResolvedPath::Skipped(SkipReason::BrokenSymlink) => {}
        _ => panic!("Expected BrokenSymlink"),
    }
    let dangling = PathProbe::Link { target: Some("nowhere".to_string()), canonical: None };
    match resolver.resolve("/r/l", &dangling).unwrap() {
        ResolvedPath::Skipped(SkipReason::BrokenSymlink) => {}
        _ => panic!("Expected BrokenSymlink"),
    }
    match resolver.resolve("/r/x", &PathProbe::Unreadable("denied".to_string())) {
        Err(YgrepError::Io(m)) => assert_eq!(m, "denied"),
        _ => panic!("Expected Io"),
    }
    match resolver.resolve("/", &PathProbe::Link {
        target: Some("x".to_string()),
        canonical: Some("/x".to_string()),
    }) {
        Err(YgrepError::InvalidPath(p)) => assert_eq!(p, "/"),
        _ => panic!("Expected InvalidPath"),
    }
    match resolver.resolve_at_depth("/r/deep", &plain("/r/deep"), 11) {
        Err(YgrepError::SymlinkDepthExceeded(p)) => assert_eq!(p, "/r/deep"),
        _ => panic!("Expected SymlinkDepthExceeded"),
    }
    assert!(resolver.resolve_at_depth("/r/deep", &plain("/r/deep"), 10).is_ok());
    // a plain path without a canonical form stands for itself
    let unknown = PathProbe::Plain { canonical: None };
    assert_eq!(resolver.resolve("/r/odd", &unknown).unwrap().canonical(), Some("/r/odd"));
    assert!(resolver.is_visited("/r/odd"));
}

#[test]
fn resolver_bookkeeping() {
    let mut resolver = SymlinkResolver::new(true, 20);
    assert_eq!(resolver.visited_count(), 0);
    assert!(!resolver.is_visited("/a"));
    resolver.mark_visited("/a".to_string());
    resolver.mark_visited("/a".to_string());
    resolver.mark_visited("/b".to_string());
    assert_eq!(resolver.visited_count(), 2);
    assert!(resolver.is_visited("/a"));
    resolver.reset();
    assert_eq!(resolver.visited_count(), 0);
    assert!(!resolver.is_visited("/a"));
}

#[test]
fn skip_reasons_have_labels() {
    assert_eq!(SkipReason::CircularSymlink.label(), "circular symlink");
    assert_eq!(SkipReason::SymlinkNotFollowed.label(), "symlink not followed");
    assert_eq!(SkipReason::BrokenSymlink.label(), "broken symlink");
    assert_eq!(SkipReason::Duplicate.label(), "duplicate path");
    assert_eq!(SkipReason::NotFound.label(), "not found");
}

#[test]
fn parents_and_link_destinations() {
    assert_eq!(parent("/a/b/c.txt"), Some("/a/b".to_string()));
    assert_eq!(parent("/a"), Some("/".to_string()));
    assert_eq!(parent("a"), Some("".to_string()));
    assert_eq!(parent("/a/b/"), Some("/a".to_string()));
    assert_eq!(parent("/"), None);
    assert_eq!(parent(""), None);
    assert_eq!(link_destination("/a/b/l", "/x/y"), Some("/x/y".to_string()));
    assert_eq!(link_destination("/a/b/l", "../t"), Some("/a/b/../t".to_string()));
    assert_eq!(link_destination("l", "t"), Some("t".to_string()));
    assert_eq!(link_destination("/", "t"), None);
}

fn walker() -> FileWalker {
    FileWalker::new("/w".to_string(), IndexerConfig::with_defaults("/data".to_string(), None))
        .unwrap()
}

#[test]
fn test_walk_directory() {
    let mut walker = walker();
    let files = ["/w/test.rs", "/w/readme.md", "/w/src/lib.rs"];
    let mut entries = Vec::new();
    assert!(FileWalker::enters("src", true));
    for path in files {
        if let Some(entry) = walker.accept(path, false, false, None, &plain(path)) {
            entries.push(entry);
        }
    }
    assert!(entries.len() >= 3);
    assert_eq!(walker.stats(), WalkStats { visited_paths: 3 });
    assert_eq!(walker.root(), "/w");
}

#[test]
fn the_walk_skips_hidden_and_pruned_entries() {
    assert!(!FileWalker::enters(".foo", false));
    assert!(!FileWalker::enters(".git", true));
    assert!(!FileWalker::enters("node_modules", true));
    assert!(!FileWalker::enters("htmlcov", true));
    assert!(FileWalker::enters("node_modules", false));
    assert!(FileWalker::enters("src", true));
    assert!(FileWalker::enters("log", true));
    assert!(FileWalker::enters("foo.rs", false));
}

#[test]
fn the_walk_yields_a_linked_file_once() {
    let mut walker = walker();
    let first = walker.accept("/w/target.txt", false, false, None, &plain("/w/target.txt"));
    let first = first.expect("the target is indexed");
    assert_eq!(first.path, "/w/target.txt");
    assert_eq!(first.canonical, "/w/target.txt");
    assert!(!first.is_symlink);
    let second =
        walker.accept("/w/link.txt", false, false, None, &link("target.txt", "/w/target.txt"));
    assert!(second.is_none());
    assert_eq!(walker.stats().visited_paths, 1);
}

#[test]
fn the_walk_filters_files() {
    let mut walker = walker();
    // directories are never handed out
    assert!(walker.accept("/w/src", true, false, None, &plain("/w/src")).is_none());
    // ignored by a .gitignore
    assert!(walker.accept("/w/a.rs", false, true, None, &plain("/w/a.rs")).is_none());
    // ignored by a built-in pattern
    assert!(walker.accept("/w/a.png", false, false, None, &plain("/w/a.png")).is_none());
    assert!(walker.accept("/w/Cargo.lock", false, false, None, &plain("/w/Cargo.lock")).is_none());
    // unknown type: text by content only
    let text: &[u8] = b"plain text";
    let binary: &[u8] = b"\x7fELF\x00\x01";
    assert!(walker.accept("/w/data.xyz", false, false, None, &plain("/w/data.xyz")).is_none());
    assert!(walker.accept("/w/blob.xyz", false, false, Some(binary), &plain("/w/blob.xyz")).is_none());
    assert!(walker.accept("/w/note.xyz", false, false, Some(text), &plain("/w/note.xyz")).is_some());
    assert_eq!(walker.stats().visited_paths, 1);
}

#[test]
fn the_extension_allowlist_restricts_the_walk() {
    let mut config = IndexerConfig::with_defaults("/data".to_string(), None);
    config.include_extensions = vec!["RS".to_string()];
    let mut walker = FileWalker::new("/w".to_string(), config).unwrap();
    assert!(walker.accept("/w/a.rs", false, false, None, &plain("/w/a.rs")).is_some());
    assert!(walker.accept("/w/b.Rs", false, false, None, &plain("/w/b.Rs")).is_some());
    assert!(walker.accept("/w/c.py", false, false, None, &plain("/w/c.py")).is_none());
    assert!(walker.accept("/w/Makefile", false, false, None, &plain("/w/Makefile")).is_none());
    assert!(is_allowed_extension("/w/a.rs", &Vec::new()));
}

#[test]
fn text_files_by_extension_name_and_content() {
    assert!(has_known_text_extension("/w/a.rs"));
    assert!(has_known_text_extension("/w/a.TOML"));
    assert!(has_known_text_extension("/w/a.env"));
    assert!(!has_known_text_extension("/w/a.bin"));
    assert!(!has_known_text_extension("/w/rs"));
    assert!(has_known_text_name("/w/Dockerfile"));
    assert!(has_known_text_name("/w/LICENSE"));
    assert!(has_known_text_name("contributing"));
    assert!(!has_known_text_name("/w/notes"));
    assert!(!needs_content("/w/a.rs"));
    assert!(!needs_content("/w/README"));
    assert!(needs_content("/w/a.bin"));
    assert!(is_text_file("/w/a.rs", None));
    assert!(!is_text_file("/w/a.bin", None));
    let text: &[u8] = b"hello";
    let binary: &[u8] = b"he\0llo";
    assert!(is_text_file("/w/a.bin", Some(text)));
    assert!(!is_text_file("/w/a.bin", Some(binary)));
}

#[test]
fn only_the_head_of_a_file_is_sniffed() {
    let mut bytes = vec![b'a'; 8192];
    bytes.push(0);
    assert!(head_has_no_nul(&bytes));
    bytes[8191] = 0;
    assert!(!head_has_no_nul(&bytes));
    assert!(head_has_no_nul(&[]));
    // bytes that are not UTF-8 but hold no NUL still count as text here;
    // decoding them fails later
    assert!(head_has_no_nul(&[0xff, 0xfe, 0x41]));
}
