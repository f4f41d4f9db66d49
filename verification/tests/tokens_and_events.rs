use ygrep_core::config::{
    default_ignore_patterns, default_socket_path, Config, DaemonConfig, IndexerConfig,
    OutputConfig, SearchConfig,
};
use ygrep_core::daemon::{Daemon, Request};
use ygrep_core::registry::{
    is_named_by_hash, is_named_by_workspace, should_clean, total_size, IndexInfo,
};
use ygrep_core::tokenizer::{is_short_token, tokenize, Token};
use ygrep_core::watcher::{
    classify, dedup_batch, is_relevant_path, process_notify_event, watch_roots, ChangeKind,
    ChangedPath, EntryKind, LinkTarget, WatchEvent,
};
use ygrep_core::error::YgrepError;
use ygrep_core::watcher::{FileWatcher, Notification};
use ygrep_core::workspace::{hash_path, metadata, IndexStats, Workspace};

fn texts(tokens: &[Token]) -> Vec<&str> {
    tokens.iter().map(|t| t.text.as_str()).collect()
}

#[test]
fn tokens_keep_the_characters_of_code() {
    let tokens = tokenize("let $user_id = @Foo#bar-baz(x_1);");
    assert_eq!(texts(&tokens), vec!["let", "$user_id", "@foo#bar-baz", "x_1"]);
    let positions: Vec<usize> = tokens.iter().map(|t| t.position).collect();
    assert_eq!(positions, vec![0, 1, 2, 3]);
    assert_eq!((tokens[1].start, tokens[1].end), (4, 12));
}

#[test]
fn tokens_are_lower_case() {
    assert_eq!(texts(&tokenize("FOO_BAR_BAZ\nfn X(){}")), vec!["foo_bar_baz", "fn", "x"]);
    assert_eq!(texts(&tokenize("Größe ÉTÉ")), vec!["größe", "été"]);
    assert!(tokenize("").is_empty());
    assert!(tokenize(" \t\n(){};.,").is_empty());
}

#[test]
fn long_tokens_are_dropped_and_positions_stay() {
    let long = "a".repeat(101);
    let edge = "b".repeat(100);
    let text = format!("x {} {} y", long, edge);
    let tokens = tokenize(&text);
    assert_eq!(texts(&tokens), vec!["x", edge.as_str(), "y"]);
    let positions: Vec<usize> = tokens.iter().map(|t| t.position).collect();
    assert_eq!(positions, vec![0, 2, 3]);
    // the limit counts bytes: fifty two-byte characters fit, fifty-one do not
    assert_eq!(tokenize(&"é".repeat(50)).len(), 1);
    assert_eq!(tokenize(&"é".repeat(51)).len(), 0);
    let chars: Vec<char> = "€".repeat(33).chars().collect();
    assert!(is_short_token(&chars));
    let chars: Vec<char> = "€".repeat(34).chars().collect();
    assert!(!is_short_token(&chars));
}

#[test]
fn tokens_of_a_concatenation() {
    let pairs = [("foo bar ", "baz"), ("foo", " bar"), ("", "x y"), ("x y", ""), ("a;", "b")];
    for (a, b) in pairs {
        let joined = format!("{}{}", a, b);
        let mut expected: Vec<String> = tokenize(a).iter().map(|t| t.text.clone()).collect();
        expected.extend(tokenize(b).iter().map(|t| t.text.clone()));
        let got: Vec<String> = tokenize(&joined).iter().map(|t| t.text.clone()).collect();
        assert_eq!(got, expected);
    }
    // texts that run into each other merge their tokens
    assert_eq!(texts(&tokenize("foobar")), vec!["foobar"]);
    // separators alone yield nothing, joined or not
    assert!(tokenize(&format!("{}{}", "  ;;", "()  ")).is_empty());
}

fn roots() -> Vec<String> {
    vec!["/w".to_string(), "/linked".to_string()]
}

fn patterns() -> Vec<String> {
    vec!["**/*.log".to_string()]
}

fn changed(path: &str, entry: EntryKind) -> ChangedPath {
    ChangedPath { path: path.to_string(), entry }
}

fn shown(events: &[WatchEvent]) -> Vec<String> {
    events.iter().map(|e| format!("{:?}", e)).collect()
}

#[test]
fn notifications_are_classified() {
    assert!(matches!(classify(ChangeKind::Create, EntryKind::Directory, "/w/d"), Some(WatchEvent::DirCreated(p)) if p == "/w/d"));
    assert!(matches!(classify(ChangeKind::Create, EntryKind::File, "/w/f"), Some(WatchEvent::Changed(p)) if p == "/w/f"));
    assert!(classify(ChangeKind::Create, EntryKind::Neither, "/w/f").is_none());
    assert!(matches!(classify(ChangeKind::Modify, EntryKind::File, "/w/f"), Some(WatchEvent::Changed(_))));
    assert!(classify(ChangeKind::Modify, EntryKind::Directory, "/w/d").is_none());
    assert!(matches!(classify(ChangeKind::Remove, EntryKind::Neither, "/w/f"), Some(WatchEvent::Deleted(p)) if p == "/w/f"));
    assert!(classify(ChangeKind::Other, EntryKind::File, "/w/f").is_none());
}

#[test]
fn notifications_are_filtered() {
    assert!(is_relevant_path("/w/src/a.rs", &roots(), &patterns()));
    assert!(is_relevant_path("/linked/a.rs", &roots(), &patterns()));
    assert!(!is_relevant_path("/elsewhere/a.rs", &roots(), &patterns()));
    assert!(!is_relevant_path("/wx/a.rs", &roots(), &patterns()));
    assert!(!is_relevant_path("/w/.hidden/a.rs", &roots(), &patterns()));
    assert!(!is_relevant_path("/w/node_modules/a.js", &roots(), &patterns()));
    assert!(!is_relevant_path("/w/var/a.rs", &roots(), &patterns()));
    assert!(!is_relevant_path("/w/debug.log", &roots(), &patterns()));
    let paths = vec![
        changed("/w/a.rs", EntryKind::File),
        changed("/w/.git/index", EntryKind::File),
        changed("/w/new", EntryKind::Directory),
        changed("/other/b.rs", EntryKind::File),
    ];
    let events = process_notify_event(ChangeKind::Create, &paths, &roots(), &patterns());
    assert_eq!(shown(&events), vec!["Changed(\"/w/a.rs\")", "DirCreated(\"/w/new\")"]);
    let events = process_notify_event(ChangeKind::Remove, &paths, &roots(), &patterns());
    assert_eq!(shown(&events), vec!["Deleted(\"/w/a.rs\")", "Deleted(\"/w/new\")"]);
    assert!(process_notify_event(ChangeKind::Other, &paths, &roots(), &patterns()).is_empty());
}

#[test]
fn a_batch_names_each_change_once() {
    let batch = vec![
        WatchEvent::Changed("/w/a".to_string()),
        WatchEvent::Deleted("/w/a".to_string()),
        WatchEvent::Changed("/w/a".to_string()),
        WatchEvent::Error("x".to_string()),
        WatchEvent::Changed("/w/b".to_string()),
        WatchEvent::Deleted("/w/a".to_string()),
        WatchEvent::Error("x".to_string()),
        WatchEvent::DirCreated("/w/d".to_string()),
        WatchEvent::DirCreated("/w/d".to_string()),
    ];
    let kept = dedup_batch(batch);
    assert_eq!(
        shown(&kept),
        vec![
            "Changed(\"/w/a\")",
            "Deleted(\"/w/a\")",
            "Error(\"x\")",
            "Changed(\"/w/b\")",
            "Error(\"x\")",
            "DirCreated(\"/w/d\")",
            "DirCreated(\"/w/d\")",
        ]
    );
    assert!(dedup_batch(Vec::new()).is_empty());
}

#[test]
fn watched_roots() {
    let targets = vec![
        LinkTarget { canonical: "/shared/lib".to_string(), is_dir: true },
        LinkTarget { canonical: "/shared/file.txt".to_string(), is_dir: false },
        LinkTarget { canonical: "/shared/node_modules/x".to_string(), is_dir: true },
        LinkTarget { canonical: "/shared/lib".to_string(), is_dir: true },
        LinkTarget { canonical: "/w".to_string(), is_dir: true },
    ];
    assert_eq!(watch_roots("/w", true, &targets), vec!["/w", "/shared/lib", "/w"]);
    assert_eq!(watch_roots("/w", false, &targets), vec!["/w"]);
    assert_eq!(watch_roots("/w", true, &Vec::new()), vec!["/w"]);
}

fn watcher() -> FileWatcher {
    let mut config = IndexerConfig::with_defaults("/data".to_string(), None);
    config.ignore_patterns = patterns();
    let targets = vec![LinkTarget { canonical: "/linked".to_string(), is_dir: true }];
    FileWatcher::new("/w".to_string(), config, &targets)
}

#[test]
fn a_watcher_handles_batches() {
    let watcher = watcher();
    assert_eq!(watcher.root(), "/w");
    assert_eq!(watcher.watched_paths(), &vec!["/w".to_string(), "/linked".to_string()]);
    let batch = Ok(vec![
        Notification { kind: ChangeKind::Create, paths: vec![changed("/w/a.rs", EntryKind::File)] },
        Notification {
            kind: ChangeKind::Modify,
            paths: vec![changed("/w/a.rs", EntryKind::File), changed("/linked/b.rs", EntryKind::File)],
        },
        Notification { kind: ChangeKind::Remove, paths: vec![changed("/w/a.rs", EntryKind::Neither)] },
        Notification { kind: ChangeKind::Modify, paths: vec![changed("/w/x.log", EntryKind::File)] },
        Notification { kind: ChangeKind::Remove, paths: vec![changed("/w/a.rs", EntryKind::Neither)] },
    ]);
    let events = watcher.process_batch(&batch);
    assert_eq!(
        shown(&events),
        vec!["Changed(\"/w/a.rs\")", "Changed(\"/linked/b.rs\")", "Deleted(\"/w/a.rs\")"]
    );
    let failed = Err(vec!["lost".to_string(), "lost".to_string()]);
    assert_eq!(shown(&watcher.process_batch(&failed)), vec!["Error(\"lost\")", "Error(\"lost\")"]);
    assert!(watcher.process_batch(&Ok(Vec::new())).is_empty());
}

#[test]
fn watching_starts_unless_the_root_fails() {
    let watcher = watcher();
    assert!(watcher.start(&Vec::new()).is_ok());
    assert!(watcher.start(&vec![("/linked".to_string(), "gone".to_string())]).is_ok());
    let failures = vec![
        ("/linked".to_string(), "gone".to_string()),
        ("/w".to_string(), "denied".to_string()),
    ];
    assert!(matches!(watcher.start(&failures), Err(YgrepError::WatchError(m)) if m == "denied"));
}

#[test]
fn default_settings() {
    let indexer = IndexerConfig::with_defaults("/data/ygrep".to_string(), Some(16));
    assert_eq!(indexer.data_dir, "/data/ygrep");
    assert_eq!(indexer.max_file_size, 10 * 1024 * 1024);
    assert!(indexer.include_extensions.is_empty());
    assert_eq!(indexer.ignore_patterns.len(), 96);
    assert_eq!(indexer.ignore_patterns[0], "**/node_modules/**");
    assert_eq!(indexer.ignore_patterns[95], "**/*.map");
    assert!(indexer.ignore_patterns.contains(&"Cargo.lock".to_string()));
    assert!(indexer.follow_symlinks);
    assert!(!indexer.respect_gitignore);
    assert!(indexer.deduplicate);
    assert_eq!((indexer.chunk_size, indexer.chunk_overlap), (50, 10));
    assert!(indexer.check_chunks());
    assert_eq!(indexer.threads, 4);
    assert_eq!(IndexerConfig::with_defaults(String::new(), Some(3)).threads, 3);
    assert_eq!(IndexerConfig::with_defaults(String::new(), None).threads, 2);
    assert_eq!(default_ignore_patterns(), indexer.ignore_patterns);
    let search = SearchConfig::default();
    assert_eq!((search.bm25_weight, search.vector_weight), (500_000, 500_000));
    assert_eq!((search.default_limit, search.max_limit), (10, 100));
    assert_eq!(search.min_score, 100_000);
    assert!(search.fuzzy_enabled);
    assert_eq!(search.fuzzy_distance, 1);
    assert!(search.check_weights());
    let daemon = DaemonConfig::default();
    assert_eq!(daemon.socket_path, None);
    assert_eq!((daemon.idle_timeout, daemon.max_concurrent_ops), (3600, 4));
    let output = OutputConfig::default();
    assert!(output.ai_mode && output.show_content && !output.show_scores);
    assert_eq!((output.context_lines, output.max_lines_per_result), (2, 10));
}

#[test]
fn socket_paths() {
    assert_eq!(default_socket_path(Some("/run/user/1"), Some("/home/u")), "/run/user/1/ygrep/ygrep.sock");
    assert_eq!(default_socket_path(None, Some("/home/u")), "/home/u/.ygrep/ygrep.sock");
    assert_eq!(default_socket_path(None, None), "/tmp/ygrep/ygrep.sock");
    let mut config = Config::with_defaults("/data".to_string(), None);
    assert_eq!(config.socket_path(None, None), "/tmp/ygrep/ygrep.sock");
    config.daemon.socket_path = Some("/custom.sock".to_string());
    assert_eq!(config.socket_path(Some("/run"), None), "/custom.sock");
}

#[test]
fn test_workspace_open() {
    let workspace = Workspace::open_with_config("/", Config::with_defaults("/data".to_string(), None));
    assert!(std::path::Path::new(workspace.root()).exists());
}

#[test]
fn workspace_layout() {
    let id = hash_path("/home/u/project");
    assert_eq!(id, format!("{:016x}", xxhash_rust::xxh3::xxh3_64(b"/home/u/project")));
    let w = Workspace::open_with_config(
        "/home/u/project",
        Config::with_defaults("/data/ygrep".to_string(), None),
    );
    assert_eq!(w.root(), "/home/u/project");
    assert_eq!(w.index_path(), format!("/data/ygrep/indexes/{}", id));
    assert_eq!(w.vector_path(), format!("/data/ygrep/indexes/{}/vectors", id));
    assert_eq!(w.indexer_config().chunk_size, 50);
    assert!(w.has_semantic_index(1));
    assert!(!w.has_semantic_index(0));
    let stats = IndexStats { indexed: 12, skipped: 1, errors: 0, unique_paths: 13 };
    let m = metadata("/home/u/project", "2024-05-01T10:00:00+00:00", &stats);
    assert_eq!(m.workspace, "/home/u/project");
    assert_eq!(m.indexed_at, "2024-05-01T10:00:00+00:00");
    assert_eq!(m.files_indexed, 12);
    assert_eq!(IndexStats::default(), IndexStats { indexed: 0, skipped: 0, errors: 0, unique_paths: 0 });
}

fn info(hash: &str, workspace: Option<&str>, size: u64) -> IndexInfo {
    IndexInfo {
        hash: hash.to_string(),
        path: format!("/data/indexes/{}", hash),
        workspace: workspace.map(|w| w.to_string()),
        size_bytes: size,
    }
}

#[test]
fn the_registry_finds_orphans_and_names() {
    assert!(should_clean(&info("a", None, 0), true));
    assert!(should_clean(&info("a", Some("/gone"), 0), false));
    assert!(!should_clean(&info("a", Some("/here"), 0), true));
    let one = info("0123456789abcdef", Some("/home/u/project"), 0);
    assert!(is_named_by_hash(&one, "0123456789abcdef"));
    assert!(!is_named_by_hash(&one, "0123456789abcde"));
    assert!(is_named_by_workspace(&one, "project", Some("/home/u/project")));
    assert!(!is_named_by_workspace(&one, "project", Some("/home/u/other")));
    assert!(is_named_by_workspace(&one, "u/proj", None));
    assert!(!is_named_by_workspace(&one, "nope", None));
    assert!(!is_named_by_workspace(&info("a", None, 0), "a", None));
    assert_eq!(total_size(&vec![info("a", None, 5), info("b", None, 7)]), Some(12));
    assert_eq!(total_size(&Vec::new()), Some(0));
    assert_eq!(total_size(&vec![info("a", None, u64::MAX), info("b", None, 1)]), None);
}

#[test]
fn daemon_requests() {
    assert_eq!(Daemon::new(), Daemon::default());
    assert_eq!(Request::Search { query: "q".to_string(), limit: Some(3) }.kind(), "search");
    assert_eq!(Request::Status.kind(), "status");
    assert_eq!(Request::Ping.kind(), "ping");
    assert_eq!(Request::Shutdown.kind(), "shutdown");
}
