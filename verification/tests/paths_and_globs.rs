use ygrep_core::glob::{glob_match, glob_match_dir, matches_ignore_pattern};
use ygrep_core::paths::{
    extension, file_name, is_hidden, is_ignored_dir, is_pruned_dir_name, join, path_is_under,
    relative_path,
};

#[test]
fn test_glob_match() {
    assert!(glob_match("**/node_modules/**", "foo/node_modules/bar/baz.js"));
    assert!(glob_match("**/.git/**", ".git/config"));
    assert!(glob_match("*.log", "debug.log"));
    assert!(!glob_match("*.log", "debug.txt"));
}

#[test]
fn test_is_hidden() {
    assert!(is_hidden("/foo/.git/config"));
    assert!(is_hidden("/foo/.hidden"));
    assert!(!is_hidden("/foo/bar/baz.rs"));
}

#[test]
fn test_is_ignored_dir() {
    assert!(is_ignored_dir("/foo/node_modules/bar"));
    assert!(is_ignored_dir("/foo/vendor/package"));
    assert!(!is_ignored_dir("/foo/src/main.rs"));
}

#[test]
fn glob_extension_anywhere() {
    assert!(glob_match("**/*.log", "a/b/c.log"));
    assert!(!glob_match("**/*.log", "a/b/log"));
    assert!(glob_match("**/*.min.js", "static/app.min.js"));
    assert!(!glob_match("**/*.min.js", "static/app.js"));
}

#[test]
fn glob_directory_anywhere() {
    assert!(glob_match("**/target/**", "/work/target/debug/x"));
    assert!(glob_match("**/target/**", "target/debug/x"));
    assert!(glob_match("**/target/**", "/work/target"));
    assert!(!glob_match("**/target/**", "/work/targets/x"));
    assert!(!glob_match("**/target/**", "/work/mytarget/x"));
}

#[test]
fn glob_suffix_and_prefix() {
    assert!(glob_match("**/Makefile", "src/Makefile"));
    assert!(glob_match("**/Makefile", "Makefile"));
    assert!(!glob_match("**/Makefile", "src/Makefile.am"));
    assert!(glob_match("docs/**", "docs/a.md"));
    assert!(glob_match("docs/**", "x/docs/a.md"));
    assert!(!glob_match("docs/**", "x/doc/a.md"));
}

#[test]
fn glob_exact_component() {
    assert!(glob_match("Cargo.lock", "Cargo.lock"));
    assert!(glob_match("Cargo.lock", "/w/Cargo.lock"));
    assert!(glob_match("Cargo.lock", "/w/Cargo.lock/x"));
    assert!(!glob_match("Cargo.lock", "/w/Cargo.lock.bak"));
    assert!(!glob_match("Cargo.lock", "/w/xCargo.lock"));
}

#[test]
fn glob_short_double_star_is_a_suffix_pattern() {
    assert!(glob_match("**/**", "a/**"));
    assert!(!glob_match("**/**", "a/b"));
}

#[test]
fn glob_dir_patterns() {
    assert!(glob_match_dir("**/node_modules/**", "/w/node_modules"));
    assert!(glob_match_dir("**/node_modules/**", "/w/node_modules/x"));
    assert!(glob_match_dir("**/build", "/w/build"));
    assert!(glob_match_dir("logs/**", "/w/logs"));
    assert!(glob_match_dir("tmp", "/w/tmp"));
    assert!(!glob_match_dir("tmp", "/w/tmpx"));
}

#[test]
fn ignore_list_matches_any_pattern() {
    let patterns = vec!["**/*.png".to_string(), "**/dist/**".to_string()];
    assert!(matches_ignore_pattern("/w/a.png", &patterns));
    assert!(matches_ignore_pattern("/w/dist/a.js", &patterns));
    assert!(!matches_ignore_pattern("/w/src/a.js", &patterns));
    assert!(!matches_ignore_pattern("/w/src/a.js", &Vec::new()));
}

#[test]
fn hidden_file_in_plain_directory() {
    assert!(is_hidden("src/.foo"));
    assert!(is_hidden(".foo"));
    assert!(!is_hidden("src/foo.bar"));
    assert!(!is_hidden("src/a.b/c"));
    assert!(!is_hidden(""));
}

#[test]
fn pruned_names_are_whole_components() {
    assert!(is_ignored_dir("/w/.git/config"));
    assert!(is_ignored_dir("/w/htmlcov"));
    assert!(is_ignored_dir("temp/x"));
    assert!(!is_ignored_dir("/w/targets/x"));
    assert!(!is_ignored_dir("/w/my_build/x"));
    assert!(!is_ignored_dir("/w/log/x"));
    assert!(is_pruned_dir_name("node_modules"));
    assert!(is_pruned_dir_name(".svn"));
    assert!(!is_pruned_dir_name("src"));
    assert!(!is_pruned_dir_name("log"));
}

#[test]
fn extensions_and_names() {
    assert_eq!(extension("/w/a.rs"), Some("rs".to_string()));
    assert_eq!(extension("/w/a.tar.gz"), Some("gz".to_string()));
    assert_eq!(extension("/w/.gitignore"), None);
    assert_eq!(extension("/w/Makefile"), None);
    assert_eq!(extension("/w.d/Makefile"), None);
    assert_eq!(extension("/w/a."), Some("".to_string()));
    assert_eq!(file_name("/w/a.rs"), "a.rs");
    assert_eq!(file_name("a.rs"), "a.rs");
    assert_eq!(file_name("/w/"), "");
}

#[test]
fn relative_paths() {
    assert_eq!(relative_path("/w/src/a.rs", "/w"), "src/a.rs");
    assert_eq!(relative_path("/w/src/a.rs", "/w/"), "src/a.rs");
    assert_eq!(relative_path("/w", "/w"), "");
    assert_eq!(relative_path("/wx/a.rs", "/w"), "/wx/a.rs");
    assert_eq!(relative_path("/other/a.rs", "/w"), "/other/a.rs");
    assert_eq!(relative_path("/w/a.rs", ""), "/w/a.rs");
    assert_eq!(relative_path("/w/a.rs", "/"), "w/a.rs");
    assert!(path_is_under("/w/a.rs", ""));
    assert!(path_is_under("/w/src/a.rs", "/w"));
    assert!(path_is_under("/w", "/w"));
    assert!(!path_is_under("/wx/a.rs", "/w"));
}

#[test]
fn joining_paths() {
    assert_eq!(join("/data", "indexes"), "/data/indexes");
    assert_eq!(join("/data/", "indexes"), "/data/indexes");
    assert_eq!(join("", "indexes"), "indexes");
}
