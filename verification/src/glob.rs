//! The narrow glob dialect of the ignore lists.
//!
//! A pattern is read in one of six ways, tried in this order:
//! `**/name/**` (a directory name anywhere), `**/*.ext` (an extension
//! anywhere), `**/suffix` (the path's end), `prefix/**` (the path's start),
//! `*.ext` (an extension), and otherwise a whole path or path component.

use vstd::prelude::*;
use crate::text::{
    concat, contains, ends_with, has_infix, has_prefix, has_suffix, slice_of, starts_with,
    to_chars, views,
};

verus! {

/// The pattern has the form `**/name/**`; the two markers do not overlap.
pub open spec fn is_dir_anywhere(pattern: Seq<char>) -> bool {
    pattern.len() >= 6 && has_prefix(pattern, "**/"@) && has_suffix(pattern, "/**"@)
}

/// What a file path must look like to match a pattern.
pub open spec fn glob_matches(pattern: Seq<char>, path: Seq<char>) -> bool {
    if is_dir_anywhere(pattern) {
        let name = pattern.subrange(3, pattern.len() - 3);
        has_infix(path, "/"@ + name + "/"@) || has_prefix(path, name + "/"@) || has_suffix(
            path,
            "/"@ + name,
        )
    } else if has_prefix(pattern, "**/*."@) {
        has_suffix(path, "."@ + pattern.subrange(5, pattern.len() as int))
    } else if has_prefix(pattern, "**/"@) {
        let suffix = pattern.subrange(3, pattern.len() as int);
        has_suffix(path, suffix) || has_suffix(path, "/"@ + suffix)
    } else if has_suffix(pattern, "/**"@) {
        let prefix = pattern.subrange(0, pattern.len() - 3);
        has_prefix(path, prefix) || has_infix(path, "/"@ + prefix)
    } else if has_prefix(pattern, "*."@) {
        has_suffix(path, "."@ + pattern.subrange(2, pattern.len() as int))
    } else {
        path == pattern || has_suffix(path, "/"@ + pattern) || has_infix(
            path,
            "/"@ + pattern + "/"@,
        )
    }
}

/// What a directory path must look like to match a pattern: the directory
/// is named at the path's end.
pub open spec fn glob_matches_dir(pattern: Seq<char>, path: Seq<char>) -> bool {
    if is_dir_anywhere(pattern) {
        let name = pattern.subrange(3, pattern.len() - 3);
        has_suffix(path, "/"@ + name) || has_suffix(path, name) || has_infix(
            path,
            "/"@ + name + "/"@,
        )
    } else if has_prefix(pattern, "**/"@) {
        let suffix = pattern.subrange(3, pattern.len() as int);
        has_suffix(path, suffix) || has_suffix(path, "/"@ + suffix)
    } else if has_suffix(pattern, "/**"@) {
        let prefix = pattern.subrange(0, pattern.len() - 3);
        has_suffix(path, prefix) || has_suffix(path, "/"@ + prefix)
    } else {
        has_suffix(path, pattern) || has_suffix(path, "/"@ + pattern)
    }
}

/// Some pattern of the list matches the path.
pub open spec fn any_glob_matches(patterns: Seq<Seq<char>>, path: Seq<char>) -> bool {
    exists|i: int| 0 <= i < patterns.len() && glob_matches(#[trigger] patterns[i], path)
}

fn glob_match_chars(pattern: &[char], path: &[char]) -> (r: bool)
    ensures
        r == glob_matches(pattern@, path@),
{
    proof {
        reveal_strlit("**/");
        reveal_strlit("/**");
        reveal_strlit("**/*.");
        reveal_strlit("*.");
        reveal_strlit("/");
        reveal_strlit(".");
    }
    let any_dir = to_chars("**/");
    let dir_any = to_chars("/**");
    let slash = to_chars("/");
    let dot = to_chars(".");
    let n = pattern.len();
    if n >= 6 && starts_with(pattern, &any_dir) && ends_with(pattern, &dir_any) {
        let name = slice_of(pattern, 3, n - 3);
        let slash_name = concat(&slash, &name);
        let name_slash = concat(&name, &slash);
        let slash_name_slash = concat(&slash_name, &slash);
        return contains(path, &slash_name_slash) || starts_with(path, &name_slash) || ends_with(
            path,
            &slash_name,
        );
    }
    if starts_with(pattern, &to_chars("**/*.")) {
        let ext = slice_of(pattern, 5, n);
        return ends_with(path, &concat(&dot, &ext));
    }
    if starts_with(pattern, &any_dir) {
        let suffix = slice_of(pattern, 3, n);
        return ends_with(path, &suffix) || ends_with(path, &concat(&slash, &suffix));
    }
    if ends_with(pattern, &dir_any) {
        let prefix = slice_of(pattern, 0, n - 3);
        return starts_with(path, &prefix) || contains(path, &concat(&slash, &prefix));
    }
    if starts_with(pattern, &to_chars("*.")) {
        let ext = slice_of(pattern, 2, n);
        return ends_with(path, &concat(&dot, &ext));
    }
    let slash_pattern = concat(&slash, pattern);
    let whole = path.len() == n && starts_with(path, pattern);
    proof {
        if path@.len() == n {
            assert(path@.subrange(0, n as int) =~= path@);
        }
        assert(whole == (path@ == pattern@));
    }
    whole || ends_with(path, &slash_pattern) || contains(path, &concat(&slash_pattern, &slash))
}

/// Whether a file path matches an ignore pattern.
pub fn glob_match(pattern: &str, path: &str) -> (r: bool)
    ensures
        r == glob_matches(pattern@, path@),
{
    let pattern_chars = to_chars(pattern);
    let path_chars = to_chars(path);
    glob_match_chars(&pattern_chars, &path_chars)
}

/// Whether a directory path matches an ignore pattern.
pub fn glob_match_dir(pattern: &str, path: &str) -> (r: bool)
    ensures
        r == glob_matches_dir(pattern@, path@),
{
    proof {
        reveal_strlit("**/");
        reveal_strlit("/**");
        reveal_strlit("/");
    }
    let pattern_chars = to_chars(pattern);
    let pattern: &[char] = &pattern_chars;
    let path_chars = to_chars(path);
    let path: &[char] = &path_chars;
    let any_dir = to_chars("**/");
    let dir_any = to_chars("/**");
    let slash = to_chars("/");
    let n = pattern.len();
    if n >= 6 && starts_with(pattern, &any_dir) && ends_with(pattern, &dir_any) {
        let name = slice_of(pattern, 3, n - 3);
        let slash_name = concat(&slash, &name);
        let slash_name_slash = concat(&slash_name, &slash);
        return ends_with(path, &slash_name) || ends_with(path, &name) || contains(
            path,
            &slash_name_slash,
        );
    }
    if starts_with(pattern, &any_dir) {
        let suffix = slice_of(pattern, 3, n);
        return ends_with(path, &suffix) || ends_with(path, &concat(&slash, &suffix));
    }
    if ends_with(pattern, &dir_any) {
        let prefix = slice_of(pattern, 0, n - 3);
        return ends_with(path, &prefix) || ends_with(path, &concat(&slash, &prefix));
    }
    ends_with(path, pattern) || ends_with(path, &concat(&slash, pattern))
}

/// Whether a path matches any pattern of an ignore list.
pub fn matches_ignore_pattern(path: &str, patterns: &Vec<String>) -> (r: bool)
    ensures
        r == any_glob_matches(views(patterns@), path@),
{
    let path_chars = to_chars(path);
    let mut i: usize = 0;
    while i < patterns.len()
        invariant
            i <= patterns.len(),
            path_chars@ == path@,
            forall|j: int| 0 <= j < i ==> !glob_matches(#[trigger] views(patterns@)[j], path@),
        decreases patterns.len() - i,
    {
        let pattern_chars = to_chars(patterns[i].as_str());
        assert(views(patterns@)[i as int] == patterns@[i as int]@);
        if glob_match_chars(&pattern_chars, &path_chars) {
            return true;
        }
        i += 1;
    }
    false
}

} // verus!
