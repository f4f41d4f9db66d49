//! Deciding which entries of a directory walk are indexed.
//!
//! The walk itself belongs to the caller. For each entry it asks
//! [`FileWalker::enters`] whether to look at it at all, and for each file
//! [`FileWalker::accept`] whether it is indexed and under which canonical
//! path.

use vstd::prelude::*;
use crate::config::IndexerConfig;
use crate::error::YgrepError;
use crate::glob::{any_glob_matches, matches_ignore_pattern};
use crate::paths::{
    extension, extension_of, file_name, file_name_of, is_pruned_dir_name, is_pruned_name,
};
use crate::symlink::{resolve_spec, PathProbe, ResolvedPath, SymlinkResolver};
use crate::text::{append_strings, lowercase_of, same_text, to_chars, views};

verus! {

/// A file that the walk hands to the indexer.
#[derive(Debug, Clone)]
pub struct WalkEntry {
    /// The path as it was met, possibly a symbolic link.
    pub path: String,
    /// The canonical path it leads to.
    pub canonical: String,
    /// Whether `path` is a symbolic link.
    pub is_symlink: bool,
}

/// Counters of a walk.
#[derive(Debug, Clone, Copy, PartialEq, Eq, Structural)]
pub struct WalkStats {
    /// Distinct canonical paths handed out.
    pub visited_paths: usize,
}

impl Default for WalkStats {
    fn default() -> (s: Self)
        ensures
            s.visited_paths == 0,
    {
        WalkStats { visited_paths: 0 }
    }
}

/// How many leading bytes of a file are examined for NUL bytes.
pub const SNIFF_LEN: usize = 8192;

/// Source files of programming and shell languages.
pub open spec fn language_extensions_spec() -> Seq<Seq<char>> {
    seq![
        "rs"@,
        "py"@,
        "js"@,
        "ts"@,
        "jsx"@,
        "tsx"@,
        "mjs"@,
        "mts"@,
        "cjs"@,
        "cts"@,
        "go"@,
        "rb"@,
        "php"@,
        "java"@,
        "c"@,
        "cpp"@,
        "cc"@,
        "h"@,
        "hpp"@,
        "hh"@,
        "cs"@,
        "swift"@,
        "kt"@,
        "scala"@,
        "clj"@,
        "ex"@,
        "exs"@,
        "erl"@,
        "hs"@,
        "ml"@,
        "fs"@,
        "r"@,
        "jl"@,
        "lua"@,
        "pl"@,
        "pm"@,
        "sh"@,
        "bash"@,
        "zsh"@,
        "fish"@,
        "ps1"@,
        "bat"@,
        "cmd"@,
    ]
}

/// Source files of programming and shell languages.
pub fn language_extensions() -> (v: Vec<String>)
    ensures
        views(v@) == language_extensions_spec(),
{
    let mut v: Vec<String> = Vec::new();
    v.push("rs".to_owned());
    v.push("py".to_owned());
    v.push("js".to_owned());
    v.push("ts".to_owned());
    v.push("jsx".to_owned());
    v.push("tsx".to_owned());
    v.push("mjs".to_owned());
    v.push("mts".to_owned());
    v.push("cjs".to_owned());
    v.push("cts".to_owned());
    v.push("go".to_owned());
    v.push("rb".to_owned());
    v.push("php".to_owned());
    v.push("java".to_owned());
    v.push("c".to_owned());
    v.push("cpp".to_owned());
    v.push("cc".to_owned());
    v.push("h".to_owned());
    v.push("hpp".to_owned());
    v.push("hh".to_owned());
    v.push("cs".to_owned());
    v.push("swift".to_owned());
    v.push("kt".to_owned());
    v.push("scala".to_owned());
    v.push("clj".to_owned());
    v.push("ex".to_owned());
    v.push("exs".to_owned());
    v.push("erl".to_owned());
    v.push("hs".to_owned());
    v.push("ml".to_owned());
    v.push("fs".to_owned());
    v.push("r".to_owned());
    v.push("jl".to_owned());
    v.push("lua".to_owned());
    v.push("pl".to_owned());
    v.push("pm".to_owned());
    v.push("sh".to_owned());
    v.push("bash".to_owned());
    v.push("zsh".to_owned());
    v.push("fish".to_owned());
    v.push("ps1".to_owned());
    v.push("bat".to_owned());
    v.push("cmd".to_owned());
    assert(views(v@) =~= language_extensions_spec());
    v
}

/// Web, markup and template files.
pub open spec fn markup_extensions_spec() -> Seq<Seq<char>> {
    seq![
        "html"@,
        "htm"@,
        "css"@,
        "scss"@,
        "sass"@,
        "less"@,
        "xml"@,
        "json"@,
        "yaml"@,
        "yml"@,
        "toml"@,
        "twig"@,
        "blade"@,
        "ejs"@,
        "hbs"@,
        "handlebars"@,
        "mustache"@,
        "pug"@,
        "jade"@,
        "erb"@,
        "haml"@,
        "njk"@,
        "nunjucks"@,
        "jinja"@,
        "jinja2"@,
        "liquid"@,
        "eta"@,
    ]
}

/// Web, markup and template files.
pub fn markup_extensions() -> (v: Vec<String>)
    ensures
        views(v@) == markup_extensions_spec(),
{
    let mut v: Vec<String> = Vec::new();
    v.push("html".to_owned());
    v.push("htm".to_owned());
    v.push("css".to_owned());
    v.push("scss".to_owned());
    v.push("sass".to_owned());
    v.push("less".to_owned());
    v.push("xml".to_owned());
    v.push("json".to_owned());
    v.push("yaml".to_owned());
    v.push("yml".to_owned());
    v.push("toml".to_owned());
    v.push("twig".to_owned());
    v.push("blade".to_owned());
    v.push("ejs".to_owned());
    v.push("hbs".to_owned());
    v.push("handlebars".to_owned());
    v.push("mustache".to_owned());
    v.push("pug".to_owned());
    v.push("jade".to_owned());
    v.push("erb".to_owned());
    v.push("haml".to_owned());
    v.push("njk".to_owned());
    v.push("nunjucks".to_owned());
    v.push("jinja".to_owned());
    v.push("jinja2".to_owned());
    v.push("liquid".to_owned());
    v.push("eta".to_owned());
    assert(views(v@) =~= markup_extensions_spec());
    v
}

/// Documentation, data and configuration files.
pub open spec fn prose_and_config_extensions_spec() -> Seq<Seq<char>> {
    seq![
        "md"@,
        "markdown"@,
        "rst"@,
        "txt"@,
        "csv"@,
        "sql"@,
        "graphql"@,
        "gql"@,
        "dockerfile"@,
        "makefile"@,
        "cmake"@,
        "gradle"@,
        "pom"@,
        "ini"@,
        "conf"@,
        "cfg"@,
        "vue"@,
        "svelte"@,
        "astro"@,
        "tf"@,
        "hcl"@,
        "nix"@,
        "proto"@,
        "thrift"@,
        "avsc"@,
        "gitignore"@,
        "gitattributes"@,
        "editorconfig"@,
        "env"@,
    ]
}

/// Documentation, data and configuration files.
pub fn prose_and_config_extensions() -> (v: Vec<String>)
    ensures
        views(v@) == prose_and_config_extensions_spec(),
{
    let mut v: Vec<String> = Vec::new();
    v.push("md".to_owned());
    v.push("markdown".to_owned());
    v.push("rst".to_owned());
    v.push("txt".to_owned());
    v.push("csv".to_owned());
    v.push("sql".to_owned());
    v.push("graphql".to_owned());
    v.push("gql".to_owned());
    v.push("dockerfile".to_owned());
    v.push("makefile".to_owned());
    v.push("cmake".to_owned());
    v.push("gradle".to_owned());
    v.push("pom".to_owned());
    v.push("ini".to_owned());
    v.push("conf".to_owned());
    v.push("cfg".to_owned());
    v.push("vue".to_owned());
    v.push("svelte".to_owned());
    v.push("astro".to_owned());
    v.push("tf".to_owned());
    v.push("hcl".to_owned());
    v.push("nix".to_owned());
    v.push("proto".to_owned());
    v.push("thrift".to_owned());
    v.push("avsc".to_owned());
    v.push("gitignore".to_owned());
    v.push("gitattributes".to_owned());
    v.push("editorconfig".to_owned());
    v.push("env".to_owned());
    assert(views(v@) =~= prose_and_config_extensions_spec());
    v
}

/// The extensions that mark a file as text.
pub open spec fn text_extensions_spec() -> Seq<Seq<char>> {
    language_extensions_spec() + markup_extensions_spec() + prose_and_config_extensions_spec()
}

/// The extensions that mark a file as text.
pub fn text_extensions() -> (v: Vec<String>)
    ensures
        views(v@) == text_extensions_spec(),
{
    let mut v = language_extensions();
    append_strings(&mut v, markup_extensions());
    append_strings(&mut v, prose_and_config_extensions());
    v
}

/// The file names, in lower case, that mark a file as text.
pub open spec fn text_file_names_spec() -> Seq<Seq<char>> {
    seq![
        "dockerfile"@,
        "makefile"@,
        "rakefile"@,
        "gemfile"@,
        "procfile"@,
        "readme"@,
        "license"@,
        "copying"@,
        "authors"@,
        "changelog"@,
        "todo"@,
        "contributing"@,
    ]
}

/// The file names, in lower case, that mark a file as text.
pub fn text_file_names() -> (v: Vec<String>)
    ensures
        views(v@) == text_file_names_spec(),
{
    let mut v: Vec<String> = Vec::new();
    v.push("dockerfile".to_owned());
    v.push("makefile".to_owned());
    v.push("rakefile".to_owned());
    v.push("gemfile".to_owned());
    v.push("procfile".to_owned());
    v.push("readme".to_owned());
    v.push("license".to_owned());
    v.push("copying".to_owned());
    v.push("authors".to_owned());
    v.push("changelog".to_owned());
    v.push("todo".to_owned());
    v.push("contributing".to_owned());
    assert(views(v@) =~= text_file_names_spec());
    v
}

/// The path's extension, in lower case, is a known text extension.
pub open spec fn has_text_extension(path: Seq<char>) -> bool {
    match extension_of(path) {
        Some(e) => text_extensions_spec().contains(lowercase_of(e)),
        None => false,
    }
}

/// The path's file name, in lower case, is a known text file name.
pub open spec fn has_text_name(path: Seq<char>) -> bool {
    text_file_names_spec().contains(lowercase_of(file_name_of(path)))
}

/// None of the first [`SNIFF_LEN`] bytes is NUL.
pub open spec fn no_nul_in_head(bytes: Seq<u8>) -> bool {
    forall|i: int| 0 <= i < bytes.len() && i < SNIFF_LEN ==> bytes[i] != 0
}

/// A file counts as text by its extension or name, or else by its content
/// where that could be read.
pub open spec fn is_text(path: Seq<char>, content: Option<Seq<u8>>) -> bool {
    has_text_extension(path) || has_text_name(path) || (content is Some && no_nul_in_head(
        content->0,
    ))
}

/// The lower-case forms of a list of texts.
pub open spec fn lowered(list: Seq<Seq<char>>) -> Seq<Seq<char>> {
    Seq::new(list.len(), |i: int| lowercase_of(list[i]))
}

/// The path passes the extension allowlist: the list is empty, or holds
/// the path's extension, both taken in lower case.
pub open spec fn passes_allowlist(path: Seq<char>, allowed: Seq<Seq<char>>) -> bool {
    allowed.len() == 0 || match extension_of(path) {
        Some(e) => lowered(allowed).contains(lowercase_of(e)),
        None => false,
    }
}

/// A directory entry is looked at: its name does not begin with a dot, and
/// a directory is not one of the pruned names.
pub open spec fn entry_enters(name: Seq<char>, is_dir: bool) -> bool {
    !(name.len() > 0 && name[0] == '.') && !(is_dir && is_pruned_name(name))
}

/// A file passes every filter that comes before resolving it.
pub open spec fn is_candidate(
    path: Seq<char>,
    is_dir: bool,
    gitignored: bool,
    content: Option<Seq<u8>>,
    patterns: Seq<Seq<char>>,
    allowed: Seq<Seq<char>>,
) -> bool {
    &&& !is_dir
    &&& !gitignored
    &&& !any_glob_matches(patterns, path)
    &&& passes_allowlist(path, allowed)
    &&& is_text(path, content)
}

/// Whether `text` is an element of `list`.
pub fn is_listed(list: &Vec<String>, text: &str) -> (r: bool)
    ensures
        r == views(list@).contains(text@),
{
    let mut i: usize = 0;
    while i < list.len()
        invariant
            i <= list.len(),
            forall|j: int| 0 <= j < i ==> views(list@)[j] != text@,
        decreases list.len() - i,
    {
        if same_text(list[i].as_str(), text) {
            assert(views(list@)[i as int] == text@);
            return true;
        }
        i += 1;
    }
    false
}

/// Whether the path's extension marks it as text.
pub fn has_known_text_extension(path: &str) -> (r: bool)
    ensures
        r == has_text_extension(path@),
{
    match extension(path) {
        Some(e) => {
            let lower = e.as_str().to_lowercase();
            is_listed(&text_extensions(), lower.as_str())
        },
        None => false,
    }
}

/// Whether the path's file name marks it as text.
pub fn has_known_text_name(path: &str) -> (r: bool)
    ensures
        r == has_text_name(path@),
{
    let lower = file_name(path).as_str().to_lowercase();
    is_listed(&text_file_names(), lower.as_str())
}

/// Whether none of the first [`SNIFF_LEN`] bytes is NUL.
pub fn head_has_no_nul(bytes: &[u8]) -> (r: bool)
    ensures
        r == no_nul_in_head(bytes@),
{
    let mut i: usize = 0;
    while i < bytes.len() && i < SNIFF_LEN
        invariant
            i <= bytes.len(),
            i <= SNIFF_LEN,
            forall|j: int| 0 <= j < i ==> bytes@[j] != 0,
        decreases bytes.len() - i,
    {
        if bytes[i] == 0 {
            return false;
        }
        i += 1;
    }
    true
}

/// Whether the content of a file must be read to tell if it is text: its
/// extension and name decide nothing.
pub fn needs_content(path: &str) -> (r: bool)
    ensures
        r == !(has_text_extension(path@) || has_text_name(path@)),
{
    !(has_known_text_extension(path) || has_known_text_name(path))
}

/// Whether a file is text. `content` holds the file's bytes where the
/// caller has read them.
pub fn is_text_file(path: &str, content: Option<&[u8]>) -> (r: bool)
    ensures
        r == is_text(
            path@,
            match content {
                Some(b) => Some(b@),
                None => None,
            },
        ),
{
    if has_known_text_extension(path) || has_known_text_name(path) {
        return true;
    }
    match content {
        Some(bytes) => head_has_no_nul(bytes),
        None => false,
    }
}

/// Whether the path passes the extension allowlist.
pub fn is_allowed_extension(path: &str, allowed: &Vec<String>) -> (r: bool)
    ensures
        r == passes_allowlist(path@, views(allowed@)),
{
    if allowed.len() == 0 {
        return true;
    }
    let ext = match extension(path) {
        Some(e) => e.as_str().to_lowercase(),
        None => {
            return false;
        },
    };
    let mut i: usize = 0;
    while i < allowed.len()
        invariant
            i <= allowed.len(),
            extension_of(path@) is Some,
            ext@ == lowercase_of(extension_of(path@)->0),
            forall|j: int| 0 <= j < i ==> lowered(views(allowed@))[j] != ext@,
        decreases allowed.len() - i,
    {
        let candidate = allowed[i].as_str().to_lowercase();
        assert(lowered(views(allowed@))[i as int] == candidate@);
        if same_text(candidate.as_str(), ext.as_str()) {
            return true;
        }
        i += 1;
    }
    false
}

/// Walks decide here; the resolver inside remembers what was handed out.
pub struct FileWalker {
    root: String,
    config: IndexerConfig,
    symlink_resolver: SymlinkResolver,
}

/// The longest chain of links a walk follows.
pub const WALK_MAX_DEPTH: usize = 20;

impl FileWalker {
    /// The root directory.
    pub closed spec fn root_view(&self) -> Seq<char> {
        self.root@
    }

    /// The ignore patterns in force.
    pub closed spec fn patterns(&self) -> Seq<Seq<char>> {
        views(self.config.ignore_patterns@)
    }

    /// The extension allowlist in force.
    pub closed spec fn allowed_extensions(&self) -> Seq<Seq<char>> {
        views(self.config.include_extensions@)
    }

    /// Whether links are followed.
    pub closed spec fn follows_symlinks(&self) -> bool {
        self.symlink_resolver.follows_symlinks()
    }

    /// The canonical paths handed out so far.
    pub closed spec fn visited(&self) -> Seq<Seq<char>> {
        self.symlink_resolver.visited()
    }

    /// The walker's settings never change.
    pub open spec fn same_settings(&self, other: &Self) -> bool {
        &&& self.root_view() == other.root_view()
        &&& self.patterns() == other.patterns()
        &&& self.allowed_extensions() == other.allowed_extensions()
        &&& self.follows_symlinks() == other.follows_symlinks()
    }

    /// A walker over `root` that has handed out nothing.
    pub fn new(root: String, config: IndexerConfig) -> (r: Result<Self, YgrepError>)
        ensures
            r matches Ok(w) && w.root_view() == root@ && w.patterns() == views(
                config.ignore_patterns@,
            ) && w.allowed_extensions() == views(config.include_extensions@)
                && w.follows_symlinks() == config.follow_symlinks && w.visited() == Seq::<
                Seq<char>,
            >::empty() && w.visited().no_duplicates(),
    {
        let symlink_resolver = SymlinkResolver::new(config.follow_symlinks, WALK_MAX_DEPTH);
        Ok(FileWalker { root, config, symlink_resolver })
    }

    /// The root directory.
    pub fn root(&self) -> (r: &str)
        ensures
            r@ == self.root_view(),
    {
        self.root.as_str()
    }

    /// The counters of the walk so far.
    pub fn stats(&self) -> (s: WalkStats)
        ensures
            s.visited_paths == self.visited().len(),
    {
        WalkStats { visited_paths: self.symlink_resolver.visited_count() }
    }

    /// Whether a directory entry is looked at. A directory that is not is
    /// not descended into.
    pub fn enters(name: &str, is_dir: bool) -> (r: bool)
        ensures
            r == entry_enters(name@, is_dir),
    {
        let chars = to_chars(name);
        if chars.len() > 0 && chars[0] == '.' {
            return false;
        }
        !(is_dir && is_pruned_dir_name(name))
    }

    /// Whether a file passes the filters that come before resolving it.
    pub fn is_candidate_file(
        &self,
        path: &str,
        is_dir: bool,
        gitignored: bool,
        content: Option<&[u8]>,
    ) -> (r: bool)
        ensures
            r == is_candidate(
                path@,
                is_dir,
                gitignored,
                match content {
                    Some(b) => Some(b@),
                    None => None,
                },
                self.patterns(),
                self.allowed_extensions(),
            ),
    {
        if is_dir || gitignored {
            return false;
        }
        if matches_ignore_pattern(path, &self.config.ignore_patterns) {
            return false;
        }
        if !is_allowed_extension(path, &self.config.include_extensions) {
            return false;
        }
        is_text_file(path, content)
    }

    /// Decides on one file of the walk. The file is handed out if it is a
    /// candidate and resolves to a canonical path not handed out before.
    pub fn accept(
        &mut self,
        path: &str,
        is_dir: bool,
        gitignored: bool,
        content: Option<&[u8]>,
        probe: &PathProbe,
    ) -> (r: Option<WalkEntry>)
        ensures
            final(self).same_settings(old(self)),
            old(self).visited().no_duplicates() ==> final(self).visited().no_duplicates(),
            ({
                let candidate = is_candidate(
                    path@,
                    is_dir,
                    gitignored,
                    match content {
                        Some(b) => Some(b@),
                        None => None,
                    },
                    old(self).patterns(),
                    old(self).allowed_extensions(),
                );
                let outcome = resolve_spec(
                    path@,
                    probe@,
                    old(self).visited(),
                    old(self).follows_symlinks(),
                    WALK_MAX_DEPTH,
                    0,
                );
                if candidate && outcome is Resolved {
                    &&& r matches Some(e)
                    &&& e.path@ == path@
                    &&& e.canonical@ == outcome->Resolved_canonical
                    &&& e.is_symlink == outcome->Resolved_is_symlink
                    &&& final(self).visited() == old(self).visited().push(e.canonical@)
                } else {
                    &&& r is None
                    &&& final(self).visited() == old(self).visited()
                }
            }),
    {
        if !self.is_candidate_file(path, is_dir, gitignored, content) {
            return None;
        }
        match self.symlink_resolver.resolve(path, probe) {
            Ok(ResolvedPath::Resolved { original, canonical, is_symlink }) => Some(
                WalkEntry { path: original, canonical, is_symlink },
            ),
            Ok(ResolvedPath::Skipped(_)) => None,
            Err(_) => None,
        }
    }
}

} // verus!
