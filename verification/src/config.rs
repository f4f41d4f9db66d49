//! Configuration records and their built-in defaults.
//!
//! Values that depend on the machine (the data directory, the number of
//! cores) are parameters of the constructors, so that the defaults are a
//! function of their arguments.

use vstd::prelude::*;
use crate::paths::{join, joined};
use crate::text::{append_strings, views};

verus! {

/// One million: the denominator of the fixed-point weights and scores.
pub const WEIGHT_ONE: u32 = 1_000_000;

/// Settings of the background service.
#[derive(Debug, Clone)]
pub struct DaemonConfig {
    /// Socket path; `None` selects the built-in location.
    pub socket_path: Option<String>,
    /// Idle seconds before shutdown, 0 for never.
    pub idle_timeout: u64,
    /// Index operations that may run at once.
    pub max_concurrent_ops: usize,
}

/// Settings of the indexing pipeline.
#[derive(Debug, Clone)]
pub struct IndexerConfig {
    /// Directory under which all index data lives.
    pub data_dir: String,
    /// Largest file, in bytes, that is indexed.
    pub max_file_size: u64,
    /// Extensions to index; empty for every text file.
    pub include_extensions: Vec<String>,
    /// Glob patterns of paths that are never indexed.
    pub ignore_patterns: Vec<String>,
    /// Whether symbolic links are followed.
    pub follow_symlinks: bool,
    /// Whether `.gitignore` files are honoured.
    pub respect_gitignore: bool,
    /// Whether identical contents are stored once.
    pub deduplicate: bool,
    /// Lines per chunk.
    pub chunk_size: usize,
    /// Lines shared by consecutive chunks.
    pub chunk_overlap: usize,
    /// Indexing threads.
    pub threads: usize,
}

/// Settings of retrieval. Weights and scores are in millionths.
#[derive(Debug, Clone)]
pub struct SearchConfig {
    /// Weight of the lexical ranking in fusion, in millionths.
    pub bm25_weight: u32,
    /// Weight of the vector ranking in fusion, in millionths.
    pub vector_weight: u32,
    /// Result limit when the caller names none.
    pub default_limit: usize,
    /// Largest result limit.
    pub max_limit: usize,
    /// Score threshold, in millionths.
    pub min_score: u32,
    /// Whether fuzzy matching is on.
    pub fuzzy_enabled: bool,
    /// Edit distance of fuzzy matching.
    pub fuzzy_distance: u8,
}

/// Settings of result formatting.
#[derive(Debug, Clone)]
pub struct OutputConfig {
    /// Compact output for machine readers.
    pub ai_mode: bool,
    /// Whether snippets are shown.
    pub show_content: bool,
    /// Context lines around a match.
    pub context_lines: usize,
    /// Most lines shown per result.
    pub max_lines_per_result: usize,
    /// Whether scores are shown.
    pub show_scores: bool,
}

/// The whole configuration.
#[derive(Debug, Clone)]
pub struct Config {
    pub daemon: DaemonConfig,
    pub indexer: IndexerConfig,
    pub search: SearchConfig,
    pub output: OutputConfig,
}

impl Default for DaemonConfig {
    fn default() -> (c: Self)
        ensures
            c.socket_path is None,
            c.idle_timeout == 3600,
            c.max_concurrent_ops == 4,
    {
        DaemonConfig { socket_path: None, idle_timeout: 3600, max_concurrent_ops: 4 }
    }
}

impl Default for SearchConfig {
    fn default() -> (c: Self)
        ensures
            c.bm25_weight == 500_000,
            c.vector_weight == 500_000,
            c.default_limit == 10,
            c.max_limit == 100,
            c.min_score == 100_000,
            c.fuzzy_enabled,
            c.fuzzy_distance == 1,
    {
        SearchConfig {
            bm25_weight: 500_000,
            vector_weight: 500_000,
            default_limit: 10,
            max_limit: 100,
            min_score: 100_000,
            fuzzy_enabled: true,
            fuzzy_distance: 1,
        }
    }
}

impl Default for OutputConfig {
    fn default() -> (c: Self)
        ensures
            c.ai_mode,
            c.show_content,
            c.context_lines == 2,
            c.max_lines_per_result == 10,
            !c.show_scores,
    {
        OutputConfig {
            ai_mode: true,
            show_content: true,
            context_lines: 2,
            max_lines_per_result: 10,
            show_scores: false,
        }
    }
}
/// Directories that package managers fill.
pub open spec fn dependency_patterns_spec() -> Seq<Seq<char>> {
    seq![
        "**/node_modules/**"@,
        "**/vendor/**"@,
        "**/.venv/**"@,
        "**/venv/**"@,
        "**/bower_components/**"@,
    ]
}

/// Directories that package managers fill.
pub fn dependency_patterns() -> (v: Vec<String>)
    ensures
        views(v@) == dependency_patterns_spec(),
{
    let mut v: Vec<String> = Vec::new();
    v.push("**/node_modules/**".to_owned());
    v.push("**/vendor/**".to_owned());
    v.push("**/.venv/**".to_owned());
    v.push("**/venv/**".to_owned());
    v.push("**/bower_components/**".to_owned());
    assert(views(v@) =~= dependency_patterns_spec());
    v
}

/// Directories that builds write into.
pub open spec fn build_output_patterns_spec() -> Seq<Seq<char>> {
    seq![
        "**/target/**"@,
        "**/dist/**"@,
        "**/build/**"@,
        "**/out/**"@,
        "**/_build/**"@,
        "**/bin/**"@,
        "**/obj/**"@,
    ]
}

/// Directories that builds write into.
pub fn build_output_patterns() -> (v: Vec<String>)
    ensures
        views(v@) == build_output_patterns_spec(),
{
    let mut v: Vec<String> = Vec::new();
    v.push("**/target/**".to_owned());
    v.push("**/dist/**".to_owned());
    v.push("**/build/**".to_owned());
    v.push("**/out/**".to_owned());
    v.push("**/_build/**".to_owned());
    v.push("**/bin/**".to_owned());
    v.push("**/obj/**".to_owned());
    assert(views(v@) =~= build_output_patterns_spec());
    v
}

/// Cache directories of common tools.
pub open spec fn cache_patterns_spec() -> Seq<Seq<char>> {
    seq![
        "**/cache/**"@,
        "**/.cache/**"@,
        "**/caches/**"@,
        "**/__pycache__/**"@,
        "**/.pytest_cache/**"@,
        "**/.mypy_cache/**"@,
        "**/.ruff_cache/**"@,
        "**/.phpunit.cache/**"@,
        "**/var/cache/**"@,
    ]
}

/// Cache directories of common tools.
pub fn cache_patterns() -> (v: Vec<String>)
    ensures
        views(v@) == cache_patterns_spec(),
{
    let mut v: Vec<String> = Vec::new();
    v.push("**/cache/**".to_owned());
    v.push("**/.cache/**".to_owned());
    v.push("**/caches/**".to_owned());
    v.push("**/__pycache__/**".to_owned());
    v.push("**/.pytest_cache/**".to_owned());
    v.push("**/.mypy_cache/**".to_owned());
    v.push("**/.ruff_cache/**".to_owned());
    v.push("**/.phpunit.cache/**".to_owned());
    v.push("**/var/cache/**".to_owned());
    assert(views(v@) =~= cache_patterns_spec());
    v
}

/// Logs and scratch directories.
pub open spec fn log_and_temp_patterns_spec() -> Seq<Seq<char>> {
    seq![
        "**/logs/**"@,
        "**/log/**"@,
        "**/*.log"@,
        "**/tmp/**"@,
        "**/temp/**"@,
        "**/.tmp/**"@,
    ]
}

/// Logs and scratch directories.
pub fn log_and_temp_patterns() -> (v: Vec<String>)
    ensures
        views(v@) == log_and_temp_patterns_spec(),
{
    let mut v: Vec<String> = Vec::new();
    v.push("**/logs/**".to_owned());
    v.push("**/log/**".to_owned());
    v.push("**/*.log".to_owned());
    v.push("**/tmp/**".to_owned());
    v.push("**/temp/**".to_owned());
    v.push("**/.tmp/**".to_owned());
    assert(views(v@) =~= log_and_temp_patterns_spec());
    v
}

/// Version-control and editor state.
pub open spec fn tooling_patterns_spec() -> Seq<Seq<char>> {
    seq![
        "**/.git/**"@,
        "**/.svn/**"@,
        "**/.hg/**"@,
        "**/.idea/**"@,
        "**/.vscode/**"@,
        "**/.vs/**"@,
        "**/*.swp"@,
        "**/*.swo"@,
    ]
}

/// Version-control and editor state.
pub fn tooling_patterns() -> (v: Vec<String>)
    ensures
        views(v@) == tooling_patterns_spec(),
{
    let mut v: Vec<String> = Vec::new();
    v.push("**/.git/**".to_owned());
    v.push("**/.svn/**".to_owned());
    v.push("**/.hg/**".to_owned());
    v.push("**/.idea/**".to_owned());
    v.push("**/.vscode/**".to_owned());
    v.push("**/.vs/**".to_owned());
    v.push("**/*.swp".to_owned());
    v.push("**/*.swo".to_owned());
    assert(views(v@) =~= tooling_patterns_spec());
    v
}

/// Lock files of package managers.
pub open spec fn lock_file_patterns_spec() -> Seq<Seq<char>> {
    seq![
        "Cargo.lock"@,
        "package-lock.json"@,
        "yarn.lock"@,
        "pnpm-lock.yaml"@,
        "composer.lock"@,
        "Gemfile.lock"@,
        "poetry.lock"@,
    ]
}

/// Lock files of package managers.
pub fn lock_file_patterns() -> (v: Vec<String>)
    ensures
        views(v@) == lock_file_patterns_spec(),
{
    let mut v: Vec<String> = Vec::new();
    v.push("Cargo.lock".to_owned());
    v.push("package-lock.json".to_owned());
    v.push("yarn.lock".to_owned());
    v.push("pnpm-lock.yaml".to_owned());
    v.push("composer.lock".to_owned());
    v.push("Gemfile.lock".to_owned());
    v.push("poetry.lock".to_owned());
    assert(views(v@) =~= lock_file_patterns_spec());
    v
}

/// Compiled artefacts and database files.
pub open spec fn binary_patterns_spec() -> Seq<Seq<char>> {
    seq![
        "**/*.pyc"@,
        "**/*.pyo"@,
        "**/*.class"@,
        "**/*.o"@,
        "**/*.so"@,
        "**/*.dylib"@,
        "**/*.dll"@,
        "**/*.exe"@,
        "**/*.sqlite"@,
        "**/*.sqlite3"@,
        "**/*.db"@,
    ]
}

/// Compiled artefacts and database files.
pub fn binary_patterns() -> (v: Vec<String>)
    ensures
        views(v@) == binary_patterns_spec(),
{
    let mut v: Vec<String> = Vec::new();
    v.push("**/*.pyc".to_owned());
    v.push("**/*.pyo".to_owned());
    v.push("**/*.class".to_owned());
    v.push("**/*.o".to_owned());
    v.push("**/*.so".to_owned());
    v.push("**/*.dylib".to_owned());
    v.push("**/*.dll".to_owned());
    v.push("**/*.exe".to_owned());
    v.push("**/*.sqlite".to_owned());
    v.push("**/*.sqlite3".to_owned());
    v.push("**/*.db".to_owned());
    assert(views(v@) =~= binary_patterns_spec());
    v
}

/// Coverage and test artefacts.
pub open spec fn coverage_patterns_spec() -> Seq<Seq<char>> {
    seq![
        "**/coverage/**"@,
        "**/.coverage/**"@,
        "**/htmlcov/**"@,
        "**/.nyc_output/**"@,
    ]
}

/// Coverage and test artefacts.
pub fn coverage_patterns() -> (v: Vec<String>)
    ensures
        views(v@) == coverage_patterns_spec(),
{
    let mut v: Vec<String> = Vec::new();
    v.push("**/coverage/**".to_owned());
    v.push("**/.coverage/**".to_owned());
    v.push("**/htmlcov/**".to_owned());
    v.push("**/.nyc_output/**".to_owned());
    assert(views(v@) =~= coverage_patterns_spec());
    v
}

/// Image files.
pub open spec fn image_patterns_spec() -> Seq<Seq<char>> {
    seq![
        "**/*.svg"@,
        "**/*.png"@,
        "**/*.jpg"@,
        "**/*.jpeg"@,
        "**/*.gif"@,
        "**/*.ico"@,
        "**/*.webp"@,
        "**/*.bmp"@,
        "**/*.tiff"@,
        "**/*.psd"@,
    ]
}

/// Image files.
pub fn image_patterns() -> (v: Vec<String>)
    ensures
        views(v@) == image_patterns_spec(),
{
    let mut v: Vec<String> = Vec::new();
    v.push("**/*.svg".to_owned());
    v.push("**/*.png".to_owned());
    v.push("**/*.jpg".to_owned());
    v.push("**/*.jpeg".to_owned());
    v.push("**/*.gif".to_owned());
    v.push("**/*.ico".to_owned());
    v.push("**/*.webp".to_owned());
    v.push("**/*.bmp".to_owned());
    v.push("**/*.tiff".to_owned());
    v.push("**/*.psd".to_owned());
    assert(views(v@) =~= image_patterns_spec());
    v
}

/// Fonts, audio and video.
pub open spec fn font_and_media_patterns_spec() -> Seq<Seq<char>> {
    seq![
        "**/*.woff"@,
        "**/*.woff2"@,
        "**/*.ttf"@,
        "**/*.otf"@,
        "**/*.eot"@,
        "**/*.mp3"@,
        "**/*.mp4"@,
        "**/*.wav"@,
        "**/*.ogg"@,
        "**/*.webm"@,
        "**/*.avi"@,
        "**/*.mov"@,
    ]
}

/// Fonts, audio and video.
pub fn font_and_media_patterns() -> (v: Vec<String>)
    ensures
        views(v@) == font_and_media_patterns_spec(),
{
    let mut v: Vec<String> = Vec::new();
    v.push("**/*.woff".to_owned());
    v.push("**/*.woff2".to_owned());
    v.push("**/*.ttf".to_owned());
    v.push("**/*.otf".to_owned());
    v.push("**/*.eot".to_owned());
    v.push("**/*.mp3".to_owned());
    v.push("**/*.mp4".to_owned());
    v.push("**/*.wav".to_owned());
    v.push("**/*.ogg".to_owned());
    v.push("**/*.webm".to_owned());
    v.push("**/*.avi".to_owned());
    v.push("**/*.mov".to_owned());
    assert(views(v@) =~= font_and_media_patterns_spec());
    v
}

/// Archives and office documents.
pub open spec fn archive_and_document_patterns_spec() -> Seq<Seq<char>> {
    seq![
        "**/*.zip"@,
        "**/*.tar"@,
        "**/*.gz"@,
        "**/*.rar"@,
        "**/*.7z"@,
        "**/*.pdf"@,
        "**/*.doc"@,
        "**/*.docx"@,
        "**/*.xls"@,
        "**/*.xlsx"@,
        "**/*.ppt"@,
        "**/*.pptx"@,
    ]
}

/// Archives and office documents.
pub fn archive_and_document_patterns() -> (v: Vec<String>)
    ensures
        views(v@) == archive_and_document_patterns_spec(),
{
    let mut v: Vec<String> = Vec::new();
    v.push("**/*.zip".to_owned());
    v.push("**/*.tar".to_owned());
    v.push("**/*.gz".to_owned());
    v.push("**/*.rar".to_owned());
    v.push("**/*.7z".to_owned());
    v.push("**/*.pdf".to_owned());
    v.push("**/*.doc".to_owned());
    v.push("**/*.docx".to_owned());
    v.push("**/*.xls".to_owned());
    v.push("**/*.xlsx".to_owned());
    v.push("**/*.ppt".to_owned());
    v.push("**/*.pptx".to_owned());
    assert(views(v@) =~= archive_and_document_patterns_spec());
    v
}

/// Minified bundles and source maps.
pub open spec fn bundle_patterns_spec() -> Seq<Seq<char>> {
    seq![
        "**/*.min.js"@,
        "**/*.min.css"@,
        "**/*.bundle.js"@,
        "**/*.chunk.js"@,
        "**/*.map"@,
    ]
}

/// Minified bundles and source maps.
pub fn bundle_patterns() -> (v: Vec<String>)
    ensures
        views(v@) == bundle_patterns_spec(),
{
    let mut v: Vec<String> = Vec::new();
    v.push("**/*.min.js".to_owned());
    v.push("**/*.min.css".to_owned());
    v.push("**/*.bundle.js".to_owned());
    v.push("**/*.chunk.js".to_owned());
    v.push("**/*.map".to_owned());
    assert(views(v@) =~= bundle_patterns_spec());
    v
}

/// The built-in ignore list: the groups above, in this order.
pub open spec fn default_ignore_patterns_spec() -> Seq<Seq<char>> {
    dependency_patterns_spec()
        + build_output_patterns_spec()
        + cache_patterns_spec()
        + log_and_temp_patterns_spec()
        + tooling_patterns_spec()
        + lock_file_patterns_spec()
        + binary_patterns_spec()
        + coverage_patterns_spec()
        + image_patterns_spec()
        + font_and_media_patterns_spec()
        + archive_and_document_patterns_spec()
        + bundle_patterns_spec()
}

/// The built-in ignore list.
pub fn default_ignore_patterns() -> (v: Vec<String>)
    ensures
        views(v@) == default_ignore_patterns_spec(),
{
    let mut v = dependency_patterns();
    append_strings(&mut v, build_output_patterns());
    append_strings(&mut v, cache_patterns());
    append_strings(&mut v, log_and_temp_patterns());
    append_strings(&mut v, tooling_patterns());
    append_strings(&mut v, lock_file_patterns());
    append_strings(&mut v, binary_patterns());
    append_strings(&mut v, coverage_patterns());
    append_strings(&mut v, image_patterns());
    append_strings(&mut v, font_and_media_patterns());
    append_strings(&mut v, archive_and_document_patterns());
    append_strings(&mut v, bundle_patterns());
    v
}

/// The number of indexing threads for a machine whose available
/// parallelism is `parallelism`: at most four, two where it is unknown.
pub open spec fn default_threads(parallelism: Option<usize>) -> usize {
    match parallelism {
        Some(n) => if n < 4 { n } else { 4 },
        None => 2,
    }
}

impl IndexerConfig {
    /// The default indexer settings for a given data directory and
    /// available parallelism.
    pub fn with_defaults(data_dir: String, parallelism: Option<usize>) -> (c: Self)
        ensures
            c.data_dir == data_dir,
            c.max_file_size == 10 * 1024 * 1024,
            c.include_extensions@.len() == 0,
            views(c.ignore_patterns@) == default_ignore_patterns_spec(),
            c.follow_symlinks,
            !c.respect_gitignore,
            c.deduplicate,
            c.chunk_size == 50,
            c.chunk_overlap == 10,
            c.threads == default_threads(parallelism),
    {
        let threads: usize = match parallelism {
            Some(n) => if n < 4 { n } else { 4 },
            None => 2,
        };
        IndexerConfig {
            data_dir,
            max_file_size: 10 * 1024 * 1024,
            include_extensions: Vec::new(),
            ignore_patterns: default_ignore_patterns(),
            follow_symlinks: true,
            respect_gitignore: false,
            deduplicate: true,
            chunk_size: 50,
            chunk_overlap: 10,
            threads,
        }
    }
}


impl IndexerConfig {
    /// The chunk settings are usable: consecutive chunks overlap by less
    /// than a chunk.
    pub open spec fn has_valid_chunks(&self) -> bool {
        self.chunk_overlap < self.chunk_size
    }

    /// Whether the chunk settings are usable.
    pub fn check_chunks(&self) -> (r: bool)
        ensures
            r == self.has_valid_chunks(),
    {
        self.chunk_overlap < self.chunk_size
    }
}

impl SearchConfig {
    /// The weights lie between zero and one.
    pub open spec fn has_valid_weights(&self) -> bool {
        self.bm25_weight <= WEIGHT_ONE && self.vector_weight <= WEIGHT_ONE
    }

    /// Whether the weights lie between zero and one.
    pub fn check_weights(&self) -> (r: bool)
        ensures
            r == self.has_valid_weights(),
    {
        self.bm25_weight <= WEIGHT_ONE && self.vector_weight <= WEIGHT_ONE
    }
}

/// The socket of the background service where none is configured: under
/// the runtime directory if there is one, else under the home directory,
/// else under `/tmp`.
pub open spec fn default_socket_path_of(
    runtime_dir: Option<Seq<char>>,
    home_dir: Option<Seq<char>>,
) -> Seq<char> {
    match runtime_dir {
        Some(dir) => joined(joined(dir, "ygrep"@), "ygrep.sock"@),
        None => match home_dir {
            Some(home) => joined(joined(home, ".ygrep"@), "ygrep.sock"@),
            None => "/tmp/ygrep/ygrep.sock"@,
        },
    }
}

/// The socket of the background service where none is configured.
pub fn default_socket_path(runtime_dir: Option<&str>, home_dir: Option<&str>) -> (r: String)
    ensures
        r@ == default_socket_path_of(
            match runtime_dir {
                Some(d) => Some(d@),
                None => None,
            },
            match home_dir {
                Some(d) => Some(d@),
                None => None,
            },
        ),
{
    match runtime_dir {
        Some(dir) => join(join(dir, "ygrep").as_str(), "ygrep.sock"),
        None => match home_dir {
            Some(home) => join(join(home, ".ygrep").as_str(), "ygrep.sock"),
            None => "/tmp/ygrep/ygrep.sock".to_owned(),
        },
    }
}

impl Config {
    /// The default configuration for a given data directory and available
    /// parallelism.
    pub fn with_defaults(data_dir: String, parallelism: Option<usize>) -> (c: Self)
        ensures
            c.indexer.data_dir == data_dir,
            c.indexer.threads == default_threads(parallelism),
            c.indexer.has_valid_chunks(),
            views(c.indexer.ignore_patterns@) == default_ignore_patterns_spec(),
            c.search.has_valid_weights(),
            c.daemon.socket_path is None,
    {
        Config {
            daemon: DaemonConfig::default(),
            indexer: IndexerConfig::with_defaults(data_dir, parallelism),
            search: SearchConfig::default(),
            output: OutputConfig::default(),
        }
    }

    /// The socket of the background service: the configured one, or the
    /// default for the given directories.
    pub fn socket_path(&self, runtime_dir: Option<&str>, home_dir: Option<&str>) -> (r: String)
        ensures
            r@ == match self.daemon.socket_path {
                Some(p) => p@,
                None => default_socket_path_of(
                    match runtime_dir {
                        Some(d) => Some(d@),
                        None => None,
                    },
                    match home_dir {
                        Some(d) => Some(d@),
                        None => None,
                    },
                ),
            },
    {
        match &self.daemon.socket_path {
            Some(p) => p.clone(),
            None => default_socket_path(runtime_dir, home_dir),
        }
    }
}

} // verus!
