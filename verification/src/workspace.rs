//! The bookkeeping of a workspace: where its index lives, what a full
//! indexing run counts, and which documents are sent to the embedder.

use vstd::prelude::*;
use vstd::slice::slice_subrange;
use vstd::string::StringSliceAdditionalSpecFns;
use crate::config::Config;
use crate::document::{content_id, doc_id_of, document_views, IndexedFile};
use crate::error::YgrepError;
use crate::index::{file_ops, op_views, operations, IndexOp, IndexOpView};
use crate::paths::{join, joined, relative_path, relative_to};

verus! {

/// The dimension of the embeddings of the default model.
pub const EMBEDDING_DIM: usize = 384;

/// The fewest bytes of a document that is embedded.
pub const MIN_EMBED_BYTES: usize = 50;

/// The most bytes of a document that is embedded.
pub const MAX_EMBED_BYTES: usize = 50_000;

/// The bytes of a document that the embedder sees.
pub const EMBED_PREFIX_BYTES: usize = 8192;

/// The number of documents embedded in one call.
pub const EMBED_BATCH_SIZE: usize = 32;

/// The identifier of a workspace: sixteen hexadecimal digits of the hash
/// of its canonical root path.
pub fn hash_path(root: &str) -> (id: String)
    ensures
        id@ == doc_id_of(root.spec_bytes()),
{
    content_id(root)
}

/// Where the index of a workspace lives: `<data_dir>/indexes/<identifier>`.
pub open spec fn index_path_of(data_dir: Seq<char>, root_bytes: Seq<u8>) -> Seq<char> {
    joined(joined(data_dir, "indexes"@), doc_id_of(root_bytes))
}

/// A workspace: a root directory with the place of its indices and its
/// settings.
pub struct Workspace {
    root: String,
    config: Config,
    index_path: String,
    vector_path: String,
}

impl Workspace {
    /// The canonical root.
    pub closed spec fn root_view(&self) -> Seq<char> {
        self.root@
    }

    /// The directory of the inverted index.
    pub closed spec fn index_path_view(&self) -> Seq<char> {
        self.index_path@
    }

    /// The directory of the vector index.
    pub closed spec fn vector_path_view(&self) -> Seq<char> {
        self.vector_path@
    }

    /// The settings.
    pub closed spec fn config(&self) -> Config {
        self.config
    }

    /// The workspace with the canonical root `root`. Its indices live
    /// under the data directory of the settings.
    pub fn open_with_config(root: &str, config: Config) -> (w: Self)
        ensures
            w.root_view() == root@,
            w.index_path_view() == index_path_of(config.indexer.data_dir@, root.spec_bytes()),
            w.vector_path_view() == joined(w.index_path_view(), "vectors"@),
            w.config() == config,
    {
        let indexes = join(config.indexer.data_dir.as_str(), "indexes");
        let index_path = join(indexes.as_str(), hash_path(root).as_str());
        let vector_path = join(index_path.as_str(), "vectors");
        Workspace { root: root.to_owned(), config, index_path, vector_path }
    }

    /// The canonical root.
    pub fn root(&self) -> (r: &str)
        ensures
            r@ == self.root_view(),
    {
        self.root.as_str()
    }

    /// The directory of the inverted index.
    pub fn index_path(&self) -> (r: &str)
        ensures
            r@ == self.index_path_view(),
    {
        self.index_path.as_str()
    }

    /// The directory of the vector index.
    pub fn vector_path(&self) -> (r: &str)
        ensures
            r@ == self.vector_path_view(),
    {
        self.vector_path.as_str()
    }

    /// The settings of the indexer.
    pub fn indexer_config(&self) -> (r: &crate::config::IndexerConfig)
        ensures
            *r == self.config().indexer,
    {
        &self.config.indexer
    }

    /// Whether semantic search is available: the vector index holds
    /// vectors.
    pub fn has_semantic_index(&self, vector_count: usize) -> (r: bool)
        ensures
            r == (vector_count > 0),
    {
        vector_count > 0
    }

    /// The requests that bring one file up to date, given the outcome of
    /// indexing it: its documents are stored in place of what stood under
    /// its path; a file that is too large changes nothing; any other
    /// failure is passed on.
    pub fn index_file(&self, indexed: Result<IndexedFile, YgrepError>) -> (r: Result<
        Vec<IndexOp>,
        YgrepError,
    >)
        ensures
            match indexed {
                Ok(file) => r matches Ok(ops) && op_views(ops@) == file_ops(
                    file.document@,
                    document_views(file.chunks@),
                ),
                Err(YgrepError::FileTooLarge { .. }) => r matches Ok(ops) && ops@.len() == 0,
                Err(e) => r == Err::<Vec<IndexOp>, YgrepError>(e),
            },
    {
        match indexed {
            Ok(file) => Ok(operations(&file)),
            Err(YgrepError::FileTooLarge { .. }) => Ok(Vec::new()),
            Err(e) => Err(e),
        }
    }

    /// The request that removes a file from the index: the documents whose
    /// identifier is the file's path relative to the root go.
    pub fn delete_file(&self, path: &str) -> (op: IndexOp)
        ensures
            op@ == IndexOpView::DeleteById(relative_to(path@, self.root_view())),
    {
        IndexOp::DeleteById(relative_path(path, self.root.as_str()))
    }
}

/// The counters of an indexing run.
#[derive(Debug, Clone, Copy, PartialEq, Eq, Structural)]
pub struct IndexStats {
    /// Files stored.
    pub indexed: usize,
    /// Files passed over for their size.
    pub skipped: usize,
    /// Files that could not be read or stored.
    pub errors: usize,
    /// Distinct canonical paths that the walk handed out.
    pub unique_paths: usize,
}

impl Default for IndexStats {
    fn default() -> (s: Self)
        ensures
            s.indexed == 0,
            s.skipped == 0,
            s.errors == 0,
            s.unique_paths == 0,
    {
        IndexStats { indexed: 0, skipped: 0, errors: 0, unique_paths: 0 }
    }
}

/// How indexing one file ended.
#[derive(Debug, Clone, Copy, PartialEq, Eq, Structural)]
pub enum FileOutcome {
    /// The file was stored.
    Indexed,
    /// The file is larger than the limit.
    TooLarge,
    /// Reading or storing the file failed.
    Failed,
}

/// The outcome that the result of indexing a file stands for.
pub open spec fn outcome_view<T>(r: Result<T, YgrepError>) -> FileOutcome {
    match r {
        Ok(_) => FileOutcome::Indexed,
        Err(YgrepError::FileTooLarge { .. }) => FileOutcome::TooLarge,
        Err(_) => FileOutcome::Failed,
    }
}

/// The outcome that the result of indexing a file stands for.
pub fn outcome_of(r: &Result<IndexedFile, YgrepError>) -> (o: FileOutcome)
    ensures
        o == outcome_view(*r),
{
    match r {
        Ok(_) => FileOutcome::Indexed,
        Err(YgrepError::FileTooLarge { .. }) => FileOutcome::TooLarge,
        Err(_) => FileOutcome::Failed,
    }
}

/// The number of outcomes of a kind.
pub open spec fn count_of(outcomes: Seq<FileOutcome>, kind: FileOutcome) -> int
    decreases outcomes.len(),
{
    if outcomes.len() == 0 {
        0
    } else {
        count_of(outcomes.drop_last(), kind) + if outcomes.last() == kind {
            1int
        } else {
            0int
        }
    }
}

/// Every outcome is of exactly one kind.
pub proof fn lemma_counts_add_up(outcomes: Seq<FileOutcome>)
    ensures
        count_of(outcomes, FileOutcome::Indexed) + count_of(outcomes, FileOutcome::TooLarge)
            + count_of(outcomes, FileOutcome::Failed) == outcomes.len(),
        count_of(outcomes, FileOutcome::Indexed) >= 0,
        count_of(outcomes, FileOutcome::TooLarge) >= 0,
        count_of(outcomes, FileOutcome::Failed) >= 0,
    decreases outcomes.len(),
{
    if outcomes.len() > 0 {
        lemma_counts_add_up(outcomes.drop_last());
    }
}

/// The counters of a run over the files that the walk handed out, one
/// outcome for each file. The three counters add up to the number of files.
pub fn tally(outcomes: &Vec<FileOutcome>, unique_paths: usize) -> (stats: IndexStats)
    ensures
        stats.indexed == count_of(outcomes@, FileOutcome::Indexed),
        stats.skipped == count_of(outcomes@, FileOutcome::TooLarge),
        stats.errors == count_of(outcomes@, FileOutcome::Failed),
        stats.indexed + stats.skipped + stats.errors == outcomes@.len(),
        stats.unique_paths == unique_paths,
{
    let mut stats = IndexStats { indexed: 0, skipped: 0, errors: 0, unique_paths };
    let mut i: usize = 0;
    assert(outcomes@.take(0) =~= Seq::empty());
    while i < outcomes.len()
        invariant
            i <= outcomes.len(),
            stats.indexed == count_of(outcomes@.take(i as int), FileOutcome::Indexed),
            stats.skipped == count_of(outcomes@.take(i as int), FileOutcome::TooLarge),
            stats.errors == count_of(outcomes@.take(i as int), FileOutcome::Failed),
            stats.unique_paths == unique_paths,
        decreases outcomes.len() - i,
    {
        proof {
            lemma_counts_add_up(outcomes@.take(i as int));
            assert(outcomes@.take(i + 1).drop_last() =~= outcomes@.take(i as int));
            assert(outcomes@.take(i + 1).last() == outcomes@[i as int]);
        }
        match outcomes[i] {
            FileOutcome::Indexed => {
                stats.indexed = stats.indexed + 1;
            },
            FileOutcome::TooLarge => {
                stats.skipped = stats.skipped + 1;
            },
            FileOutcome::Failed => {
                stats.errors = stats.errors + 1;
            },
        }
        i += 1;
    }
    proof {
        assert(outcomes@.take(outcomes@.len() as int) =~= outcomes@);
        lemma_counts_add_up(outcomes@);
    }
    stats
}

/// A stored document that may be embedded.
#[derive(Debug, Clone)]
pub struct EmbeddingCandidate {
    pub doc_id: String,
    pub content: String,
}

/// What the embedder is given for one document.
#[derive(Debug, Clone)]
pub struct EmbeddingInput {
    pub doc_id: String,
    /// The first bytes of the content in UTF-8.
    pub text: Vec<u8>,
}

/// The candidates as mathematical values: identifier and content bytes.
pub open spec fn candidate_views(list: Seq<EmbeddingCandidate>) -> Seq<(Seq<char>, Seq<u8>)> {
    Seq::new(list.len(), |i: int| (list[i].doc_id@, vstd::utf8::encode_utf8(list[i].content@)))
}

/// The inputs as mathematical values.
pub open spec fn input_views(list: Seq<EmbeddingInput>) -> Seq<(Seq<char>, Seq<u8>)> {
    Seq::new(list.len(), |i: int| (list[i].doc_id@, list[i].text@))
}

/// A content of this many bytes is embedded.
pub open spec fn is_embeddable(bytes: Seq<u8>) -> bool {
    MIN_EMBED_BYTES <= bytes.len() <= MAX_EMBED_BYTES
}

/// The bytes of a content that the embedder sees.
pub open spec fn embed_prefix(bytes: Seq<u8>) -> Seq<u8> {
    if bytes.len() > EMBED_PREFIX_BYTES {
        bytes.subrange(0, EMBED_PREFIX_BYTES as int)
    } else {
        bytes
    }
}

/// The inputs of the embedder: the candidates of fitting size, in their
/// order, each cut to its prefix.
pub open spec fn selected(candidates: Seq<(Seq<char>, Seq<u8>)>) -> Seq<(Seq<char>, Seq<u8>)>
    decreases candidates.len(),
{
    if candidates.len() == 0 {
        Seq::empty()
    } else {
        let before = selected(candidates.drop_last());
        let (doc_id, bytes) = candidates.last();
        if is_embeddable(bytes) {
            before.push((doc_id, embed_prefix(bytes)))
        } else {
            before
        }
    }
}

/// The inputs of the embedder for the documents of a run.
pub fn select_for_embedding(candidates: &Vec<EmbeddingCandidate>) -> (inputs: Vec<EmbeddingInput>)
    ensures
        input_views(inputs@) == selected(candidate_views(candidates@)),
{
    let mut inputs: Vec<EmbeddingInput> = Vec::new();
    let mut i: usize = 0;
    assert(candidate_views(candidates@).take(0) =~= Seq::empty());
    assert(input_views(inputs@) =~= Seq::empty());
    while i < candidates.len()
        invariant
            i <= candidates.len(),
            input_views(inputs@) == selected(candidate_views(candidates@).take(i as int)),
        decreases candidates.len() - i,
    {
        let ghost next = candidate_views(candidates@).take(i + 1);
        let ghost before = input_views(inputs@);
        proof {
            assert(next.drop_last() =~= candidate_views(candidates@).take(i as int));
            assert(next.last() == candidate_views(candidates@)[i as int]);
        }
        let bytes = candidates[i].content.as_str().as_bytes();
        let len = bytes.len();
        if MIN_EMBED_BYTES <= len && len <= MAX_EMBED_BYTES {
            let end = if len > EMBED_PREFIX_BYTES {
                EMBED_PREFIX_BYTES
            } else {
                len
            };
            let text = vstd::slice::slice_to_vec(slice_subrange(bytes, 0, end));
            proof {
                if len <= EMBED_PREFIX_BYTES {
                    assert(bytes@.subrange(0, len as int) =~= bytes@);
                }
            }
            let input = EmbeddingInput { doc_id: candidates[i].doc_id.clone(), text };
            inputs.push(input);
            assert(input_views(inputs@) =~= before.push(
                (candidates@[i as int].doc_id@, embed_prefix(bytes@)),
            ));
        }
        i += 1;
    }
    assert(candidate_views(candidates@).take(candidates@.len() as int) =~= candidate_views(
        candidates@,
    ));
    inputs
}

/// The number of batches that `count` inputs are embedded in.
pub open spec fn batch_count(count: int) -> int {
    (count + EMBED_BATCH_SIZE - 1) / (EMBED_BATCH_SIZE as int)
}

/// The range of inputs that batch `k` holds.
pub open spec fn batch_range(k: int, count: int) -> (int, int) {
    (
        k * EMBED_BATCH_SIZE,
        if (k + 1) * EMBED_BATCH_SIZE <= count {
            (k + 1) * EMBED_BATCH_SIZE
        } else {
            count
        },
    )
}

/// The range of inputs of one batch.
#[derive(Debug, Clone, Copy, PartialEq, Eq, Structural)]
pub struct Batch {
    pub start: usize,
    pub end: usize,
}

/// The batches in which `count` inputs are embedded: consecutive ranges of
/// [`EMBED_BATCH_SIZE`] inputs, the last one possibly shorter.
pub fn batches(count: usize) -> (r: Vec<Batch>)
    ensures
        r@.len() == batch_count(count as int),
        forall|k: int|
            0 <= k < r@.len() ==> ((#[trigger] r@[k]).start as int, r@[k].end as int)
                == batch_range(k, count as int),
        forall|k: int| 0 <= k < r@.len() ==> (#[trigger] r@[k]).start < r@[k].end <= count,
{
    let mut r: Vec<Batch> = Vec::new();
    let mut start: usize = 0;
    while start < count
        invariant
            start <= count,
            start == r@.len() * EMBED_BATCH_SIZE || start == count,
            start == count ==> r@.len() == batch_count(count as int),
            start < count ==> start == r@.len() * EMBED_BATCH_SIZE,
            forall|k: int|
                0 <= k < r@.len() ==> ((#[trigger] r@[k]).start as int, r@[k].end as int)
                    == batch_range(k, count as int),
            forall|k: int| 0 <= k < r@.len() ==> (#[trigger] r@[k]).start < r@[k].end <= count,
        decreases count - start,
    {
        let end = if count - start > EMBED_BATCH_SIZE {
            start + EMBED_BATCH_SIZE
        } else {
            count
        };
        let ghost k = r@.len() as int;
        r.push(Batch { start, end });
        proof {
            assert((k + 1) * 32 == k * 32 + 32) by (nonlinear_arith);
            if end == count {
                assert(batch_count(count as int) == k + 1) by (nonlinear_arith)
                    requires
                        k * 32 < count <= k * 32 + 32,
                        batch_count(count as int) == (count + 31) / 32,
                ;
            }
        }
        start = end;
    }
    proof {
        if count == 0 {
            assert(batch_count(0) == 0);
        }
    }
    r
}

/// Whether a search uses the vector index as well: it holds vectors and
/// the caller did not ask for text only.
pub fn use_hybrid(text_only: bool, vector_count: usize) -> (r: bool)
    ensures
        r == (!text_only && vector_count > 0),
{
    !text_only && vector_count > 0
}

/// The record that is written after a full indexing run.
#[derive(Debug, Clone)]
pub struct WorkspaceMetadata {
    /// The canonical root of the workspace.
    pub workspace: String,
    /// When the run ended, as an ISO 8601 timestamp in UTC.
    pub indexed_at: String,
    /// The number of files stored.
    pub files_indexed: usize,
}

/// The record of a run.
pub fn metadata(root: &str, indexed_at: &str, stats: &IndexStats) -> (m: WorkspaceMetadata)
    ensures
        m.workspace@ == root@,
        m.indexed_at@ == indexed_at@,
        m.files_indexed == stats.indexed,
{
    WorkspaceMetadata {
        workspace: root.to_owned(),
        indexed_at: indexed_at.to_owned(),
        files_indexed: stats.indexed,
    }
}

} // verus!
