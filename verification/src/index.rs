//! What indexing asks of the inverted index, and what that does to it.
//!
//! The index itself is kept elsewhere. Here its content is modelled as the
//! sequence of its documents, and each request as a function on that
//! sequence, so that what a series of requests leaves behind can be stated.

use vstd::prelude::*;
use crate::config::IndexerConfig;
use crate::document::{
    chunk_views, decode_content, doc_id_of, document_views, index_file,
    lemma_documents_of_a_file, whole_file_view, Document, DocumentView, IndexedFile,
};
use crate::paths::relative_to;
use crate::error::YgrepError;
use crate::text::views;

verus! {

/// A request to the inverted index.
#[derive(Debug, Clone)]
pub enum IndexOp {
    /// Remove every document stored under the path.
    DeleteByPath(String),
    /// Remove every document with the identifier.
    DeleteById(String),
    /// Store the document.
    Add(Document),
}

/// The mathematical value of a request.
pub enum IndexOpView {
    DeleteByPath(Seq<char>),
    DeleteById(Seq<char>),
    Add(DocumentView),
}

impl View for IndexOp {
    type V = IndexOpView;

    open spec fn view(&self) -> IndexOpView {
        match *self {
            IndexOp::DeleteByPath(p) => IndexOpView::DeleteByPath(p@),
            IndexOp::DeleteById(id) => IndexOpView::DeleteById(id@),
            IndexOp::Add(d) => IndexOpView::Add(d@),
        }
    }
}

/// The views of a list of requests.
pub open spec fn op_views(ops: Seq<IndexOp>) -> Seq<IndexOpView> {
    Seq::new(ops.len(), |i: int| ops[i]@)
}

/// The documents of `index` that are not stored under `path`.
pub open spec fn without_path(index: Seq<DocumentView>, path: Seq<char>) -> Seq<DocumentView> {
    index.filter(|d: DocumentView| d.path != path)
}

/// The documents of `index` whose identifier is not `doc_id`.
pub open spec fn without_id(index: Seq<DocumentView>, doc_id: Seq<char>) -> Seq<DocumentView> {
    index.filter(|d: DocumentView| d.doc_id != doc_id)
}

/// The index after one request.
pub open spec fn applied(index: Seq<DocumentView>, op: IndexOpView) -> Seq<DocumentView> {
    match op {
        IndexOpView::DeleteByPath(p) => without_path(index, p),
        IndexOpView::DeleteById(id) => without_id(index, id),
        IndexOpView::Add(d) => index.push(d),
    }
}

/// The index after a series of requests, in order.
pub open spec fn applied_all(index: Seq<DocumentView>, ops: Seq<IndexOpView>) -> Seq<DocumentView>
    decreases ops.len(),
{
    if ops.len() == 0 {
        index
    } else {
        applied(applied_all(index, ops.drop_last()), ops.last())
    }
}

/// The requests that store a file: what is stored under its path goes,
/// then the whole-file document and its chunks are added.
pub open spec fn file_ops(document: DocumentView, chunks: Seq<DocumentView>) -> Seq<IndexOpView> {
    seq![IndexOpView::DeleteByPath(document.path), IndexOpView::Add(document)] + Seq::new(
        chunks.len(),
        |i: int| IndexOpView::Add(chunks[i]),
    )
}

/// The requests that store an indexed file.
pub fn operations(file: &IndexedFile) -> (ops: Vec<IndexOp>)
    ensures
        op_views(ops@) == file_ops(file.document@, document_views(file.chunks@)),
{
    let mut ops: Vec<IndexOp> = Vec::new();
    ops.push(IndexOp::DeleteByPath(file.document.path.clone()));
    ops.push(IndexOp::Add(copy_document(&file.document)));
    let mut i: usize = 0;
    while i < file.chunks.len()
        invariant
            i <= file.chunks.len(),
            ops@.len() == 2 + i,
            ops@[0]@ == IndexOpView::DeleteByPath(file.document@.path),
            ops@[1]@ == IndexOpView::Add(file.document@),
            forall|k: int| 0 <= k < i ==> (#[trigger] ops@[2 + k])@ == IndexOpView::Add(
                file.chunks@[k]@,
            ),
        decreases file.chunks.len() - i,
    {
        ops.push(IndexOp::Add(copy_document(&file.chunks[i])));
        i += 1;
    }
    proof {
        let want = file_ops(file.document@, document_views(file.chunks@));
        let head = seq![
            IndexOpView::DeleteByPath(file.document@.path),
            IndexOpView::Add(file.document@),
        ];
        assert(head.len() == 2);
        assert(want.len() == ops@.len());
        assert forall|k: int| 0 <= k < ops@.len() implies op_views(ops@)[k] == want[k] by {
            if k >= 2 {
                assert(ops@[2 + (k - 2)]@ == IndexOpView::Add(file.chunks@[k - 2]@));
            }
        }
        assert(op_views(ops@) =~= want);
    }
    ops
}

/// A copy of a document.
pub fn copy_document(d: &Document) -> (r: Document)
    ensures
        r@ == d@,
{
    Document {
        doc_id: d.doc_id.clone(),
        path: d.path.clone(),
        workspace: d.workspace.clone(),
        content: d.content.clone(),
        mtime: d.mtime,
        size: d.size,
        extension: d.extension.clone(),
        line_start: d.line_start,
        line_end: d.line_end,
        chunk_id: d.chunk_id.clone(),
        parent_doc: d.parent_doc.clone(),
    }
}

/// Turns files into documents and requests for one workspace.
pub struct Indexer {
    config: IndexerConfig,
    workspace_root: String,
}

impl Indexer {
    /// The root of the workspace.
    pub closed spec fn root(&self) -> Seq<char> {
        self.workspace_root@
    }

    /// The largest file that is indexed, in bytes.
    pub closed spec fn max_file_size(&self) -> u64 {
        self.config.max_file_size
    }

    /// Lines per chunk.
    pub closed spec fn chunk_size(&self) -> usize {
        self.config.chunk_size
    }

    /// Lines shared by consecutive chunks.
    pub closed spec fn chunk_overlap(&self) -> usize {
        self.config.chunk_overlap
    }

    #[verifier::type_invariant]
    spec fn chunks_are_valid(&self) -> bool {
        self.config.chunk_overlap < self.config.chunk_size
    }

    /// An indexer for the workspace at `workspace_root`. Settings whose
    /// chunks would overlap by a whole chunk or more are refused.
    pub fn new(config: IndexerConfig, workspace_root: &str) -> (r: Result<Self, YgrepError>)
        ensures
            match r {
                Ok(indexer) => {
                    &&& config.has_valid_chunks()
                    &&& indexer.root() == workspace_root@
                    &&& indexer.max_file_size() == config.max_file_size
                    &&& indexer.chunk_size() == config.chunk_size
                    &&& indexer.chunk_overlap() == config.chunk_overlap
                },
                Err(YgrepError::Config(_)) => !config.has_valid_chunks(),
                Err(_) => false,
            },
    {
        if !config.check_chunks() {
            return Err(
                YgrepError::Config("chunk_overlap must be smaller than chunk_size".to_owned()),
            );
        }
        Ok(Indexer { config, workspace_root: workspace_root.to_owned() })
    }

    /// The documents of one file of the workspace. A file larger than the
    /// limit is rejected, and only such a file.
    pub fn index_file(&self, path: &str, content: &str, size: u64, mtime: u64) -> (r: Result<
        IndexedFile,
        YgrepError,
    >)
        ensures
            match r {
                Ok(file) => {
                    &&& size <= self.max_file_size()
                    &&& file.doc_id@ == doc_id_of(vstd::utf8::encode_utf8(content@))
                    &&& file.document@ == whole_file_view(path@, self.root(), content@, size, mtime)
                    &&& document_views(file.chunks@) == chunk_views(
                        path@,
                        self.root(),
                        content@,
                        self.chunk_size() as int,
                        self.chunk_overlap() as int,
                    )
                },
                Err(YgrepError::FileTooLarge { path: p, size: s, max: m }) => {
                    &&& size > self.max_file_size()
                    &&& p@ == path@
                    &&& s == size
                    &&& m == self.max_file_size()
                },
                Err(_) => false,
            },
    {
        proof {
            use_type_invariant(self);
        }
        index_file(path, self.workspace_root.as_str(), content, size, mtime, &self.config)
    }

    /// The documents of one file of the workspace, from its bytes. Bytes
    /// that are not valid UTF-8 are refused as unreadable.
    pub fn index_bytes(&self, path: &str, bytes: Vec<u8>, size: u64, mtime: u64) -> (r: Result<
        IndexedFile,
        YgrepError,
    >)
        ensures
            match r {
                Ok(file) => {
                    let content = vstd::utf8::decode_utf8(bytes@);
                    &&& vstd::utf8::valid_utf8(bytes@)
                    &&& size <= self.max_file_size()
                    &&& file.doc_id@ == doc_id_of(vstd::utf8::encode_utf8(content))
                    &&& file.document@ == whole_file_view(path@, self.root(), content, size, mtime)
                    &&& document_views(file.chunks@) == chunk_views(
                        path@,
                        self.root(),
                        content,
                        self.chunk_size() as int,
                        self.chunk_overlap() as int,
                    )
                },
                Err(YgrepError::Io(_)) => !vstd::utf8::valid_utf8(bytes@),
                Err(YgrepError::FileTooLarge { path: p, size: s, max: m }) => {
                    &&& vstd::utf8::valid_utf8(bytes@)
                    &&& size > self.max_file_size()
                    &&& p@ == path@
                    &&& s == size
                    &&& m == self.max_file_size()
                },
                Err(_) => false,
            },
    {
        match decode_content(bytes) {
            Ok(content) => self.index_file(path, content.as_str(), size, mtime),
            Err(e) => Err(e),
        }
    }

    /// The request that removes what is stored under a path.
    pub fn delete_by_path(&self, path: &str) -> (op: IndexOp)
        ensures
            op@ == IndexOpView::DeleteByPath(path@),
    {
        IndexOp::DeleteByPath(path.to_owned())
    }

    /// The request that removes the documents with an identifier.
    pub fn delete_by_id(&self, doc_id: &str) -> (op: IndexOp)
        ensures
            op@ == IndexOpView::DeleteById(doc_id@),
    {
        IndexOp::DeleteById(doc_id.to_owned())
    }
}

/// The index after storing a file.
pub open spec fn reindexed(
    index: Seq<DocumentView>,
    document: DocumentView,
    chunks: Seq<DocumentView>,
) -> Seq<DocumentView> {
    without_path(index, document.path).push(document) + chunks
}

proof fn lemma_applied_adds(index: Seq<DocumentView>, head: Seq<IndexOpView>, docs: Seq<DocumentView>)
    ensures
        applied_all(index, head + Seq::new(docs.len(), |i: int| IndexOpView::Add(docs[i])))
            == applied_all(index, head) + docs,
    decreases docs.len(),
{
    let adds = Seq::new(docs.len(), |i: int| IndexOpView::Add(docs[i]));
    if docs.len() == 0 {
        assert(head + adds =~= head);
        assert(applied_all(index, head) + docs =~= applied_all(index, head));
    } else {
        let rest = docs.drop_last();
        let rest_adds = Seq::new(rest.len(), |i: int| IndexOpView::Add(rest[i]));
        lemma_applied_adds(index, head, rest);
        assert((head + adds).drop_last() =~= head + rest_adds);
        assert((head + adds).last() == IndexOpView::Add(docs.last()));
        assert((applied_all(index, head) + rest).push(docs.last()) =~= applied_all(index, head)
            + docs);
    }
}

/// Storing a file leaves the documents of other paths, then the file's
/// whole-file document, then its chunks.
pub proof fn lemma_file_ops(
    index: Seq<DocumentView>,
    document: DocumentView,
    chunks: Seq<DocumentView>,
)
    ensures
        applied_all(index, file_ops(document, chunks)) == reindexed(index, document, chunks),
{
    let head = seq![IndexOpView::DeleteByPath(document.path), IndexOpView::Add(document)];
    let first = seq![IndexOpView::DeleteByPath(document.path)];
    lemma_applied_adds(index, head, chunks);
    assert(head.drop_last() =~= first);
    assert(first.drop_last() =~= Seq::<IndexOpView>::empty());
    assert(applied_all(index, Seq::<IndexOpView>::empty()) == index);
    assert(applied_all(index, first) == without_path(index, document.path));
    assert(applied_all(index, head) == without_path(index, document.path).push(document));
}

/// After a file is stored, exactly one whole-file document stands under
/// its path, and it is the file's; every other document under that path is
/// one of its chunks, so nothing of an earlier version is left.
pub proof fn lemma_one_document_per_path(
    index: Seq<DocumentView>,
    document: DocumentView,
    chunks: Seq<DocumentView>,
)
    requires
        document.is_whole_file(),
        forall|k: int| 0 <= k < chunks.len() ==> !(#[trigger] chunks[k]).is_whole_file(),
    ensures
        ({
            let after = applied_all(index, file_ops(document, chunks));
            let at = without_path(index, document.path).len() as int;
            &&& 0 <= at < after.len()
            &&& after[at] == document
            &&& forall|i: int|
                0 <= i < after.len() && (#[trigger] after[i]).path == document.path
                    && after[i].is_whole_file() ==> i == at
            &&& forall|i: int|
                0 <= i < after.len() && (#[trigger] after[i]).path == document.path ==> i == at
                    || (i > at && after[i] == chunks[i - at - 1])
        }),
{
    lemma_file_ops(index, document, chunks);
    let kept = without_path(index, document.path);
    let after = reindexed(index, document, chunks);
    index.filter_lemma(|d: DocumentView| d.path != document.path);
    assert forall|i: int| 0 <= i < kept.len() implies (#[trigger] kept[i]).path
        != document.path by {
        assert(kept.contains(kept[i]));
    }
    assert forall|i: int| 0 <= i < after.len() && (#[trigger] after[i]).path
        == document.path implies i == kept.len() || (i > kept.len() && after[i] == chunks[i
        - kept.len() - 1]) by {
        if i < kept.len() {
            assert(after[i] == kept[i]);
        }
    }
}

/// After a file is indexed, whatever the index held before, exactly one
/// whole-file document stands under the file's path relative to the root,
/// and its identifier is the hash of the file's content.
pub proof fn lemma_indexed_file_is_stored_once(
    index: Seq<DocumentView>,
    path: Seq<char>,
    root: Seq<char>,
    content: Seq<char>,
    size: u64,
    mtime: u64,
    window: int,
    overlap: int,
)
    ensures
        ({
            let document = whole_file_view(path, root, content, size, mtime);
            let chunks = chunk_views(path, root, content, window, overlap);
            let after = applied_all(index, file_ops(document, chunks));
            exists|at: int|
                {
                    &&& 0 <= at < after.len()
                    &&& #[trigger] after[at] == document
                    &&& after[at].path == relative_to(path, root)
                    &&& after[at].doc_id == doc_id_of(vstd::utf8::encode_utf8(content))
                    &&& after[at].is_whole_file()
                    &&& forall|i: int|
                        0 <= i < after.len() && (#[trigger] after[i]).path == relative_to(
                            path,
                            root,
                        ) && after[i].is_whole_file() ==> i == at
                }
        }),
{
    let document = whole_file_view(path, root, content, size, mtime);
    let chunks = chunk_views(path, root, content, window, overlap);
    lemma_documents_of_a_file(path, root, content, size, mtime, window, overlap);
    lemma_one_document_per_path(index, document, chunks);
    let after = applied_all(index, file_ops(document, chunks));
    let at = without_path(index, document.path).len() as int;
    assert(after[at] == document);
}

/// Storing a file leaves the documents of every other path as they were,
/// in their order.
pub proof fn lemma_other_paths_untouched(
    index: Seq<DocumentView>,
    document: DocumentView,
    chunks: Seq<DocumentView>,
    other: Seq<char>,
)
    requires
        other != document.path,
        forall|k: int| 0 <= k < chunks.len() ==> (#[trigger] chunks[k]).path == document.path,
    ensures
        applied_all(index, file_ops(document, chunks)).filter(|d: DocumentView| d.path == other)
            == index.filter(|d: DocumentView| d.path == other),
{
    lemma_file_ops(index, document, chunks);
    let is_other = |d: DocumentView| d.path == other;
    let not_here = |d: DocumentView| d.path != document.path;
    let kept = index.filter(not_here);
    lemma_filter_narrows(index, document.path, other);
    lemma_filter_none(chunks, other, document.path);
    let tail = seq![document] + chunks;
    assert(kept.push(document) + chunks =~= kept + tail);
    Seq::filter_distributes_over_add(kept, tail, is_other);
    Seq::filter_distributes_over_add(seq![document], chunks, is_other);
    lemma_filter_none(seq![document], other, document.path);
    assert(kept.filter(is_other) + Seq::<DocumentView>::empty() =~= kept.filter(is_other));
}

proof fn lemma_filter_narrows(index: Seq<DocumentView>, here: Seq<char>, other: Seq<char>)
    requires
        other != here,
    ensures
        index.filter(|d: DocumentView| d.path != here).filter(|d: DocumentView| d.path == other)
            == index.filter(|d: DocumentView| d.path == other),
    decreases index.len(),
{
    reveal(Seq::filter);
    let not_here = |d: DocumentView| d.path != here;
    let is_other = |d: DocumentView| d.path == other;
    if index.len() > 0 {
        let rest = index.drop_last();
        lemma_filter_narrows(rest, here, other);
        if not_here(index.last()) {
            assert(index.filter(not_here) == rest.filter(not_here).push(index.last()));
            assert(rest.filter(not_here).push(index.last()).drop_last() =~= rest.filter(not_here));
        }
    }
}

proof fn lemma_filter_none(docs: Seq<DocumentView>, other: Seq<char>, here: Seq<char>)
    requires
        other != here,
        forall|k: int| 0 <= k < docs.len() ==> (#[trigger] docs[k]).path == here,
    ensures
        docs.filter(|d: DocumentView| d.path == other) == Seq::<DocumentView>::empty(),
    decreases docs.len(),
{
    reveal(Seq::filter);
    if docs.len() > 0 {
        let rest = docs.drop_last();
        assert forall|k: int| 0 <= k < rest.len() implies (#[trigger] rest[k]).path == here by {
            assert(rest[k] == docs[k]);
        }
        lemma_filter_none(rest, other, here);
        assert(docs.last() == docs[docs.len() - 1]);
    }
}

} // verus!
