//! The documents that indexing a file produces.
//!
//! A file becomes one whole-file document and, where it has more lines than
//! a chunk holds, one further document per chunk. Documents are plain
//! records; storing them is the caller's business.

use vstd::prelude::*;
use vstd::string::StringSliceAdditionalSpecFns;
use crate::chunker::{chunk_count, chunk_end, chunk_ranges, chunk_start, ChunkRange};
use crate::config::IndexerConfig;
use crate::error::YgrepError;
use crate::paths::{extension, extension_of, relative_path, relative_to};
use crate::text::{
    concat, decimal, decimal_of, from_chars, hex16, hex_of, join_lines, join_range, lines_of,
    lowercase_of, rows, split_lines, to_chars,
};

verus! {

/// What `xxh3_64` returns for a sequence of bytes: its 64-bit XXH3 hash
/// with the default seed and secret.
pub uninterp spec fn xxh3_64_of(input: Seq<u8>) -> u64;

/// `xxhash_rust::xxh3::xxh3_64`. The hash depends on the bytes alone; it is
/// named, not described.
pub assume_specification[ xxhash_rust::xxh3::xxh3_64 ](input: &[u8]) -> (h: u64)
    ensures
        h == xxh3_64_of(input@),
;

/// `std::string::FromUtf8Error`, which says where bytes stop being UTF-8.
#[verifier::external_type_specification]
#[verifier::external_body]
pub struct ExFromUtf8Error(std::string::FromUtf8Error);

/// `String::from_utf8` of the standard library: a string made of exactly
/// these bytes where they are valid UTF-8, and an error otherwise.
pub assume_specification[ String::from_utf8 ](bytes: Vec<u8>) -> (r: Result<
    String,
    std::string::FromUtf8Error,
>)
    ensures
        r is Ok == vstd::utf8::valid_utf8(bytes@),
        r matches Ok(s) ==> vstd::utf8::encode_utf8(s@) == bytes@,
;

/// The content of a file as text. Bytes that are not valid UTF-8 are not
/// text, and such a file is not indexed.
pub fn decode_content(bytes: Vec<u8>) -> (r: Result<String, YgrepError>)
    ensures
        match r {
            Ok(text) => vstd::utf8::valid_utf8(bytes@) && text@ == vstd::utf8::decode_utf8(bytes@),
            Err(YgrepError::Io(_)) => !vstd::utf8::valid_utf8(bytes@),
            Err(_) => false,
        },
{
    match String::from_utf8(bytes) {
        Ok(text) => {
            proof {
                vstd::utf8::encode_utf8_decode_utf8(text@);
            }
            Ok(text)
        },
        Err(_) => Err(YgrepError::Io("stream did not contain valid UTF-8".to_owned())),
    }
}

/// One indexed unit with its stored fields.
#[derive(Debug, Clone)]
pub struct Document {
    /// Content hash of a file, or the chunk id of a chunk.
    pub doc_id: String,
    /// Path relative to the workspace root.
    pub path: String,
    /// The workspace root.
    pub workspace: String,
    /// The text.
    pub content: String,
    /// Seconds since the epoch of the last change; 0 for chunks.
    pub mtime: u64,
    /// Size in bytes.
    pub size: u64,
    /// Lower-case extension without the dot; empty for chunks.
    pub extension: String,
    /// First line, counted from 1.
    pub line_start: u64,
    /// Last line, counted from 1.
    pub line_end: u64,
    /// Empty for whole-file documents.
    pub chunk_id: String,
    /// Document id of the file a chunk was cut from; empty for whole files.
    pub parent_doc: String,
}

/// The mathematical value of a document.
pub struct DocumentView {
    pub doc_id: Seq<char>,
    pub path: Seq<char>,
    pub workspace: Seq<char>,
    pub content: Seq<char>,
    pub mtime: u64,
    pub size: u64,
    pub extension: Seq<char>,
    pub line_start: u64,
    pub line_end: u64,
    pub chunk_id: Seq<char>,
    pub parent_doc: Seq<char>,
}

impl View for Document {
    type V = DocumentView;

    open spec fn view(&self) -> DocumentView {
        DocumentView {
            doc_id: self.doc_id@,
            path: self.path@,
            workspace: self.workspace@,
            content: self.content@,
            mtime: self.mtime,
            size: self.size,
            extension: self.extension@,
            line_start: self.line_start,
            line_end: self.line_end,
            chunk_id: self.chunk_id@,
            parent_doc: self.parent_doc@,
        }
    }
}

impl DocumentView {
    /// The document stands for a whole file.
    pub open spec fn is_whole_file(self) -> bool {
        self.chunk_id.len() == 0
    }
}

/// The views of a list of documents.
pub open spec fn document_views(docs: Seq<Document>) -> Seq<DocumentView> {
    Seq::new(docs.len(), |i: int| docs[i]@)
}

/// The identifier of a content: sixteen hexadecimal digits of its hash.
pub open spec fn doc_id_of(content: Seq<u8>) -> Seq<char> {
    hex_of(xxh3_64_of(content) as nat, 16)
}

/// The identifier of chunk `index` of the document `parent`.
pub open spec fn chunk_id_of(parent: Seq<char>, index: int) -> Seq<char> {
    parent + seq![':'] + decimal_of(index as nat)
}

/// The stored extension of a path: lower case, empty where it has none.
pub open spec fn stored_extension(path: Seq<char>) -> Seq<char> {
    match extension_of(path) {
        Some(e) => lowercase_of(e),
        None => Seq::empty(),
    }
}

/// The text of the lines `[start, end)` of a content.
pub open spec fn chunk_text(content: Seq<char>, start: int, end: int) -> Seq<char> {
    join_lines(lines_of(content).subrange(start, end))
}

/// The byte length of a text in UTF-8.
pub open spec fn byte_len(text: Seq<char>) -> nat {
    vstd::utf8::encode_utf8(text).len()
}

/// The whole-file document of a file.
pub open spec fn whole_file_view(
    path: Seq<char>,
    root: Seq<char>,
    content: Seq<char>,
    size: u64,
    mtime: u64,
) -> DocumentView {
    DocumentView {
        doc_id: doc_id_of(vstd::utf8::encode_utf8(content)),
        path: relative_to(path, root),
        workspace: root,
        content,
        mtime,
        size,
        extension: stored_extension(path),
        line_start: 1,
        line_end: lines_of(content).len() as u64,
        chunk_id: Seq::empty(),
        parent_doc: Seq::empty(),
    }
}

/// The document of chunk `k` of a file.
pub open spec fn chunk_view(
    k: int,
    path: Seq<char>,
    root: Seq<char>,
    content: Seq<char>,
    window: int,
    overlap: int,
) -> DocumentView {
    let n = lines_of(content).len() as int;
    let parent = doc_id_of(vstd::utf8::encode_utf8(content));
    let text = chunk_text(content, chunk_start(k, window, overlap), chunk_end(k, n, window, overlap));
    DocumentView {
        doc_id: chunk_id_of(parent, k),
        path: relative_to(path, root),
        workspace: root,
        content: text,
        mtime: 0,
        size: byte_len(text) as u64,
        extension: Seq::empty(),
        line_start: (chunk_start(k, window, overlap) + 1) as u64,
        line_end: chunk_end(k, n, window, overlap) as u64,
        chunk_id: chunk_id_of(parent, k),
        parent_doc: parent,
    }
}

/// The chunk documents of a file, in order.
pub open spec fn chunk_views(
    path: Seq<char>,
    root: Seq<char>,
    content: Seq<char>,
    window: int,
    overlap: int,
) -> Seq<DocumentView> {
    Seq::new(
        chunk_count(lines_of(content).len() as int, window, overlap) as nat,
        |k: int| chunk_view(k, path, root, content, window, overlap),
    )
}

/// What indexing one file produced.
#[derive(Debug, Clone)]
pub struct IndexedFile {
    /// The identifier of the whole-file document.
    pub doc_id: String,
    /// The whole-file document.
    pub document: Document,
    /// The chunk documents, in order; empty for a short file.
    pub chunks: Vec<Document>,
}

/// The identifier of a content.
pub fn content_id(content: &str) -> (id: String)
    ensures
        id@ == doc_id_of(content.spec_bytes()),
{
    let hash = xxhash_rust::xxh3::xxh3_64(content.as_bytes());
    from_chars(&hex16(hash))
}

/// The extension under which a path is stored.
pub fn extension_for_storage(path: &str) -> (e: String)
    ensures
        e@ == stored_extension(path@),
{
    match extension(path) {
        Some(e) => e.as_str().to_lowercase(),
        None => String::new(),
    }
}

fn chunk_document(
    k: usize,
    range: ChunkRange,
    lines: &Vec<Vec<char>>,
    parent: &str,
    rel_path: &str,
    root: &str,
) -> (doc: Document)
    requires
        range.start < range.end <= lines.len(),
    ensures
        doc@ == (DocumentView {
            doc_id: chunk_id_of(parent@, k as int),
            path: rel_path@,
            workspace: root@,
            content: join_lines(rows(lines@).subrange(range.start as int, range.end as int)),
            mtime: 0,
            size: byte_len(
                join_lines(rows(lines@).subrange(range.start as int, range.end as int)),
            ) as u64,
            extension: Seq::empty(),
            line_start: (range.start + 1) as u64,
            line_end: range.end as u64,
            chunk_id: chunk_id_of(parent@, k as int),
            parent_doc: parent@,
        }),
{
    let text = from_chars(&join_range(lines, range.start, range.end));
    let mut colon: Vec<char> = Vec::new();
    colon.push(':');
    assert(colon@ =~= seq![':']);
    let id_chars = concat(&concat(&to_chars(parent), &colon), &decimal(k as u64));
    let size = text.as_str().as_bytes().len() as u64;
    Document {
        doc_id: from_chars(&id_chars),
        path: rel_path.to_owned(),
        workspace: root.to_owned(),
        content: text,
        mtime: 0,
        size,
        extension: String::new(),
        line_start: (range.start as u64) + 1,
        line_end: range.end as u64,
        chunk_id: from_chars(&id_chars),
        parent_doc: parent.to_owned(),
    }
}

/// The documents of one file: the whole-file document and its chunks.
///
/// A file larger than the configured limit is rejected, and only such a file.
pub fn index_file(
    path: &str,
    workspace_root: &str,
    content: &str,
    size: u64,
    mtime: u64,
    config: &IndexerConfig,
) -> (r: Result<IndexedFile, YgrepError>)
    requires
        config.chunk_overlap < config.chunk_size,
    ensures
        match r {
            Ok(file) => {
                &&& size <= config.max_file_size
                &&& file.doc_id@ == doc_id_of(content.spec_bytes())
                &&& file.document@ == whole_file_view(
                    path@,
                    workspace_root@,
                    content@,
                    size,
                    mtime,
                )
                &&& document_views(file.chunks@) == chunk_views(
                    path@,
                    workspace_root@,
                    content@,
                    config.chunk_size as int,
                    config.chunk_overlap as int,
                )
            },
            Err(YgrepError::FileTooLarge { path: p, size: s, max: m }) => {
                &&& size > config.max_file_size
                &&& p@ == path@
                &&& s == size
                &&& m == config.max_file_size
            },
            Err(_) => false,
        },
{
    if size > config.max_file_size {
        return Err(
            YgrepError::FileTooLarge { path: path.to_owned(), size, max: config.max_file_size },
        );
    }
    let doc_id = content_id(content);
    let rel_path = relative_path(path, workspace_root);
    let lines = split_lines(&to_chars(content));
    let n = lines.len();
    let document = Document {
        doc_id: doc_id.clone(),
        path: rel_path.clone(),
        workspace: workspace_root.to_owned(),
        content: content.to_owned(),
        mtime,
        size,
        extension: extension_for_storage(path),
        line_start: 1,
        line_end: n as u64,
        chunk_id: String::new(),
        parent_doc: String::new(),
    };
    let ranges = chunk_ranges(n, config.chunk_size, config.chunk_overlap);
    let mut chunks: Vec<Document> = Vec::new();
    let mut k: usize = 0;
    while k < ranges.len()
        invariant
            k <= ranges.len(),
            k == chunks@.len(),
            n == lines@.len(),
            rows(lines@) == lines_of(content@),
            doc_id@ == doc_id_of(content.spec_bytes()),
            rel_path@ == relative_to(path@, workspace_root@),
            config.chunk_overlap < config.chunk_size,
            crate::chunker::ranges_view(ranges@) == crate::chunker::chunks_of(
                n as int,
                config.chunk_size as int,
                config.chunk_overlap as int,
            ),
            forall|i: int|
                0 <= i < k ==> (#[trigger] chunks@[i])@ == chunk_view(
                    i,
                    path@,
                    workspace_root@,
                    content@,
                    config.chunk_size as int,
                    config.chunk_overlap as int,
                ),
        decreases ranges.len() - k,
    {
        let range = ranges[k];
        proof {
            let view = crate::chunker::ranges_view(ranges@);
            assert(view[k as int] == (range.start as int, range.end as int));
            assert(view.len() == ranges@.len());
            crate::chunker::lemma_chunk_count(
                n as int,
                config.chunk_size as int,
                config.chunk_overlap as int,
            );
            lemma_chunk_bounds(
                k as int,
                n as int,
                config.chunk_size as int,
                config.chunk_overlap as int,
            );
        }
        let doc = chunk_document(
            k,
            range,
            &lines,
            doc_id.as_str(),
            rel_path.as_str(),
            workspace_root,
        );
        chunks.push(doc);
        k += 1;
    }
    proof {
        assert(crate::chunker::ranges_view(ranges@).len() == ranges@.len());
        assert(document_views(chunks@) =~= chunk_views(
            path@,
            workspace_root@,
            content@,
            config.chunk_size as int,
            config.chunk_overlap as int,
        ));
    }
    Ok(IndexedFile { doc_id, document, chunks })
}

/// Every chunk is a nonempty range of lines inside the file.
pub proof fn lemma_chunk_bounds(k: int, n: int, window: int, overlap: int)
    requires
        0 <= overlap < window,
        0 <= k < chunk_count(n, window, overlap),
    ensures
        0 <= chunk_start(k, window, overlap) < chunk_end(k, n, window, overlap) <= n,
{
    let s = window - overlap;
    let c = chunk_count(n, window, overlap);
    crate::chunker::lemma_chunk_count(n, window, overlap);
    assert(0 <= k * s && k * s < n) by (nonlinear_arith)
        requires
            s > 0,
            0 <= k <= c - 1,
            (c - 1) * s < n,
    ;
}


/// The documents of a file have the shape that the index relies on: the
/// whole-file document has no chunk id, every chunk has one, and all of them
/// stand under the same path.
pub proof fn lemma_documents_of_a_file(
    path: Seq<char>,
    root: Seq<char>,
    content: Seq<char>,
    size: u64,
    mtime: u64,
    window: int,
    overlap: int,
)
    ensures
        whole_file_view(path, root, content, size, mtime).is_whole_file(),
        whole_file_view(path, root, content, size, mtime).path == relative_to(path, root),
        forall|k: int|
            0 <= k < chunk_views(path, root, content, window, overlap).len() ==> {
                let chunk = #[trigger] chunk_views(path, root, content, window, overlap)[k];
                &&& !chunk.is_whole_file()
                &&& chunk.path == relative_to(path, root)
                &&& chunk.parent_doc == whole_file_view(path, root, content, size, mtime).doc_id
            },
{
}

} // verus!
