//! Search results as plain records.

use vstd::prelude::*;
use crate::text::{concat, decimal, decimal_of, from_chars, slice_of, to_chars};

verus! {

/// One result of a search.
#[derive(Debug, Clone)]
pub struct SearchHit {
    /// Path relative to the workspace root.
    pub path: String,
    /// First line of the document or chunk, counted from 1.
    pub line_start: u64,
    /// Last line of the document or chunk.
    pub line_end: u64,
    /// An excerpt of the content.
    pub snippet: String,
    /// Relevance in millionths.
    pub score: u64,
    /// Whether the hit is a chunk of a file.
    pub is_chunk: bool,
    /// The document's identifier.
    pub doc_id: String,
}

/// The mathematical value of a hit.
pub struct SearchHitView {
    pub path: Seq<char>,
    pub line_start: u64,
    pub line_end: u64,
    pub snippet: Seq<char>,
    pub score: u64,
    pub is_chunk: bool,
    pub doc_id: Seq<char>,
}

impl View for SearchHit {
    type V = SearchHitView;

    open spec fn view(&self) -> SearchHitView {
        SearchHitView {
            path: self.path@,
            line_start: self.line_start,
            line_end: self.line_end,
            snippet: self.snippet@,
            score: self.score,
            is_chunk: self.is_chunk,
            doc_id: self.doc_id@,
        }
    }
}

/// The views of a list of hits.
pub open spec fn hit_views(hits: Seq<SearchHit>) -> Seq<SearchHitView> {
    Seq::new(hits.len(), |i: int| hits[i]@)
}

/// The line range of a hit as text: one number, or two joined by `-`.
pub open spec fn lines_text(line_start: u64, line_end: u64) -> Seq<char> {
    if line_start == line_end {
        decimal_of(line_start as nat)
    } else {
        decimal_of(line_start as nat) + seq!['-'] + decimal_of(line_end as nat)
    }
}

impl SearchHit {
    /// The line range as text, such as `10-25`.
    pub fn lines_str(&self) -> (s: String)
        ensures
            s@ == lines_text(self.line_start, self.line_end),
    {
        if self.line_start == self.line_end {
            from_chars(&decimal(self.line_start))
        } else {
            let mut dash: Vec<char> = Vec::new();
            dash.push('-');
            assert(dash@ =~= seq!['-']);
            from_chars(&concat(&concat(&decimal(self.line_start), &dash), &decimal(self.line_end)))
        }
    }

    /// A copy of the hit.
    pub fn duplicate(&self) -> (r: Self)
        ensures
            r@ == self@,
    {
        SearchHit {
            path: self.path.clone(),
            line_start: self.line_start,
            line_end: self.line_end,
            snippet: self.snippet.clone(),
            score: self.score,
            is_chunk: self.is_chunk,
            doc_id: self.doc_id.clone(),
        }
    }
}

/// The outcome of a search.
#[derive(Debug, Clone)]
pub struct SearchResult {
    /// The hits, best first.
    pub hits: Vec<SearchHit>,
    /// The number of hits.
    pub total: usize,
    /// How long the query took, in milliseconds.
    pub query_time_ms: u64,
}

impl SearchResult {
    /// A result without hits that took no time.
    pub fn empty() -> (r: Self)
        ensures
            r.hits@.len() == 0,
            r.total == 0,
            r.query_time_ms == 0,
    {
        SearchResult { hits: Vec::new(), total: 0, query_time_ms: 0 }
    }

    /// Whether there are no hits.
    pub fn is_empty(&self) -> (r: bool)
        ensures
            r == (self.hits@.len() == 0),
    {
        self.hits.len() == 0
    }
}

/// The index of the last line feed among the first `limit` characters,
/// -1 where there is none.
pub open spec fn last_newline_before(text: Seq<char>, limit: int) -> int
    decreases limit,
{
    if limit <= 0 {
        -1
    } else if text[limit - 1] == '\n' {
        limit - 1
    } else {
        last_newline_before(text, limit - 1)
    }
}

/// A text cut to at most `max_chars` characters: whole where it is short
/// enough, else up to the last line feed among its first `max_chars`
/// characters, else its first `max_chars` characters.
pub open spec fn truncated(text: Seq<char>, max_chars: int) -> Seq<char> {
    if text.len() <= max_chars {
        text
    } else if last_newline_before(text, max_chars) >= 0 {
        text.subrange(0, last_newline_before(text, max_chars))
    } else {
        text.subrange(0, max_chars)
    }
}

/// A snippet cut to at most `max_chars` characters, at a line's end where
/// there is one.
pub fn truncate_snippet(s: &str, max_chars: usize) -> (r: String)
    ensures
        r@ == truncated(s@, max_chars as int),
{
    let chars = to_chars(s);
    if chars.len() <= max_chars {
        return s.to_owned();
    }
    let mut i: usize = max_chars;
    while i > 0 && chars[i - 1] != '\n'
        invariant
            i <= max_chars < chars.len(),
            last_newline_before(chars@, max_chars as int) == last_newline_before(chars@, i as int),
        decreases i,
    {
        i -= 1;
    }
    if i > 0 {
        from_chars(&slice_of(&chars, 0, i - 1))
    } else {
        from_chars(&slice_of(&chars, 0, max_chars))
    }
}

} // verus!
