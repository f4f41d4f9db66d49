//! Literal search over retrieved documents.
//!
//! Retrieval by relevance belongs to the inverted index. What is decided
//! here is what to ask it for, which of its answers stay, and how a hit is
//! shown: a query is split into words, the retrieved documents are kept only
//! where their content holds the query as it stands, regardless of case, and
//! each hit gets a score between zero and one and a snippet.

use vstd::prelude::*;
use crate::config::{SearchConfig, WEIGHT_ONE};
use crate::document::{Document, DocumentView};
use crate::paths::{extension, extension_of};
use crate::results::{hit_views, SearchHit, SearchHitView, SearchResult};
use crate::text::{
    contains, eq_ignore_ascii_case, from_chars, has_infix, has_prefix, join_lines, join_range,
    lines_of, lowercase, lowercase_of, rows, same_ignoring_ascii_case, slice_of, split_lines,
    to_chars, views,
};
use crate::words::{find_words, lemma_words_ordered, span_views, words, Alphabet};

verus! {

/// The texts of the words of a text.
pub open spec fn word_texts(text: Seq<char>, alphabet: Alphabet) -> Seq<Seq<char>> {
    Seq::new(
        words(text, alphabet).len(),
        |i: int| text.subrange(words(text, alphabet)[i].0, words(text, alphabet)[i].1),
    )
}

/// The texts joined by single spaces.
pub open spec fn join_spaced(texts: Seq<Seq<char>>) -> Seq<char>
    decreases texts.len(),
{
    if texts.len() == 0 {
        Seq::empty()
    } else if texts.len() == 1 {
        texts[0]
    } else {
        join_spaced(texts.drop_last()) + seq![' '] + texts.last()
    }
}

/// The result limit in force: the caller's or the default, capped.
pub open spec fn effective_limit(limit: Option<usize>, config: SearchConfig) -> usize {
    let wanted = match limit {
        Some(l) => l,
        None => config.default_limit,
    };
    if wanted < config.max_limit {
        wanted
    } else {
        config.max_limit
    }
}

/// `factor` times `limit`, capped at the largest `usize`.
pub open spec fn scaled_limit(limit: usize, factor: usize) -> usize {
    if limit * factor <= usize::MAX {
        (limit * factor) as usize
    } else {
        usize::MAX
    }
}

/// What to ask the inverted index for.
#[derive(Debug, Clone)]
pub struct QueryPlan {
    /// The words of the query, separated by spaces: any of them may match.
    pub terms: String,
    /// How many documents to retrieve.
    pub fetch_limit: usize,
    /// How many hits to return.
    pub limit: usize,
}

/// A retrieved document with its relevance.
#[derive(Debug, Clone)]
pub struct Retrieved {
    pub document: Document,
    /// Relevance as the index scored it, in millionths.
    pub score: u32,
}

/// The retrieved documents as mathematical values.
pub open spec fn retrieved_views(list: Seq<Retrieved>) -> Seq<(DocumentView, u32)> {
    Seq::new(list.len(), |i: int| (list[i].document@, list[i].score))
}

/// The content holds the query as it stands, regardless of case.
pub open spec fn holds_literally(content: Seq<char>, query: Seq<char>) -> bool {
    has_infix(lowercase_of(content), lowercase_of(query))
}

/// A score relative to the best one, in millionths: between zero and one
/// million for a score that is not above the best; zero where the best score
/// is zero.
pub open spec fn normalized(score: u32, best: u32) -> u64 {
    if best > 0 {
        (score as int * WEIGHT_ONE as int / best as int) as u64
    } else {
        0
    }
}

/// The line, in lower case, holds one of the terms.
pub open spec fn line_matches(line: Seq<char>, terms: Seq<Seq<char>>) -> bool {
    exists|t: int| 0 <= t < terms.len() && has_infix(lowercase_of(line), #[trigger] terms[t])
}

/// The index of the first line at or after `from` that matches, the number
/// of lines where none does.
pub open spec fn first_match_from(lines: Seq<Seq<char>>, terms: Seq<Seq<char>>, from: int) -> int
    decreases lines.len() - from,
{
    if from >= lines.len() {
        lines.len() as int
    } else if line_matches(lines[from], terms) {
        from
    } else {
        first_match_from(lines, terms, from + 1)
    }
}

/// The window of lines shown for a match at line `at`: two lines before it
/// and as many after it as `max_lines` leaves, inside the file.
pub open spec fn window_of(at: int, count: int, max_lines: int) -> (int, int) {
    let start = if at >= 2 {
        at - 2
    } else {
        0
    };
    let after = if max_lines >= 3 {
        max_lines - 3
    } else {
        0
    };
    let end = if at + after + 1 <= count {
        at + after + 1
    } else {
        count
    };
    (start, end)
}

/// The snippet of a content for a query: the window around the first line
/// that holds a word of the query, or the first `max_lines` lines where no
/// line does.
pub open spec fn snippet_of(content: Seq<char>, query: Seq<char>, max_lines: int) -> Seq<char> {
    let lines = lines_of(content);
    let terms = word_texts(lowercase_of(query), Alphabet::Query);
    let at = first_match_from(lines, terms, 0);
    if at >= lines.len() {
        join_lines(
            lines.subrange(
                0,
                if max_lines <= lines.len() {
                    max_lines
                } else {
                    lines.len() as int
                },
            ),
        )
    } else {
        join_lines(
            lines.subrange(
                window_of(at, lines.len() as int, max_lines).0,
                window_of(at, lines.len() as int, max_lines).1,
            ),
        )
    }
}

/// How many lines a snippet shows at most.
pub const SNIPPET_LINES: usize = 10;

/// The hit that a retrieved document becomes.
pub open spec fn hit_of(doc: DocumentView, score: u32, best: u32, query: Seq<char>) -> SearchHitView {
    SearchHitView {
        path: doc.path,
        line_start: doc.line_start,
        line_end: doc.line_end,
        snippet: snippet_of(doc.content, query, SNIPPET_LINES as int),
        score: normalized(score, best),
        is_chunk: doc.chunk_id.len() > 0,
        doc_id: doc.doc_id,
    }
}

/// The hits among the retrieved documents: those that hold the query
/// literally, in their order, up to `limit` of them. Scores are relative to
/// `best`.
pub open spec fn hits_of(
    retrieved: Seq<(DocumentView, u32)>,
    query: Seq<char>,
    limit: int,
    best: u32,
) -> Seq<SearchHitView>
    decreases retrieved.len(),
{
    if retrieved.len() == 0 {
        Seq::empty()
    } else {
        let before = hits_of(retrieved.drop_last(), query, limit, best);
        let (doc, score) = retrieved.last();
        if before.len() < limit && holds_literally(doc.content, query) {
            before.push(hit_of(doc, score, best, query))
        } else {
            before
        }
    }
}

/// The highest score among the retrieved documents, zero where there is
/// none.
pub open spec fn best_score(retrieved: Seq<(DocumentView, u32)>) -> u32
    decreases retrieved.len(),
{
    if retrieved.len() == 0 {
        0
    } else {
        let before = best_score(retrieved.drop_last());
        if retrieved.last().1 > before {
            retrieved.last().1
        } else {
            before
        }
    }
}

/// No retrieved document has a score above the best.
pub proof fn lemma_best_score(retrieved: Seq<(DocumentView, u32)>, i: int)
    requires
        0 <= i < retrieved.len(),
    ensures
        retrieved[i].1 <= best_score(retrieved),
    decreases retrieved.len(),
{
    if i < retrieved.len() - 1 {
        lemma_best_score(retrieved.drop_last(), i);
    }
}

/// The highest score among the retrieved documents.
pub fn find_best_score(retrieved: &Vec<Retrieved>) -> (best: u32)
    ensures
        best == best_score(retrieved_views(retrieved@)),
{
    let mut best: u32 = 0;
    let mut i: usize = 0;
    assert(retrieved_views(retrieved@).take(0) =~= Seq::empty());
    while i < retrieved.len()
        invariant
            i <= retrieved.len(),
            best == best_score(retrieved_views(retrieved@).take(i as int)),
        decreases retrieved.len() - i,
    {
        proof {
            let next = retrieved_views(retrieved@).take(i + 1);
            assert(next.drop_last() =~= retrieved_views(retrieved@).take(i as int));
            assert(next.last().1 == retrieved@[i as int].score);
        }
        if retrieved[i].score > best {
            best = retrieved[i].score;
        }
        i += 1;
    }
    assert(retrieved_views(retrieved@).take(retrieved@.len() as int) =~= retrieved_views(
        retrieved@,
    ));
    best
}

/// The words of a text, as texts.
pub fn split_words(text: &[char], alphabet: Alphabet) -> (r: Vec<Vec<char>>)
    ensures
        rows(r@) == word_texts(text@, alphabet),
{
    let spans = find_words(text, alphabet);
    proof {
        lemma_words_ordered(text@, alphabet);
    }
    let mut r: Vec<Vec<char>> = Vec::new();
    let mut i: usize = 0;
    while i < spans.len()
        invariant
            i <= spans.len(),
            i == r@.len(),
            span_views(spans@) == words(text@, alphabet),
            forall|k: int|
                0 <= k < words(text@, alphabet).len() ==> 0 <= (#[trigger] words(
                    text@,
                    alphabet,
                )[k]).0 < words(text@, alphabet)[k].1 <= text@.len(),
            forall|k: int| 0 <= k < i ==> (#[trigger] r@[k])@ == word_texts(text@, alphabet)[k],
        decreases spans.len() - i,
    {
        let span = spans[i];
        assert(span_views(spans@)[i as int] == (span.start as int, span.end as int));
        r.push(slice_of(text, span.start, span.end));
        i += 1;
    }
    assert(rows(r@) =~= word_texts(text@, alphabet));
    r
}

/// The words of a query: its maximal runs of alphanumeric characters and
/// underscores.
pub fn query_terms(query: &str) -> (terms: Vec<String>)
    ensures
        views(terms@) == word_texts(query@, Alphabet::Query),
{
    let found = split_words(&to_chars(query), Alphabet::Query);
    let mut terms: Vec<String> = Vec::new();
    let mut i: usize = 0;
    while i < found.len()
        invariant
            i <= found.len(),
            i == terms@.len(),
            forall|k: int| 0 <= k < i ==> (#[trigger] terms@[k])@ == found@[k]@,
        decreases found.len() - i,
    {
        terms.push(from_chars(&found[i]));
        i += 1;
    }
    assert(views(terms@) =~= rows(found@));
    terms
}

/// The texts joined by single spaces.
pub fn join_with_spaces(texts: &Vec<String>) -> (r: String)
    ensures
        r@ == join_spaced(views(texts@)),
{
    let mut r: Vec<char> = Vec::new();
    let mut i: usize = 0;
    assert(views(texts@).take(0) =~= Seq::empty());
    while i < texts.len()
        invariant
            i <= texts.len(),
            r@ == join_spaced(views(texts@).take(i as int)),
        decreases texts.len() - i,
    {
        let ghost next = views(texts@).take(i + 1);
        proof {
            assert(next.drop_last() =~= views(texts@).take(i as int));
            assert(next.last() == texts@[i as int]@);
        }
        let ghost head = r@;
        if i > 0 {
            r.push(' ');
        }
        let word = to_chars(texts[i].as_str());
        let ghost spaced = r@;
        let mut j: usize = 0;
        while j < word.len()
            invariant
                j <= word.len(),
                r@ == spaced + word@.take(j as int),
            decreases word.len() - j,
        {
            r.push(word[j]);
            j += 1;
        }
        proof {
            assert(word@.take(word@.len() as int) =~= word@);
            if i == 0 {
                assert(r@ =~= word@);
            }
        }
        i += 1;
    }
    assert(views(texts@).take(texts@.len() as int) =~= views(texts@));
    from_chars(&r)
}

/// The result limit in force.
pub fn limit_in_force(limit: Option<usize>, config: &SearchConfig) -> (r: usize)
    ensures
        r == effective_limit(limit, *config),
{
    let wanted = match limit {
        Some(l) => l,
        None => config.default_limit,
    };
    if wanted < config.max_limit {
        wanted
    } else {
        config.max_limit
    }
}

/// `factor` times `limit`, capped at the largest `usize`.
pub fn scale_limit(limit: usize, factor: usize) -> (r: usize)
    ensures
        r == scaled_limit(limit, factor),
{
    if factor == 0 || limit == 0 {
        assert(limit * factor == 0) by (nonlinear_arith)
            requires
                factor == 0 || limit == 0,
        ;
        return 0;
    }
    if limit > usize::MAX / factor {
        assert(limit * factor > usize::MAX) by (nonlinear_arith)
            requires
                factor > 0,
                limit > usize::MAX / factor,
        ;
        usize::MAX
    } else {
        assert(limit * factor <= usize::MAX) by (nonlinear_arith)
            requires
                factor > 0,
                limit <= usize::MAX / factor,
        ;
        limit * factor
    }
}

/// Whether a content holds the query as it stands, regardless of case.
pub fn contains_literally(content: &str, query: &str) -> (r: bool)
    ensures
        r == holds_literally(content@, query@),
{
    let content_lower = content.to_lowercase();
    let query_lower = query.to_lowercase();
    contains(&to_chars(content_lower.as_str()), &to_chars(query_lower.as_str()))
}

/// A score relative to the best one, in millionths.
pub fn normalize_score(score: u32, best: u32) -> (r: u64)
    ensures
        r == normalized(score, best),
        score <= best ==> r <= WEIGHT_ONE,
{
    if best > 0 {
        assert(score <= best ==> score as int * WEIGHT_ONE as int / best as int
            <= WEIGHT_ONE as int) by (nonlinear_arith)
            requires
                best > 0,
                score >= 0,
        ;
        assert(score as int * WEIGHT_ONE as int <= u32::MAX as int * 1_000_000) by (nonlinear_arith)
            requires
                score <= u32::MAX,
                WEIGHT_ONE == 1_000_000,
        ;
        let scaled: u64 = (score as u64) * (WEIGHT_ONE as u64);
        scaled / (best as u64)
    } else {
        0
    }
}

fn line_matches_exec(line: &Vec<char>, terms: &Vec<Vec<char>>) -> (r: bool)
    ensures
        r == line_matches(line@, rows(terms@)),
{
    let lower = lowercase(line);
    let mut t: usize = 0;
    while t < terms.len()
        invariant
            t <= terms.len(),
            lower@ == lowercase_of(line@),
            forall|k: int| 0 <= k < t ==> !has_infix(lower@, #[trigger] rows(terms@)[k]),
        decreases terms.len() - t,
    {
        assert(rows(terms@)[t as int] == terms@[t as int]@);
        if contains(&lower, &terms[t]) {
            return true;
        }
        t += 1;
    }
    false
}

/// The snippet of a content for a query.
pub fn create_relevant_snippet(content: &str, query: &str, max_lines: usize) -> (r: String)
    ensures
        r@ == snippet_of(content@, query@, max_lines as int),
{
    let lines = split_lines(&to_chars(content));
    let query_lower = query.to_lowercase();
    let terms = split_words(&to_chars(query_lower.as_str()), Alphabet::Query);
    let count = lines.len();
    let mut at: usize = 0;
    while at < count && !line_matches_exec(&lines[at], &terms)
        invariant
            at <= count,
            count == lines@.len(),
            first_match_from(rows(lines@), rows(terms@), 0) == first_match_from(
                rows(lines@),
                rows(terms@),
                at as int,
            ),
        decreases count - at,
    {
        assert(rows(lines@)[at as int] == lines@[at as int]@);
        at += 1;
    }
    proof {
        if at < count {
            assert(rows(lines@)[at as int] == lines@[at as int]@);
        }
    }
    if at >= count {
        let end = if max_lines <= count {
            max_lines
        } else {
            count
        };
        return from_chars(&join_range(&lines, 0, end));
    }
    let start = if at >= 2 {
        at - 2
    } else {
        0
    };
    let after = if max_lines >= 3 {
        max_lines - 3
    } else {
        0
    };
    let end = if after < count - at {
        at + after + 1
    } else {
        count
    };
    from_chars(&join_range(&lines, start, end))
}

/// The hits among the retrieved documents.
pub fn collect_hits(retrieved: &Vec<Retrieved>, query: &str, limit: usize) -> (hits: Vec<SearchHit>)
    ensures
        hit_views(hits@) == hits_of(
            retrieved_views(retrieved@),
            query@,
            limit as int,
            best_score(retrieved_views(retrieved@)),
        ),
        hits@.len() <= limit,
        forall|k: int| 0 <= k < hits@.len() ==> (#[trigger] hits@[k]).score <= WEIGHT_ONE,
{
    let mut hits: Vec<SearchHit> = Vec::new();
    let best: u32 = find_best_score(retrieved);
    let mut i: usize = 0;
    assert(retrieved_views(retrieved@).take(0) =~= Seq::empty());
    assert(hit_views(hits@) =~= Seq::empty());
    while i < retrieved.len()
        invariant
            i <= retrieved.len(),
            best == best_score(retrieved_views(retrieved@)),
            hits@.len() <= limit,
            forall|k: int| 0 <= k < hits@.len() ==> (#[trigger] hits@[k]).score <= WEIGHT_ONE,
            hit_views(hits@) == hits_of(
                retrieved_views(retrieved@).take(i as int),
                query@,
                limit as int,
                best,
            ),
        decreases retrieved.len() - i,
    {
        let ghost next = retrieved_views(retrieved@).take(i + 1);
        let ghost before = hit_views(hits@);
        proof {
            assert(next.drop_last() =~= retrieved_views(retrieved@).take(i as int));
            assert(next.last() == (retrieved@[i as int].document@, retrieved@[i as int].score));
        }
        let doc = &retrieved[i].document;
        proof {
            lemma_best_score(retrieved_views(retrieved@), i as int);
        }
        if hits.len() < limit && contains_literally(doc.content.as_str(), query) {
            let hit = SearchHit {
                path: doc.path.clone(),
                line_start: doc.line_start,
                line_end: doc.line_end,
                snippet: create_relevant_snippet(doc.content.as_str(), query, SNIPPET_LINES),
                score: normalize_score(retrieved[i].score, best),
                is_chunk: !doc.chunk_id.as_str().is_empty(),
                doc_id: doc.doc_id.clone(),
            };
            hits.push(hit);
            assert(hit_views(hits@) =~= before.push(
                hit_of(doc@, retrieved@[i as int].score, best, query@),
            ));
        }
        i += 1;
    }
    assert(retrieved_views(retrieved@).take(retrieved@.len() as int) =~= retrieved_views(
        retrieved@,
    ));
    hits
}


/// Restrictions on the hits of a search.
#[derive(Debug, Clone)]
pub struct SearchFilters {
    /// Keep only files with one of these extensions, such as `rs`.
    pub extensions: Option<Vec<String>>,
    /// Keep only paths that hold one of these texts.
    pub paths: Option<Vec<String>>,
}

impl Default for SearchFilters {
    fn default() -> (f: Self)
        ensures
            f.extensions is None,
            f.paths is None,
    {
        SearchFilters { extensions: None, paths: None }
    }
}

/// The path has one of the extensions, regardless of the case of ASCII
/// letters.
pub open spec fn has_extension_in(path: Seq<char>, extensions: Seq<Seq<char>>) -> bool {
    extension_of(path) is Some && exists|i: int|
        0 <= i < extensions.len() && same_ignoring_ascii_case(
            #[trigger] extensions[i],
            extension_of(path)->0,
        )
}

/// The path starts with or holds one of the texts.
pub open spec fn holds_one_of(path: Seq<char>, texts: Seq<Seq<char>>) -> bool {
    exists|i: int|
        0 <= i < texts.len() && (has_prefix(path, #[trigger] texts[i]) || has_infix(path, texts[i]))
}

/// A hit passes the filters.
pub open spec fn passes(hit: SearchHitView, filters: SearchFilters) -> bool {
    &&& filters.extensions matches Some(list) ==> has_extension_in(hit.path, views(list@))
    &&& filters.paths matches Some(list) ==> holds_one_of(hit.path, views(list@))
}

/// The hits that pass the filters, in their order, up to `limit` of them.
pub open spec fn filtered(hits: Seq<SearchHitView>, filters: SearchFilters, limit: int) -> Seq<
    SearchHitView,
>
    decreases hits.len(),
{
    if hits.len() == 0 {
        Seq::empty()
    } else {
        let before = filtered(hits.drop_last(), filters, limit);
        if before.len() < limit && passes(hits.last(), filters) {
            before.push(hits.last())
        } else {
            before
        }
    }
}

fn has_extension_in_exec(path: &str, extensions: &Vec<String>) -> (r: bool)
    ensures
        r == has_extension_in(path@, views(extensions@)),
{
    let ext = match extension(path) {
        Some(e) => to_chars(e.as_str()),
        None => {
            return false;
        },
    };
    let mut i: usize = 0;
    while i < extensions.len()
        invariant
            i <= extensions.len(),
            extension_of(path@) == Some(ext@),
            forall|k: int|
                0 <= k < i ==> !same_ignoring_ascii_case(#[trigger] views(extensions@)[k], ext@),
        decreases extensions.len() - i,
    {
        assert(views(extensions@)[i as int] == extensions@[i as int]@);
        if eq_ignore_ascii_case(&to_chars(extensions[i].as_str()), &ext) {
            return true;
        }
        i += 1;
    }
    false
}

fn holds_one_of_exec(path: &str, texts: &Vec<String>) -> (r: bool)
    ensures
        r == holds_one_of(path@, views(texts@)),
{
    let chars = to_chars(path);
    let mut i: usize = 0;
    while i < texts.len()
        invariant
            i <= texts.len(),
            chars@ == path@,
            forall|k: int|
                0 <= k < i ==> !(has_prefix(path@, #[trigger] views(texts@)[k]) || has_infix(
                    path@,
                    views(texts@)[k],
                )),
        decreases texts.len() - i,
    {
        assert(views(texts@)[i as int] == texts@[i as int]@);
        if contains(&chars, &to_chars(texts[i].as_str())) {
            return true;
        }
        i += 1;
    }
    false
}

/// Whether a hit passes the filters.
pub fn passes_filters(hit: &SearchHit, filters: &SearchFilters) -> (r: bool)
    ensures
        r == passes(hit@, *filters),
{
    let by_extension = match &filters.extensions {
        Some(list) => has_extension_in_exec(hit.path.as_str(), list),
        None => true,
    };
    if !by_extension {
        return false;
    }
    match &filters.paths {
        Some(list) => holds_one_of_exec(hit.path.as_str(), list),
        None => true,
    }
}

/// The hits that pass the filters, up to `limit` of them.
pub fn apply_filters(hits: &Vec<SearchHit>, filters: &SearchFilters, limit: usize) -> (kept: Vec<
    SearchHit,
>)
    ensures
        hit_views(kept@) == filtered(hit_views(hits@), *filters, limit as int),
        kept@.len() <= limit,
{
    let mut kept: Vec<SearchHit> = Vec::new();
    let mut i: usize = 0;
    assert(hit_views(hits@).take(0) =~= Seq::empty());
    assert(hit_views(kept@) =~= Seq::empty());
    while i < hits.len()
        invariant
            i <= hits.len(),
            kept@.len() <= limit,
            hit_views(kept@) == filtered(hit_views(hits@).take(i as int), *filters, limit as int),
        decreases hits.len() - i,
    {
        let ghost next = hit_views(hits@).take(i + 1);
        let ghost before = hit_views(kept@);
        proof {
            assert(next.drop_last() =~= hit_views(hits@).take(i as int));
            assert(next.last() == hits@[i as int]@);
        }
        if kept.len() < limit && passes_filters(&hits[i], filters) {
            kept.push(hits[i].duplicate());
            assert(hit_views(kept@) =~= before.push(hits@[i as int]@));
        }
        i += 1;
    }
    assert(hit_views(hits@).take(hits@.len() as int) =~= hit_views(hits@));
    kept
}

/// Literal search with the settings of a configuration.
pub struct Searcher {
    config: SearchConfig,
}

impl Searcher {
    /// The settings in force.
    pub closed spec fn config(&self) -> SearchConfig {
        self.config
    }

    /// A searcher with the given settings.
    pub fn new(config: SearchConfig) -> (r: Self)
        ensures
            r.config() == config,
    {
        Searcher { config }
    }

    /// What to ask the inverted index for. Nothing where the query has no
    /// words: the search is then over, with no hits.
    pub fn plan(&self, query: &str, limit: Option<usize>) -> (r: Option<QueryPlan>)
        ensures
            r is None == (word_texts(query@, Alphabet::Query).len() == 0),
            r matches Some(p) ==> {
                &&& p.terms@ == join_spaced(word_texts(query@, Alphabet::Query))
                &&& p.limit == effective_limit(limit, self.config())
                &&& p.fetch_limit == scaled_limit(p.limit, 10)
            },
    {
        let terms = query_terms(query);
        if terms.len() == 0 {
            return None;
        }
        let limit = limit_in_force(limit, &self.config);
        Some(QueryPlan { terms: join_with_spaces(&terms), fetch_limit: scale_limit(limit, 10), limit })
    }

    /// The limit handed to [`Searcher::plan`] by a filtered search: twice
    /// what the caller asked for, so that filtering leaves enough.
    pub fn filtered_fetch(&self, limit: Option<usize>) -> (r: Option<usize>)
        ensures
            r == Some(
                scaled_limit(
                    match limit {
                        Some(l) => l,
                        None => self.config().max_limit,
                    },
                    2,
                ),
            ),
    {
        let wanted = match limit {
            Some(l) => l,
            None => self.config.max_limit,
        };
        Some(scale_limit(wanted, 2))
    }

    /// The result of a search, given what the index retrieved for the plan
    /// and how long that took. A query without words has the empty result.
    pub fn search(
        &self,
        query: &str,
        limit: Option<usize>,
        retrieved: &Vec<Retrieved>,
        elapsed_ms: u64,
    ) -> (r: SearchResult)
        ensures
            word_texts(query@, Alphabet::Query).len() == 0 ==> r.hits@.len() == 0 && r.total == 0
                && r.query_time_ms == 0,
            word_texts(query@, Alphabet::Query).len() > 0 ==> {
                &&& hit_views(r.hits@) == hits_of(
                    retrieved_views(retrieved@),
                    query@,
                    effective_limit(limit, self.config()) as int,
                    best_score(retrieved_views(retrieved@)),
                )
                &&& r.total == r.hits@.len()
                &&& r.query_time_ms == elapsed_ms
            },
    {
        if query_terms(query).len() == 0 {
            return SearchResult::empty();
        }
        let limit = limit_in_force(limit, &self.config);
        let hits = collect_hits(retrieved, query, limit);
        SearchResult { total: hits.len(), hits, query_time_ms: elapsed_ms }
    }

    /// The result of a filtered search: the hits of a search for
    /// [`Searcher::filtered_fetch`] hits that pass the filters, up to the
    /// limit in force.
    pub fn search_filtered(
        &self,
        query: &str,
        limit: Option<usize>,
        filters: &SearchFilters,
        retrieved: &Vec<Retrieved>,
        elapsed_ms: u64,
    ) -> (r: SearchResult)
        ensures
            word_texts(query@, Alphabet::Query).len() == 0 ==> r.hits@.len() == 0 && r.total == 0
                && r.query_time_ms == 0,
            word_texts(query@, Alphabet::Query).len() > 0 ==> {
                &&& hit_views(r.hits@) == filtered(
                    hits_of(
                        retrieved_views(retrieved@),
                        query@,
                        effective_limit(
                            Some(
                                scaled_limit(
                                    match limit {
                                        Some(l) => l,
                                        None => self.config().max_limit,
                                    },
                                    2,
                                ),
                            ),
                            self.config(),
                        ) as int,
                        best_score(retrieved_views(retrieved@)),
                    ),
                    *filters,
                    effective_limit(limit, self.config()) as int,
                )
                &&& r.total == r.hits@.len()
                &&& r.query_time_ms == elapsed_ms
            },
    {
        let inner = self.search(query, self.filtered_fetch(limit), retrieved, elapsed_ms);
        if query_terms(query).len() == 0 {
            return inner;
        }
        let limit = limit_in_force(limit, &self.config);
        let hits = apply_filters(&inner.hits, filters, limit);
        SearchResult { total: hits.len(), hits, query_time_ms: inner.query_time_ms }
    }
}

} // verus!
