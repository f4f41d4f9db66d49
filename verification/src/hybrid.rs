//! Fusing a lexical and a vector ranking by reciprocal ranks.
//!
//! Each result of a ranking at rank `r` contributes `w / (K + r)` to the
//! total of its document, where `w` is the weight of the ranking and `K` is
//! 60. Totals are kept as exact fractions, so that the order of the fused
//! list does not depend on rounding; a result is reported with its total
//! rounded down to millionths.

use vstd::prelude::*;
use crate::config::{SearchConfig, WEIGHT_ONE};
use crate::document::{Document, DocumentView};
use crate::results::{hit_views, SearchHit, SearchHitView, SearchResult};
use crate::search::{
    create_relevant_snippet, effective_limit, limit_in_force, retrieved_views, scale_limit,
    scaled_limit, snippet_of, Retrieved, SNIPPET_LINES,
};
use crate::text::{from_chars, same_text, to_chars};

verus! {

/// The constant of reciprocal rank fusion.
pub const RRF_K: u64 = 60;

/// One result of a single ranking.
#[derive(Debug, Clone)]
pub struct RankedResult {
    pub doc_id: String,
    pub path: String,
    pub content: String,
    pub line_start: u64,
    pub line_end: u64,
    pub is_chunk: bool,
    /// The rank in its ranking, counted from 1.
    pub rank: u32,
    /// The score in its ranking, in millionths.
    pub score: u32,
}

/// The mathematical value of a ranked result.
pub struct RankedView {
    pub doc_id: Seq<char>,
    pub path: Seq<char>,
    pub content: Seq<char>,
    pub line_start: u64,
    pub line_end: u64,
    pub is_chunk: bool,
    pub rank: u32,
    pub score: u32,
}

impl View for RankedResult {
    type V = RankedView;

    open spec fn view(&self) -> RankedView {
        RankedView {
            doc_id: self.doc_id@,
            path: self.path@,
            content: self.content@,
            line_start: self.line_start,
            line_end: self.line_end,
            is_chunk: self.is_chunk,
            rank: self.rank,
            score: self.score,
        }
    }
}

impl RankedResult {
    /// A copy of the result.
    pub fn duplicate(&self) -> (r: Self)
        ensures
            r@ == self@,
    {
        RankedResult {
            doc_id: self.doc_id.clone(),
            path: self.path.clone(),
            content: self.content.clone(),
            line_start: self.line_start,
            line_end: self.line_end,
            is_chunk: self.is_chunk,
            rank: self.rank,
            score: self.score,
        }
    }
}

/// The views of a ranking.
pub open spec fn ranked_views(list: Seq<RankedResult>) -> Seq<RankedView> {
    Seq::new(list.len(), |i: int| list[i]@)
}

/// A document of the fused list: the record under which it first appeared,
/// and its rank in each ranking that holds it.
#[derive(Debug, Clone)]
pub struct Fused {
    pub result: RankedResult,
    pub bm25_rank: Option<u32>,
    pub vector_rank: Option<u32>,
}

/// The mathematical value of a fused document.
pub struct FusedView {
    pub result: RankedView,
    pub bm25_rank: Option<u32>,
    pub vector_rank: Option<u32>,
}

impl View for Fused {
    type V = FusedView;

    open spec fn view(&self) -> FusedView {
        FusedView {
            result: self.result@,
            bm25_rank: self.bm25_rank,
            vector_rank: self.vector_rank,
        }
    }
}

impl Fused {
    /// A copy of the document.
    pub fn duplicate(&self) -> (r: Self)
        ensures
            r@ == self@,
    {
        Fused {
            result: self.result.duplicate(),
            bm25_rank: self.bm25_rank,
            vector_rank: self.vector_rank,
        }
    }
}

/// The views of a fused list.
pub open spec fn fused_views(list: Seq<Fused>) -> Seq<FusedView> {
    Seq::new(list.len(), |i: int| list[i]@)
}

/// A non-negative fraction with a positive denominator.
pub struct Fraction {
    pub num: int,
    pub den: int,
}

/// `a >= b` as fractions.
pub open spec fn at_least(a: Fraction, b: Fraction) -> bool {
    a.num * b.den >= b.num * a.den
}

/// The weight that a ranking contributes for a document: its own weight
/// where it holds the document, nothing otherwise.
pub open spec fn share(rank: Option<u32>, weight: u32) -> int {
    if rank is Some {
        weight as int
    } else {
        0
    }
}

/// The denominator of a ranking's contribution: `K + rank`.
pub open spec fn divisor(rank: Option<u32>) -> int {
    match rank {
        Some(r) => RRF_K as int + r as int,
        None => RRF_K as int,
    }
}

/// The fused total of a document:
/// `w_bm25 / (K + r_bm25) + w_vec / (K + r_vec)`, each term only where the
/// ranking holds the document.
pub open spec fn total_of(f: FusedView, bm25_weight: u32, vector_weight: u32) -> Fraction {
    Fraction {
        num: share(f.bm25_rank, bm25_weight) * divisor(f.vector_rank) + share(
            f.vector_rank,
            vector_weight,
        ) * divisor(f.bm25_rank),
        den: divisor(f.bm25_rank) * divisor(f.vector_rank),
    }
}

/// The rank of the last result of a ranking that names the document.
pub open spec fn last_rank(list: Seq<RankedView>, doc_id: Seq<char>) -> Option<u32>
    decreases list.len(),
{
    if list.len() == 0 {
        None
    } else if list.last().doc_id == doc_id {
        Some(list.last().rank)
    } else {
        last_rank(list.drop_last(), doc_id)
    }
}

/// Some document of the list has the identifier.
pub open spec fn names(list: Seq<FusedView>, doc_id: Seq<char>) -> bool {
    exists|i: int| 0 <= i < list.len() && (#[trigger] list[i]).result.doc_id == doc_id
}

/// The documents of the first `upto` results of `all`, each once, in the
/// order of their first appearance, with their ranks in the two rankings.
pub open spec fn merged(
    all: Seq<RankedView>,
    bm25: Seq<RankedView>,
    vector: Seq<RankedView>,
) -> Seq<FusedView>
    decreases all.len(),
{
    if all.len() == 0 {
        Seq::empty()
    } else {
        let before = merged(all.drop_last(), bm25, vector);
        let record = all.last();
        if names(before, record.doc_id) {
            before
        } else {
            before.push(
                FusedView {
                    result: record,
                    bm25_rank: last_rank(bm25, record.doc_id),
                    vector_rank: last_rank(vector, record.doc_id),
                },
            )
        }
    }
}

/// The number of leading documents of `list` whose total is at least that
/// of `x`: where `x` goes in a list sorted by falling totals.
pub open spec fn place_of(list: Seq<FusedView>, x: FusedView, wb: u32, wv: u32) -> int
    decreases list.len(),
{
    if list.len() == 0 {
        0
    } else if at_least(total_of(list[0], wb, wv), total_of(x, wb, wv)) {
        1 + place_of(list.drop_first(), x, wb, wv)
    } else {
        0
    }
}

/// The documents sorted by falling totals; documents with equal totals
/// keep their order.
pub open spec fn sorted(list: Seq<FusedView>, wb: u32, wv: u32) -> Seq<FusedView>
    decreases list.len(),
{
    if list.len() == 0 {
        Seq::empty()
    } else {
        let before = sorted(list.drop_last(), wb, wv);
        before.insert(place_of(before, list.last(), wb, wv), list.last())
    }
}

/// The fused list of two rankings.
pub open spec fn fused(bm25: Seq<RankedView>, vector: Seq<RankedView>, wb: u32, wv: u32) -> Seq<
    FusedView,
> {
    sorted(merged(bm25 + vector, bm25, vector), wb, wv)
}

/// The totals fall along the list.
pub open spec fn is_descending(list: Seq<FusedView>, wb: u32, wv: u32) -> bool {
    forall|i: int, j: int|
        0 <= i < j < list.len() ==> at_least(
            total_of(#[trigger] list[i], wb, wv),
            total_of(#[trigger] list[j], wb, wv),
        )
}

/// A total rounded down to a whole number of millionths. Weights are in
/// millionths, and so is a total.
pub open spec fn millionths(t: Fraction) -> int {
    t.num / t.den
}

/// The hit that a fused document is reported as.
pub open spec fn fused_hit(f: FusedView, wb: u32, wv: u32) -> SearchHitView {
    SearchHitView {
        path: f.result.path,
        line_start: f.result.line_start,
        line_end: f.result.line_end,
        snippet: snippet_of(f.result.content, Seq::empty(), SNIPPET_LINES as int),
        score: millionths(total_of(f, wb, wv)) as u64,
        is_chunk: f.result.is_chunk,
        doc_id: f.result.doc_id,
    }
}

/// The hits of a fused list.
pub open spec fn fused_hits(list: Seq<FusedView>, wb: u32, wv: u32) -> Seq<SearchHitView> {
    Seq::new(list.len(), |i: int| fused_hit(list[i], wb, wv))
}

/// Totals have positive denominators and stay small.
pub proof fn lemma_total_bounds(f: FusedView, wb: u32, wv: u32)
    requires
        wb <= WEIGHT_ONE,
        wv <= WEIGHT_ONE,
    ensures
        0 <= total_of(f, wb, wv).num <= 2 * 1_000_000 * 0x1_0000_0040,
        0 < total_of(f, wb, wv).den <= 0x1_0000_0040 * 0x1_0000_0040,
{
    let sb = share(f.bm25_rank, wb);
    let sv = share(f.vector_rank, wv);
    let db = divisor(f.bm25_rank);
    let dv = divisor(f.vector_rank);
    assert(0 <= sb <= 1_000_000 && 0 <= sv <= 1_000_000);
    assert(60 <= db <= 0x1_0000_0040 && 60 <= dv <= 0x1_0000_0040);
    assert(0 <= sb * dv <= 1_000_000 * 0x1_0000_0040) by (nonlinear_arith)
        requires
            0 <= sb <= 1_000_000,
            0 <= dv <= 0x1_0000_0040,
    ;
    assert(0 <= sv * db <= 1_000_000 * 0x1_0000_0040) by (nonlinear_arith)
        requires
            0 <= sv <= 1_000_000,
            0 <= db <= 0x1_0000_0040,
    ;
    assert(0 < db * dv <= 0x1_0000_0040 * 0x1_0000_0040) by (nonlinear_arith)
        requires
            60 <= db <= 0x1_0000_0040,
            60 <= dv <= 0x1_0000_0040,
    ;
}

/// The order of fractions is transitive.
pub proof fn lemma_at_least_transitive(a: Fraction, b: Fraction, c: Fraction)
    requires
        a.den > 0,
        b.den > 0,
        c.den > 0,
        at_least(a, b),
        at_least(b, c),
    ensures
        at_least(a, c),
{
    assert(a.num * c.den >= c.num * a.den) by (nonlinear_arith)
        requires
            a.den > 0,
            b.den > 0,
            c.den > 0,
            a.num * b.den >= b.num * a.den,
            b.num * c.den >= c.num * b.den,
    ;
}

/// Inserting a document at its place keeps a list descending.
pub proof fn lemma_insert_keeps_descending(list: Seq<FusedView>, x: FusedView, wb: u32, wv: u32)
    requires
        wb <= WEIGHT_ONE,
        wv <= WEIGHT_ONE,
        is_descending(list, wb, wv),
    ensures
        0 <= place_of(list, x, wb, wv) <= list.len(),
        forall|i: int|
            0 <= i < place_of(list, x, wb, wv) ==> at_least(
                total_of(#[trigger] list[i], wb, wv),
                total_of(x, wb, wv),
            ),
        place_of(list, x, wb, wv) < list.len() ==> !at_least(
            total_of(list[place_of(list, x, wb, wv)], wb, wv),
            total_of(x, wb, wv),
        ),
        is_descending(list.insert(place_of(list, x, wb, wv), x), wb, wv),
    decreases list.len(),
{
    let p = place_of(list, x, wb, wv);
    lemma_place(list, x, wb, wv);
    let out = list.insert(p, x);
    assert forall|i: int, j: int| 0 <= i < j < out.len() implies at_least(
        total_of(#[trigger] out[i], wb, wv),
        total_of(#[trigger] out[j], wb, wv),
    ) by {
        let tx = total_of(x, wb, wv);
        lemma_total_bounds(x, wb, wv);
        if j < p {
            assert(out[i] == list[i] && out[j] == list[j]);
        } else if j == p {
            assert(out[i] == list[i] && out[j] == x);
        } else if i == p {
            // x before list[j - 1], which is at or behind list[p]
            assert(out[j] == list[j - 1]);
            let tp = total_of(list[p], wb, wv);
            let tj = total_of(list[j - 1], wb, wv);
            lemma_total_bounds(list[p], wb, wv);
            lemma_total_bounds(list[j - 1], wb, wv);
            assert(at_least(tx, tp)) by (nonlinear_arith)
                requires
                    !(tp.num * tx.den >= tx.num * tp.den),
            ;
            if j - 1 > p {
                assert(at_least(tp, tj));
                lemma_at_least_transitive(tx, tp, tj);
            }
        } else if i < p {
            assert(out[i] == list[i] && out[j] == list[j - 1]);
        } else {
            assert(out[i] == list[i - 1] && out[j] == list[j - 1]);
        }
    }
}

/// The place of a document: every document before it has at least its
/// total, the document at it, if any, has less.
pub proof fn lemma_place(list: Seq<FusedView>, x: FusedView, wb: u32, wv: u32)
    ensures
        0 <= place_of(list, x, wb, wv) <= list.len(),
        forall|i: int|
            0 <= i < place_of(list, x, wb, wv) ==> at_least(
                total_of(#[trigger] list[i], wb, wv),
                total_of(x, wb, wv),
            ),
        place_of(list, x, wb, wv) < list.len() ==> !at_least(
            total_of(list[place_of(list, x, wb, wv)], wb, wv),
            total_of(x, wb, wv),
        ),
    decreases list.len(),
{
    if list.len() > 0 && at_least(total_of(list[0], wb, wv), total_of(x, wb, wv)) {
        let rest = list.drop_first();
        lemma_place(rest, x, wb, wv);
        assert forall|i: int| 0 <= i < place_of(list, x, wb, wv) implies at_least(
            total_of(#[trigger] list[i], wb, wv),
            total_of(x, wb, wv),
        ) by {
            if i > 0 {
                assert(rest[i - 1] == list[i]);
            }
        }
        if place_of(list, x, wb, wv) < list.len() {
            assert(rest[place_of(rest, x, wb, wv)] == list[place_of(list, x, wb, wv)]);
        }
    }
}

/// A sorted list is descending and as long as the list it came from.
pub proof fn lemma_sorted_is_descending(list: Seq<FusedView>, wb: u32, wv: u32)
    requires
        wb <= WEIGHT_ONE,
        wv <= WEIGHT_ONE,
    ensures
        is_descending(sorted(list, wb, wv), wb, wv),
        sorted(list, wb, wv).len() == list.len(),
    decreases list.len(),
{
    if list.len() > 0 {
        lemma_sorted_is_descending(list.drop_last(), wb, wv);
        lemma_insert_keeps_descending(sorted(list.drop_last(), wb, wv), list.last(), wb, wv);
    }
}


/// The rank of the last result of a ranking that names the document.
pub fn find_last_rank(list: &Vec<RankedResult>, doc_id: &str) -> (r: Option<u32>)
    ensures
        r == last_rank(ranked_views(list@), doc_id@),
{
    let mut i: usize = list.len();
    assert(ranked_views(list@).take(i as int) =~= ranked_views(list@));
    while i > 0
        invariant
            i <= list.len(),
            last_rank(ranked_views(list@), doc_id@) == last_rank(
                ranked_views(list@).take(i as int),
                doc_id@,
            ),
        decreases i,
    {
        let ghost prefix = ranked_views(list@).take(i as int);
        proof {
            assert(prefix.last() == list@[i - 1]@);
            assert(prefix.drop_last() =~= ranked_views(list@).take(i - 1));
        }
        if same_text(list[i - 1].doc_id.as_str(), doc_id) {
            return Some(list[i - 1].rank);
        }
        i -= 1;
    }
    None
}

fn is_named(list: &Vec<Fused>, doc_id: &str) -> (r: bool)
    ensures
        r == names(fused_views(list@), doc_id@),
{
    let mut i: usize = 0;
    while i < list.len()
        invariant
            i <= list.len(),
            forall|k: int| 0 <= k < i ==> (#[trigger] fused_views(list@)[k]).result.doc_id != doc_id@,
        decreases list.len() - i,
    {
        if same_text(list[i].result.doc_id.as_str(), doc_id) {
            assert(fused_views(list@)[i as int].result.doc_id == doc_id@);
            return true;
        }
        i += 1;
    }
    false
}

/// The documents of two rankings, each once, in the order of their first
/// appearance, the lexical ranking first.
pub fn merge_rankings(bm25: &Vec<RankedResult>, vector: &Vec<RankedResult>) -> (entries: Vec<Fused>)
    ensures
        fused_views(entries@) == merged(
            ranked_views(bm25@) + ranked_views(vector@),
            ranked_views(bm25@),
            ranked_views(vector@),
        ),
{
    let ghost all = ranked_views(bm25@) + ranked_views(vector@);
    let mut entries: Vec<Fused> = Vec::new();
    assert(all.take(0) =~= Seq::empty());
    assert(fused_views(entries@) =~= Seq::empty());
    let mut i: usize = 0;
    while i < bm25.len()
        invariant
            i <= bm25.len(),
            all == ranked_views(bm25@) + ranked_views(vector@),
            fused_views(entries@) == merged(
                all.take(i as int),
                ranked_views(bm25@),
                ranked_views(vector@),
            ),
        decreases bm25.len() - i,
    {
        let ghost before = fused_views(entries@);
        proof {
            assert(all.take(i + 1).drop_last() =~= all.take(i as int));
            assert(all.take(i + 1).last() == bm25@[i as int]@);
        }
        let record = &bm25[i];
        if !is_named(&entries, record.doc_id.as_str()) {
            let entry = Fused {
                result: record.duplicate(),
                bm25_rank: find_last_rank(bm25, record.doc_id.as_str()),
                vector_rank: find_last_rank(vector, record.doc_id.as_str()),
            };
            entries.push(entry);
            assert(fused_views(entries@) =~= before.push(entry@));
        }
        i += 1;
    }
    let n = bm25.len();
    let mut j: usize = 0;
    while j < vector.len()
        invariant
            j <= vector.len(),
            n == bm25.len(),
            all == ranked_views(bm25@) + ranked_views(vector@),
            fused_views(entries@) == merged(
                all.take(n + j),
                ranked_views(bm25@),
                ranked_views(vector@),
            ),
        decreases vector.len() - j,
    {
        let ghost before = fused_views(entries@);
        proof {
            assert(all.take(n + j + 1).drop_last() =~= all.take(n + j));
            assert(all.take(n + j + 1).last() == vector@[j as int]@);
        }
        let record = &vector[j];
        if !is_named(&entries, record.doc_id.as_str()) {
            let entry = Fused {
                result: record.duplicate(),
                bm25_rank: find_last_rank(bm25, record.doc_id.as_str()),
                vector_rank: find_last_rank(vector, record.doc_id.as_str()),
            };
            entries.push(entry);
            assert(fused_views(entries@) =~= before.push(entry@));
        }
        j += 1;
    }
    assert(all.take(all.len() as int) =~= all);
    entries
}

fn share_exec(rank: Option<u32>, weight: u32) -> (r: u128)
    ensures
        r == share(rank, weight),
{
    match rank {
        Some(_) => weight as u128,
        None => 0,
    }
}

fn divisor_exec(rank: Option<u32>) -> (r: u128)
    ensures
        r == divisor(rank),
{
    match rank {
        Some(r) => RRF_K as u128 + r as u128,
        None => RRF_K as u128,
    }
}

/// The numerator of a document's total.
fn total_num(f: &Fused, wb: u32, wv: u32) -> (r: u128)
    requires
        wb <= WEIGHT_ONE,
        wv <= WEIGHT_ONE,
    ensures
        r == total_of(f@, wb, wv).num,
{
    proof {
        lemma_total_bounds(f@, wb, wv);
        let sb = share(f.bm25_rank, wb);
        let sv = share(f.vector_rank, wv);
        let db = divisor(f.bm25_rank);
        let dv = divisor(f.vector_rank);
        assert(0 <= sb * dv <= 1_000_000 * 0x1_0000_0040) by (nonlinear_arith)
            requires
                0 <= sb <= 1_000_000,
                0 <= dv <= 0x1_0000_0040,
        ;
        assert(0 <= sv * db <= 1_000_000 * 0x1_0000_0040) by (nonlinear_arith)
            requires
                0 <= sv <= 1_000_000,
                0 <= db <= 0x1_0000_0040,
        ;
    }
    share_exec(f.bm25_rank, wb) * divisor_exec(f.vector_rank) + share_exec(f.vector_rank, wv)
        * divisor_exec(f.bm25_rank)
}

/// The denominator of a document's total.
fn total_den(f: &Fused, wb: u32, wv: u32) -> (r: u128)
    requires
        wb <= WEIGHT_ONE,
        wv <= WEIGHT_ONE,
    ensures
        r == total_of(f@, wb, wv).den,
{
    proof {
        lemma_total_bounds(f@, wb, wv);
    }
    divisor_exec(f.bm25_rank) * divisor_exec(f.vector_rank)
}

/// Whether the first document's total is at least the second's.
pub fn total_at_least(a: &Fused, b: &Fused, wb: u32, wv: u32) -> (r: bool)
    requires
        wb <= WEIGHT_ONE,
        wv <= WEIGHT_ONE,
    ensures
        r == at_least(total_of(a@, wb, wv), total_of(b@, wb, wv)),
{
    let an = total_num(a, wb, wv);
    let ad = total_den(a, wb, wv);
    let bn = total_num(b, wb, wv);
    let bd = total_den(b, wb, wv);
    proof {
        lemma_total_bounds(a@, wb, wv);
        lemma_total_bounds(b@, wb, wv);
        assert(an * bd <= (2 * 1_000_000 * 0x1_0000_0040) * (0x1_0000_0040 * 0x1_0000_0040))
            by (nonlinear_arith)
            requires
                0 <= an <= 2 * 1_000_000 * 0x1_0000_0040,
                0 <= bd <= 0x1_0000_0040 * 0x1_0000_0040,
        ;
        assert(bn * ad <= (2 * 1_000_000 * 0x1_0000_0040) * (0x1_0000_0040 * 0x1_0000_0040))
            by (nonlinear_arith)
            requires
                0 <= bn <= 2 * 1_000_000 * 0x1_0000_0040,
                0 <= ad <= 0x1_0000_0040 * 0x1_0000_0040,
        ;
        assert((2 * 1_000_000 * 0x1_0000_0040) * (0x1_0000_0040 * 0x1_0000_0040) < u128::MAX)
            by (nonlinear_arith);
    }
    an * bd >= bn * ad
}

/// The documents sorted by falling totals; equal totals keep their order.
pub fn sort_by_total(entries: &Vec<Fused>, wb: u32, wv: u32) -> (out: Vec<Fused>)
    requires
        wb <= WEIGHT_ONE,
        wv <= WEIGHT_ONE,
    ensures
        fused_views(out@) == sorted(fused_views(entries@), wb, wv),
{
    let ghost all = fused_views(entries@);
    let mut out: Vec<Fused> = Vec::new();
    let total = entries.len();
    let mut i: usize = 0;
    assert(all.take(0) =~= Seq::empty());
    assert(fused_views(out@) =~= Seq::empty());
    while i < total
        invariant
            i <= total,
            total == all.len(),
            total == entries@.len(),
            all == fused_views(entries@),
            wb <= WEIGHT_ONE,
            wv <= WEIGHT_ONE,
            fused_views(out@) == sorted(all.take(i as int), wb, wv),
        decreases total - i,
    {
        let ghost before = fused_views(out@);
        let x = entries[i].duplicate();
        proof {
            assert(x@ == all[i as int]);
            assert(all.take(i + 1).drop_last() =~= all.take(i as int));
            assert(all.take(i + 1).last() == all[i as int]);
        }
        let mut p: usize = 0;
        assert(before.subrange(0, before.len() as int) =~= before);
        while p < out.len() && total_at_least(&out[p], &x, wb, wv)
            invariant
                p <= out.len(),
                before == fused_views(out@),
                wb <= WEIGHT_ONE,
                wv <= WEIGHT_ONE,
                place_of(before, x@, wb, wv) == p + place_of(
                    before.subrange(p as int, before.len() as int),
                    x@,
                    wb,
                    wv,
                ),
            decreases out.len() - p,
        {
            proof {
                let rest = before.subrange(p as int, before.len() as int);
                assert(rest[0] == out@[p as int]@);
                assert(rest.drop_first() =~= before.subrange(p + 1, before.len() as int));
            }
            p += 1;
        }
        proof {
            let rest = before.subrange(p as int, before.len() as int);
            if p < out.len() {
                assert(rest[0] == out@[p as int]@);
            }
            assert(place_of(rest, x@, wb, wv) == 0);
        }
        out.insert(p, x);
        assert(fused_views(out@) =~= before.insert(p as int, x@));
        i += 1;
    }
    assert(all.take(total as int) =~= all);
    out
}


/// The hits of two rankings fused by reciprocal ranks, best first.
///
/// A document that a ranking holds more than once counts with its last rank
/// there and is reported under the record of its first appearance.
pub fn reciprocal_rank_fusion(
    bm25_results: &Vec<RankedResult>,
    vector_results: &Vec<RankedResult>,
    bm25_weight: u32,
    vector_weight: u32,
) -> (hits: Vec<SearchHit>)
    requires
        bm25_weight <= WEIGHT_ONE,
        vector_weight <= WEIGHT_ONE,
    ensures
        hit_views(hits@) == fused_hits(
            fused(
                ranked_views(bm25_results@),
                ranked_views(vector_results@),
                bm25_weight,
                vector_weight,
            ),
            bm25_weight,
            vector_weight,
        ),
        is_descending(
            fused(
                ranked_views(bm25_results@),
                ranked_views(vector_results@),
                bm25_weight,
                vector_weight,
            ),
            bm25_weight,
            vector_weight,
        ),
{
    let entries = merge_rankings(bm25_results, vector_results);
    let ordered = sort_by_total(&entries, bm25_weight, vector_weight);
    proof {
        lemma_sorted_is_descending(fused_views(entries@), bm25_weight, vector_weight);
    }
    let mut hits: Vec<SearchHit> = Vec::new();
    let mut i: usize = 0;
    while i < ordered.len()
        invariant
            i <= ordered.len(),
            i == hits@.len(),
            bm25_weight <= WEIGHT_ONE,
            vector_weight <= WEIGHT_ONE,
            forall|k: int|
                0 <= k < i ==> (#[trigger] hits@[k])@ == fused_hit(
                    ordered@[k]@,
                    bm25_weight,
                    vector_weight,
                ),
        decreases ordered.len() - i,
    {
        let f = &ordered[i];
        let num = total_num(f, bm25_weight, vector_weight);
        let den = total_den(f, bm25_weight, vector_weight);
        proof {
            lemma_total_bounds(f@, bm25_weight, vector_weight);
            assert(num / den <= num) by (nonlinear_arith)
                requires
                    num >= 0,
                    den > 0,
            ;
        }
        let hit = SearchHit {
            path: f.result.path.clone(),
            line_start: f.result.line_start,
            line_end: f.result.line_end,
            snippet: create_relevant_snippet(f.result.content.as_str(), "", SNIPPET_LINES),
            score: (num / den) as u64,
            is_chunk: f.result.is_chunk,
            doc_id: f.result.doc_id.clone(),
        };
        proof {
            reveal_strlit("");
            assert(""@ =~= Seq::<char>::empty());
        }
        hits.push(hit);
        i += 1;
    }
    assert(hit_views(hits@) =~= fused_hits(fused_views(ordered@), bm25_weight, vector_weight));
    hits
}


/// The documents of a ranking, each with its rank there taken for both
/// rankings.
pub open spec fn ranked_twice(list: Seq<RankedView>) -> Seq<FusedView> {
    Seq::new(
        list.len(),
        |i: int|
            FusedView {
                result: list[i],
                bm25_rank: Some(list[i].rank),
                vector_rank: Some(list[i].rank),
            },
    )
}

/// No two results of the ranking name the same document.
pub open spec fn has_distinct_ids(list: Seq<RankedView>) -> bool {
    forall|i: int, j: int|
        0 <= i < list.len() && 0 <= j < list.len() && i != j ==> (#[trigger] list[i]).doc_id != (
        #[trigger] list[j]).doc_id
}

/// The ranks rise along the ranking.
pub open spec fn has_rising_ranks(list: Seq<RankedView>) -> bool {
    forall|i: int, j: int| 0 <= i < j < list.len() ==> (#[trigger] list[i]).rank < (
    #[trigger] list[j]).rank
}

proof fn lemma_last_rank_of_member(list: Seq<RankedView>, i: int)
    requires
        has_distinct_ids(list),
        0 <= i < list.len(),
    ensures
        last_rank(list, list[i].doc_id) == Some(list[i].rank),
    decreases list.len(),
{
    if list.last().doc_id == list[i].doc_id {
        assert(i == list.len() - 1);
    } else {
        let rest = list.drop_last();
        assert(rest[i] == list[i]);
        assert forall|a: int, b: int|
            0 <= a < rest.len() && 0 <= b < rest.len() && a != b implies (#[trigger] rest[a]).doc_id
            != (#[trigger] rest[b]).doc_id by {
            assert(rest[a] == list[a] && rest[b] == list[b]);
        }
        lemma_last_rank_of_member(rest, i);
    }
}

proof fn lemma_merged_same_list(list: Seq<RankedView>, n: int)
    requires
        has_distinct_ids(list),
        0 <= n <= 2 * list.len(),
    ensures
        merged((list + list).take(n), list, list) == if n <= list.len() {
            ranked_twice(list).take(n)
        } else {
            ranked_twice(list)
        },
    decreases n,
{
    let all = list + list;
    let len = list.len() as int;
    if n == 0 {
        assert(all.take(0) =~= Seq::empty());
        assert(ranked_twice(list).take(0) =~= Seq::empty());
    } else {
        lemma_merged_same_list(list, n - 1);
        assert(all.take(n).drop_last() =~= all.take(n - 1));
        let before = merged(all.take(n - 1), list, list);
        let record = all.take(n).last();
        if n <= len {
            assert(record == list[n - 1]);
            assert(before == ranked_twice(list).take(n - 1));
            assert(!names(before, record.doc_id)) by {
                if names(before, record.doc_id) {
                    let k = choose|k: int|
                        0 <= k < before.len() && (#[trigger] before[k]).result.doc_id
                            == record.doc_id;
                    assert(before[k].result == list[k]);
                    assert(list[k].doc_id == list[n - 1].doc_id);
                }
            }
            lemma_last_rank_of_member(list, n - 1);
            assert(before.push(
                FusedView {
                    result: record,
                    bm25_rank: last_rank(list, record.doc_id),
                    vector_rank: last_rank(list, record.doc_id),
                },
            ) =~= ranked_twice(list).take(n));
        } else {
            assert(record == list[n - 1 - len]);
            if n - 1 == len {
                assert(ranked_twice(list).take(len) =~= ranked_twice(list));
            }
            assert(before == ranked_twice(list));
            assert(before[n - 1 - len].result.doc_id == record.doc_id);
        }
    }
}

proof fn lemma_ranked_twice_descending(list: Seq<RankedView>, w: u32)
    requires
        has_rising_ranks(list),
    ensures
        is_descending(ranked_twice(list), w, w),
{
    let entries = ranked_twice(list);
    assert forall|i: int, j: int| 0 <= i < j < entries.len() implies at_least(
        total_of(#[trigger] entries[i], w, w),
        total_of(#[trigger] entries[j], w, w),
    ) by {
        let a = RRF_K as int + list[i].rank as int;
        let b = RRF_K as int + list[j].rank as int;
        let ww = w as int;
        assert(list[i].rank < list[j].rank);
        assert(total_of(entries[i], w, w).num == ww * a + ww * a);
        assert(total_of(entries[i], w, w).den == a * a);
        assert(total_of(entries[j], w, w).num == ww * b + ww * b);
        assert(total_of(entries[j], w, w).den == b * b);
        assert((ww * a + ww * a) * (b * b) >= (ww * b + ww * b) * (a * a)) by (nonlinear_arith)
            requires
                ww >= 0,
                0 < a < b,
        {
            assert((ww * a + ww * a) * (b * b) - (ww * b + ww * b) * (a * a) == 2 * ww * (a * b)
                * (b - a));
            assert(2 * ww * (a * b) * (b - a) >= 0);
        }
    }
}

proof fn lemma_place_at_end(list: Seq<FusedView>, x: FusedView, wb: u32, wv: u32)
    requires
        forall|i: int|
            0 <= i < list.len() ==> at_least(
                total_of(#[trigger] list[i], wb, wv),
                total_of(x, wb, wv),
            ),
    ensures
        place_of(list, x, wb, wv) == list.len(),
    decreases list.len(),
{
    if list.len() > 0 {
        let rest = list.drop_first();
        assert forall|i: int| 0 <= i < rest.len() implies at_least(
            total_of(#[trigger] rest[i], wb, wv),
            total_of(x, wb, wv),
        ) by {
            assert(rest[i] == list[i + 1]);
        }
        lemma_place_at_end(rest, x, wb, wv);
    }
}

/// Sorting a descending list changes nothing.
pub proof fn lemma_sorted_of_descending(list: Seq<FusedView>, wb: u32, wv: u32)
    requires
        is_descending(list, wb, wv),
    ensures
        sorted(list, wb, wv) == list,
    decreases list.len(),
{
    if list.len() > 0 {
        let rest = list.drop_last();
        assert forall|i: int, j: int| 0 <= i < j < rest.len() implies at_least(
            total_of(#[trigger] rest[i], wb, wv),
            total_of(#[trigger] rest[j], wb, wv),
        ) by {
            assert(rest[i] == list[i] && rest[j] == list[j]);
        }
        lemma_sorted_of_descending(rest, wb, wv);
        assert forall|i: int| 0 <= i < rest.len() implies at_least(
            total_of(#[trigger] rest[i], wb, wv),
            total_of(list.last(), wb, wv),
        ) by {
            assert(rest[i] == list[i]);
            assert(list.last() == list[list.len() - 1]);
        }
        lemma_place_at_end(rest, list.last(), wb, wv);
        assert(rest.insert(rest.len() as int, list.last()) =~= list);
    } else {
        assert(sorted(list, wb, wv) =~= list);
    }
}

/// Fusing a ranking with itself under equal weights keeps its order: where
/// the ranking names no document twice and its ranks rise, the fused list
/// holds its documents in the order of the ranking.
pub proof fn lemma_fusion_of_equal_rankings(list: Seq<RankedView>, weight: u32)
    requires
        has_distinct_ids(list),
        has_rising_ranks(list),
    ensures
        fused(list, list, weight, weight) == ranked_twice(list),
        fused(list, list, weight, weight).len() == list.len(),
        forall|i: int|
            0 <= i < list.len() ==> (#[trigger] fused(list, list, weight, weight)[i]).result
                == list[i],
{
    lemma_merged_same_list(list, 2 * list.len() as int);
    assert((list + list).take(2 * list.len() as int) =~= list + list);
    if list.len() == 0 {
        assert(ranked_twice(list).take(0) =~= ranked_twice(list));
    }
    lemma_ranked_twice_descending(list, weight);
    lemma_sorted_of_descending(ranked_twice(list), weight, weight);
}


/// The ranked result that a stored document becomes at a rank.
pub open spec fn ranked_of(doc: DocumentView, doc_id: Seq<char>, rank: u32, score: u32) -> RankedView {
    RankedView {
        doc_id,
        path: doc.path,
        content: doc.content,
        line_start: doc.line_start,
        line_end: doc.line_end,
        is_chunk: doc.chunk_id.len() > 0,
        rank,
        score,
    }
}

/// The most results of a ranking that get a rank.
pub const MAX_RANKED: usize = 0xffff_ffff;

/// The ranking of retrieved documents: the document at index `i` has rank
/// `i + 1`.
pub open spec fn ranking_of(retrieved: Seq<(DocumentView, u32)>) -> Seq<RankedView> {
    Seq::new(
        if retrieved.len() <= MAX_RANKED {
            retrieved.len()
        } else {
            MAX_RANKED as nat
        },
        |i: int| ranked_of(retrieved[i].0, retrieved[i].0.doc_id, (i + 1) as u32, retrieved[i].1),
    )
}

/// The ranking of retrieved documents, in their order.
pub fn rank_retrieved(retrieved: &Vec<Retrieved>) -> (ranking: Vec<RankedResult>)
    ensures
        ranked_views(ranking@) == ranking_of(retrieved_views(retrieved@)),
{
    let mut ranking: Vec<RankedResult> = Vec::new();
    let count = if retrieved.len() <= MAX_RANKED {
        retrieved.len()
    } else {
        MAX_RANKED
    };
    let mut i: usize = 0;
    while i < count
        invariant
            i <= count <= retrieved.len(),
            count <= MAX_RANKED,
            i == ranking@.len(),
            forall|k: int|
                0 <= k < i ==> (#[trigger] ranking@[k])@ == ranked_of(
                    retrieved@[k].document@,
                    retrieved@[k].document@.doc_id,
                    (k + 1) as u32,
                    retrieved@[k].score,
                ),
        decreases count - i,
    {
        let doc = &retrieved[i].document;
        ranking.push(
            RankedResult {
                doc_id: doc.doc_id.clone(),
                path: doc.path.clone(),
                content: doc.content.clone(),
                line_start: doc.line_start,
                line_end: doc.line_end,
                is_chunk: !doc.chunk_id.as_str().is_empty(),
                rank: (i + 1) as u32,
                score: retrieved[i].score,
            },
        );
        i += 1;
    }
    assert(ranked_views(ranking@) =~= ranking_of(retrieved_views(retrieved@)));
    ranking
}

/// A neighbour that the vector index returned, with the stored document
/// found under its identifier, if any.
#[derive(Debug, Clone)]
pub struct Neighbor {
    pub doc_id: String,
    /// Similarity in millionths.
    pub score: u32,
    pub document: Option<Document>,
}

/// The neighbours as mathematical values.
pub open spec fn neighbor_views(list: Seq<Neighbor>) -> Seq<(Seq<char>, u32, Option<DocumentView>)> {
    Seq::new(
        list.len(),
        |i: int|
            (
                list[i].doc_id@,
                list[i].score,
                match list[i].document {
                    Some(d) => Some(d@),
                    None => None,
                },
            ),
    )
}

/// The ranking of the neighbours: the neighbour at index `i` has rank
/// `i + 1`; one without a stored document is left out, and the ranks of the
/// others stay.
pub open spec fn neighbor_ranking(list: Seq<(Seq<char>, u32, Option<DocumentView>)>) -> Seq<
    RankedView,
>
    decreases list.len(),
{
    if list.len() == 0 {
        Seq::empty()
    } else {
        let before = neighbor_ranking(list.drop_last());
        let (doc_id, score, document) = list.last();
        if document is Some && list.len() <= MAX_RANKED {
            before.push(ranked_of(document->0, doc_id, list.len() as u32, score))
        } else {
            before
        }
    }
}

/// The ranking of the neighbours that have a stored document.
pub fn rank_neighbors(neighbors: &Vec<Neighbor>) -> (ranking: Vec<RankedResult>)
    ensures
        ranked_views(ranking@) == neighbor_ranking(neighbor_views(neighbors@)),
{
    let mut ranking: Vec<RankedResult> = Vec::new();
    let mut i: usize = 0;
    assert(neighbor_views(neighbors@).take(0) =~= Seq::empty());
    assert(ranked_views(ranking@) =~= Seq::empty());
    while i < neighbors.len()
        invariant
            i <= neighbors.len(),
            ranked_views(ranking@) == neighbor_ranking(neighbor_views(neighbors@).take(i as int)),
        decreases neighbors.len() - i,
    {
        let ghost next = neighbor_views(neighbors@).take(i + 1);
        let ghost before = ranked_views(ranking@);
        proof {
            assert(next.drop_last() =~= neighbor_views(neighbors@).take(i as int));
            assert(next.last() == neighbor_views(neighbors@)[i as int]);
        }
        if i < MAX_RANKED {
            match &neighbors[i].document {
                Some(doc) => {
                    let ranked = RankedResult {
                        doc_id: neighbors[i].doc_id.clone(),
                        path: doc.path.clone(),
                        content: doc.content.clone(),
                        line_start: doc.line_start,
                        line_end: doc.line_end,
                        is_chunk: !doc.chunk_id.as_str().is_empty(),
                        rank: (i + 1) as u32,
                        score: neighbors[i].score,
                    };
                    ranking.push(ranked);
                    assert(ranked_views(ranking@) =~= before.push(ranked@));
                },
                None => {},
            }
        }
        i += 1;
    }
    assert(neighbor_views(neighbors@).take(neighbors@.len() as int) =~= neighbor_views(
        neighbors@,
    ));
    ranking
}

/// A query as a quoted phrase: in double quotes, with a backslash before
/// each double quote of its own.
pub open spec fn quoted(query: Seq<char>) -> Seq<char> {
    seq!['"'] + escaped(query) + seq!['"']
}

/// A text with a backslash before each of its double quotes.
pub open spec fn escaped(text: Seq<char>) -> Seq<char>
    decreases text.len(),
{
    if text.len() == 0 {
        Seq::empty()
    } else if text.last() == '"' {
        escaped(text.drop_last()) + seq!['\\', '"']
    } else {
        escaped(text.drop_last()).push(text.last())
    }
}

/// The query as a quoted phrase for the inverted index.
pub fn phrase_query(query: &str) -> (r: String)
    ensures
        r@ == quoted(query@),
{
    let chars = to_chars(query);
    let mut out: Vec<char> = Vec::new();
    out.push('"');
    let mut i: usize = 0;
    assert(chars@.take(0) =~= Seq::empty());
    assert(out@ =~= seq!['"'] + escaped(chars@.take(0)));
    while i < chars.len()
        invariant
            i <= chars.len(),
            out@ == seq!['"'] + escaped(chars@.take(i as int)),
        decreases chars.len() - i,
    {
        let ghost before = out@;
        proof {
            assert(chars@.take(i + 1).drop_last() =~= chars@.take(i as int));
            assert(chars@.take(i + 1).last() == chars@[i as int]);
        }
        if chars[i] == '"' {
            out.push('\\');
            out.push('"');
            assert(out@ =~= before + seq!['\\', '"']);
        } else {
            out.push(chars[i]);
        }
        assert(out@ =~= seq!['"'] + escaped(chars@.take(i + 1)));
        i += 1;
    }
    assert(chars@.take(chars@.len() as int) =~= chars@);
    out.push('"');
    assert(out@ =~= quoted(chars@));
    from_chars(&out)
}

/// Search over a lexical and a vector ranking, fused.
pub struct HybridSearcher {
    config: SearchConfig,
}

impl HybridSearcher {
    /// The settings in force.
    pub closed spec fn config(&self) -> SearchConfig {
        self.config
    }

    /// A searcher with the given settings.
    pub fn new(config: SearchConfig) -> (r: Self)
        ensures
            r.config() == config,
    {
        HybridSearcher { config }
    }

    /// How many results to ask of each ranking: three times the limit in
    /// force.
    pub fn fetch_limit(&self, limit: Option<usize>) -> (r: usize)
        ensures
            r == scaled_limit(effective_limit(limit, self.config()), 3),
    {
        scale_limit(limit_in_force(limit, &self.config), 3)
    }

    /// The result of a hybrid search, given the two rankings and how long
    /// they took: the best of the fused list, up to the limit in force. An
    /// empty vector ranking leaves the lexical one in its order.
    pub fn search(
        &self,
        limit: Option<usize>,
        bm25_results: &Vec<RankedResult>,
        vector_results: &Vec<RankedResult>,
        elapsed_ms: u64,
    ) -> (r: SearchResult)
        requires
            self.config().bm25_weight <= WEIGHT_ONE,
            self.config().vector_weight <= WEIGHT_ONE,
        ensures
            ({
                let all = fused_hits(
                    fused(
                        ranked_views(bm25_results@),
                        ranked_views(vector_results@),
                        self.config().bm25_weight,
                        self.config().vector_weight,
                    ),
                    self.config().bm25_weight,
                    self.config().vector_weight,
                );
                let limit = effective_limit(limit, self.config()) as int;
                hit_views(r.hits@) == all.take(
                    if limit <= all.len() {
                        limit
                    } else {
                        all.len() as int
                    },
                )
            }),
            r.total == r.hits@.len(),
            r.query_time_ms == elapsed_ms,
    {
        let limit = limit_in_force(limit, &self.config);
        let all = reciprocal_rank_fusion(
            bm25_results,
            vector_results,
            self.config.bm25_weight,
            self.config.vector_weight,
        );
        let count = if limit <= all.len() {
            limit
        } else {
            all.len()
        };
        let mut hits: Vec<SearchHit> = Vec::new();
        let mut i: usize = 0;
        while i < count
            invariant
                i <= count <= all.len(),
                i == hits@.len(),
                forall|k: int| 0 <= k < i ==> (#[trigger] hits@[k])@ == all@[k]@,
            decreases count - i,
        {
            hits.push(all[i].duplicate());
            i += 1;
        }
        assert(hit_views(hits@) =~= hit_views(all@).take(count as int));
        SearchResult { total: hits.len(), hits, query_time_ms: elapsed_ms }
    }
}

} // verus!
