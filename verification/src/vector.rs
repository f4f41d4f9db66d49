//! The store behind the vector index.
//!
//! Vectors are kept in the order in which they were inserted; the identifier
//! of a vector is its position. The graph that answers nearest-neighbour
//! queries is kept by the caller and is rebuilt from this store. A vector is
//! held as the bit patterns of its 32-bit floating-point components, which
//! the store never interprets.

use vstd::prelude::*;
use crate::error::YgrepError;
use crate::text::{concat, decimal, decimal_of, from_chars, to_chars};

verus! {

/// Connections per node of the neighbour graph.
pub const MAX_CONNECTIONS: usize = 16;

/// The beam width while the graph is built.
pub const EF_CONSTRUCTION: usize = 200;

/// The number of layers of the graph.
pub const MAX_LAYER: usize = 16;

/// The capacity that the graph starts with.
pub const INITIAL_CAPACITY: usize = 10_000;

/// The least beam width of a query.
pub const MIN_EF_SEARCH: usize = 30;

/// A vector with the identifier of the document it was computed from.
#[derive(Debug, Clone)]
pub struct StoredVector {
    pub doc_id: String,
    pub vector: Vec<u32>,
}

/// What is written to disk: the dimension and the vectors in order.
#[derive(Debug, Clone)]
pub struct VectorData {
    pub dimension: usize,
    pub vectors: Vec<StoredVector>,
}

/// The stored vectors as mathematical values.
pub open spec fn stored_views(list: Seq<StoredVector>) -> Seq<(Seq<char>, Seq<u32>)> {
    Seq::new(list.len(), |i: int| (list[i].doc_id@, list[i].vector@))
}

/// A neighbour that the graph found: the position of a vector and the bit
/// pattern of its distance from the query.
#[derive(Debug, Clone, Copy, PartialEq, Eq, Structural)]
pub struct Found {
    pub id: usize,
    pub distance: u32,
}

/// A result of a nearest-neighbour query.
#[derive(Debug, Clone)]
pub struct Match {
    /// The position of the vector.
    pub id: u64,
    /// The bit pattern of its distance from the query.
    pub distance: u32,
    /// The document it was computed from.
    pub doc_id: String,
}

/// The matches as mathematical values.
pub open spec fn match_views(list: Seq<Match>) -> Seq<(u64, u32, Seq<char>)> {
    Seq::new(list.len(), |i: int| (list[i].id, list[i].distance, list[i].doc_id@))
}

/// The matches of the neighbours that the graph found: each with the
/// document at its position, in the order found; a position outside the
/// store is passed over.
pub open spec fn matches_of(found: Seq<Found>, entries: Seq<(Seq<char>, Seq<u32>)>) -> Seq<
    (u64, u32, Seq<char>),
>
    decreases found.len(),
{
    if found.len() == 0 {
        Seq::empty()
    } else {
        let before = matches_of(found.drop_last(), entries);
        let f = found.last();
        if f.id < entries.len() {
            before.push((f.id as u64, f.distance, entries[f.id as int].0))
        } else {
            before
        }
    }
}

/// The entries after an attempt to insert a vector: it is appended where
/// its length is the dimension, and refused otherwise.
pub open spec fn after_insert(
    entries: Seq<(Seq<char>, Seq<u32>)>,
    dimension: usize,
    item: (Seq<char>, Seq<u32>),
) -> Seq<(Seq<char>, Seq<u32>)> {
    if item.1.len() == dimension {
        entries.push(item)
    } else {
        entries
    }
}

/// The entries after a series of attempts to insert, in order.
pub open spec fn after_inserts(
    entries: Seq<(Seq<char>, Seq<u32>)>,
    dimension: usize,
    items: Seq<(Seq<char>, Seq<u32>)>,
) -> Seq<(Seq<char>, Seq<u32>)>
    decreases items.len(),
{
    if items.len() == 0 {
        entries
    } else {
        after_insert(after_inserts(entries, dimension, items.drop_last()), dimension, items.last())
    }
}

/// After `k` successful inserts into an empty store it holds `k` vectors,
/// each under the identifier that is its position.
pub proof fn lemma_len_after_inserts(dimension: usize, items: Seq<(Seq<char>, Seq<u32>)>)
    requires
        forall|i: int| 0 <= i < items.len() ==> (#[trigger] items[i]).1.len() == dimension,
    ensures
        after_inserts(Seq::empty(), dimension, items) == items,
        after_inserts(Seq::empty(), dimension, items).len() == items.len(),
    decreases items.len(),
{
    if items.len() > 0 {
        let rest = items.drop_last();
        assert forall|i: int| 0 <= i < rest.len() implies (#[trigger] rest[i]).1.len()
            == dimension by {
            assert(rest[i] == items[i]);
        }
        lemma_len_after_inserts(dimension, rest);
        assert(items.last() == items[items.len() - 1]);
        assert(rest.push(items.last()) =~= items);
    } else {
        assert(after_inserts(Seq::empty(), dimension, items) =~= items);
    }
}

/// The message of a dimension mismatch.
pub open spec fn mismatch_message(what: Seq<char>, expected: usize, got: usize) -> Seq<char> {
    what + " dimension mismatch: expected "@ + decimal_of(expected as nat) + ", got "@ + decimal_of(
        got as nat,
    )
}

fn mismatch(what: &str, expected: usize, got: usize) -> (e: YgrepError)
    ensures
        e matches YgrepError::Config(m) && m@ == mismatch_message(what@, expected, got),
{
    let text = concat(
        &concat(
            &concat(
                &concat(&to_chars(what), &to_chars(" dimension mismatch: expected ")),
                &decimal(expected as u64),
            ),
            &to_chars(", got "),
        ),
        &decimal(got as u64),
    );
    YgrepError::Config(from_chars(&text))
}

/// The parameters of a query of the neighbour graph.
#[derive(Debug, Clone, Copy, PartialEq, Eq, Structural)]
pub struct QueryParams {
    /// The number of neighbours asked for.
    pub k: usize,
    /// The beam width.
    pub ef_search: usize,
}

/// The store of a vector index.
pub struct VectorIndex {
    dimension: usize,
    vectors: Vec<StoredVector>,
}

impl VectorIndex {
    /// The length that every inserted vector has.
    pub closed spec fn dimension_view(&self) -> usize {
        self.dimension
    }

    /// The stored vectors in the order of their identifiers.
    pub closed spec fn entries(&self) -> Seq<(Seq<char>, Seq<u32>)> {
        stored_views(self.vectors@)
    }

    /// An empty store for vectors of the given dimension.
    pub fn new(dimension: usize) -> (r: Self)
        ensures
            r.dimension_view() == dimension,
            r.entries().len() == 0,
    {
        VectorIndex { dimension, vectors: Vec::new() }
    }

    /// The store that was written as `data`: the same dimension and the
    /// same vectors under the same identifiers.
    pub fn load(data: VectorData) -> (r: Self)
        ensures
            r.dimension_view() == data.dimension,
            r.entries() == stored_views(data.vectors@),
    {
        VectorIndex { dimension: data.dimension, vectors: data.vectors }
    }

    /// What is written to disk for this store.
    pub fn save(&self) -> (data: VectorData)
        ensures
            data.dimension == self.dimension_view(),
            stored_views(data.vectors@) == self.entries(),
    {
        let mut vectors: Vec<StoredVector> = Vec::new();
        let mut i: usize = 0;
        while i < self.vectors.len()
            invariant
                i <= self.vectors.len(),
                i == vectors@.len(),
                forall|k: int|
                    0 <= k < i ==> (#[trigger] vectors@[k]).doc_id@ == self.vectors@[k].doc_id@
                        && vectors@[k].vector@ == self.vectors@[k].vector@,
            decreases self.vectors.len() - i,
        {
            vectors.push(
                StoredVector {
                    doc_id: self.vectors[i].doc_id.clone(),
                    vector: self.vectors[i].vector.clone(),
                },
            );
            i += 1;
        }
        assert(stored_views(vectors@) =~= self.entries());
        VectorData { dimension: self.dimension, vectors }
    }

    /// The capacity with which the graph is rebuilt from this store.
    pub fn rebuild_capacity(&self) -> (r: usize)
        ensures
            r == if self.entries().len() > INITIAL_CAPACITY {
                self.entries().len()
            } else {
                INITIAL_CAPACITY as nat
            },
    {
        if self.vectors.len() > INITIAL_CAPACITY {
            self.vectors.len()
        } else {
            INITIAL_CAPACITY
        }
    }

    /// The vector at a position, for rebuilding the graph in the order of
    /// the identifiers.
    pub fn vector_at(&self, id: usize) -> (r: Option<&Vec<u32>>)
        ensures
            match r {
                Some(v) => id < self.entries().len() && v@ == self.entries()[id as int].1,
                None => id >= self.entries().len(),
            },
    {
        if id < self.vectors.len() {
            Some(&self.vectors[id].vector)
        } else {
            None
        }
    }

    /// Stores a vector and returns its identifier: the number of vectors
    /// stored before it. A vector of another length than the dimension is
    /// refused and nothing changes.
    pub fn insert(&mut self, doc_id: &str, embedding: &[u32]) -> (r: Result<u64, YgrepError>)
        ensures
            final(self).dimension_view() == old(self).dimension_view(),
            final(self).entries() == after_insert(
                old(self).entries(),
                old(self).dimension_view(),
                (doc_id@, embedding@),
            ),
            match r {
                Ok(id) => {
                    &&& embedding@.len() == old(self).dimension_view()
                    &&& id == old(self).entries().len()
                },
                Err(YgrepError::Config(m)) => {
                    &&& embedding@.len() != old(self).dimension_view()
                    &&& m@ == mismatch_message(
                        "Embedding"@,
                        old(self).dimension_view(),
                        embedding@.len() as usize,
                    )
                },
                Err(_) => false,
            },
    {
        if embedding.len() != self.dimension {
            return Err(mismatch("Embedding", self.dimension, embedding.len()));
        }
        let id = self.vectors.len();
        let ghost before = self.entries();
        self.vectors.push(
            StoredVector { doc_id: doc_id.to_owned(), vector: vstd::slice::slice_to_vec(embedding) },
        );
        assert(self.entries() =~= before.push((doc_id@, embedding@)));
        Ok(id as u64)
    }

    /// What to ask the graph for a query of the given length: nothing where
    /// the store is empty. A query of another length than the dimension is
    /// refused.
    pub fn plan_search(&self, query_len: usize, k: usize) -> (r: Result<
        Option<QueryParams>,
        YgrepError,
    >)
        ensures
            match r {
                Ok(None) => query_len == self.dimension_view() && self.entries().len() == 0,
                Ok(Some(params)) => {
                    &&& query_len == self.dimension_view()
                    &&& self.entries().len() > 0
                    &&& params.k == k
                    &&& params.ef_search == if k > MIN_EF_SEARCH {
                        k
                    } else {
                        MIN_EF_SEARCH
                    }
                },
                Err(YgrepError::Config(m)) => {
                    &&& query_len != self.dimension_view()
                    &&& m@ == mismatch_message("Query"@, self.dimension_view(), query_len)
                },
                Err(_) => false,
            },
    {
        if query_len != self.dimension {
            return Err(mismatch("Query", self.dimension, query_len));
        }
        if self.vectors.len() == 0 {
            return Ok(None);
        }
        let ef_search = if k > MIN_EF_SEARCH {
            k
        } else {
            MIN_EF_SEARCH
        };
        Ok(Some(QueryParams { k, ef_search }))
    }

    /// The result of a query, given the neighbours that the graph found,
    /// nearest first. An empty store has no matches.
    pub fn search(&self, query_len: usize, found: &Vec<Found>) -> (r: Result<
        Vec<Match>,
        YgrepError,
    >)
        ensures
            match r {
                Ok(matches) => {
                    &&& query_len == self.dimension_view()
                    &&& match_views(matches@) == matches_of(found@, self.entries())
                    &&& self.entries().len() == 0 ==> matches@.len() == 0
                },
                Err(YgrepError::Config(m)) => {
                    &&& query_len != self.dimension_view()
                    &&& m@ == mismatch_message("Query"@, self.dimension_view(), query_len)
                },
                Err(_) => false,
            },
    {
        if query_len != self.dimension {
            return Err(mismatch("Query", self.dimension, query_len));
        }
        let mut matches: Vec<Match> = Vec::new();
        let mut i: usize = 0;
        assert(found@.take(0) =~= Seq::empty());
        assert(match_views(matches@) =~= Seq::empty());
        while i < found.len()
            invariant
                i <= found.len(),
                match_views(matches@) == matches_of(found@.take(i as int), self.entries()),
                self.entries().len() == 0 ==> matches@.len() == 0,
            decreases found.len() - i,
        {
            let ghost before = match_views(matches@);
            proof {
                assert(found@.take(i + 1).drop_last() =~= found@.take(i as int));
                assert(found@.take(i + 1).last() == found@[i as int]);
            }
            let f = found[i];
            if f.id < self.vectors.len() {
                let m = Match {
                    id: f.id as u64,
                    distance: f.distance,
                    doc_id: self.vectors[f.id].doc_id.clone(),
                };
                matches.push(m);
                assert(match_views(matches@) =~= before.push(
                    (f.id as u64, f.distance, self.entries()[f.id as int].0),
                ));
            }
            i += 1;
        }
        assert(found@.take(found@.len() as int) =~= found@);
        Ok(matches)
    }

    /// The number of stored vectors.
    pub fn len(&self) -> (n: usize)
        ensures
            n == self.entries().len(),
    {
        self.vectors.len()
    }

    /// Whether no vector is stored.
    pub fn is_empty(&self) -> (r: bool)
        ensures
            r == (self.entries().len() == 0),
    {
        self.vectors.len() == 0
    }

    /// The length that every inserted vector has.
    pub fn dimension(&self) -> (d: usize)
        ensures
            d == self.dimension_view(),
    {
        self.dimension
    }

    /// Removes every vector.
    pub fn clear(&mut self)
        ensures
            final(self).entries().len() == 0,
            final(self).dimension_view() == old(self).dimension_view(),
    {
        self.vectors.clear();
    }
}

} // verus!
