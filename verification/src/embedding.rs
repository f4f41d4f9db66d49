//! Embedding models by name, and the cache of computed embeddings.
//!
//! The cache maps the hash of a text to its embedding and forgets the entry
//! that was used least recently when it is full. An embedding is held as the
//! bit patterns of its 32-bit floating-point components.

use vstd::prelude::*;
use vstd::string::StringSliceAdditionalSpecFns;
use lru::LruCache;
use crate::document::xxh3_64_of;

verus! {

/// The embedding models that can be chosen.
#[derive(Debug, Clone, Copy, PartialEq, Eq, Structural)]
pub enum ModelType {
    /// BGE Small: 384 dimensions.
    BgeSmall,
    /// All-MiniLM-L6: 384 dimensions.
    AllMiniLmL6,
}

impl ModelType {
    /// The length of the model's embeddings.
    pub fn dimension(&self) -> (d: usize)
        ensures
            d == 384,
    {
        match self {
            ModelType::BgeSmall => 384,
            ModelType::AllMiniLmL6 => 384,
        }
    }

    /// The name under which the model is published.
    pub fn name(&self) -> (s: &'static str)
        ensures
            s@ == match *self {
                ModelType::BgeSmall => "BAAI/bge-small-en-v1.5"@,
                ModelType::AllMiniLmL6 => "sentence-transformers/all-MiniLM-L6-v2"@,
            },
    {
        match self {
            ModelType::BgeSmall => "BAAI/bge-small-en-v1.5",
            ModelType::AllMiniLmL6 => "sentence-transformers/all-MiniLM-L6-v2",
        }
    }
}

impl Default for ModelType {
    fn default() -> (m: Self)
        ensures
            m == ModelType::AllMiniLmL6,
    {
        ModelType::AllMiniLmL6
    }
}

/// `lru::LruCache`, of which nothing is known but what the functions below
/// say.
#[verifier::external_type_specification]
#[verifier::external_body]
#[verifier::reject_recursive_types(K)]
#[verifier::reject_recursive_types(V)]
#[verifier::reject_recursive_types(S)]
pub struct ExLruCache<K, V, S>(lru::LruCache<K, V, S>);

/// `lru::DefaultHasher`, the hasher of a cache made by `LruCache::new`.
#[verifier::external_type_specification]
#[verifier::external_body]
pub struct ExDefaultHasher(lru::DefaultHasher);

/// What a cache holds: its keys with their values, the most recently used
/// first.
pub uninterp spec fn cache_entries(cache: LruCache<u64, Vec<u32>>) -> Seq<(u64, Seq<u32>)>;

/// The number of entries that a cache was made to hold.
pub uninterp spec fn cache_capacity(cache: LruCache<u64, Vec<u32>>) -> nat;

/// The index of the entry with the key, -1 where there is none.
pub open spec fn index_of_key(entries: Seq<(u64, Seq<u32>)>, key: u64) -> int
    decreases entries.len(),
{
    if entries.len() == 0 {
        -1
    } else if entries.last().0 == key && index_of_key(entries.drop_last(), key) < 0 {
        entries.len() - 1
    } else {
        index_of_key(entries.drop_last(), key)
    }
}

/// The entries after the key was looked up: its entry, if there is one,
/// has moved to the front.
pub open spec fn after_get(entries: Seq<(u64, Seq<u32>)>, key: u64) -> Seq<(u64, Seq<u32>)> {
    let at = index_of_key(entries, key);
    if at < 0 {
        entries
    } else {
        seq![entries[at]] + entries.remove(at)
    }
}

/// The entries after a value was put under the key: the new entry stands
/// at the front; an earlier entry of the key is gone, and so is, where the
/// cache was full without holding the key, the entry used least recently.
pub open spec fn after_put(
    entries: Seq<(u64, Seq<u32>)>,
    capacity: nat,
    key: u64,
    value: Seq<u32>,
) -> Seq<(u64, Seq<u32>)> {
    let at = index_of_key(entries, key);
    if at >= 0 {
        seq![(key, value)] + entries.remove(at)
    } else if entries.len() > 0 && entries.len() >= capacity {
        seq![(key, value)] + entries.drop_last()
    } else {
        seq![(key, value)] + entries
    }
}

/// `LruCache::new`: an empty cache that holds at most `capacity` entries.
#[verifier::external_body]
fn cache_new(capacity: usize) -> (cache: LruCache<u64, Vec<u32>>)
    requires
        capacity > 0,
    ensures
        cache_entries(cache).len() == 0,
        cache_capacity(cache) == capacity,
{
    LruCache::new(std::num::NonZeroUsize::new(capacity).unwrap())
}

/// `LruCache::get`: the value under the key, if there is one; its entry
/// becomes the most recently used. The capacity stays.
#[verifier::external_body]
fn cache_get(cache: &mut LruCache<u64, Vec<u32>>, key: u64) -> (value: Option<Vec<u32>>)
    ensures
        cache_entries(*final(cache)) == after_get(cache_entries(*old(cache)), key),
        cache_capacity(*final(cache)) == cache_capacity(*old(cache)),
        match value {
            Some(v) => index_of_key(cache_entries(*old(cache)), key) >= 0 && v@ == cache_entries(
                *old(cache),
            )[index_of_key(cache_entries(*old(cache)), key)].1,
            None => index_of_key(cache_entries(*old(cache)), key) < 0,
        },
{
    cache.get(&key).cloned()
}

/// `LruCache::put`: the value stands under the key as the most recently
/// used entry; where the cache was full without holding the key, the entry
/// used least recently is dropped. The capacity stays.
#[verifier::external_body]
fn cache_put(cache: &mut LruCache<u64, Vec<u32>>, key: u64, value: Vec<u32>)
    ensures
        cache_entries(*final(cache)) == after_put(
            cache_entries(*old(cache)),
            cache_capacity(*old(cache)),
            key,
            value@,
        ),
        cache_capacity(*final(cache)) == cache_capacity(*old(cache)),
{
    cache.put(key, value);
}

/// `LruCache::len`: the number of entries.
#[verifier::external_body]
fn cache_len(cache: &LruCache<u64, Vec<u32>>) -> (n: usize)
    ensures
        n == cache_entries(*cache).len(),
{
    cache.len()
}

/// `LruCache::clear`: no entry is left. The capacity stays.
#[verifier::external_body]
fn cache_clear(cache: &mut LruCache<u64, Vec<u32>>)
    ensures
        cache_entries(*final(cache)).len() == 0,
        cache_capacity(*final(cache)) == cache_capacity(*old(cache)),
{
    cache.clear();
}

/// The counters of a cache.
#[derive(Debug, Clone, Copy, PartialEq, Eq, Structural)]
pub struct CacheStats {
    /// Lookups that found an embedding.
    pub hits: u64,
    /// Lookups that found none.
    pub misses: u64,
    /// The share of hits among the lookups, in millionths.
    pub hit_rate: u32,
    /// The number of embeddings held.
    pub size: usize,
}

/// The fewest entries that a cache holds.
pub const MIN_CACHE_ENTRIES: usize = 100;

/// The number of embeddings of `dimension` components that fit into
/// `capacity_mb` megabytes, at least [`MIN_CACHE_ENTRIES`].
pub open spec fn entry_count(capacity_mb: usize, dimension: usize) -> int {
    let fit = (capacity_mb * 1024 * 1024) / (dimension * 4);
    if fit > MIN_CACHE_ENTRIES {
        fit
    } else {
        MIN_CACHE_ENTRIES as int
    }
}

/// The share of hits among the lookups, in millionths; zero before the
/// first lookup.
pub open spec fn hit_rate_of(hits: u64, misses: u64) -> int {
    if hits + misses > 0 {
        hits * 1_000_000 / (hits + misses)
    } else {
        0
    }
}

/// The key of a text: the hash of its bytes.
pub open spec fn key_of(text: Seq<u8>) -> u64 {
    xxh3_64_of(text)
}

/// A counter one higher; it starts again at zero behind the largest value.
pub open spec fn bumped(n: u64) -> u64 {
    if n == u64::MAX {
        0
    } else {
        (n + 1) as u64
    }
}

/// A cache of embeddings by the hash of their text.
pub struct EmbeddingCache {
    cache: LruCache<u64, Vec<u32>>,
    hits: u64,
    misses: u64,
}

impl EmbeddingCache {
    /// The entries, the most recently used first.
    pub closed spec fn entries(&self) -> Seq<(u64, Seq<u32>)> {
        cache_entries(self.cache)
    }

    /// The number of entries the cache holds at most.
    pub closed spec fn capacity(&self) -> nat {
        cache_capacity(self.cache)
    }

    /// Lookups that found an embedding.
    pub closed spec fn hits(&self) -> u64 {
        self.hits
    }

    /// Lookups that found none.
    pub closed spec fn misses(&self) -> u64 {
        self.misses
    }

    /// An empty cache of `capacity_mb` megabytes for embeddings of
    /// `dimension` components.
    pub fn new(capacity_mb: usize, dimension: usize) -> (r: Self)
        requires
            dimension > 0,
            capacity_mb * 1024 * 1024 <= usize::MAX,
            dimension * 4 <= usize::MAX,
        ensures
            r.entries().len() == 0,
            r.capacity() == entry_count(capacity_mb, dimension),
            r.hits() == 0,
            r.misses() == 0,
    {
        let fit = (capacity_mb * 1024 * 1024) / (dimension * 4);
        let capacity = if fit > MIN_CACHE_ENTRIES {
            fit
        } else {
            MIN_CACHE_ENTRIES
        };
        EmbeddingCache { cache: cache_new(capacity), hits: 0, misses: 0 }
    }

    /// The embedding of a text, if the cache holds it. The entry becomes
    /// the most recently used, and the lookup is counted.
    pub fn get(&mut self, text: &str) -> (r: Option<Vec<u32>>)
        ensures
            final(self).entries() == after_get(old(self).entries(), key_of(text.spec_bytes())),
            final(self).capacity() == old(self).capacity(),
            match r {
                Some(v) => {
                    let at = index_of_key(old(self).entries(), key_of(text.spec_bytes()));
                    &&& at >= 0
                    &&& v@ == old(self).entries()[at].1
                    &&& final(self).hits() == bumped(old(self).hits())
                    &&& final(self).misses() == old(self).misses()
                },
                None => {
                    &&& index_of_key(old(self).entries(), key_of(text.spec_bytes())) < 0
                    &&& final(self).hits() == old(self).hits()
                    &&& final(self).misses() == bumped(old(self).misses())
                },
            },
    {
        let key = xxhash_rust::xxh3::xxh3_64(text.as_bytes());
        let found = cache_get(&mut self.cache, key);
        match found {
            Some(v) => {
                self.hits = bump(self.hits);
                Some(v)
            },
            None => {
                self.misses = bump(self.misses);
                None
            },
        }
    }

    /// Stores the embedding of a text as the most recently used entry.
    pub fn insert(&mut self, text: &str, embedding: Vec<u32>)
        ensures
            final(self).entries() == after_put(
                old(self).entries(),
                old(self).capacity(),
                key_of(text.spec_bytes()),
                embedding@,
            ),
            final(self).capacity() == old(self).capacity(),
            final(self).hits() == old(self).hits(),
            final(self).misses() == old(self).misses(),
    {
        let key = xxhash_rust::xxh3::xxh3_64(text.as_bytes());
        cache_put(&mut self.cache, key, embedding);
    }

    /// The embedding of a text from the cache, or else computed by
    /// `compute` and stored. `compute` runs only where the cache does not
    /// hold the text.
    pub fn get_or_insert<F: FnOnce() -> Vec<u32>>(&mut self, text: &str, compute: F) -> (r: Vec<
        u32,
    >)
        requires
            call_requires(compute, ()),
        ensures
            final(self).capacity() == old(self).capacity(),
            ({
                let key = key_of(text.spec_bytes());
                let at = index_of_key(old(self).entries(), key);
                if at >= 0 {
                    &&& r@ == old(self).entries()[at].1
                    &&& final(self).entries() == after_get(old(self).entries(), key)
                    &&& final(self).hits() == bumped(old(self).hits())
                    &&& final(self).misses() == old(self).misses()
                } else {
                    &&& call_ensures(compute, (), r)
                    &&& final(self).entries() == after_put(
                        old(self).entries(),
                        old(self).capacity(),
                        key,
                        r@,
                    )
                    &&& final(self).hits() == old(self).hits()
                    &&& final(self).misses() == bumped(old(self).misses())
                }
            }),
    {
        match self.get(text) {
            Some(embedding) => embedding,
            None => {
                let embedding = compute();
                self.insert(text, embedding.clone());
                embedding
            },
        }
    }

    /// The counters of the cache.
    pub fn stats(&self) -> (s: CacheStats)
        ensures
            s.hits == self.hits(),
            s.misses == self.misses(),
            s.hit_rate == hit_rate_of(self.hits(), self.misses()),
            s.size == self.entries().len(),
    {
        let total: u128 = self.hits as u128 + self.misses as u128;
        let hit_rate: u32 = if total > 0 {
            proof {
                let h = self.hits as int;
                let t = total as int;
                assert(h * 1_000_000 / t <= 1_000_000) by (nonlinear_arith)
                    requires
                        0 <= h <= t,
                        t > 0,
                ;
                assert(h * 1_000_000 <= 0xffff_ffff_ffff_ffff * 1_000_000) by (nonlinear_arith)
                    requires
                        0 <= h <= 0xffff_ffff_ffff_ffff,
                ;
            }
            ((self.hits as u128) * 1_000_000 / total) as u32
        } else {
            0
        };
        CacheStats {
            hits: self.hits,
            misses: self.misses,
            hit_rate,
            size: cache_len(&self.cache),
        }
    }

    /// Removes every entry. The counters stay.
    pub fn clear(&mut self)
        ensures
            final(self).entries().len() == 0,
            final(self).capacity() == old(self).capacity(),
            final(self).hits() == old(self).hits(),
            final(self).misses() == old(self).misses(),
    {
        cache_clear(&mut self.cache);
    }
}

fn bump(n: u64) -> (r: u64)
    ensures
        r == bumped(n),
{
    if n == u64::MAX {
        0
    } else {
        n + 1
    }
}

} // verus!
