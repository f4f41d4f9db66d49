//! Core logic of an indexed code-search engine: path rules, tokenizing,
//! chunking, rank fusion and the bookkeeping around the indices, each with a
//! machine-checked contract.
//!
//! The library never touches the file system, the clock or the network. Its
//! callers walk directories, keep the inverted index and the neighbour graph,
//! and hand over what they found as plain values:
//!
//! * [`paths`], [`glob`], [`symlink`] and [`walker`] decide which files of a
//!   workspace are indexed, each canonical path once;
//! * [`words`], [`tokenizer`], [`chunker`] and [`document`] turn a file into
//!   tokens, chunks and documents, and [`index`] says what storing them
//!   leaves in the index;
//! * [`search`] and [`hybrid`] turn retrieved documents into ranked hits;
//! * [`vector`] and [`embedding`] keep embeddings and cache them;
//! * [`watcher`], [`workspace`], [`registry`] and [`config`] hold the
//!   bookkeeping around them.
//!
//! Scores and weights are integers in millionths, and a vector component is
//! the bit pattern of a 32-bit floating-point number.

pub mod chunker;
pub mod config;
pub mod daemon;
pub mod document;
pub mod embedding;
pub mod error;
pub mod glob;
pub mod hybrid;
pub mod index;
pub mod paths;
pub mod registry;
pub mod results;
pub mod search;
pub mod symlink;
pub mod text;
pub mod tokenizer;
pub mod vector;
pub mod walker;
pub mod watcher;
pub mod words;
pub mod workspace;
