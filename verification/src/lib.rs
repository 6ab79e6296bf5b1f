//! A local full-text search engine core: tokenization with morphological
//! normalization (a Snowball-style English stemmer), per-document term
//! frequencies, corpus-wide document frequencies kept consistent across
//! incremental re-indexing, and deterministic TF-IDF ranking.
//!
//! Scores are fixed-point integers: the inverse document frequency is a
//! base-2-logarithm approximation of `ln(n / df)` scaled by 65536, and a
//! document's score scales the summed `tf * idf` by a further 65536.
use vstd::prelude::*;

pub mod chars;
pub mod stemmer;
pub mod lexer;
pub mod model;
pub mod rank;
pub mod snapshot;
pub mod laws;
pub mod ui;
pub mod pipeline;

verus! {

} // verus!
