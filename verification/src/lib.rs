//! An embeddable, Elasticsearch-compatible document store and query engine.
//!
//! Documents are semi-structured value trees collected into named indices; a
//! recursive query combinator is scored against every document of an index,
//! and the scored hits are sorted, paginated, source-filtered and highlighted.
//! Scores are fixed-point integers: `SCORE_ONE` stands for a full match and a
//! score of zero excludes a document from the hit list.

pub mod bulk;
pub mod catalog;
pub mod client;
pub mod config;
pub mod errors;
pub mod from_value;
pub mod highlight;
pub mod laws;
pub mod models;
pub mod query;
pub mod results;
pub mod score;
pub mod source_filter;
pub mod text;
pub mod trusted;
pub mod value;

use vstd::prelude::*;

verus! {

/// Fixed-point scale for scores: `SCORE_ONE` means a perfect match.
pub const SCORE_ONE: u64 = 1000;

} // verus!
