//! Plain request and response shapes mirroring the wire-level API. The
//! engine itself works on [`crate::value::Val`] trees; these types are the
//! documented surface that an embedding layer converts to and from.

use vstd::prelude::*;

use crate::value::Val;

verus! {

/// Per-index settings.
pub struct IndexSettings {
    pub number_of_shards: Option<u32>,
    pub number_of_replicas: Option<u32>,
    pub analysis: Option<AnalysisSettings>,
}

/// Analysis settings: named analyzers.
pub struct AnalysisSettings {
    pub analyzer: Option<Vec<(String, Analyzer)>>,
}

/// One analyzer definition.
pub struct Analyzer {
    pub type_: String,
    pub tokenizer: Option<String>,
    pub filter: Option<Vec<String>>,
}

/// Field mappings of an index.
pub struct Mapping {
    pub properties: Vec<(String, FieldMapping)>,
}

/// Per-field type metadata.
pub enum FieldMapping {
    Text { analyzer: Option<String> },
    Keyword,
    Integer,
    Long,
    Date,
}

/// The body of an index-creation request.
pub struct CreateIndexRequest {
    pub settings: Option<IndexSettings>,
    pub mappings: Option<Mapping>,
}

/// One `match` clause.
pub struct MatchQuery {
    pub query: String,
}

/// One sort entry: field to order.
pub struct Sort {
    pub field: Vec<(String, SortOrder)>,
}

/// A sort direction by name.
pub struct SortOrder {
    pub order: String,
}

/// Shard bookkeeping on a search response.
pub struct ShardsInfo {
    pub total: u32,
    pub successful: u32,
    pub skipped: u32,
    pub failed: u32,
}

/// The hit count of a response and how exact it is.
pub struct TotalHits {
    pub value: u32,
    pub relation: String,
}

/// One response hit.
pub struct Hit {
    pub index: String,
    pub type_: String,
    pub id: String,
    pub score: Option<u64>,
    pub source: Val,
}

/// The hits section of a search response.
pub struct Hits {
    pub total: TotalHits,
    pub max_score: Option<u64>,
    pub hits: Vec<Hit>,
}

/// A whole search response.
pub struct SearchResponse {
    pub took: u32,
    pub timed_out: bool,
    pub shards: ShardsInfo,
    pub hits: Hits,
}

} // verus!
