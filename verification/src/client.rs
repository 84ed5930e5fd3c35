//! A minimal client handle, kept for embedding as a client library.

use vstd::prelude::*;

verus! {

/// A handle on a remote engine, by base URL.
pub struct GbsClient {
    pub base_url: String,
}

impl GbsClient {
    /// A client for the given base URL.
    pub fn new(base_url: String) -> (r: GbsClient)
        ensures
            r.base_url@ == base_url@,
    {
        GbsClient { base_url }
    }
}

} // verus!
