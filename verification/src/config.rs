//! Plugin-level configuration and the byte collector the database download
//! fills.

use vstd::prelude::*;

verus! {

/// Accumulates the raw bytes of a downloaded database file, chunk by chunk.
pub struct BytesCollector(pub Vec<u8>);

impl BytesCollector {
    /// An empty collector.
    pub fn new() -> (r: Self)
        ensures
            r.0@ == Seq::<u8>::empty(),
    {
        BytesCollector(Vec::new())
    }

    /// Appends a chunk of downloaded bytes, reporting how many were taken.
    pub fn push_chunk(&mut self, data: &[u8]) -> (n: usize)
        ensures
            final(self).0@ == old(self).0@ + data@,
            n == data@.len(),
    {
        let mut chunk = vstd::slice::slice_to_vec(data);
        let n = chunk.len();
        self.0.append(&mut chunk);
        n
    }
}

/// The options the engine reads at construction.
pub struct AppConfig {
    /// The URL of the default database, used when no database file is found.
    pub db_url: String,
    /// The maximum number of search results per request.
    pub max_limit: u64,
    /// Triggers to fall back on when the query names no bang.
    pub default_bangs: Vec<String>,
    /// Whether to collapse records sharing a destination URL.
    pub unique_bangs: bool,
}

impl AppConfig {
    /// The built-in database location.
    pub fn default_db() -> (r: String)
        ensures
            r@ == "https://search.brave.com/bang/data"@,
    {
        String::from_str("https://search.brave.com/bang/data")
    }

    /// The built-in result cap.
    pub fn max_limit() -> (r: u64)
        ensures
            r == 12,
    {
        12
    }

    /// Whether duplicate destinations are collapsed by default.
    pub fn unique_bangs() -> (r: bool)
        ensures
            !r,
    {
        false
    }
}

impl Default for AppConfig {
    /// The configuration used when none is found on disk.
    fn default() -> (c: Self)
        ensures
            c.db_url@ == "https://search.brave.com/bang/data"@,
            c.max_limit == 12,
            c.default_bangs@.len() == 0,
            !c.unique_bangs,
    {
        Self {
            db_url: Self::default_db(),
            max_limit: Self::max_limit(),
            default_bangs: Vec::new(),
            unique_bangs: Self::unique_bangs(),
        }
    }
}

} // verus!
