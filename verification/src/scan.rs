//! Scan-time configuration checks and corpus statistics.
//!
//! A scan splits every file into chunks of `chunk_size` characters with
//! `overlap_size` characters shared between consecutive chunks, so the
//! overlap must be smaller than the chunk whenever chunking is on
//! (`chunk_size > 0`; zero means one chunk per file). The check runs before
//! any file is read, so a bad configuration never creates partial state.
//!
//! Corpus statistics accumulate the deduplicated token count of each scanned
//! file; the average document length (total divided by document count) is the
//! BM25 length-normalization reference and is taken once, after the scan.

use vstd::prelude::*;

verus! {

/// A configuration that the scan rejects before reading any file.
#[derive(Clone, Copy, PartialEq, Eq, Structural, Debug)]
pub enum ConfigError {
    /// `overlap_size >= chunk_size` while `chunk_size > 0`.
    OverlapNotBelowChunkSize,
}

impl ConfigError {
    /// The diagnostic text the scan reports for this error.
    pub fn message(&self) -> (r: &'static str)
        ensures
            r@ == "overlap_size must be less than chunk_size"@,
    {
        "overlap_size must be less than chunk_size"
    }
}

/// Holds exactly when a chunking configuration is acceptable:
/// either chunking is off, or the overlap is strictly smaller than the chunk.
pub open spec fn valid_chunk_config(chunk_size: usize, overlap_size: usize) -> bool {
    chunk_size == 0 || overlap_size < chunk_size
}

/// Rejects `overlap_size >= chunk_size` (with `chunk_size > 0`) before any
/// file is read; every other configuration is accepted.
pub fn validate_scan_config(chunk_size: usize, overlap_size: usize) -> (r: Result<
    (),
    ConfigError,
>)
    ensures
        r is Ok <==> valid_chunk_config(chunk_size, overlap_size),
        r is Err ==> r == Result::<(), ConfigError>::Err(ConfigError::OverlapNotBelowChunkSize),
{
    if chunk_size > 0 && overlap_size >= chunk_size {
        Err(ConfigError::OverlapNotBelowChunkSize)
    } else {
        Ok(())
    }
}

/// Running statistics of one scan: the deduplicated token counts of all files
/// indexed so far, kept as an exact sum so the mean can be taken once at the
/// end, independently of file order.
pub struct CorpusStats {
    /// Sum of the deduplicated token counts of all documents recorded so far.
    pub total_tokens: usize,
    /// Number of documents recorded so far.
    pub doc_count: usize,
}

impl CorpusStats {
    /// An empty corpus: nothing scanned yet.
    pub fn new() -> (r: CorpusStats)
        ensures
            r.total_tokens == 0,
            r.doc_count == 0,
    {
        CorpusStats { total_tokens: 0, doc_count: 0 }
    }

    /// Records one scanned document by its deduplicated token count.
    pub fn record_document(&mut self, token_count: usize)
        requires
            old(self).total_tokens + token_count <= usize::MAX,
            old(self).doc_count < usize::MAX,
        ensures
            final(self).total_tokens == old(self).total_tokens + token_count,
            final(self).doc_count == old(self).doc_count + 1,
    {
        self.total_tokens = self.total_tokens + token_count;
        self.doc_count = self.doc_count + 1;
    }
}

} // verus!
