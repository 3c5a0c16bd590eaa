//! Hybrid retrieval engine core: file chunking, extension-aware tokenization,
//! corpus statistics for BM25 weighting, glob-based path filtering, and the
//! order-level parts of hybrid result ranking (deduplication, truncation).
//!
//! Scores themselves are floating-point and are computed by the surrounding
//! application; this library holds the exact text-level and order-level logic
//! with machine-checked contracts.

pub mod chunk;
pub mod files;
pub mod metadata;
pub mod scan;
pub mod search;
pub mod text;
pub mod tokenize_code;
pub mod tokenizer;
