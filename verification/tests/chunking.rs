use luckyshot::chunk::create_chunks;
use luckyshot::scan::{validate_scan_config, ConfigError, CorpusStats};

#[test]
fn test_chunk_coverage_example() {
    // 250 characters, chunk size 100, overlap 20: chunks at offsets 0, 80,
    // 160 with lengths 100, 100, 90.
    let content: String = std::iter::repeat('a').take(250).collect();
    let chunks = create_chunks(&content, 100, 20);
    assert_eq!(chunks.len(), 3);
    assert_eq!(chunks[0].offset, 0);
    assert_eq!(chunks[0].text.len(), 100);
    assert_eq!(chunks[1].offset, 80);
    assert_eq!(chunks[1].text.len(), 100);
    assert_eq!(chunks[2].offset, 160);
    assert_eq!(chunks[2].text.len(), 90);
    // Consecutive chunks overlap by exactly 20 characters.
    assert_eq!(&content[80..100], &chunks[1].text[0..20]);
    assert_eq!(&content[160..180], &chunks[2].text[0..20]);
}

#[test]
fn test_chunk_size_zero_yields_whole_content() {
    let chunks = create_chunks("hello world", 0, 0);
    assert_eq!(chunks.len(), 1);
    assert_eq!(chunks[0].offset, 0);
    assert_eq!(chunks[0].text, "hello world");
}

#[test]
fn test_chunk_exact_multiple_has_no_trailing_chunk() {
    // Content of 10 characters with chunk size 5 and no overlap: the second
    // chunk ends exactly at the end, so there are two chunks.
    let chunks = create_chunks("abcdefghij", 5, 0);
    assert_eq!(chunks.len(), 2);
    assert_eq!(chunks[0].text, "abcde");
    assert_eq!(chunks[1].offset, 5);
    assert_eq!(chunks[1].text, "fghij");
}

#[test]
fn test_chunk_empty_content() {
    let chunks = create_chunks("", 10, 2);
    assert_eq!(chunks.len(), 0);
}

#[test]
fn test_chunk_multibyte_content_cuts_on_codepoints() {
    let content = "ééééé";
    let chunks = create_chunks(content, 2, 1);
    assert_eq!(chunks[0].text, "éé");
    assert_eq!(chunks[1].offset, 1);
    assert_eq!(chunks[1].text, "éé");
}

#[test]
fn test_chunk_text_reconstructs_from_live_content() {
    // Each chunk's display text, rebuilt from the stored offset and length,
    // is exactly the chunk that was cut at scan time.
    let content = "the quick brown fox jumps over the lazy dog";
    let chunks = luckyshot::chunk::create_chunks(content, 7, 3);
    assert!(!chunks.is_empty());
    for chunk in &chunks {
        let rebuilt = luckyshot::search::chunk_display_text(
            content,
            chunk.offset,
            chunk.text.chars().count(),
            false,
            "f.txt",
            0,
            0,
        );
        assert_eq!(rebuilt, Some(chunk.text.clone()));
    }
}

#[test]
fn test_validation_rejects_overlap_not_below_chunk_size() {
    let r = validate_scan_config(50, 50);
    assert_eq!(r, Err(ConfigError::OverlapNotBelowChunkSize));
    assert_eq!(
        r.unwrap_err().message(),
        "overlap_size must be less than chunk_size"
    );
}

#[test]
fn test_validation_accepts_good_configs() {
    assert_eq!(validate_scan_config(0, 0), Ok(()));
    assert_eq!(validate_scan_config(100, 20), Ok(()));
    assert_eq!(validate_scan_config(1, 0), Ok(()));
    assert_eq!(validate_scan_config(10, 10), Err(ConfigError::OverlapNotBelowChunkSize));
}

#[test]
fn test_corpus_stats_accumulate() {
    let mut stats = CorpusStats::new();
    stats.record_document(10);
    stats.record_document(30);
    stats.record_document(20);
    assert_eq!(stats.total_tokens, 60);
    assert_eq!(stats.doc_count, 3);
    // The average document length is taken once, after the scan.
    assert_eq!(stats.total_tokens as f32 / stats.doc_count as f32, 20.0);
}
