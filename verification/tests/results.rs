use luckyshot::files::{filter_matching_paths, is_store_artifact, STORE_FILE_NAME};
use luckyshot::metadata::{prepend_metadata, u64_to_string};
use luckyshot::search::{chunk_display_text, position_of_filename, select_results, validate_query,
    QueryError};

#[test]
fn test_select_results_deduplicates_to_best_ranked_entry() {
    // Matches already sorted by descending hybrid score: the same file with
    // scores 0.9 and 0.4 comes back exactly once, at its best-ranked place.
    let sorted = vec![
        "a.rs".to_string(), // 0.9
        "b.rs".to_string(), // 0.7
        "a.rs".to_string(), // 0.4
    ];
    let selected = select_results(sorted, true, 0);
    assert_eq!(selected, vec!["a.rs".to_string(), "b.rs".to_string()]);
}

#[test]
fn test_select_results_keeps_chunk_detail_when_not_deduplicating() {
    let sorted = vec!["a.rs".to_string(), "a.rs".to_string()];
    let selected = select_results(sorted.clone(), false, 0);
    assert_eq!(selected, sorted);
}

#[test]
fn test_select_results_count_cap() {
    let sorted = vec!["a".to_string(), "b".to_string(), "c".to_string()];
    assert_eq!(select_results(sorted.clone(), false, 2), vec!["a".to_string(), "b".to_string()]);
    // A zero count means no cap, and a cap beyond the length changes nothing.
    assert_eq!(select_results(sorted.clone(), false, 0), sorted);
    assert_eq!(select_results(sorted.clone(), false, 10), sorted);
}

#[test]
fn test_select_results_dedup_before_cap() {
    let sorted = vec!["a".to_string(), "a".to_string(), "b".to_string()];
    assert_eq!(select_results(sorted, true, 2), vec!["a".to_string(), "b".to_string()]);
}

#[test]
fn test_filter_matching_paths_glob() {
    let paths = vec![
        "src/main.rs".to_string(),
        "README.md".to_string(),
        "src/lib.rs".to_string(),
        "docs/guide.md".to_string(),
    ];
    assert_eq!(
        filter_matching_paths("src/*.rs", paths.clone()),
        vec!["src/main.rs".to_string(), "src/lib.rs".to_string()]
    );
    assert_eq!(
        filter_matching_paths("**/*.md", paths.clone()),
        vec!["README.md".to_string(), "docs/guide.md".to_string()]
    );
    assert_eq!(filter_matching_paths("*.toml", paths), Vec::<String>::new());
}

#[test]
fn test_store_artifact_is_recognized() {
    assert!(is_store_artifact(STORE_FILE_NAME));
    assert!(is_store_artifact("some/dir/.luckyshot.file.vectors.v1"));
    assert!(!is_store_artifact("src/main.rs"));
    assert!(!is_store_artifact(""));
}

#[test]
fn test_validate_query_rejects_empty_prompt() {
    let r = validate_query("");
    assert_eq!(r, Err(QueryError::EmptyPrompt));
    assert_eq!(r.unwrap_err().message(), "No prompt given");
    assert_eq!(validate_query("where is the chunker?"), Ok(()));
}

#[test]
fn test_position_of_filename_finds_first_entry() {
    let names = vec!["a.rs".to_string(), "b.rs".to_string(), "a.rs".to_string()];
    assert_eq!(position_of_filename(&names, &"a.rs".to_string()), Some(0));
    assert_eq!(position_of_filename(&names, &"b.rs".to_string()), Some(1));
    assert_eq!(position_of_filename(&names, &"c.rs".to_string()), None);
}

#[test]
fn test_u64_to_string_decimal() {
    assert_eq!(u64_to_string(0), "0");
    assert_eq!(u64_to_string(7), "7");
    assert_eq!(u64_to_string(1234567890), "1234567890");
    assert_eq!(u64_to_string(u64::MAX), "18446744073709551615");
}

#[test]
fn test_prepend_metadata_format() {
    let wrapped = prepend_metadata("src/a.rs", 1700000000, 42, "fn main() {}");
    assert_eq!(
        wrapped,
        "File: src/a.rs\nLast Modified: 1700000000\nSize: 42\nContent:\nfn main() {}"
    );
}

#[test]
fn test_chunk_display_text_reconstruction() {
    let contents = "0123456789";
    // A plain chunk comes back as the raw characters.
    assert_eq!(
        chunk_display_text(contents, 2, 5, false, "f.txt", 11, 10),
        Some("23456".to_string())
    );
    // A metadata-embedded chunk is wrapped the way it was embedded.
    assert_eq!(
        chunk_display_text(contents, 0, 3, true, "f.txt", 11, 10),
        Some("File: f.txt\nLast Modified: 11\nSize: 10\nContent:\n012".to_string())
    );
    // A chunk that no longer fits the live file yields nothing.
    assert_eq!(chunk_display_text(contents, 8, 5, false, "f.txt", 11, 10), None);
}
