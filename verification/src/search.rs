//! The order-level tail of hybrid search: once matches are sorted by
//! descending score, deduplicate filenames (keeping each file's best-ranked
//! entry), cap the result count, and rebuild the text a chunk was embedded
//! from for display.

use vstd::prelude::*;
use vstd::string::StrSliceExecFns;

use crate::metadata::{metadata_text, prepend_metadata};
use crate::tokenize_code::{dedup_tokens, deduplicate_tokens, lemma_dedup_first_occurrence_order};

verus! {

/// What result selection returns: the filenames deduplicated to their first
/// occurrence when chunk detail is not wanted, then truncated to `count`
/// entries if a positive cap is given.
pub open spec fn selected_results(
    filenames: Seq<Seq<char>>,
    deduplicate: bool,
    count: usize,
) -> Seq<Seq<char>> {
    let base = if deduplicate {
        dedup_tokens(filenames)
    } else {
        filenames
    };
    if count > 0 && count < base.len() {
        base.take(count as int)
    } else {
        base
    }
}

/// Applies deduplication and the result-count cap to a list of filenames
/// already sorted by descending score. With `deduplicate`, each file keeps
/// only its first — best-ranked — entry; a positive `count` keeps only the
/// first `count` results.
pub fn select_results(filenames: Vec<String>, deduplicate: bool, count: usize) -> (r: Vec<String>)
    ensures
        r.deep_view() == selected_results(filenames.deep_view(), deduplicate, count),
{
    let mut base = if deduplicate {
        deduplicate_tokens(filenames)
    } else {
        filenames
    };
    if count > 0 && count < base.len() {
        let ghost before = base.deep_view();
        base.truncate(count);
        proof {
            assert(base.deep_view() =~= before.take(count as int));
        }
    }
    base
}

/// Law: with deduplication on, the selected results hold no filename twice,
/// every result comes from the input, and results stand in the order of
/// their first occurrence in the input — for a score-sorted input, each
/// file's best-ranked entry.
pub proof fn lemma_select_results_dedup(filenames: Seq<Seq<char>>, count: usize)
    ensures
        ({
            let r = selected_results(filenames, true, count);
            &&& forall|i: int, j: int| 0 <= i < j < r.len() ==> r[i] != r[j]
            &&& forall|i: int| 0 <= i < r.len() ==> filenames.contains(#[trigger] r[i])
            &&& forall|i: int, j: int|
                0 <= i < j < r.len() ==> {
                    &&& filenames.index_of_first(r[i]) is Some
                    &&& filenames.index_of_first(r[j]) is Some
                    &&& filenames.index_of_first(r[i])->0 < filenames.index_of_first(r[j])->0
                }
        }),
{
    let d = dedup_tokens(filenames);
    let r = selected_results(filenames, true, count);
    lemma_dedup_first_occurrence_order(filenames);
    assert(forall|i: int| 0 <= i < r.len() ==> r[i] == d[i]);
    assert forall|i: int| 0 <= i < r.len() implies filenames.contains(#[trigger] r[i]) by {
        assert(d.contains(d[i]));
    }
}

/// A query that search rejects before any work is done.
#[derive(Clone, Copy, PartialEq, Eq, Structural, Debug)]
pub enum QueryError {
    /// The query text is empty.
    EmptyPrompt,
}

impl QueryError {
    /// The diagnostic text search reports for this error.
    pub fn message(&self) -> (r: &'static str)
        ensures
            r@ == "No prompt given"@,
    {
        "No prompt given"
    }
}

/// Rejects an empty query before any work begins; every nonempty query is
/// accepted.
pub fn validate_query(prompt: &str) -> (r: Result<(), QueryError>)
    ensures
        r is Ok <==> prompt@.len() > 0,
        r is Err ==> r == Result::<(), QueryError>::Err(QueryError::EmptyPrompt),
{
    if prompt.is_empty() {
        Err(QueryError::EmptyPrompt)
    } else {
        Ok(())
    }
}

/// The position of the first entry equal to `target`, if any: how a match's
/// filename is joined to its file-level record.
pub fn position_of_filename(names: &Vec<String>, target: &String) -> (r: Option<usize>)
    ensures
        match r {
            Some(i) => i < names@.len() && names.deep_view()[i as int] == target@ && (forall|
                j: int,
            |
                0 <= j < i ==> names.deep_view()[j] != target@),
            None => forall|j: int| 0 <= j < names@.len() ==> names.deep_view()[j] != target@,
        },
{
    let mut i: usize = 0;
    while i < names.len()
        invariant
            i <= names@.len(),
            forall|j: int| 0 <= j < i ==> names.deep_view()[j] != target@,
        decreases names@.len() - i,
    {
        if names[i] == *target {
            proof {
                assert(names.deep_view()[i as int] == target@);
            }
            return Some(i);
        }
        i = i + 1;
    }
    None
}

/// The text a chunk was embedded from, rebuilt from the live file content:
/// the chunk's characters, wrapped in the metadata header exactly when the
/// record says metadata was embedded. Nothing is returned when the chunk no
/// longer fits the live content.
pub open spec fn display_text(
    contents: Seq<char>,
    offset: int,
    size: int,
    has_metadata: bool,
    filename: Seq<char>,
    last_modified: u64,
    file_size: u64,
) -> Seq<char> {
    let chunk = contents.subrange(offset, offset + size);
    if has_metadata {
        metadata_text(filename, last_modified, file_size, chunk)
    } else {
        chunk
    }
}

/// Rebuilds the display text of a matched chunk from the live file content;
/// returns nothing exactly when the stored chunk range no longer fits.
pub fn chunk_display_text(
    contents: &str,
    offset: usize,
    size: usize,
    has_metadata: bool,
    filename: &str,
    last_modified: u64,
    file_size: u64,
) -> (r: Option<String>)
    ensures
        match r {
            Some(text) => offset + size <= contents@.len() && text@ == display_text(
                contents@,
                offset as int,
                size as int,
                has_metadata,
                filename@,
                last_modified,
                file_size,
            ),
            None => offset + size > contents@.len(),
        },
{
    let len = contents.unicode_len();
    if size <= len && offset <= len - size {
        let chunk = contents.substring_char(offset, offset + size);
        if has_metadata {
            Some(prepend_metadata(filename, last_modified, file_size, chunk))
        } else {
            Some(chunk.to_owned())
        }
    } else {
        None
    }
}

} // verus!
