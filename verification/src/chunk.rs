//! Splitting file content into offset-addressed, possibly-overlapping chunks.
//!
//! Offsets and sizes count characters, so every cut falls on a codepoint
//! boundary whatever the input text holds.

use vstd::prelude::*;
use vstd::string::StrSliceExecFns;

use crate::scan::valid_chunk_config;

verus! {

/// One chunk of a file: its starting character offset and its text.
pub struct Chunk {
    /// Where the chunk starts, in characters from the start of the content.
    pub offset: usize,
    /// The chunk's text.
    pub text: String,
}

impl View for Chunk {
    type V = (int, Seq<char>);

    open spec fn view(&self) -> (int, Seq<char>) {
        (self.offset as int, self.text@)
    }
}

impl DeepView for Chunk {
    type V = (int, Seq<char>);

    open spec fn deep_view(&self) -> (int, Seq<char>) {
        self.view()
    }
}

/// The chunks of `content` from `offset` on: each chunk takes `chunk_size`
/// characters (clipped at the end of the content), and the next one starts
/// `chunk_size - overlap_size` characters later, until one reaches the end.
pub open spec fn chunks_from(
    content: Seq<char>,
    chunk_size: int,
    overlap_size: int,
    offset: int,
) -> Seq<(int, Seq<char>)>
    decreases content.len() - offset
        when 0 < chunk_size && 0 <= overlap_size < chunk_size && 0 <= offset
{
    if offset >= content.len() {
        Seq::empty()
    } else {
        let end = if offset + chunk_size < content.len() {
            offset + chunk_size
        } else {
            content.len() as int
        };
        let rest = if end == content.len() {
            Seq::empty()
        } else {
            chunks_from(content, chunk_size, overlap_size, offset + chunk_size - overlap_size)
        };
        seq![(offset, content.subrange(offset, end))] + rest
    }
}

/// All chunks of a content: the whole content as one chunk when chunking is
/// off (`chunk_size == 0`), the overlapping walk otherwise.
pub open spec fn content_chunks(
    content: Seq<char>,
    chunk_size: int,
    overlap_size: int,
) -> Seq<(int, Seq<char>)> {
    if chunk_size == 0 {
        seq![(0int, content)]
    } else {
        chunks_from(content, chunk_size, overlap_size, 0)
    }
}

/// Splits content into chunks of `chunk_size` characters overlapping by
/// `overlap_size`; `chunk_size == 0` yields the whole content as one chunk.
pub fn create_chunks(content: &str, chunk_size: usize, overlap_size: usize) -> (chunks: Vec<Chunk>)
    requires
        valid_chunk_config(chunk_size, overlap_size),
    ensures
        chunks.deep_view() == content_chunks(content@, chunk_size as int, overlap_size as int),
{
    let ghost goal = content_chunks(content@, chunk_size as int, overlap_size as int);
    if chunk_size == 0 {
        let mut chunks: Vec<Chunk> = Vec::new();
        chunks.push(Chunk { offset: 0, text: content.to_owned() });
        proof {
            assert(chunks.deep_view() =~= goal);
        }
        return chunks;
    }
    let len = content.unicode_len();
    let mut chunks: Vec<Chunk> = Vec::new();
    let mut offset: usize = 0;
    let mut done = false;
    proof {
        assert(chunks.deep_view() + chunks_from(
            content@,
            chunk_size as int,
            overlap_size as int,
            0,
        ) =~= goal);
    }
    while offset < len && !done
        invariant
            len == content@.len(),
            0 < chunk_size,
            overlap_size < chunk_size,
            goal == content_chunks(content@, chunk_size as int, overlap_size as int),
            !done ==> chunks.deep_view() + chunks_from(
                content@,
                chunk_size as int,
                overlap_size as int,
                offset as int,
            ) == goal,
            done ==> chunks.deep_view() == goal,
        decreases len - offset, (if done {
            0int
        } else {
            1int
        }),
    {
        let end = if chunk_size < len - offset {
            offset + chunk_size
        } else {
            len
        };
        let text = content.substring_char(offset, end).to_owned();
        let ghost prev = chunks.deep_view();
        let ghost here = chunks_from(
            content@,
            chunk_size as int,
            overlap_size as int,
            offset as int,
        );
        chunks.push(Chunk { offset, text });
        proof {
            assert(chunks.deep_view() =~= prev.push(
                (offset as int, content@.subrange(offset as int, end as int)),
            ));
        }
        if end == len {
            done = true;
            proof {
                assert(here =~= seq![(offset as int, content@.subrange(offset as int, end as int))]);
                assert(chunks.deep_view() =~= prev + here);
            }
        } else {
            proof {
                let rest = chunks_from(
                    content@,
                    chunk_size as int,
                    overlap_size as int,
                    offset as int + chunk_size - overlap_size,
                );
                assert(here == seq![(offset as int, content@.subrange(offset as int, end as int))]
                    + rest);
                assert(prev + (seq![
                    (offset as int, content@.subrange(offset as int, end as int)),
                ] + rest) =~= chunks.deep_view() + rest);
            }
            offset = offset + (chunk_size - overlap_size);
        }
    }
    proof {
        if !done {
            assert(chunks_from(
                content@,
                chunk_size as int,
                overlap_size as int,
                offset as int,
            ) =~= Seq::<(int, Seq<char>)>::empty());
            assert(chunks.deep_view() + Seq::<(int, Seq<char>)>::empty() =~= chunks.deep_view());
        }
    }
    chunks
}

/// The shape of the chunk walk from any starting offset inside the content:
/// every chunk's text is the content at its offset; every chunk but the last
/// is exactly `chunk_size` long; each next chunk starts `chunk_size -
/// overlap_size` after the previous one; the last chunk ends at the end of
/// the content.
proof fn lemma_chunks_from_shape(
    content: Seq<char>,
    chunk_size: int,
    overlap_size: int,
    offset: int,
)
    requires
        0 < chunk_size,
        0 <= overlap_size < chunk_size,
        0 <= offset < content.len(),
    ensures
        ({
            let ch = chunks_from(content, chunk_size, overlap_size, offset);
            &&& ch.len() > 0
            &&& ch[0].0 == offset
            &&& forall|i: int| 0 <= i < ch.len() ==> 0 <= #[trigger] ch[i].0 < content.len()
            &&& forall|i: int|
                0 <= i < ch.len() ==> (#[trigger] ch[i].0) + ch[i].1.len() <= content.len()
            &&& forall|i: int|
                0 <= i < ch.len() ==> (#[trigger] ch[i].1) == content.subrange(
                    ch[i].0,
                    ch[i].0 + ch[i].1.len(),
                )
            &&& forall|i: int| 0 <= i < ch.len() - 1 ==> (#[trigger] ch[i].1).len() == chunk_size
            &&& forall|i: int|
                0 <= i < ch.len() - 1 ==> (#[trigger] ch[i + 1].0) == ch[i].0 + chunk_size
                    - overlap_size
            &&& ch.last().0 + ch.last().1.len() == content.len()
            &&& ch.last().1.len() <= chunk_size
        }),
    decreases content.len() - offset,
{
    let ch = chunks_from(content, chunk_size, overlap_size, offset);
    let end = if offset + chunk_size < content.len() {
        offset + chunk_size
    } else {
        content.len() as int
    };
    let head = (offset, content.subrange(offset, end));
    assert(head.1.len() == end - offset);
    if end == content.len() {
        assert(ch =~= seq![head]);
    } else {
        let next = offset + chunk_size - overlap_size;
        let rest = chunks_from(content, chunk_size, overlap_size, next);
        lemma_chunks_from_shape(content, chunk_size, overlap_size, next);
        assert(ch == seq![head] + rest);
        assert(ch[0] == head);
        assert(forall|i: int| 0 <= i < rest.len() ==> ch[i + 1] == rest[i]);
        assert(ch.last() == rest.last());
        assert(ch[1].0 == offset + chunk_size - overlap_size) by {
            assert(ch[1] == rest[0]);
        }
    }
}

/// Law: for any content and any accepted chunking configuration with
/// `chunk_size > 0`, the chunks cover the whole content with no gap — the
/// first chunk starts at offset 0, each chunk holds the content at its
/// offset, each next chunk starts `chunk_size - overlap_size` characters
/// later (so consecutive chunks overlap by exactly `overlap_size`), every
/// chunk but the last is exactly `chunk_size` long, and the last chunk ends
/// at the end of the content.
pub proof fn lemma_chunk_coverage(content: Seq<char>, chunk_size: int, overlap_size: int)
    requires
        0 < chunk_size,
        0 <= overlap_size < chunk_size,
    ensures
        ({
            let ch = content_chunks(content, chunk_size, overlap_size);
            &&& (content.len() == 0 ==> ch.len() == 0)
            &&& (content.len() > 0 ==> {
                &&& ch.len() > 0
                &&& ch[0].0 == 0
                &&& forall|i: int|
                    0 <= i < ch.len() ==> 0 <= (#[trigger] ch[i].0) && ch[i].0 + ch[i].1.len()
                        <= content.len()
                &&& forall|i: int|
                    0 <= i < ch.len() ==> (#[trigger] ch[i].1) == content.subrange(
                        ch[i].0,
                        ch[i].0 + ch[i].1.len(),
                    )
                &&& forall|i: int|
                    0 <= i < ch.len() - 1 ==> (#[trigger] ch[i].1).len() == chunk_size
                &&& forall|i: int|
                    0 <= i < ch.len() - 1 ==> (#[trigger] ch[i + 1].0) == ch[i].0 + chunk_size
                        - overlap_size
                &&& forall|i: int|
                    0 <= i < ch.len() - 1 ==> (#[trigger] ch[i].0) + ch[i].1.len() - ch[i + 1].0
                        == overlap_size
                &&& ch.last().0 + ch.last().1.len() == content.len()
            })
        }),
{
    if content.len() > 0 {
        lemma_chunks_from_shape(content, chunk_size, overlap_size, 0);
    }
}

} // verus!

