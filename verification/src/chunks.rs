//! Chunks and their concatenation. A chunk is an immutable contiguous byte
//! sequence; a buffered stream is an ordered sequence of chunks, and its
//! meaning is the concatenation of their bytes.

use vstd::prelude::*;
use crate::replace_spec::replace_all;

verus! {

/// The bytes of an ordered sequence of chunks, in order.
pub open spec fn chunks_concat(bufs: Seq<Seq<u8>>) -> Seq<u8>
    decreases bufs.len(),
{
    if bufs.len() == 0 {
        Seq::empty()
    } else {
        bufs.first() + chunks_concat(bufs.drop_first())
    }
}

/// View of a vector of chunks as a sequence of byte sequences.
pub open spec fn chunk_views(bufs: Seq<Vec<u8>>) -> Seq<Seq<u8>> {
    bufs.map_values(|b: Vec<u8>| b@)
}

/// Concatenation distributes over appending chunk lists.
pub proof fn lemma_concat_append(a: Seq<Seq<u8>>, b: Seq<Seq<u8>>)
    ensures
        chunks_concat(a + b) == chunks_concat(a) + chunks_concat(b),
    decreases a.len(),
{
    if a.len() == 0 {
        assert(a + b =~= b);
        assert(chunks_concat(a) + chunks_concat(b) =~= chunks_concat(b));
    } else {
        assert((a + b).drop_first() =~= a.drop_first() + b);
        lemma_concat_append(a.drop_first(), b);
        assert(chunks_concat(a + b)
            == a.first() + (chunks_concat(a.drop_first()) + chunks_concat(b)));
        assert(a.first() + (chunks_concat(a.drop_first()) + chunks_concat(b))
            =~= (a.first() + chunks_concat(a.drop_first())) + chunks_concat(b));
    }
}

/// Adding one chunk at the end appends its bytes.
pub proof fn lemma_concat_push(a: Seq<Seq<u8>>, c: Seq<u8>)
    ensures
        chunks_concat(a.push(c)) == chunks_concat(a) + c,
{
    assert(a.push(c) =~= a + seq![c]);
    lemma_concat_append(a, seq![c]);
    assert(seq![c].drop_first() =~= Seq::<Seq<u8>>::empty());
    assert(chunks_concat(seq![c]) == seq![c].first() + chunks_concat(seq![c].drop_first()));
    assert(seq![c].first() + Seq::<u8>::empty() =~= c);
}

/// Splitting the chunk list splits the bytes.
pub proof fn lemma_concat_split(bufs: Seq<Seq<u8>>, i: int)
    requires
        0 <= i <= bufs.len(),
    ensures
        chunks_concat(bufs) == chunks_concat(bufs.take(i)) + chunks_concat(bufs.skip(i)),
{
    assert(bufs =~= bufs.take(i) + bufs.skip(i));
    lemma_concat_append(bufs.take(i), bufs.skip(i));
}

/// Dropping the first chunk skips exactly its bytes.
pub proof fn lemma_concat_drop_first(bufs: Seq<Seq<u8>>)
    requires
        bufs.len() > 0,
    ensures
        chunks_concat(bufs.drop_first()) == chunks_concat(bufs).skip(bufs.first().len() as int),
{
    assert(chunks_concat(bufs) == bufs.first() + chunks_concat(bufs.drop_first()));
    assert(chunks_concat(bufs).skip(bufs.first().len() as int)
        =~= chunks_concat(bufs.drop_first()));
}

/// The byte offset where chunk `i` starts within the concatenation.
pub open spec fn chunk_start(bufs: Seq<Seq<u8>>, i: int) -> int {
    chunks_concat(bufs.take(i)).len() as int
}

/// The start offset of the next chunk is this chunk's start plus its length.
pub proof fn lemma_chunk_start_step(bufs: Seq<Seq<u8>>, i: int)
    requires
        0 <= i < bufs.len(),
    ensures
        chunk_start(bufs, i + 1) == chunk_start(bufs, i) + bufs[i].len(),
{
    assert(bufs.take(i + 1) =~= bufs.take(i).push(bufs[i]));
    lemma_concat_push(bufs.take(i), bufs[i]);
}

/// The start offset of the chunk past the end is the total byte length.
pub proof fn lemma_chunk_start_end(bufs: Seq<Seq<u8>>)
    ensures
        chunk_start(bufs, bufs.len() as int) == chunks_concat(bufs).len(),
{
    assert(bufs.take(bufs.len() as int) =~= bufs);
}

/// A position inside chunk `i` maps to the corresponding byte of the
/// concatenation.
pub proof fn lemma_concat_index(bufs: Seq<Seq<u8>>, i: int, off: int)
    requires
        0 <= i < bufs.len(),
        0 <= off < bufs[i].len(),
    ensures
        chunk_start(bufs, i) + off < chunks_concat(bufs).len(),
        chunks_concat(bufs)[chunk_start(bufs, i) + off] == bufs[i][off],
{
    lemma_concat_split(bufs, i);
    let rest = bufs.skip(i);
    assert(rest.first() =~= bufs[i]);
    assert(chunks_concat(rest) == bufs[i] + chunks_concat(rest.drop_first()));
    assert(chunks_concat(rest)[off] == bufs[i][off]);
}

/// Every byte position of the concatenation lies at or past the start of the
/// current chunk cursor, so the cursor position is a valid byte count.
pub proof fn lemma_chunk_start_le_len(bufs: Seq<Seq<u8>>, i: int, off: int)
    requires
        0 <= i < bufs.len(),
        0 <= off <= bufs[i].len(),
    ensures
        chunk_start(bufs, i) + off <= chunks_concat(bufs).len(),
{
    lemma_concat_split(bufs, i);
    let rest = bufs.skip(i);
    assert(rest.first() =~= bufs[i]);
    assert(chunks_concat(rest) == bufs[i] + chunks_concat(rest.drop_first()));
}

/// Law: chunk-boundary independence. The filter's result depends only on the
/// concatenation of the input chunks, never on how the stream was chunked:
/// two chunkings of the same bytes yield byte-identical output.
pub proof fn lemma_chunking_independent(
    a: Seq<Seq<u8>>,
    b: Seq<Seq<u8>>,
    n: Seq<u8>,
    r: Seq<u8>,
)
    requires
        n.len() > 0,
        chunks_concat(a) == chunks_concat(b),
    ensures
        replace_all(chunks_concat(a), n, r) == replace_all(chunks_concat(b), n, r),
{
}

} // verus!
