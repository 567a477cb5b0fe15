//! The match decision. Given the ordered buffered chunks and the needle,
//! decide the next action: pass bytes through, replace a full occurrence, or
//! wait for more input. The decision is pure: it reads the buffered chunks
//! and the needle and has no other state.

use vstd::prelude::*;
use crate::chunks::{chunk_start, chunk_views, chunks_concat};
use crate::chunks::{lemma_chunk_start_end, lemma_chunk_start_step, lemma_concat_index};
use crate::chunks::lemma_chunk_start_le_len;
use crate::replace_spec::{compatible_at, is_prefix_of, lemma_incompatible_no_occurrence, occurs_at};

verus! {

/// What the stream filter must do next.
#[derive(Clone, Copy, Debug, PartialEq, Eq, Structural)]
pub enum Action {
    /// The first so-many buffered bytes cannot belong to any occurrence of
    /// the needle and may be emitted unchanged.
    Return(usize),
    /// The buffered bytes begin with a full occurrence of the needle.
    Replace,
    /// The buffered bytes are undecided; more input is needed.
    Read,
}

/// The smallest offset `>= j` of `chunk` at which the needle could still
/// begin (the offset one past the end always qualifies, since nothing there
/// contradicts the needle yet).
pub open spec fn first_live_offset(chunk: Seq<u8>, n: Seq<u8>, j: int) -> int
    decreases chunk.len() - j,
{
    if j < 0 || j >= chunk.len() {
        chunk.len() as int
    } else if compatible_at(chunk, n, j) {
        j
    } else {
        first_live_offset(chunk, n, j + 1)
    }
}

pub proof fn lemma_flo_bounds(chunk: Seq<u8>, n: Seq<u8>, j: int)
    requires
        0 <= j <= chunk.len(),
    ensures
        j <= first_live_offset(chunk, n, j) <= chunk.len(),
    decreases chunk.len() - j,
{
    if j == chunk.len() || compatible_at(chunk, n, j) {
    } else {
        lemma_flo_bounds(chunk, n, j + 1);
    }
}

/// Every offset below the first live one has already been ruled out.
pub proof fn lemma_flo_not_compatible_below(chunk: Seq<u8>, n: Seq<u8>, j0: int, t: int)
    requires
        0 <= j0 <= t < first_live_offset(chunk, n, j0),
    ensures
        !compatible_at(chunk, n, t),
    decreases t - j0,
{
    if t == j0 {
    } else {
        lemma_flo_not_compatible_below(chunk, n, j0 + 1, t);
    }
}

/// The first live offset is the unique offset that is itself live while all
/// offsets before it are ruled out.
pub proof fn lemma_flo_eq(chunk: Seq<u8>, n: Seq<u8>, j0: int, j: int)
    requires
        0 <= j0 <= j <= chunk.len(),
        forall|t: int| j0 <= t < j ==> !compatible_at(chunk, n, t),
        j == chunk.len() || compatible_at(chunk, n, j),
    ensures
        first_live_offset(chunk, n, j0) == j,
    decreases j - j0,
{
    if j0 == j {
    } else {
        assert(!compatible_at(chunk, n, j0));
        lemma_flo_eq(chunk, n, j0 + 1, j);
    }
}

/// The action the filter must take on the given buffered chunks: wait when
/// the bytes are a (possibly empty) strict prefix of the needle, replace when
/// they begin with the needle, and otherwise release the longest run of
/// leading bytes of the first chunk that cannot start an occurrence.
pub open spec fn decision(bufs: Seq<Seq<u8>>, n: Seq<u8>) -> Action {
    let cat = chunks_concat(bufs);
    if bufs.len() == 0 {
        Action::Read
    } else if compatible_at(cat, n, 0) {
        if cat.len() >= n.len() {
            Action::Replace
        } else {
            Action::Read
        }
    } else {
        Action::Return(first_live_offset(bufs[0], n, 1) as usize)
    }
}

/// A replacement decision means the buffered bytes begin with the needle.
pub proof fn lemma_decision_replace(bufs: Seq<Seq<u8>>, n: Seq<u8>)
    requires
        decision(bufs, n) == Action::Replace,
    ensures
        occurs_at(chunks_concat(bufs), n, 0),
{
    let cat = chunks_concat(bufs);
    assert(compatible_at(cat, n, 0) && cat.len() >= n.len());
    assert forall|i: int| 0 <= i < n.len() implies cat.subrange(0, n.len() as int)[i] == n[i] by {
        assert(cat[0 + i] == n[i]);
    }
    assert(cat.subrange(0, n.len() as int) =~= n);
}

/// A read decision means the buffered bytes are a strict prefix of the
/// needle, so more input is genuinely needed.
pub proof fn lemma_decision_read(bufs: Seq<Seq<u8>>, n: Seq<u8>)
    requires
        n.len() > 0,
        decision(bufs, n) == Action::Read,
    ensures
        chunks_concat(bufs).len() < n.len(),
        is_prefix_of(chunks_concat(bufs), n),
{
    let cat = chunks_concat(bufs);
    if bufs.len() == 0 {
        assert(cat =~= Seq::<u8>::empty());
    }
    assert(compatible_at(cat, n, 0) && cat.len() < n.len());
    assert forall|i: int| 0 <= i < cat.len() implies n.subrange(0, cat.len() as int)[i]
        == cat[i] by {
        assert(cat[0 + i] == n[i]);
    }
    assert(n.subrange(0, cat.len() as int) =~= cat);
}

/// Conversely, when the buffered bytes are a strict prefix of the needle the
/// decision is to read more input.
pub proof fn lemma_prefix_decision_read(bufs: Seq<Seq<u8>>, n: Seq<u8>)
    requires
        n.len() > 0,
        chunks_concat(bufs).len() < n.len(),
        is_prefix_of(chunks_concat(bufs), n),
    ensures
        decision(bufs, n) == Action::Read,
{
    let cat = chunks_concat(bufs);
    assert forall|i: int| 0 <= i < n.len() && 0 + i < cat.len() implies cat[0 + i] == n[i] by {
        assert(n.subrange(0, cat.len() as int)[i] == n[i]);
    }
    assert(compatible_at(cat, n, 0));
}

/// A pass-through decision is sound: no occurrence of the needle can start
/// before the released byte count, no matter what bytes arrive later. The
/// count never exceeds the first chunk, and is positive unless the first
/// chunk is empty.
pub proof fn lemma_decision_return(bufs: Seq<Seq<u8>>, n: Seq<u8>, k: usize, t: Seq<u8>)
    requires
        n.len() > 0,
        bufs.len() > 0 ==> bufs[0].len() <= usize::MAX,
        decision(bufs, n) == Action::Return(k),
    ensures
        bufs.len() > 0,
        k <= bufs[0].len(),
        bufs[0].len() > 0 ==> k >= 1,
        forall|j: int| 0 <= j < k ==> !occurs_at(chunks_concat(bufs) + t, n, j),
{
    let cat = chunks_concat(bufs);
    let first = bufs[0];
    assert(!compatible_at(cat, n, 0));
    assert(k == first_live_offset(first, n, 1) as usize);
    if first.len() == 0 {
        assert(first_live_offset(first, n, 1) == 0);
    } else {
        lemma_flo_bounds(first, n, 1);
    }
    assert(k as int == first_live_offset(first, n, 1));
    let rest = chunks_concat(bufs.drop_first());
    assert(cat == first + rest);
    assert(cat + t =~= first + (rest + t));
    assert forall|j: int| 0 <= j < k implies !occurs_at(cat + t, n, j) by {
        if j == 0 {
            lemma_incompatible_no_occurrence(cat, t, n, 0);
            assert(cat + t =~= cat + t);
        } else {
            lemma_flo_not_compatible_below(first, n, 1, j);
            lemma_incompatible_no_occurrence(first, rest + t, n, j);
        }
    }
}

/// How far the concatenation agrees with the start of the needle.
enum Begin {
    /// The concatenation begins with the whole needle.
    Matched,
    /// The concatenation is a strict prefix of the needle.
    Short,
    /// The concatenation contradicts the needle at some position.
    Mismatch,
}

/// Walk the buffered chunks against the needle from the start.
#[verifier::loop_isolation(false)]
fn begins_with_needle(bufs: &Vec<Vec<u8>>, prefix: &Vec<u8>) -> (r: Begin)
    ensures
        ({
            let cat = chunks_concat(chunk_views(bufs@));
            match r {
                Begin::Matched => compatible_at(cat, prefix@, 0) && cat.len() >= prefix@.len(),
                Begin::Short => compatible_at(cat, prefix@, 0) && cat.len() < prefix@.len(),
                Begin::Mismatch => !compatible_at(cat, prefix@, 0),
            }
        }),
{
    let ghost views = chunk_views(bufs@);
    let ghost cat = chunks_concat(views);
    let mut ci: usize = 0;
    let mut off: usize = 0;
    let mut ni: usize = 0;
    while ni < prefix.len()
        invariant
            ci <= bufs@.len(),
            ci < bufs@.len() ==> off <= views[ci as int].len(),
            ci == bufs@.len() ==> off == 0,
            ni == chunk_start(views, ci as int) + off,
            ni <= prefix@.len(),
            ni <= cat.len(),
            forall|t: int| 0 <= t < ni ==> #[trigger] cat[t] == prefix@[t],
        decreases prefix@.len() - ni, bufs@.len() - ci,
    {
        if ci == bufs.len() {
            proof {
                lemma_chunk_start_end(views);
            }
            assert(ni == cat.len());
            return Begin::Short;
        }
        if off == bufs[ci].len() {
            proof {
                lemma_chunk_start_step(views, ci as int);
            }
            ci = ci + 1;
            off = 0;
        } else {
            proof {
                lemma_concat_index(views, ci as int, off as int);
            }
            if bufs[ci][off] != prefix[ni] {
                assert(cat[ni as int] != prefix@[ni as int]);
                assert(!compatible_at(cat, prefix@, 0));
                return Begin::Mismatch;
            }
            ni = ni + 1;
            off = off + 1;
            proof {
                if ci < bufs@.len() {
                    lemma_chunk_start_le_len(views, ci as int, off as int);
                }
            }
        }
    }
    Begin::Matched
}

/// The smallest offset of the first chunk, at least one, at which the needle
/// could still begin; the chunk's length if no such offset exists.
#[verifier::loop_isolation(false)]
fn live_offset(chunk: &Vec<u8>, prefix: &Vec<u8>) -> (k: usize)
    ensures
        k == first_live_offset(chunk@, prefix@, 1),
{
    if chunk.len() == 0 {
        return 0;
    }
    let mut j: usize = 1;
    while j < chunk.len()
        invariant
            1 <= j <= chunk@.len(),
            forall|t: int| 1 <= t < j ==> !compatible_at(chunk@, prefix@, t),
        decreases chunk@.len() - j,
    {
        let mut i: usize = 0;
        let mut ok: bool = true;
        while ok && i < prefix.len() && j + i < chunk.len()
            invariant
                i <= prefix@.len(),
                j + i <= chunk@.len(),
                ok ==> forall|t: int| 0 <= t < i ==> chunk@[j + t] == prefix@[t],
                !ok ==> !compatible_at(chunk@, prefix@, j as int),
            decreases (if ok { 1int } else { 0int }), prefix@.len() - i,
        {
            if chunk[j + i] != prefix[i] {
                assert(!compatible_at(chunk@, prefix@, j as int));
                ok = false;
            } else {
                i = i + 1;
            }
        }
        if ok {
            assert(compatible_at(chunk@, prefix@, j as int)) by {
                assert(i == prefix@.len() || j + i == chunk@.len());
            }
            proof {
                lemma_flo_eq(chunk@, prefix@, 1, j as int);
            }
            return j;
        }
        j = j + 1;
    }
    proof {
        lemma_flo_eq(chunk@, prefix@, 1, chunk@.len() as int);
    }
    j
}

/// Decide the next action for the buffered chunks against the needle.
///
/// This is the pure decision at the core of the stream filter: it never
/// misses an occurrence of the needle (every byte it releases provably
/// cannot belong to one), it reports a replacement exactly when the buffered
/// bytes begin with the needle, and it asks for more input exactly when the
/// buffered bytes are a strict prefix of the needle.
pub fn non_matching_prefix_length(bufs: &Vec<Vec<u8>>, prefix: &Vec<u8>) -> (r: Action)
    ensures
        r == decision(chunk_views(bufs@), prefix@),
{
    if bufs.len() == 0 {
        return Action::Read;
    }
    match begins_with_needle(bufs, prefix) {
        Begin::Matched => Action::Replace,
        Begin::Short => Action::Read,
        Begin::Mismatch => {
            let k = live_offset(&bufs[0], prefix);
            Action::Return(k)
        },
    }
}

} // verus!
