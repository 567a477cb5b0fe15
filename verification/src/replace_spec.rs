//! The mathematical meaning of the filter: a single left-to-right pass over a
//! byte sequence that replaces every leftmost, non-overlapping occurrence of a
//! fixed non-empty needle and copies every other byte through unchanged.

use vstd::prelude::*;

verus! {

/// True when `p` is a prefix of `s`.
pub open spec fn is_prefix_of(p: Seq<u8>, s: Seq<u8>) -> bool {
    p.len() <= s.len() && s.subrange(0, p.len() as int) == p
}

/// The needle `n` occurs in `s` at offset `j`.
pub open spec fn occurs_at(s: Seq<u8>, n: Seq<u8>, j: int) -> bool {
    0 <= j && j + n.len() <= s.len() && s.subrange(j, j + n.len()) == n
}

/// The needle `n` could still begin at offset `j` of `s`: every byte of `n`
/// that overlaps the bytes available in `s` agrees with `s`. Offsets at or
/// past the end of `s` are trivially compatible.
pub open spec fn compatible_at(s: Seq<u8>, n: Seq<u8>, j: int) -> bool {
    forall|i: int| 0 <= i < n.len() && j + i < s.len() ==> s[j + i] == n[i]
}

/// An offset already ruled out by the bytes at hand can never become an
/// occurrence, no matter what bytes `t` arrive later.
pub proof fn lemma_incompatible_no_occurrence(s: Seq<u8>, t: Seq<u8>, n: Seq<u8>, j: int)
    requires
        0 <= j,
        !compatible_at(s, n, j),
    ensures
        !occurs_at(s + t, n, j),
{
    let i = choose|i: int| 0 <= i < n.len() && j + i < s.len() && s[j + i] != n[i];
    assert(0 <= i < n.len() && j + i < s.len() && s[j + i] != n[i]);
    if occurs_at(s + t, n, j) {
        assert((s + t).subrange(j, j + n.len() as int)[i] == n[i]);
        assert((s + t)[j + i] == s[j + i]);
        assert(false);
    }
}

/// `s` with every leftmost, non-overlapping occurrence of `n` replaced by `r`.
/// The scan restarts after each inserted replacement, so replacement bytes are
/// final: an occurrence of `n` embedded in `r` is never replaced again.
pub open spec fn replace_all(s: Seq<u8>, n: Seq<u8>, r: Seq<u8>) -> Seq<u8>
    recommends
        n.len() > 0,
    decreases s.len(),
{
    if n.len() == 0 || s.len() == 0 {
        s
    } else if occurs_at(s, n, 0) {
        r + replace_all(s.skip(n.len() as int), n, r)
    } else {
        seq![s[0]] + replace_all(s.skip(1), n, r)
    }
}

/// A sequence shorter than the needle is passed through unchanged.
/// This is why flushing a strict, unresolved needle prefix at end of stream
/// emits exactly the buffered bytes.
pub proof fn lemma_replace_all_short(s: Seq<u8>, n: Seq<u8>, r: Seq<u8>)
    requires
        s.len() < n.len(),
    ensures
        replace_all(s, n, r) == s,
    decreases s.len(),
{
    if s.len() == 0 {
    } else {
        assert(!occurs_at(s, n, 0));
        lemma_replace_all_short(s.skip(1), n, r);
        assert(seq![s[0]] + s.skip(1) =~= s);
    }
}

/// Replacing in a sequence that starts with the needle inserts the
/// replacement and continues after the needle.
pub proof fn lemma_replace_all_at_match(s: Seq<u8>, n: Seq<u8>, r: Seq<u8>)
    requires
        n.len() > 0,
        occurs_at(s, n, 0),
    ensures
        replace_all(s, n, r) == r + replace_all(s.skip(n.len() as int), n, r),
{
}

/// If no occurrence of the needle starts before offset `k`, the first `k`
/// bytes are passed through unchanged and the scan continues at `k`.
pub proof fn lemma_replace_all_clean_prefix(s: Seq<u8>, n: Seq<u8>, r: Seq<u8>, k: int)
    requires
        n.len() > 0,
        0 <= k <= s.len(),
        forall|j: int| 0 <= j < k ==> !occurs_at(s, n, j),
    ensures
        replace_all(s, n, r) == s.take(k) + replace_all(s.skip(k), n, r),
    decreases k,
{
    if k == 0 {
        assert(s.skip(0) =~= s);
        assert(s.take(0) + replace_all(s, n, r) =~= replace_all(s, n, r));
    } else {
        assert(!occurs_at(s, n, 0));
        let s1 = s.skip(1);
        assert forall|j: int| 0 <= j < k - 1 implies !occurs_at(s1, n, j) by {
            if occurs_at(s1, n, j) {
                assert(s1.subrange(j, j + n.len()) =~= s.subrange(j + 1, j + 1 + n.len()));
                assert(occurs_at(s, n, j + 1));
            }
        }
        lemma_replace_all_clean_prefix(s1, n, r, k - 1);
        assert(s.take(k) =~= seq![s[0]] + s1.take(k - 1));
        assert(s.skip(k) =~= s1.skip(k - 1));
        assert(replace_all(s, n, r) == seq![s[0]] + replace_all(s1, n, r));
        assert((seq![s[0]] + s1.take(k - 1)) + replace_all(s1.skip(k - 1), n, r)
            =~= seq![s[0]] + (s1.take(k - 1) + replace_all(s1.skip(k - 1), n, r)));
    }
}

/// Law: replacement output is final. When the stream begins with the needle,
/// the replacement is emitted verbatim and the scan resumes only on the bytes
/// after the needle, so an occurrence of the needle embedded in the
/// replacement is never replaced again.
pub proof fn lemma_replacement_not_rescanned(n: Seq<u8>, r: Seq<u8>, t: Seq<u8>)
    requires
        n.len() > 0,
    ensures
        replace_all(n + t, n, r) == r + replace_all(t, n, r),
{
    assert((n + t).subrange(0, n.len() as int) =~= n);
    assert(occurs_at(n + t, n, 0));
    lemma_replace_all_at_match(n + t, n, r);
    assert((n + t).skip(n.len() as int) =~= t);
}

} // verus!
