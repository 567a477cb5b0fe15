//! The pull-driven rewrite engine. It owns a small buffer of undecided
//! chunks, consults the match decision on every poll, and either emits an
//! output chunk or asks the caller to push the next upstream chunk. The
//! caller runs the outer loop: perform the upstream read, hand the chunk in
//! with `push_chunk`, and call `finish` once when upstream ends. On an
//! upstream error the caller simply drops the engine; buffered chunks are
//! released and nothing more is emitted.

use vstd::prelude::*;
use crate::chunks::{chunk_views, chunks_concat};
use crate::chunks::{lemma_concat_drop_first, lemma_concat_push};
use crate::matcher::{Action, non_matching_prefix_length};
use crate::matcher::{lemma_decision_read, lemma_decision_replace, lemma_decision_return};
use crate::matcher::lemma_prefix_decision_read;
use crate::replace_spec::{is_prefix_of, occurs_at, replace_all};
use crate::replace_spec::{lemma_replace_all_at_match, lemma_replace_all_clean_prefix,
    lemma_replace_all_short};

verus! {

/// What one poll of the engine produced.
pub enum PollResult {
    /// The next output chunk. The concatenation of all emitted chunks is a
    /// final, stable prefix of the rewritten stream.
    Emit(Vec<u8>),
    /// The buffered bytes are a strict, unresolved prefix of the needle; the
    /// caller must push the next upstream chunk (or finish the stream).
    NeedInput,
}

/// A verified copy of a byte vector; chunks are modelled as owned byte
/// vectors, so sharing a chunk means copying its bytes.
pub fn copy_bytes(src: &Vec<u8>) -> (r: Vec<u8>)
    ensures
        r@ == src@,
{
    let mut r: Vec<u8> = Vec::new();
    let mut i: usize = 0;
    while i < src.len()
        invariant
            i <= src@.len(),
            r@ == src@.take(i as int),
        decreases src@.len() - i,
    {
        r.push(src[i]);
        i = i + 1;
        proof {
            assert(src@.take(i as int) =~= src@.take(i - 1).push(src@[i - 1]));
        }
    }
    proof {
        assert(src@.take(src@.len() as int) =~= src@);
    }
    r
}

/// The streaming literal search-and-replace filter. Every leftmost,
/// non-overlapping occurrence of the needle in the pushed byte stream is
/// replaced by the replacement; all other bytes pass through unchanged and
/// in order, whatever the chunk boundaries.
pub struct ReplacingBufStream {
    to_be_replaced: Vec<u8>,
    replacement: Vec<u8>,
    bufs: Vec<Vec<u8>>,
    consumed: Ghost<Seq<u8>>,
    emitted: Ghost<Seq<u8>>,
}

impl ReplacingBufStream {
    /// The needle: the byte sequence to be replaced.
    pub closed spec fn needle(self) -> Seq<u8> {
        self.to_be_replaced@
    }

    /// The replacement bytes.
    pub closed spec fn replacement_view(self) -> Seq<u8> {
        self.replacement@
    }

    /// All input bytes pushed so far.
    pub closed spec fn consumed(self) -> Seq<u8> {
        self.consumed@
    }

    /// All output bytes emitted so far.
    pub closed spec fn emitted(self) -> Seq<u8> {
        self.emitted@
    }

    /// The bytes of the still-undecided buffered chunks.
    pub closed spec fn buffered(self) -> Seq<u8> {
        chunks_concat(chunk_views(self.bufs@))
    }

    /// How many undecided chunks are buffered.
    pub closed spec fn chunk_count(self) -> nat {
        self.bufs@.len()
    }

    /// Well-formed: the needle is non-empty, and everything already emitted
    /// is final — however the stream continues, rewriting the whole consumed
    /// stream plus the continuation equals the emitted bytes followed by the
    /// rewrite of the buffered bytes plus the continuation.
    pub closed spec fn wf(self) -> bool {
        &&& self.needle().len() > 0
        &&& forall|t: Seq<u8>|
            #[trigger] replace_all(self.consumed() + t, self.needle(), self.replacement_view())
                == self.emitted() + replace_all(
                self.buffered() + t,
                self.needle(),
                self.replacement_view(),
            )
    }

    /// Create a filter for the given needle and replacement. The needle must
    /// not be empty; that is a construction-time contract, never rechecked.
    /// Unlike an adapter holding its upstream, the engine takes no source:
    /// the caller pushes chunks whenever a poll asks for input.
    pub fn new(to_be_replaced: Vec<u8>, replacement: Vec<u8>) -> (s: Self)
        requires
            to_be_replaced@.len() > 0,
        ensures
            s.wf(),
            s.needle() == to_be_replaced@,
            s.replacement_view() == replacement@,
            s.consumed() == Seq::<u8>::empty(),
            s.emitted() == Seq::<u8>::empty(),
            s.buffered() == Seq::<u8>::empty(),
            s.chunk_count() == 0,
    {
        let s = ReplacingBufStream {
            to_be_replaced,
            replacement,
            bufs: Vec::new(),
            consumed: Ghost(Seq::empty()),
            emitted: Ghost(Seq::empty()),
        };
        proof {
            assert(chunk_views(s.bufs@) =~= Seq::<Seq<u8>>::empty());
            assert(s.buffered() =~= Seq::<u8>::empty());
            assert forall|t: Seq<u8>|
                #[trigger] replace_all(s.consumed() + t, s.needle(), s.replacement_view())
                    == s.emitted() + replace_all(
                    s.buffered() + t,
                    s.needle(),
                    s.replacement_view(),
                ) by {
                assert(s.consumed() + t =~= t);
                assert(s.buffered() + t =~= t);
                assert(s.emitted() + replace_all(t, s.needle(), s.replacement_view())
                    =~= replace_all(t, s.needle(), s.replacement_view()));
            }
        }
        s
    }

    /// Hand the engine the next chunk read from upstream.
    pub fn push_chunk(&mut self, chunk: Vec<u8>)
        requires
            old(self).wf(),
        ensures
            final(self).wf(),
            final(self).needle() == old(self).needle(),
            final(self).replacement_view() == old(self).replacement_view(),
            final(self).emitted() == old(self).emitted(),
            final(self).consumed() == old(self).consumed() + chunk@,
            final(self).buffered() == old(self).buffered() + chunk@,
            final(self).chunk_count() == old(self).chunk_count() + 1,
    {
        let ghost c = chunk@;
        let ghost n = old(self).needle();
        let ghost r = old(self).replacement_view();
        self.bufs.push(chunk);
        self.consumed = Ghost(self.consumed@ + c);
        proof {
            assert(chunk_views(self.bufs@) =~= chunk_views(old(self).bufs@).push(c));
            lemma_concat_push(chunk_views(old(self).bufs@), c);
            assert forall|t: Seq<u8>|
                #[trigger] replace_all(self.consumed() + t, self.needle(),
                    self.replacement_view())
                    == self.emitted() + replace_all(
                    self.buffered() + t,
                    self.needle(),
                    self.replacement_view(),
                ) by {
                assert(self.consumed() + t =~= old(self).consumed() + (c + t));
                assert(self.buffered() + t =~= old(self).buffered() + (c + t));
                assert(replace_all(old(self).consumed() + (c + t), n, r)
                    == old(self).emitted() + replace_all(old(self).buffered() + (c + t), n, r));
            }
        }
    }

    /// Take the next decision. Either one output chunk is emitted — and the
    /// bytes emitted so far stay a final prefix of the rewritten stream — or
    /// the buffered bytes are a strict prefix of the needle and input is
    /// needed. This is the only point at which buffered bytes shrink, so a
    /// poll that emits makes the lexicographic measure (buffered bytes,
    /// buffered chunks) strictly smaller.
    pub fn poll(&mut self) -> (r: PollResult)
        requires
            old(self).wf(),
        ensures
            final(self).wf(),
            final(self).needle() == old(self).needle(),
            final(self).replacement_view() == old(self).replacement_view(),
            final(self).consumed() == old(self).consumed(),
            (r matches PollResult::NeedInput <==> (old(self).buffered().len()
                < old(self).needle().len() && is_prefix_of(
                old(self).buffered(),
                old(self).needle(),
            ))),
            (r matches PollResult::NeedInput ==> *final(self) == *old(self)),
            (r matches PollResult::Emit(c) ==> {
                &&& final(self).emitted() == old(self).emitted() + c@
                &&& (final(self).buffered().len() < old(self).buffered().len()
                    || (final(self).buffered().len() == old(self).buffered().len()
                    && final(self).chunk_count() < old(self).chunk_count()))
            }),
    {
        let ghost n = old(self).needle();
        let ghost rep = old(self).replacement_view();
        let ghost cat0 = old(self).buffered();
        let ghost views0 = chunk_views(old(self).bufs@);
        let action = non_matching_prefix_length(&self.bufs, &self.to_be_replaced);
        match action {
            Action::Read => {
                proof {
                    lemma_decision_read(views0, n);
                }
                PollResult::NeedInput
            },
            Action::Return(size) => {
                proof {
                    assert(views0.len() > 0);
                    if old(self).buffered().len() < n.len() && is_prefix_of(
                        old(self).buffered(),
                        n,
                    ) {
                        lemma_prefix_decision_read(views0, n);
                    }
                }
                let mut first = self.bufs.remove(0);
                let first_len = first.len();
                proof {
                    assert(first_len == first@.len());
                    lemma_decision_return(views0, n, size, Seq::empty());
                    assert(views0[0] == first@);
                    lemma_concat_drop_first(views0);
                    assert(chunk_views(self.bufs@) =~= views0.drop_first());
                }
                let out: Vec<u8>;
                if first.len() == size {
                    out = first;
                    proof {
                        assert(self.buffered() == cat0.skip(size as int));
                    }
                } else {
                    let tail = first.split_off(size);
                    self.bufs.insert(0, tail);
                    out = first;
                    proof {
                        assert(chunk_views(self.bufs@) =~= seq![views0[0].skip(size as int)]
                            + views0.drop_first());
                        crate::chunks::lemma_concat_append(
                            seq![views0[0].skip(size as int)],
                            views0.drop_first(),
                        );
                        assert(seq![views0[0].skip(size as int)].drop_first()
                            =~= Seq::<Seq<u8>>::empty());
                        assert(chunks_concat(seq![views0[0].skip(size as int)])
                            == views0[0].skip(size as int)
                            + chunks_concat(Seq::<Seq<u8>>::empty()));
                        assert(self.buffered() =~= views0[0].skip(size as int)
                            + chunks_concat(views0.drop_first()));
                        assert(cat0 == views0[0] + chunks_concat(views0.drop_first()));
                        assert(self.buffered() =~= cat0.skip(size as int));
                    }
                }
                proof {
                    assert(cat0 == views0[0] + chunks_concat(views0.drop_first()));
                    assert(out@ =~= cat0.take(size as int));
                }
                self.emitted = Ghost(self.emitted@ + out@);
                proof {
                    assert forall|t: Seq<u8>|
                        #[trigger] replace_all(self.consumed() + t, self.needle(),
                            self.replacement_view())
                            == self.emitted() + replace_all(
                            self.buffered() + t,
                            self.needle(),
                            self.replacement_view(),
                        ) by {
                        lemma_decision_return(views0, n, size, t);
                        assert(replace_all(old(self).consumed() + t, n, rep)
                            == old(self).emitted() + replace_all(cat0 + t, n, rep));
                        lemma_replace_all_clean_prefix(cat0 + t, n, rep, size as int);
                        assert((cat0 + t).take(size as int) =~= cat0.take(size as int));
                        assert((cat0 + t).skip(size as int) =~= cat0.skip(size as int) + t);
                        assert(old(self).emitted() + ((cat0 + t).take(size as int)
                            + replace_all(cat0.skip(size as int) + t, n, rep))
                            =~= self.emitted() + replace_all(cat0.skip(size as int) + t, n, rep));
                    }
                    assert(self.buffered().len() < cat0.len() || (self.buffered().len()
                        == cat0.len() && self.chunk_count() < old(self).chunk_count()));
                }
                PollResult::Emit(out)
            },
            Action::Replace => {
                proof {
                    lemma_decision_replace(views0, n);
                    if old(self).buffered().len() < n.len() && is_prefix_of(
                        old(self).buffered(),
                        n,
                    ) {
                        lemma_prefix_decision_read(views0, n);
                    }
                    assert(cat0.skip(0) =~= cat0);
                }
                let needle_len = self.to_be_replaced.len();
                let mut need: usize = needle_len;
                while need > 0
                    invariant
                        need <= needle_len,
                        needle_len == n.len(),
                        self.to_be_replaced@ == n,
                        self.replacement@ == rep,
                        self.consumed@ == old(self).consumed@,
                        self.emitted@ == old(self).emitted@,
                        chunks_concat(chunk_views(self.bufs@)) == cat0.skip(
                            needle_len - need,
                        ),
                        cat0.len() >= needle_len,
                    decreases need, self.bufs@.len(),
                {
                    proof {
                        if self.bufs@.len() == 0 {
                            assert(chunk_views(self.bufs@) =~= Seq::<Seq<u8>>::empty());
                            assert(chunks_concat(chunk_views(self.bufs@)).len() == 0);
                            assert(cat0.skip(needle_len - need).len() >= need);
                            assert(false);
                        }
                    }
                    let ghost views_pre = chunk_views(self.bufs@);
                    let ghost cc_pre = chunks_concat(views_pre);
                    let buf2 = self.bufs.remove(0);
                    proof {
                        assert(views_pre[0] == buf2@);
                        lemma_concat_drop_first(views_pre);
                        assert(chunk_views(self.bufs@) =~= views_pre.drop_first());
                        assert(cc_pre == buf2@ + chunks_concat(views_pre.drop_first()));
                    }
                    if buf2.len() > need {
                        let mut b = buf2;
                        let tail = b.split_off(need);
                        self.bufs.insert(0, tail);
                        proof {
                            let ghost views_mid = views_pre.drop_first();
                            assert(chunk_views(self.bufs@) =~= seq![views_pre[0].skip(
                                need as int,
                            )] + views_mid);
                            crate::chunks::lemma_concat_append(
                                seq![views_pre[0].skip(need as int)],
                                views_mid,
                            );
                            assert(seq![views_pre[0].skip(need as int)].drop_first()
                                =~= Seq::<Seq<u8>>::empty());
                            assert(chunks_concat(seq![views_pre[0].skip(need as int)])
                                == views_pre[0].skip(need as int)
                                + chunks_concat(Seq::<Seq<u8>>::empty()));
                            assert(chunks_concat(chunk_views(self.bufs@))
                                =~= views_pre[0].skip(need as int) + chunks_concat(views_mid));
                            assert(chunks_concat(chunk_views(self.bufs@))
                                =~= cc_pre.skip(need as int));
                            assert(cc_pre.skip(need as int) =~= cat0.skip(
                                needle_len as int,
                            ));
                        }
                        need = 0;
                    } else {
                        proof {
                            assert(chunks_concat(chunk_views(self.bufs@))
                                == cc_pre.skip(buf2@.len() as int));
                            assert(cc_pre.skip(buf2@.len() as int) =~= cat0.skip(
                                needle_len - (need - buf2@.len())));
                        }
                        need = need - buf2.len();
                    }
                }
                let out = copy_bytes(&self.replacement);
                self.emitted = Ghost(self.emitted@ + rep);
                proof {
                    assert(self.buffered() == cat0.skip(n.len() as int));
                    assert forall|t: Seq<u8>|
                        #[trigger] replace_all(self.consumed() + t, self.needle(),
                            self.replacement_view())
                            == self.emitted() + replace_all(
                            self.buffered() + t,
                            self.needle(),
                            self.replacement_view(),
                        ) by {
                        assert(replace_all(old(self).consumed() + t, n, rep)
                            == old(self).emitted() + replace_all(cat0 + t, n, rep));
                        assert((cat0 + t).subrange(0, n.len() as int) =~= cat0.subrange(
                            0,
                            n.len() as int,
                        ));
                        assert(occurs_at(cat0 + t, n, 0));
                        lemma_replace_all_at_match(cat0 + t, n, rep);
                        assert((cat0 + t).skip(n.len() as int) =~= cat0.skip(n.len() as int)
                            + t);
                    }
                    assert(self.buffered().len() < cat0.len());
                }
                PollResult::Emit(out)
            },
        }
    }

    /// Upstream has ended. Resolve every decision that no longer needs
    /// input, then flush the remaining buffered bytes — at most a strict,
    /// unresolved prefix of the needle — unchanged as one final chunk. The
    /// engine is consumed: after the flush it is exhausted, and the emitted
    /// bytes plus this final chunk are exactly the rewrite of the whole
    /// consumed stream.
    pub fn finish(self) -> (out: Vec<u8>)
        requires
            self.wf(),
        ensures
            self.emitted() + out@ == replace_all(
                self.consumed(),
                self.needle(),
                self.replacement_view(),
            ),
            (self.buffered().len() < self.needle().len() && is_prefix_of(
                self.buffered(),
                self.needle(),
            )) ==> out@ == self.buffered(),
    {
        let ghost n = self.needle();
        let ghost rep = self.replacement_view();
        let mut s = self;
        let mut out: Vec<u8> = Vec::new();
        let mut more = true;
        while more
            invariant
                s.wf(),
                s.needle() == n,
                s.replacement_view() == rep,
                s.consumed() == self.consumed(),
                s.emitted() == self.emitted() + out@,
                !more ==> (s.buffered().len() < n.len() && is_prefix_of(s.buffered(), n)),
                (self.buffered().len() < n.len() && is_prefix_of(self.buffered(), n)) ==> (out@
                    == Seq::<u8>::empty() && s == self),
            decreases (if more { 1int } else { 0int }), s.buffered().len(), s.chunk_count(),
        {
            let r = s.poll();
            match r {
                PollResult::Emit(mut c) => {
                    out.append(&mut c);
                },
                PollResult::NeedInput => {
                    more = false;
                },
            }
        }
        let ghost emitted_break = s.emitted();
        let ghost buffered_break = s.buffered();
        let ghost out_break = out@;
        proof {
            assert(replace_all(s.consumed() + Seq::<u8>::empty(), n, rep) == s.emitted()
                + replace_all(s.buffered() + Seq::<u8>::empty(), n, rep));
            assert(s.consumed() + Seq::<u8>::empty() =~= self.consumed());
            assert(s.buffered() + Seq::<u8>::empty() =~= s.buffered());
            lemma_replace_all_short(buffered_break, n, rep);
            assert(replace_all(self.consumed(), n, rep) == emitted_break + buffered_break);
        }
        while s.bufs.len() > 0
            invariant
                out@ + chunks_concat(chunk_views(s.bufs@)) == out_break + buffered_break,
            decreases s.bufs@.len(),
        {
            let ghost views_pre = chunk_views(s.bufs@);
            let mut first = s.bufs.remove(0);
            proof {
                assert(views_pre[0] == first@);
                lemma_concat_drop_first(views_pre);
                assert(chunk_views(s.bufs@) =~= views_pre.drop_first());
                assert(chunks_concat(views_pre) == first@ + chunks_concat(
                    views_pre.drop_first(),
                ));
                assert((out@ + first@) + chunks_concat(views_pre.drop_first()) =~= out@
                    + chunks_concat(views_pre));
            }
            out.append(&mut first);
        }
        proof {
            assert(chunk_views(s.bufs@) =~= Seq::<Seq<u8>>::empty());
            assert(chunks_concat(chunk_views(s.bufs@)) =~= Seq::<u8>::empty());
            assert(out@ + Seq::<u8>::empty() =~= out@);
            assert(out@ == out_break + buffered_break);
            assert(self.emitted() + out@ =~= (self.emitted() + out_break) + buffered_break);
        }
        out
    }
}

/// Run the whole filter over a fully known chunked input: push every chunk
/// in order, draining the engine between pushes exactly as a pull-driven
/// consumer would, and flush at end of input. The concatenated output equals
/// the single-pass literal replacement of every leftmost, non-overlapping
/// occurrence of the needle — for every input and every chunking.
pub fn replace_stream(chunks: &Vec<Vec<u8>>, needle: &Vec<u8>, replacement: &Vec<u8>) -> (out:
    Vec<u8>)
    requires
        needle@.len() > 0,
    ensures
        out@ == replace_all(chunks_concat(chunk_views(chunks@)), needle@, replacement@),
{
    let mut eng = ReplacingBufStream::new(copy_bytes(needle), copy_bytes(replacement));
    let mut out: Vec<u8> = Vec::new();
    let mut i: usize = 0;
    proof {
        assert(chunks@.take(0) =~= Seq::<Vec<u8>>::empty());
        assert(chunk_views(chunks@.take(0)) =~= Seq::<Seq<u8>>::empty());
        assert(chunks_concat(chunk_views(chunks@.take(0))) =~= Seq::<u8>::empty());
    }
    while i < chunks.len()
        invariant
            i <= chunks@.len(),
            eng.wf(),
            eng.needle() == needle@,
            eng.replacement_view() == replacement@,
            eng.consumed() == chunks_concat(chunk_views(chunks@.take(i as int))),
            eng.emitted() == out@,
        decreases chunks@.len() - i,
    {
        eng.push_chunk(copy_bytes(&chunks[i]));
        proof {
            assert(chunk_views(chunks@.take(i + 1)) =~= chunk_views(chunks@.take(i as int)).push(
                chunks@[i as int]@,
            ));
            lemma_concat_push(chunk_views(chunks@.take(i as int)), chunks@[i as int]@);
        }
        i = i + 1;
        let mut more = true;
        while more
            invariant
                eng.wf(),
                eng.needle() == needle@,
                eng.replacement_view() == replacement@,
                eng.consumed() == chunks_concat(chunk_views(chunks@.take(i as int))),
                eng.emitted() == out@,
            decreases (if more { 1int } else { 0int }), eng.buffered().len(), eng.chunk_count(),
        {
            match eng.poll() {
                PollResult::Emit(mut c) => {
                    out.append(&mut c);
                },
                PollResult::NeedInput => {
                    more = false;
                },
            }
        }
    }
    proof {
        assert(chunks@.take(chunks@.len() as int) =~= chunks@);
    }
    let mut tail = eng.finish();
    out.append(&mut tail);
    out
}

} // verus!
