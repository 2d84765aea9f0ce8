//! The frame collector: re-chunks the variable-length sample buffers an
//! audio callback delivers into frames of a fixed configured length. No
//! sample is ever dropped, duplicated or reordered; a frame is handed out as
//! soon as enough samples have accumulated. The collector is generic in the
//! sample type, so the ghost bookkeeping never touches the sample values.

use vstd::prelude::*;

verus! {

/// Accumulates samples until a full frame of `frame_size` is available.
///
/// At most one frame is emitted per call: the collector assumes each
/// incoming chunk is shorter than the frame size (true for realistic
/// callback buffer sizes). When a longer chunk arrives the surplus simply
/// seeds the next accumulation buffer, which may then hold a frame's worth
/// or more — a known limitation kept deliberately; do not add
/// multi-frame-per-chunk emission without designing for it.
pub struct FrameCollector<T> {
    frame_size: usize,
    buf: Vec<T>,
    emitted: Ghost<Seq<Seq<T>>>,
}

impl<T: Copy> FrameCollector<T> {
    /// The configured frame length, in samples.
    pub closed spec fn size(&self) -> int {
        self.frame_size as int
    }

    /// Every frame handed out so far, oldest first.
    pub closed spec fn emitted(&self) -> Seq<Seq<T>> {
        self.emitted@
    }

    /// The samples accumulated towards the next frame.
    pub closed spec fn pending(&self) -> Seq<T> {
        self.buf@
    }

    /// Every sample ever accepted, in arrival order: the emitted frames in
    /// order, followed by the pending buffer.
    pub open spec fn received(&self) -> Seq<T> {
        self.emitted().flatten() + self.pending()
    }

    /// A valid collector: a positive frame size, and every emitted frame of
    /// exactly that length.
    pub open spec fn wf(&self) -> bool {
        &&& self.size() >= 1
        &&& forall|i: int| 0 <= i < self.emitted().len() ==> (#[trigger] self.emitted()[i]).len()
            == self.size()
    }

    pub fn new(frame_size: usize) -> (collector: FrameCollector<T>)
        requires
            frame_size >= 1,
        ensures
            collector.wf(),
            collector.size() == frame_size,
            collector.emitted() == Seq::<Seq<T>>::empty(),
            collector.pending() == Seq::<T>::empty(),
    {
        let collector = FrameCollector { frame_size, buf: Vec::new(), emitted: Ghost(Seq::empty()) };
        proof {
            assert(collector.received() =~= Seq::<T>::empty());
        }
        collector
    }

    /// How many samples are waiting for the next frame.
    pub fn pending_len(&self) -> (len: usize)
        ensures
            len == self.pending().len(),
    {
        self.buf.len()
    }

    /// Accepts one callback buffer. If it completes a frame, that frame —
    /// the pending samples followed by just enough of the chunk — is
    /// returned and the surplus seeds the next buffer; otherwise the whole
    /// chunk is appended and nothing is returned. Either way every sample
    /// is kept, in arrival order.
    #[verifier::loop_isolation(false)]
    #[verifier::rlimit(30)]
    pub fn add_samples(&mut self, chunk: &[T]) -> (frame: Option<Vec<T>>)
        requires
            old(self).wf(),
            old(self).pending().len() + chunk@.len() <= usize::MAX,
        ensures
            final(self).wf(),
            final(self).size() == old(self).size(),
            final(self).received() == old(self).received() + chunk@,
            ({
                let combined = old(self).pending() + chunk@;
                if combined.len() >= old(self).size() {
                    &&& frame matches Some(f)
                    &&& f@ == combined.take(old(self).size())
                    &&& final(self).pending() == combined.skip(old(self).size())
                    &&& final(self).emitted() == old(self).emitted().push(f@)
                } else {
                    &&& frame is None
                    &&& final(self).pending() == combined
                    &&& final(self).emitted() == old(self).emitted()
                }
            }),
            old(self).pending().len() < old(self).size() && chunk@.len() <= old(self).size()
                ==> final(self).pending().len() < final(self).size(),
    {
        let ghost combined = self.buf@ + chunk@;
        if self.buf.len() + chunk.len() < self.frame_size {
            let mut i: usize = 0;
            while i < chunk.len()
                invariant
                    i <= chunk@.len(),
                    self.buf@ == old(self).pending() + chunk@.take(i as int),
                    self.frame_size == old(self).frame_size,
                    self.emitted@ == old(self).emitted(),
                decreases chunk@.len() - i,
            {
                self.buf.push(chunk[i]);
                proof {
                    assert(self.buf@ =~= old(self).pending() + chunk@.take(i + 1));
                }
                i += 1;
            }
            proof {
                assert(self.buf@ =~= combined);
                assert(self.received() =~= old(self).received() + chunk@);
            }
            None
        } else {
            let take_from_buf = if self.buf.len() < self.frame_size {
                self.buf.len()
            } else {
                self.frame_size
            };
            let need = self.frame_size - take_from_buf;
            let mut frame: Vec<T> = Vec::new();
            let mut i: usize = 0;
            while i < take_from_buf
                invariant
                    i <= take_from_buf,
                    frame@ == self.buf@.take(i as int),
                decreases take_from_buf - i,
            {
                frame.push(self.buf[i]);
                proof {
                    assert(frame@ =~= self.buf@.take(i + 1));
                }
                i += 1;
            }
            let mut j: usize = 0;
            while j < need
                invariant
                    j <= need,
                    frame@ == self.buf@.take(take_from_buf as int) + chunk@.take(j as int),
                decreases need - j,
            {
                frame.push(chunk[j]);
                proof {
                    assert(frame@ =~= self.buf@.take(take_from_buf as int) + chunk@.take(j + 1));
                }
                j += 1;
            }
            proof {
                assert(frame@ =~= combined.take(self.frame_size as int));
            }
            let mut rest: Vec<T> = Vec::new();
            let mut r: usize = take_from_buf;
            while r < self.buf.len()
                invariant
                    take_from_buf <= r <= self.buf@.len(),
                    rest@ == self.buf@.subrange(take_from_buf as int, r as int),
                decreases self.buf@.len() - r,
            {
                rest.push(self.buf[r]);
                proof {
                    assert(rest@ =~= self.buf@.subrange(take_from_buf as int, r + 1));
                }
                r += 1;
            }
            let mut s: usize = need;
            while s < chunk.len()
                invariant
                    need <= s <= chunk@.len(),
                    rest@ == self.buf@.subrange(take_from_buf as int, self.buf@.len() as int)
                        + chunk@.subrange(need as int, s as int),
                decreases chunk@.len() - s,
            {
                rest.push(chunk[s]);
                proof {
                    assert(rest@ =~= self.buf@.subrange(take_from_buf as int, self.buf@.len() as int)
                        + chunk@.subrange(need as int, s + 1));
                }
                s += 1;
            }
            proof {
                assert(rest@ =~= combined.skip(self.frame_size as int));
            }
            self.buf = rest;
            proof {
                self.emitted@.lemma_flatten_push(frame@);
            }
            self.emitted = Ghost(self.emitted@.push(frame@));
            proof {
                assert(self.received() =~= old(self).received() + chunk@);
            }
            Some(frame)
        }
    }
}

/// Concatenating frames of one uniform length multiplies: the flattened
/// sequence is exactly `count * size` samples long.
proof fn lemma_flatten_len_uniform<T>(frames: Seq<Seq<T>>, size: int)
    requires
        size >= 0,
        forall|i: int| 0 <= i < frames.len() ==> (#[trigger] frames[i]).len() == size,
    ensures
        frames.flatten().len() == frames.len() * size,
    decreases frames.len(),
{
    if frames.len() == 0 {
        assert(frames.len() * size == 0) by (nonlinear_arith)
            requires frames.len() == 0;
    } else {
        let tail = frames.drop_first();
        assert forall|i: int| 0 <= i < tail.len() implies (#[trigger] tail[i]).len() == size by {
            assert(tail[i] == frames[i + 1]);
        }
        lemma_flatten_len_uniform(tail, size);
        assert(frames.flatten() == frames.first() + tail.flatten());
        assert(size + (frames.len() - 1) * size == frames.len() * size) by (nonlinear_arith)
            requires frames.len() >= 1;
    }
}

/// Exactly one frame per frame's worth of samples: whenever the samples
/// received so far amount to a whole number of frames (and the pending
/// buffer holds less than one frame, as every run of realistic chunks
/// keeps it), the buffer is empty and the collector has emitted exactly
/// `received / size` frames, each of the configured length, whose
/// concatenation is the received samples in original order — no sample
/// lost, duplicated or reordered.
pub proof fn lemma_exact_frames<T: Copy>(collector: FrameCollector<T>)
    requires
        collector.wf(),
        collector.pending().len() < collector.size(),
        collector.received().len() as int % collector.size() == 0,
    ensures
        collector.pending().len() == 0,
        collector.emitted().len() == collector.received().len() as int / collector.size(),
        collector.emitted().flatten() == collector.received(),
        forall|i: int|
            0 <= i < collector.emitted().len() ==> (#[trigger] collector.emitted()[i]).len()
                == collector.size(),
{
    let size = collector.size();
    let count = collector.emitted().len() as int;
    let p = collector.pending().len() as int;
    lemma_flatten_len_uniform(collector.emitted(), size);
    assert(collector.received().len() == count * size + p);
    vstd::arithmetic::div_mod::lemma_mod_multiples_vanish(count, p, size);
    vstd::arithmetic::div_mod::lemma_small_mod(p as nat, size as nat);
    assert(p == 0);
    vstd::arithmetic::div_mod::lemma_div_multiples_vanish(count, size);
    assert((size * count) / size == count);
    assert(size * count == count * size) by (nonlinear_arith);
    assert(collector.emitted().flatten() =~= collector.received());
}

} // verus!
