use vstd::prelude::*;

use vstd::arithmetic::div_mod::{lemma_div_is_ordered, lemma_fundamental_div_mod, lemma_mod_pos_bound};
use vstd::arithmetic::mul::lemma_mul_inequality;

verus! {

/// Number of whole frames of `frame_size` samples, one every `hop_size`
/// samples starting at sample 0, that fit in `total` samples.
pub open spec fn frame_count(total: nat, frame_size: nat, hop_size: nat) -> nat {
    if total < frame_size {
        0
    } else {
        ((total - frame_size) as int / hop_size as int + 1) as nat
    }
}

/// The frames of a sample stream: frame `k` starts at sample `k * hop_size`
/// and holds the next `frame_size` samples.
pub open spec fn frames_of<T>(samples: Seq<T>, frame_size: nat, hop_size: nat) -> Seq<(nat, Seq<T>)> {
    Seq::new(
        frame_count(samples.len(), frame_size, hop_size),
        |k: int| ((k * hop_size) as nat, samples.subrange(k * hop_size, k * hop_size + frame_size)),
    )
}

/// The frames that become complete when `chunk` arrives after `earlier`.
pub open spec fn new_frames<T>(earlier: Seq<T>, chunk: Seq<T>, frame_size: nat, hop_size: nat) -> Seq<
    (nat, Seq<T>),
> {
    frames_of(earlier + chunk, frame_size, hop_size).subrange(
        frame_count(earlier.len(), frame_size, hop_size) as int,
        frame_count(earlier.len() + chunk.len(), frame_size, hop_size) as int,
    )
}

/// The frames emitted, in order, when the chunks are fed one after another.
pub open spec fn streamed_frames<T>(chunks: Seq<Seq<T>>, frame_size: nat, hop_size: nat) -> Seq<
    (nat, Seq<T>),
>
    decreases chunks.len(),
{
    if chunks.len() == 0 {
        Seq::empty()
    } else {
        streamed_frames(chunks.drop_last(), frame_size, hop_size) + new_frames(
            chunks.drop_last().flatten(),
            chunks.last(),
            frame_size,
            hop_size,
        )
    }
}

/// The count of fitting frames only grows with the number of samples.
pub proof fn lemma_frame_count_monotonic(a: nat, b: nat, frame_size: nat, hop_size: nat)
    requires
        a <= b,
        hop_size > 0,
    ensures
        frame_count(a, frame_size, hop_size) <= frame_count(b, frame_size, hop_size),
{
    if a >= frame_size {
        lemma_div_is_ordered((a - frame_size) as int, (b - frame_size) as int, hop_size as int);
    }
}

/// Frame `k` fits within `total` samples exactly when `k` is below the
/// frame count.
pub proof fn lemma_frame_fits(k: nat, total: nat, frame_size: nat, hop_size: nat)
    requires
        hop_size > 0,
    ensures
        k < frame_count(total, frame_size, hop_size) <==> k * hop_size + frame_size <= total,
{
    if total >= frame_size {
        let d = (total - frame_size) as int;
        let h = hop_size as int;
        let q = d / h;
        lemma_fundamental_div_mod(d, h);
        lemma_mod_pos_bound(d, h);
        vstd::arithmetic::mul::lemma_mul_is_commutative(h, q);
        if k <= q {
            lemma_mul_inequality(k as int, q, h);
        } else {
            lemma_mul_inequality(q + 1, k as int, h);
            vstd::arithmetic::mul::lemma_mul_is_distributive_add_other_way(h, q, 1);
        }
    } else {
        assert(k * hop_size >= 0) by (nonlinear_arith);
    }
}

/// Frames already complete in a prefix of the stream stay the same when
/// more samples follow.
pub proof fn lemma_frames_prefix_stable<T>(a: Seq<T>, b: Seq<T>, frame_size: nat, hop_size: nat)
    requires
        hop_size > 0,
    ensures
        frame_count(a.len(), frame_size, hop_size) <= frame_count(
            (a + b).len(),
            frame_size,
            hop_size,
        ),
        frames_of(a + b, frame_size, hop_size).take(
            frame_count(a.len(), frame_size, hop_size) as int,
        ) == frames_of(a, frame_size, hop_size),
{
    lemma_frame_count_monotonic(a.len(), (a + b).len(), frame_size, hop_size);
    let n = frame_count(a.len(), frame_size, hop_size);
    assert forall|k: int| 0 <= k < n implies frames_of(a + b, frame_size, hop_size)[k] == frames_of(
        a,
        frame_size,
        hop_size,
    )[k] by {
        lemma_frame_fits(k as nat, a.len(), frame_size, hop_size);
        assert(k * hop_size >= 0) by (nonlinear_arith)
            requires
                k >= 0,
        ;
        assert((a + b).subrange(k * hop_size, k * hop_size + frame_size) =~= a.subrange(
            k * hop_size,
            k * hop_size + frame_size,
        ));
    }
    assert(frames_of(a + b, frame_size, hop_size).take(n as int) =~= frames_of(
        a,
        frame_size,
        hop_size,
    ));
}

/// A stream shorter than one frame has no frames.
pub proof fn lemma_short_stream_has_no_frames<T>(samples: Seq<T>, frame_size: nat, hop_size: nat)
    requires
        samples.len() < frame_size,
    ensures
        frames_of(samples, frame_size, hop_size).len() == 0,
{
}

/// Feeding a sample stream in chunks of any sizes emits, in order, exactly
/// the frames of the whole stream analysed in one pass.
pub proof fn lemma_streaming_matches_single_pass<T>(
    chunks: Seq<Seq<T>>,
    frame_size: nat,
    hop_size: nat,
)
    requires
        0 < hop_size,
        0 < frame_size,
    ensures
        streamed_frames(chunks, frame_size, hop_size) == frames_of(
            chunks.flatten(),
            frame_size,
            hop_size,
        ),
    decreases chunks.len(),
{
    if chunks.len() == 0 {
        assert(frames_of(chunks.flatten(), frame_size, hop_size) =~= Seq::empty());
    } else {
        let earlier = chunks.drop_last().flatten();
        let last = chunks.last();
        lemma_streaming_matches_single_pass(chunks.drop_last(), frame_size, hop_size);
        assert(chunks.flatten() =~= earlier + last) by {
            assert(chunks =~= chunks.drop_last().push(last));
            chunks.drop_last().lemma_flatten_push(last);
        }
        lemma_frames_prefix_stable(earlier, last, frame_size, hop_size);
        let whole = frames_of(earlier + last, frame_size, hop_size);
        let n = frame_count(earlier.len(), frame_size, hop_size);
        assert(whole =~= whole.take(n as int) + whole.subrange(n as int, whole.len() as int));
    }
}

/// One complete frame: where it starts in the stream and its samples.
pub struct Frame<T> {
    pub start_sample: usize,
    pub samples: Vec<T>,
}

/// The view of emitted frames as start positions and sample sequences.
pub open spec fn frames_view<T>(frames: Seq<Frame<T>>) -> Seq<(nat, Seq<T>)> {
    frames.map_values(|f: Frame<T>| (f.start_sample as nat, f.samples@))
}

/// Cuts an incoming sample stream into overlapping analysis frames: frame
/// `k` covers samples `k * hop_size .. k * hop_size + frame_size` of the
/// stream, and a frame is emitted as soon as its last sample has arrived.
pub struct FrameBuffer<T> {
    frame_size: usize,
    hop_size: usize,
    pending: Vec<T>,
    pending_start: usize,
    processed_samples: usize,
    history: Ghost<Seq<T>>,
}

impl<T: Copy> FrameBuffer<T> {
    /// Every sample pushed so far, in order.
    pub closed spec fn samples(&self) -> Seq<T> {
        self.history@
    }

    pub closed spec fn spec_frame_size(&self) -> nat {
        self.frame_size as nat
    }

    pub closed spec fn spec_hop_size(&self) -> nat {
        self.hop_size as nat
    }

    /// The buffer holds the not yet consumed tail of the stream, and every
    /// frame that fits in the stream has been emitted.
    pub closed spec fn well_formed(&self) -> bool {
        let total = self.history@.len();
        let emitted = frame_count(total, self.frame_size as nat, self.hop_size as nat);
        &&& 0 < self.hop_size <= self.frame_size
        &&& self.processed_samples == total
        &&& self.pending@.len() <= total
        &&& self.pending@ == self.history@.subrange(
            total - self.pending@.len(),
            total as int,
        )
        &&& self.pending_start <= self.pending@.len()
        &&& total - self.pending@.len() + self.pending_start == emitted * self.hop_size
    }

    /// An empty buffer for frames of `frame_size` samples every `hop_size`
    /// samples.
    pub fn new(frame_size: usize, hop_size: usize) -> (buffer: Self)
        requires
            0 < hop_size <= frame_size,
        ensures
            buffer.well_formed(),
            buffer.samples() == Seq::<T>::empty(),
            buffer.spec_frame_size() == frame_size,
            buffer.spec_hop_size() == hop_size,
    {
        let buffer = FrameBuffer {
            frame_size,
            hop_size,
            pending: Vec::new(),
            pending_start: 0,
            processed_samples: 0,
            history: Ghost(Seq::empty()),
        };
        assert(buffer.pending@ =~= buffer.history@.subrange(0, 0));
        assert(frame_count(0, frame_size as nat, hop_size as nat) == 0);
        assert(0 * hop_size == 0) by (nonlinear_arith);
        buffer
    }

    /// Number of samples pushed so far.
    pub fn processed_samples(&self) -> (n: usize)
        requires
            self.well_formed(),
        ensures
            n == self.samples().len(),
    {
        self.processed_samples
    }

    /// Appends a chunk of samples and returns the frames that it completes,
    /// in stream order.
    pub fn push_chunk(&mut self, samples: &[T]) -> (frames: Vec<Frame<T>>)
        requires
            old(self).well_formed(),
            old(self).samples().len() + samples@.len() <= usize::MAX,
        ensures
            final(self).well_formed(),
            final(self).samples() == old(self).samples() + samples@,
            final(self).spec_frame_size() == old(self).spec_frame_size(),
            final(self).spec_hop_size() == old(self).spec_hop_size(),
            frames_view(frames@) == new_frames(
                old(self).samples(),
                samples@,
                old(self).spec_frame_size(),
                old(self).spec_hop_size(),
            ),
    {
        let ghost earlier = self.history@;
        let ghost frame_size = self.frame_size as nat;
        let ghost hop = self.hop_size as nat;
        let ghost first = frame_count(earlier.len(), frame_size, hop);
        let mut i: usize = 0;
        while i < samples.len()
            invariant
                i <= samples@.len(),
                self.pending@ == old(self).pending@ + samples@.take(i as int),
                self.frame_size == old(self).frame_size,
                self.hop_size == old(self).hop_size,
                self.pending_start == old(self).pending_start,
                self.processed_samples == old(self).processed_samples,
                self.history == old(self).history,
            decreases samples@.len() - i,
        {
            self.pending.push(samples[i]);
            i += 1;
            assert(self.pending@ =~= old(self).pending@ + samples@.take(i as int));
        }
        assert(samples@.take(samples@.len() as int) =~= samples@);
        self.processed_samples = self.processed_samples + samples.len();
        self.history = Ghost(earlier + samples@);
        let ghost total = earlier.len() + samples@.len();
        let ghost all = earlier + samples@;
        assert(self.pending@ =~= all.subrange(total - self.pending@.len(), total as int));

        let mut frames: Vec<Frame<T>> = Vec::new();
        let ghost mut emitted: nat = first;
        proof {
            lemma_frame_count_monotonic(earlier.len(), total, frame_size, hop);
            if first > 0 {
                lemma_frame_fits((first - 1) as nat, earlier.len(), frame_size, hop);
            }
            assert(frames_view(frames@) =~= frames_of(all, frame_size, hop).subrange(
                first as int,
                emitted as int,
            ));
        }
        while self.pending.len() - self.pending_start >= self.frame_size
            invariant
                0 < self.hop_size <= self.frame_size,
                self.frame_size == frame_size,
                self.hop_size == hop,
                self.history@ == all,
                self.processed_samples == total,
                total == all.len(),
                self.pending@.len() <= total,
                self.pending@ == all.subrange(total - self.pending@.len(), total as int),
                self.pending_start <= self.pending@.len(),
                total - self.pending@.len() + self.pending_start == emitted * hop,
                first <= emitted,
                emitted == 0 || (emitted - 1) * hop + frame_size <= total,
                frames_view(frames@) == frames_of(all, frame_size, hop).subrange(
                    first as int,
                    emitted as int,
                ),
                emitted <= frame_count(total, frame_size, hop),
            decreases self.pending@.len() - self.pending_start,
        {
            let start = self.processed_samples - self.pending.len() + self.pending_start;
            let mut frame: Vec<T> = Vec::new();
            let mut j: usize = 0;
            while j < self.frame_size
                invariant
                    j <= self.frame_size,
                    self.pending_start + self.frame_size <= self.pending.len(),
                    frame@ == self.pending@.subrange(
                        self.pending_start as int,
                        self.pending_start + j,
                    ),
                decreases self.frame_size - j,
            {
                frame.push(self.pending[self.pending_start + j]);
                j += 1;
                assert(frame@ =~= self.pending@.subrange(
                    self.pending_start as int,
                    self.pending_start + j,
                ));
            }
            proof {
                lemma_frame_fits(emitted, total, frame_size, hop);
                assert(frame@ =~= all.subrange((emitted * hop) as int, (emitted * hop + frame_size) as int));
            }
            let ghost prev = frames@;
            let ghost frame_view = frame@;
            frames.push(Frame { start_sample: start, samples: frame });
            assert(frames@ =~= prev.push(Frame { start_sample: start, samples: frame }));
            self.pending_start = self.pending_start + self.hop_size;
            proof {
                vstd::arithmetic::mul::lemma_mul_is_distributive_add_other_way(
                    hop as int,
                    emitted as int,
                    1,
                );
                let old_frames = frames_of(all, frame_size, hop).subrange(
                    first as int,
                    emitted as int,
                );
                assert(frames_view(frames@) =~= frames_view(prev).push((start as nat, frame_view)));
                assert(frames_of(all, frame_size, hop)[emitted as int] == (
                    (emitted * hop) as nat,
                    frame_view,
                ));
                emitted = emitted + 1;
                assert(frames_view(frames@) =~= frames_of(all, frame_size, hop).subrange(
                    first as int,
                    emitted as int,
                ));
                lemma_frame_fits(emitted, total, frame_size, hop);
            }
        }
        proof {
            lemma_frame_fits(emitted, total, frame_size, hop);
            if emitted > 0 {
                lemma_frame_fits((emitted - 1) as nat, total, frame_size, hop);
            }
            assert(emitted == frame_count(total, frame_size, hop));
            lemma_frames_prefix_stable(earlier, samples@, frame_size, hop);
        }
        if self.pending_start > 0 {
            let tail = self.pending.split_off(self.pending_start);
            self.pending = tail;
            self.pending_start = 0;
            assert(self.pending@ =~= all.subrange(total - self.pending@.len(), total as int));
        }
        frames
    }
}

} // verus!
