//! The stream source: from an input callback to a ring.

use crate::resample::{
    frames_used, fresh_frames, interpolations, lemma_frames_used_push, lemma_run_calls_push,
    lemma_run_calls_stable, lemma_slide_twice, run_calls, slide, slide_in, slide_in_one, Recorded,
    Resampler, ResamplerCall, FRAME_LOOKBACK, ROLLING_AVG_LENGTH,
};
use crate::ring::{offers_of, slots_within, RingWriter};
use crate::stream::{
    alignment_gap, filled, frame_budget, lemma_aligned_plus, lemma_gap, lemma_lookback_frames,
    lemma_minus_frames, lemma_offers_join, lemma_offers_len, lemma_offers_push, lemma_prefix_from,
    lemma_prefix_subrange,
    lemma_whole_frames, offers_after, padded, tallied, CompensationStrategy, LOW_WATER,
};
use std::collections::VecDeque;
use vstd::arithmetic::div_mod::{lemma_mod_self_0, lemma_small_mod};
use vstd::prelude::*;

verus! {

/// Moves `count` samples from the front of `queue` to
/// `dest[start..start + count]`.
fn dequeue_into<T: Copy>(queue: &mut VecDeque<T>, dest: &mut Vec<T>, start: usize, count: usize)
    requires
        count <= old(queue)@.len(),
        start + count <= old(dest)@.len(),
    ensures
        final(queue)@ == old(queue)@.skip(count as int),
        final(dest)@ == old(dest)@.take(start as int) + old(queue)@.take(count as int) + old(
            dest)@.skip(start + count),
{
    let length: usize = dest.len();
    let mut i: usize = 0;
    while i < count
        invariant
            i <= count,
            count <= old(queue)@.len(),
            start + count <= length,
            dest@.len() == length,
            old(dest)@.len() == length,
            queue@ == old(queue)@.skip(i as int),
            dest@ == old(dest)@.take(start as int) + old(queue)@.take(i as int) + old(dest)@.skip(
                start + i,
            ),
        decreases count - i,
    {
        let sample: T = queue.pop_front().unwrap();
        dest[start + i] = sample;
        i += 1;
        assert(dest@ =~= old(dest)@.take(start as int) + old(queue)@.take(i as int) + old(
            dest)@.skip(start + i));
    }
}

/// A stream source, for an input callback. It takes the interleaved samples
/// that the callback delivers and writes them to the producer half of a
/// ring. Once more than `compensation_start_threshold` xruns were counted it
/// resamples what it writes.
#[verifier::reject_recursive_types(S)]
pub struct StreamSource<S, R> {
    /// Outgoing samples.
    ring_out: RingWriter<S>,
    /// Channel count.
    channels: usize,
    /// The last frames used, for interpolation: `FRAME_LOOKBACK` frames of
    /// `channels` samples, oldest frame first.
    last_frames: Vec<S>,
    /// Samples delivered and not yet used, whole frames.
    local_buffer: VecDeque<S>,
    /// The arithmetic of compensation, with the record of the calls to it.
    resampler: Recorded<S, R>,
    /// Free ring slots at the latest callbacks, oldest first.
    rolling_ring_avg: Vec<usize>,
    /// Number of xruns counted.
    pub xruns: usize,
    /// Number of xruns past which compensation starts.
    compensation_start_threshold: usize,
    /// Compensation strategy.
    strategy: CompensationStrategy,
    /// Frames taken from the local buffer for the lookback to slide over.
    resample_scratch: Vec<S>,
    /// The sample that fills up a frame which the ring cut short.
    silence: S,
    /// Samples still to write to the ring to reach a frame boundary.
    misaligned: usize,
    /// What the resampler said that it needs, for every output frame begun.
    needs: Ghost<Seq<usize>>,
}

impl<S: Copy, R: Resampler<S>> StreamSource<S, R> {
    /// The number of channels.
    pub closed spec fn spec_channels(&self) -> usize {
        self.channels
    }

    /// The capacity of the ring, in samples.
    pub closed spec fn ring_size(&self) -> usize {
        self.ring_out.capacity()
    }

    /// The number of xruns past which compensation starts.
    pub closed spec fn threshold(&self) -> usize {
        self.compensation_start_threshold
    }

    /// The number of xruns counted, the field `xruns`.
    pub closed spec fn xrun_count(&self) -> usize {
        self.xruns
    }

    /// The strategy in use.
    pub closed spec fn strategy(&self) -> CompensationStrategy {
        self.strategy
    }

    /// Every sample written to the ring so far, oldest first.
    pub closed spec fn given(&self) -> Seq<S> {
        self.ring_out.given()
    }

    /// Every sample offered to the ring so far, and whether the ring had
    /// room for it, oldest first.
    pub closed spec fn offers(&self) -> Seq<(S, bool)> {
        self.ring_out.offers()
    }

    /// Every count of free slots that the ring reported so far, oldest
    /// first.
    pub closed spec fn reports(&self) -> Seq<usize> {
        self.ring_out.reports()
    }

    /// The number of fresh frames that the resampler said it needs, for
    /// every resampled output frame begun so far, oldest first.
    pub closed spec fn needs(&self) -> Seq<usize> {
        self.needs@
    }

    /// Every call made to the resampler so far, oldest first.
    pub closed spec fn calls(&self) -> Seq<ResamplerCall<S>> {
        self.resampler.calls()
    }

    /// The samples delivered and not yet used, oldest first.
    pub closed spec fn queued(&self) -> Seq<S> {
        self.local_buffer@
    }

    /// The sample that fills up a frame which the ring cut short.
    pub closed spec fn silence(&self) -> S {
        self.silence
    }

    /// The number of samples still to write to the ring to reach a frame
    /// boundary.
    pub closed spec fn pending_alignment(&self) -> usize {
        self.misaligned
    }

    /// Free ring slots at the latest callbacks, oldest first.
    pub closed spec fn occupancy(&self) -> Seq<usize> {
        self.rolling_ring_avg@
    }

    /// The frames kept for interpolation, oldest first, interleaved.
    pub closed spec fn lookback(&self) -> Seq<S> {
        self.last_frames@
    }

    /// The resampler.
    pub closed spec fn spec_resampler(&self) -> R {
        self.resampler.spec_resampler()
    }

    /// The sizes of the buffers fit the channel count, and every occupancy
    /// on record is within the capacity of the ring.
    pub closed spec fn shaped(&self) -> bool {
        &&& self.channels > 0
        &&& FRAME_LOOKBACK * self.channels <= usize::MAX
        &&& self.last_frames@.len() == FRAME_LOOKBACK * self.channels
        &&& self.resample_scratch@.len() == FRAME_LOOKBACK * self.channels
        &&& self.rolling_ring_avg@.len() == ROLLING_AVG_LENGTH
        &&& forall|i: int|
            0 <= i < self.rolling_ring_avg@.len() ==> #[trigger] self.rolling_ring_avg@[i]
                <= self.ring_out.capacity()
    }

    /// The invariant of a source: it is `shaped`, it holds whole frames, and
    /// once the pending samples are written the ring is written up to a
    /// frame boundary.
    pub closed spec fn wf(&self) -> bool {
        &&& self.shaped()
        &&& self.misaligned < self.channels
        &&& (self.ring_out.given().len() + self.misaligned) % (self.channels as int) == 0
        &&& self.local_buffer@.len() % (self.channels as nat) == 0
    }

    /// Channel count, ring, threshold and silence are those of `before`.
    pub open spec fn same_setup(&self, before: &Self) -> bool {
        &&& self.spec_channels() == before.spec_channels()
        &&& self.ring_size() == before.ring_size()
        &&& self.threshold() == before.threshold()
        &&& self.silence() == before.silence()
    }

    /// Nothing but the ring, the pending alignment, the local buffer, the
    /// xrun count and the record of calls to the resampler may differ from
    /// `before`.
    pub closed spec fn same_but_given(&self, before: &Self) -> bool {
        &&& self.ring_out.capacity() == before.ring_out.capacity()
        &&& self.ring_out.reports() == before.ring_out.reports()
        &&& self.needs == before.needs
        &&& self.channels == before.channels
        &&& self.last_frames == before.last_frames
        &&& self.rolling_ring_avg == before.rolling_ring_avg
        &&& self.compensation_start_threshold == before.compensation_start_threshold
        &&& self.strategy == before.strategy
        &&& self.resample_scratch == before.resample_scratch
        &&& self.silence == before.silence
    }

    /// Nothing but the ring, the pending alignment, the local buffer and the
    /// xrun count may differ from `before`.
    pub closed spec fn same_but_ring(&self, before: &Self) -> bool {
        &&& self.same_but_given(before)
        &&& self.resampler == before.resampler
    }

    /// In every state of a source, the ring is written up to a frame
    /// boundary once the pending samples are written, fewer samples than a
    /// frame has are pending, and whole frames wait in the local buffer.
    pub proof fn lemma_frame_boundary(&self)
        requires
            self.wf(),
        ensures
            self.spec_channels() > 0,
            self.pending_alignment() < self.spec_channels(),
            (self.given().len() + self.pending_alignment()) % (self.spec_channels() as int) == 0,
            self.queued().len() % (self.spec_channels() as nat) == 0,
    {
    }

    /// In every state of a source, the record holds `ROLLING_AVG_LENGTH`
    /// counts of free slots, none of them above the capacity of the ring.
    pub proof fn lemma_occupancy_bounded(&self)
        requires
            self.wf(),
        ensures
            self.occupancy().len() == ROLLING_AVG_LENGTH,
            forall|i: int|
                0 <= i < self.occupancy().len() ==> #[trigger] self.occupancy()[i]
                    <= self.ring_size(),
    {
    }

    /// Creates a stream source.
    ///
    /// * `ring_out` - the producer half of a ring of interleaved samples
    /// * `channels` - the number of channels
    /// * `compensation_start_threshold` - the number of xruns past which
    ///   compensation starts
    /// * `resampler` - the arithmetic of compensation
    /// * `silence` - the sample that the lookback starts with, and that
    ///   fills up a frame which the ring cut short
    pub fn new(
        ring_out: rtrb::Producer<S>,
        channels: usize,
        compensation_start_threshold: usize,
        resampler: R,
        silence: S,
    ) -> (source: Self)
        requires
            channels > 0,
            FRAME_LOOKBACK * channels <= usize::MAX,
        ensures
            source.wf(),
            source.spec_channels() == channels,
            source.threshold() == compensation_start_threshold,
            source.silence() == silence,
            source.strategy() == CompensationStrategy::Idle,
            source.xrun_count() == 0,
            source.spec_resampler() == resampler,
            source.given() == Seq::<S>::empty(),
            source.offers() == Seq::<(S, bool)>::empty(),
            source.reports() == Seq::<usize>::empty(),
            source.needs() == Seq::<usize>::empty(),
            source.calls() == Seq::<ResamplerCall<S>>::empty(),
            source.queued() == Seq::<S>::empty(),
            source.pending_alignment() == 0,
            source.occupancy() == Seq::new(ROLLING_AVG_LENGTH as nat, |i: int| 0usize),
            source.lookback() == Seq::new((FRAME_LOOKBACK * channels) as nat, |i: int| silence),
    {
        let source = StreamSource {
            ring_out: RingWriter::new(ring_out),
            channels,
            last_frames: filled(silence, FRAME_LOOKBACK * channels),
            local_buffer: VecDeque::new(),
            resampler: Recorded::new(resampler),
            rolling_ring_avg: filled(0usize, ROLLING_AVG_LENGTH),
            xruns: 0,
            compensation_start_threshold,
            strategy: CompensationStrategy::Idle,
            resample_scratch: filled(silence, FRAME_LOOKBACK * channels),
            silence,
            misaligned: 0,
            needs: Ghost(Seq::empty()),
        };
        proof {
            lemma_whole_frames(0, channels as int);
        }
        source
    }

    /// Creates a stream source that starts compensation past 15 xruns (see
    /// [`StreamSource::new`]).
    pub fn with_defaults(
        ring_out: rtrb::Producer<S>,
        channels: usize,
        resampler: R,
        silence: S,
    ) -> (source: Self)
        requires
            channels > 0,
            FRAME_LOOKBACK * channels <= usize::MAX,
        ensures
            source.wf(),
            source.spec_channels() == channels,
            source.threshold() == 15,
            source.silence() == silence,
            source.strategy() == CompensationStrategy::Idle,
            source.xrun_count() == 0,
            source.spec_resampler() == resampler,
            source.given() == Seq::<S>::empty(),
            source.offers() == Seq::<(S, bool)>::empty(),
            source.reports() == Seq::<usize>::empty(),
            source.needs() == Seq::<usize>::empty(),
            source.calls() == Seq::<ResamplerCall<S>>::empty(),
            source.queued() == Seq::<S>::empty(),
            source.pending_alignment() == 0,
            source.occupancy() == Seq::new(ROLLING_AVG_LENGTH as nat, |i: int| 0usize),
            source.lookback() == Seq::new((FRAME_LOOKBACK * channels) as nat, |i: int| silence),
    {
        Self::new(ring_out, channels, 15, resampler, silence)
    }

    /// The number of channels.
    #[verifier::when_used_as_spec(spec_channels)]
    pub fn channels(&self) -> (channels: usize)
        ensures
            channels == self.spec_channels(),
    {
        self.channels
    }

    /// The number of xruns counted, the field `xruns`.
    pub fn xruns(&self) -> (xruns: usize)
        ensures
            xruns == self.xrun_count(),
    {
        self.xruns
    }

    /// The strategy in use.
    pub fn get_strategy(&self) -> (strategy: &CompensationStrategy)
        ensures
            *strategy == self.strategy(),
    {
        &self.strategy
    }

    /// The resampler, with the ratio and position it has reached.
    pub fn resampler(&self) -> (resampler: &R)
        ensures
            *resampler == self.spec_resampler(),
    {
        self.resampler.resampler()
    }

    /// Counts one xrun, unless xruns are not being measured.
    fn handle_xrun(&mut self, measure_xruns: bool)
        ensures
            final(self).same_but_ring(old(self)),
            final(self).ring_out == old(self).ring_out,
            final(self).local_buffer == old(self).local_buffer,
            final(self).misaligned == old(self).misaligned,
            final(self).xruns == tallied(old(self).xruns, measure_xruns),
    {
        if measure_xruns && self.xruns < usize::MAX {
            self.xruns += 1;
        }
    }

    /// Writes silence to the ring until it is written up to a frame boundary
    /// or found full. Returns whether the boundary is reached; if not, the
    /// samples that are left to write stay pending.
    pub fn realign(&mut self) -> (aligned: bool)
        requires
            old(self).wf(),
        ensures
            final(self).wf(),
            final(self).same_setup(old(self)),
            final(self).same_but_ring(old(self)),
            final(self).xrun_count() == old(self).xrun_count(),
            final(self).strategy() == old(self).strategy(),
            final(self).occupancy() == old(self).occupancy(),
            final(self).lookback() == old(self).lookback(),
            final(self).queued() == old(self).queued(),
            final(self).reports() == old(self).reports(),
            aligned <==> final(self).pending_alignment() == 0,
            padded(old(self).given(), final(self).given(), old(self).silence()),
            final(self).offers() == old(self).offers() + offers_of(
                final(self).given().subrange(
                    old(self).given().len() as int,
                    final(self).given().len() as int,
                ),
                if aligned {
                    None
                } else {
                    Some(old(self).silence())
                },
            ),
            final(self).given().len() + final(self).pending_alignment() == old(self).given().len()
                + old(self).pending_alignment(),
            aligned ==> final(self).given().len() % (final(self).spec_channels() as nat) == 0,
    {
        let ghost start = self.given().len() as int;
        proof {
            assert(self.offers() == self.offers() + offers_of(
                self.given().subrange(start, start),
                None,
            ));
        }
        while self.misaligned > 0
            invariant
                self.wf(),
                self.same_but_ring(old(self)),
                self.xruns == old(self).xruns,
                self.local_buffer@ == old(self).local_buffer@,
                padded(old(self).given(), self.given(), old(self).silence),
                start == old(self).given().len(),
                self.given().len() + self.misaligned == old(self).given().len() + old(
                    self).misaligned,
                self.offers() == old(self).offers() + offers_of(
                    self.given().subrange(start, self.given().len() as int),
                    None,
                ),
            decreases self.misaligned,
        {
            let ghost filled_up = self.given().subrange(start, self.given().len() as int);
            if self.ring_out.push(self.silence) {
                self.misaligned -= 1;
                proof {
                    lemma_offers_push(filled_up, self.silence);
                    assert(self.given().subrange(start, self.given().len() as int)
                        == filled_up.push(self.silence));
                }
            } else {
                assert(offers_of(filled_up, None).push((self.silence, false)) == offers_of(
                    filled_up,
                    Some(self.silence),
                ));
                return false;
            }
        }
        true
    }

    /// Makes sure that interleaved data is never written out of step: after
    /// a write that failed `channel_i` samples into a frame, the rest of
    /// that frame is to be filled with silence. What the ring has room for
    /// is written at once, what it has no room for yet stays pending.
    fn preserve_alignment(&mut self, channel_i: usize)
        requires
            old(self).shaped(),
            old(self).misaligned == 0,
            old(self).local_buffer@.len() % (old(self).channels as nat) == 0,
            channel_i < old(self).channels,
            old(self).ring_out.given().len() % (old(self).channels as nat) == channel_i,
        ensures
            final(self).wf(),
            final(self).same_but_ring(old(self)),
            final(self).xruns == old(self).xruns,
            final(self).local_buffer@ == old(self).local_buffer@,
            padded(old(self).given(), final(self).given(), old(self).silence),
            final(self).given().len() + final(self).misaligned == old(self).given().len()
                + alignment_gap(old(self).channels as int, channel_i as int),
            final(self).offers() == old(self).offers() + offers_of(
                final(self).given().subrange(
                    old(self).given().len() as int,
                    final(self).given().len() as int,
                ),
                if final(self).misaligned > 0 {
                    Some(old(self).silence)
                } else {
                    None
                },
            ),
    {
        proof {
            lemma_gap(self.ring_out.given().len() as int, self.channels as int, channel_i as int);
        }
        self.misaligned = (self.channels - channel_i) % self.channels;
        let _ = self.realign();
    }

    /// What follows a failed write: the alignment is put right, the xrun is
    /// counted, and the local buffer is emptied so that it cannot grow
    /// without bound.
    fn clean_up(&mut self, channel_i: usize, measure_xruns: bool)
        requires
            old(self).shaped(),
            old(self).misaligned == 0,
            channel_i < old(self).channels,
            old(self).ring_out.given().len() % (old(self).channels as nat) == channel_i,
        ensures
            final(self).wf(),
            final(self).same_but_ring(old(self)),
            final(self).xruns == tallied(old(self).xruns, measure_xruns),
            final(self).local_buffer@ == Seq::<S>::empty(),
            padded(old(self).given(), final(self).given(), old(self).silence),
            final(self).given().len() + final(self).misaligned == old(self).given().len()
                + alignment_gap(old(self).channels as int, channel_i as int),
            final(self).offers() == old(self).offers() + offers_of(
                final(self).given().subrange(
                    old(self).given().len() as int,
                    final(self).given().len() as int,
                ),
                if final(self).misaligned > 0 {
                    Some(old(self).silence)
                } else {
                    None
                },
            ),
    {
        self.local_buffer.clear();
        proof {
            lemma_whole_frames(0, self.channels as int);
        }
        self.preserve_alignment(channel_i);
        self.handle_xrun(measure_xruns);
    }

    /// Appends what the callback delivered to the local buffer.
    fn enqueue(&mut self, buffer_in: &[S])
        requires
            old(self).wf(),
            buffer_in@.len() % (old(self).channels as nat) == 0,
        ensures
            final(self).wf(),
            final(self).same_but_ring(old(self)),
            final(self).ring_out == old(self).ring_out,
            final(self).misaligned == old(self).misaligned,
            final(self).xruns == old(self).xruns,
            final(self).local_buffer@ == old(self).local_buffer@ + buffer_in@,
    {
        let length: usize = buffer_in.len();
        let mut i: usize = 0;
        while i < length
            invariant
                i <= length,
                length == buffer_in@.len(),
                self.same_but_ring(old(self)),
                self.ring_out == old(self).ring_out,
                self.misaligned == old(self).misaligned,
                self.xruns == old(self).xruns,
                self.local_buffer@ == old(self).local_buffer@ + buffer_in@.take(i as int),
            decreases length - i,
        {
            self.local_buffer.push_back(buffer_in[i]);
            i += 1;
            assert(buffer_in@.take(i as int) == buffer_in@.take(i - 1).push(buffer_in@[i - 1]));
        }
        proof {
            assert(buffer_in@.take(length as int) == buffer_in@);
            lemma_aligned_plus(
                old(self).local_buffer@.len() as int,
                length as int,
                self.channels as int,
            );
        }
    }

    /// Turns resampling on and fills the three newest frames of the
    /// lookback from the local buffer.
    fn arm(&mut self)
        requires
            old(self).wf(),
            old(self).local_buffer@.len() >= (FRAME_LOOKBACK - 1) * old(self).channels,
        ensures
            final(self).wf(),
            final(self).same_setup(old(self)),
            final(self).ring_out == old(self).ring_out,
            final(self).needs == old(self).needs,
            final(self).calls() == old(self).calls().push(
                (ResamplerCall::Start {
                    occupancy: old(self).rolling_ring_avg@,
                    ring_size: old(self).ring_out.capacity(),
                }),
            ),
            final(self).misaligned == old(self).misaligned,
            final(self).xruns == old(self).xruns,
            final(self).strategy == CompensationStrategy::Resample,
            final(self).rolling_ring_avg == old(self).rolling_ring_avg,
            final(self).local_buffer@ == old(self).local_buffer@.skip(
                (FRAME_LOOKBACK - 1) * old(self).channels,
            ),
            final(self).last_frames@ == old(self).last_frames@.take(old(self).channels as int)
                + old(self).local_buffer@.take((FRAME_LOOKBACK - 1) * old(self).channels),
    {
        let channels: usize = self.channels;
        proof {
            lemma_lookback_frames(channels as int);
        }
        let wanted: usize = (FRAME_LOOKBACK - 1) * channels;
        self.strategy = CompensationStrategy::Resample;
        self.resampler.start(self.rolling_ring_avg.as_slice(), self.ring_out.capacity());
        dequeue_into(&mut self.local_buffer, &mut self.last_frames, channels, wanted);
        proof {
            lemma_minus_frames(
                old(self).local_buffer@.len() as int,
                FRAME_LOOKBACK - 1,
                channels as int,
            );
            assert(old(self).last_frames@.skip(FRAME_LOOKBACK * channels) == Seq::<S>::empty());
            assert(self.last_frames@ == old(self).last_frames@.take(channels as int) + old(
                self).local_buffer@.take((FRAME_LOOKBACK - 1) * channels));
        }
    }

    /// Writes the local buffer to the ring, oldest sample first, until the
    /// buffer is empty or the ring full. Returns the number of samples
    /// written; a shortfall is an xrun, and what was not written is lost.
    fn drain_direct(&mut self, measure_xruns: bool) -> (written: usize)
        requires
            old(self).wf(),
            old(self).misaligned == 0,
        ensures
            final(self).wf(),
            final(self).same_but_ring(old(self)),
            written <= old(self).local_buffer@.len(),
            final(self).local_buffer@ == Seq::<S>::empty(),
            final(self).offers() == old(self).offers() + offers_after(
                final(self).given(),
                old(self).given().len() as int,
                old(self).local_buffer@,
                written as int,
                old(self).silence,
                final(self).misaligned > 0,
            ),
            final(self).given().take(old(self).given().len() + written) == old(self).given() + old(
                self).local_buffer@.take(written as int),
            padded(
                old(self).given() + old(self).local_buffer@.take(written as int),
                final(self).given(),
                old(self).silence,
            ),
            written == old(self).local_buffer@.len() ==> {
                &&& final(self).xruns == old(self).xruns
                &&& final(self).misaligned == 0
                &&& final(self).given().len() == old(self).given().len() + written
            },
            written < old(self).local_buffer@.len() ==> {
                &&& final(self).xruns == tallied(old(self).xruns, measure_xruns)
                &&& final(self).given().len() + final(self).misaligned == old(self).given().len()
                    + written + alignment_gap(
                    old(self).channels as int,
                    (written % old(self).channels) as int,
                )
            },
    {
        let total: usize = self.local_buffer.len();
        let mut written: usize = 0;
        while written < total
            invariant
                written <= total,
                total == old(self).local_buffer@.len(),
                old(self).wf(),
                old(self).misaligned == 0,
                self.shaped(),
                self.misaligned == 0,
                self.same_but_ring(old(self)),
                self.xruns == old(self).xruns,
                self.local_buffer@ == old(self).local_buffer@.skip(written as int),
                self.given() == old(self).given() + old(self).local_buffer@.take(written as int),
                self.offers() == old(self).offers() + offers_of(
                    old(self).local_buffer@.take(written as int),
                    None,
                ),
            decreases total - written,
        {
            let sample: S = self.local_buffer.pop_front().unwrap();
            let ghost sent = old(self).local_buffer@.take(written as int);
            assert(sample == old(self).local_buffer@[written as int]);
            if !self.ring_out.push(sample) {
                proof {
                    assert(offers_of(sent, None).push((sample, false)) == offers_of(
                        sent,
                        Some(sample),
                    ));
                    lemma_aligned_plus(
                        old(self).given().len() as int,
                        written as int,
                        self.channels as int,
                    );
                    assert(self.given().take(old(self).given().len() + written) == self.given());
                }
                let ghost before = self.given();
                self.clean_up(written % self.channels, measure_xruns);
                assert(self.given().take(before.len() as int) == before);
                return written;
            }
            written += 1;
            assert(old(self).local_buffer@.take(written as int) == old(self).local_buffer@.take(
                written - 1,
            ).push(sample));
            proof {
                lemma_offers_push(sent, sample);
            }
        }
        proof {
            lemma_aligned_plus(
                old(self).given().len() as int,
                written as int,
                self.channels as int,
            );
            lemma_whole_frames(0, self.channels as int);
            assert(self.given().take(old(self).given().len() + written) == self.given());
        }
        written
    }

    /// Writes resampled frames to the ring for as long as the local buffer
    /// holds the fresh frames that the next output frame uses up. Returns
    /// whether the ring refused a sample, which is an xrun, and how many
    /// samples of the local buffer were used up.
    ///
    /// For each output frame the resampler says how many fresh frames it
    /// uses up, at most `FRAME_LOOKBACK`. Each channel is interpolated from
    /// the lookback and written to the ring; the lookback then slides over
    /// the fresh frames, which leave the local buffer. A call writes at most
    /// two more than twice as many frames as the local buffer holds.
    #[verifier::rlimit(60)]
    fn drain_resampled(&mut self, measure_xruns: bool) -> (outcome: (
        bool,
        Ghost<(int, int, int)>,
        bool,
    ))
        requires
            old(self).wf(),
            old(self).misaligned == 0,
        ensures
            final(self).wf(),
            final(self).same_setup(old(self)),
            final(self).strategy == old(self).strategy,
            final(self).rolling_ring_avg == old(self).rolling_ring_avg,
            final(self).reports() == old(self).reports(),
            old(self).given().is_prefix_of(final(self).given()),
            final(self).xruns == tallied(old(self).xruns, measure_xruns && outcome.0),
            outcome.2 == (!outcome.0 && final(self).needs().len() == old(self).needs().len()
                + outcome.1@.1),
            0 <= outcome.1@.0 <= old(self).local_buffer@.len(),
            old(self).needs().is_prefix_of(final(self).needs()),
            0 <= outcome.1@.1,
            old(self).needs().len() + outcome.1@.1 <= final(self).needs().len() <= old(
                self).needs().len() + outcome.1@.1 + 1,
            outcome.1@.0 == old(self).channels * frames_used(
                final(self).needs().subrange(
                    old(self).needs().len() as int,
                    old(self).needs().len() + outcome.1@.1,
                ),
            ),
            final(self).offers().len() - old(self).offers().len() >= final(self).given().len()
                - old(self).given().len(),
            outcome.0 ==> {
                &&& final(self).local_buffer@ == Seq::<S>::empty()
                &&& final(self).needs().len() == old(self).needs().len() + outcome.1@.1 + 1
                &&& final(self).offers().len() - old(self).offers().len() > final(
                    self).given().len() - old(self).given().len()
                &&& 0 <= outcome.1@.2 < old(self).channels
                &&& old(self).given().len() + outcome.1@.1 * old(self).channels + outcome.1@.2
                    <= final(self).given().len()
                &&& old(self).offers().len() + outcome.1@.1 * old(self).channels + outcome.1@.2
                    < final(self).offers().len()
                &&& !final(self).offers()[old(self).offers().len() + outcome.1@.1 * old(
                    self).channels + outcome.1@.2].1
            },
            final(self).calls() == old(self).calls() + run_calls(
                final(self).needs().subrange(
                    old(self).needs().len() as int,
                    old(self).needs().len() + outcome.1@.1,
                ),
                old(self).last_frames@,
                old(self).local_buffer@.take(outcome.1@.0),
                old(self).channels as int,
                final(self).given().subrange(
                    old(self).given().len() as int,
                    old(self).given().len() + outcome.1@.1 * old(self).channels,
                ),
            ) + if final(self).needs().len() > old(self).needs().len() + outcome.1@.1 {
                seq![ResamplerCall::SamplesNeeded { needed: final(self).needs().last() }]
            } else {
                Seq::empty()
            } + if outcome.0 {
                interpolations(
                    slide(old(self).last_frames@, old(self).local_buffer@.take(outcome.1@.0)),
                    old(self).channels as int,
                    final(self).given().subrange(
                        old(self).given().len() + outcome.1@.1 * old(self).channels,
                        old(self).given().len() + outcome.1@.1 * old(self).channels
                            + outcome.1@.2,
                    ).push(
                        final(self).offers()[old(self).offers().len() + outcome.1@.1 * old(
                            self).channels + outcome.1@.2].0,
                    ),
                    outcome.1@.2 + 1,
                )
            } else {
                Seq::empty()
            },
            !outcome.0 ==> {
                &&& final(self).misaligned == 0
                &&& 0 <= outcome.1@.0 <= old(self).local_buffer@.len()
                &&& final(self).local_buffer@ == old(self).local_buffer@.skip(outcome.1@.0)
                &&& final(self).last_frames@ == slide(
                    old(self).last_frames@,
                    old(self).local_buffer@.take(outcome.1@.0),
                )
                &&& final(self).given().len() == old(self).given().len() + outcome.1@.1 * old(
                    self).channels
                &&& final(self).offers() == old(self).offers() + offers_of(
                    final(self).given().subrange(
                        old(self).given().len() as int,
                        final(self).given().len() as int,
                    ),
                    None,
                )
                &&& if final(self).needs().len() == old(self).needs().len() + outcome.1@.1 {
                    outcome.1@.1 == frame_budget(
                        old(self).local_buffer@.len() as int / old(self).channels as int,
                    )
                } else {
                    final(self).local_buffer@.len() < old(self).channels * fresh_frames(
                        final(self).needs().last(),
                    )
                }
            },
    {
        let channels: usize = self.channels;
        let frames_queued: usize = self.local_buffer.len() / channels;
        let mut budget: usize = if frames_queued > (usize::MAX - 2) / 2 {
            usize::MAX
        } else {
            2 * frames_queued + 2
        };
        let ghost limit = budget as int;
        let ghost start = self.given().len() as int;
        let ghost first_need = self.needs().len() as int;
        let ghost mut consumed: int = 0;
        let ghost mut served: int = 0;
        let ghost mut asked: Seq<usize> = Seq::empty();
        proof {
            lemma_lookback_frames(channels as int);
            assert(old(self).local_buffer@.skip(0) == old(self).local_buffer@);
            assert(slide(old(self).last_frames@, old(self).local_buffer@.take(0)) == old(
                self).last_frames@);
            assert(self.offers() == self.offers() + offers_of(
                self.given().subrange(start, start),
                None,
            ));
            assert(0 * channels == 0);
            assert(self.needs() == self.needs() + asked);
            assert(self.calls() == self.calls() + Seq::<ResamplerCall<S>>::empty());
            assert(self.given().subrange(start, start + 0) == Seq::<S>::empty());
        }
        while budget > 0
            invariant
                self.wf(),
                self.misaligned == 0,
                self.same_setup(old(self)),
                self.channels == channels,
                self.strategy == old(self).strategy,
                self.rolling_ring_avg == old(self).rolling_ring_avg,
                self.xruns == old(self).xruns,
                self.reports() == old(self).reports(),
                old(self).given().is_prefix_of(self.given()),
                0 <= consumed <= old(self).local_buffer@.len(),
                self.local_buffer@ == old(self).local_buffer@.skip(consumed),
                self.last_frames@ == slide(
                    old(self).last_frames@,
                    old(self).local_buffer@.take(consumed),
                ),
                FRAME_LOOKBACK * channels == 4 * channels,
                limit == frame_budget(old(self).local_buffer@.len() as int / channels as int),
                0 <= served,
                served + budget == limit,
                start == old(self).given().len(),
                first_need == old(self).needs().len(),
                self.needs() == old(self).needs() + asked,
                asked.len() == served,
                consumed == channels * frames_used(asked),
                self.given().len() == start + served * channels,
                self.offers() == old(self).offers() + offers_of(
                    self.given().subrange(start, self.given().len() as int),
                    None,
                ),
                self.calls() == old(self).calls() + run_calls(
                    asked,
                    old(self).last_frames@,
                    old(self).local_buffer@.take(consumed),
                    channels as int,
                    self.given().subrange(start, start + served * channels),
                ),
            decreases budget,
        {
            budget -= 1;
            let ghost made = self.calls();
            let needed: usize = self.resampler.samples_needed();
            proof {
                self.needs@ = self.needs@.push(needed);
                assert(self.needs() == old(self).needs() + asked.push(needed));
                assert(self.needs().subrange(first_need, first_need + served) == asked);
            }
            let fresh_frames: usize = if needed > FRAME_LOOKBACK {
                FRAME_LOOKBACK
            } else {
                needed
            };
            assert(fresh_frames * channels <= FRAME_LOOKBACK * channels) by (nonlinear_arith)
                requires
                    fresh_frames <= FRAME_LOOKBACK,
                    channels > 0,
            ;
            let fresh: usize = fresh_frames * channels;
            if self.local_buffer.len() < fresh {
                assert(fresh == channels * fresh_frames) by (nonlinear_arith)
                    requires
                        fresh == fresh_frames * channels,
                ;
                assert(self.calls() == made + seq![ResamplerCall::SamplesNeeded { needed }]
                    + Seq::<ResamplerCall<S>>::empty());
                return (false, Ghost((consumed, served, 0)), false);
            }
            let ghost before = *self;
            let ghost sent = self.given().subrange(start, self.given().len() as int);
            proof {
                lemma_offers_len(sent, None);
                assert(self.offers() == self.offers() + offers_of(
                    self.given().subrange(before.given().len() as int, self.given().len() as int),
                    None,
                ));
                assert(self.calls() == before.calls() + interpolations(
                    before.last_frames@,
                    channels as int,
                    self.given().subrange(before.given().len() as int, self.given().len() as int),
                    0,
                ));
                assert(before.needs().subrange(first_need, first_need + served) == asked);
                assert(before.needs().last() == needed);
                assert(self.given().subrange(start, start + served * channels)
                    == before.given().subrange(start, before.given().len() as int));
                assert(before.calls() == made.push(ResamplerCall::SamplesNeeded { needed }));
                assert(before.calls() =~= made + seq![ResamplerCall::SamplesNeeded { needed }]);
            }
            let mut channel_i: usize = 0;
            while channel_i < channels
                invariant
                    channel_i <= channels,
                    before.wf(),
                    before.misaligned == 0,
                    before.channels == channels,
                    before.same_setup(old(self)),
                    before.strategy == old(self).strategy,
                    before.rolling_ring_avg == old(self).rolling_ring_avg,
                    before.xruns == old(self).xruns,
                    before.reports() == old(self).reports(),
                    old(self).given().is_prefix_of(before.given()),
                    old(self).needs().is_prefix_of(before.needs()),
                    before.needs().len() == old(self).needs().len() + served + 1,
                    consumed == channels * frames_used(
                        before.needs().subrange(
                            old(self).needs().len() as int,
                            old(self).needs().len() + served,
                        ),
                    ),
                    0 <= served,
                    before.offers().len() - old(self).offers().len() == before.given().len() - old(
                        self).given().len(),
                    self.shaped(),
                    self.same_setup(&before),
                    self.same_but_given(&before),
                    self.misaligned == 0,
                    self.xruns == before.xruns,
                    self.local_buffer@ == before.local_buffer@,
                    before.given().is_prefix_of(self.given()),
                    self.given().len() == before.given().len() + channel_i,
                    before.given().len() == old(self).given().len() + served * channels,
                    before.offers() == old(self).offers() + offers_of(
                        before.given().subrange(
                            old(self).given().len() as int,
                            before.given().len() as int,
                        ),
                        None,
                    ),
                    before.last_frames@ == slide(
                        old(self).last_frames@,
                        old(self).local_buffer@.take(consumed),
                    ),
                    before.calls() == old(self).calls() + run_calls(
                        before.needs().subrange(
                            old(self).needs().len() as int,
                            old(self).needs().len() + served,
                        ),
                        old(self).last_frames@,
                        old(self).local_buffer@.take(consumed),
                        channels as int,
                        before.given().subrange(
                            old(self).given().len() as int,
                            before.given().len() as int,
                        ),
                    ) + seq![ResamplerCall::SamplesNeeded { needed: before.needs().last() }],
                    before.calls() == made + seq![ResamplerCall::SamplesNeeded { needed }],
                    0 <= consumed <= old(self).local_buffer@.len(),
                    self.calls() == before.calls() + interpolations(
                        before.last_frames@,
                        channels as int,
                        self.given().subrange(
                            before.given().len() as int,
                            self.given().len() as int,
                        ),
                        channel_i as int,
                    ),
                    self.offers() == before.offers() + offers_of(
                        self.given().subrange(
                            before.given().len() as int,
                            self.given().len() as int,
                        ),
                        None,
                    ),
                    FRAME_LOOKBACK * channels == 4 * channels,
                decreases channels - channel_i,
            {
                let x0: S = self.last_frames[channel_i];
                let x1: S = self.last_frames[channels + channel_i];
                let x2: S = self.last_frames[2 * channels + channel_i];
                let x3: S = self.last_frames[3 * channels + channel_i];
                let out: S = self.resampler.interpolate(x0, x1, x2, x3);
                let ghost frame = self.given().subrange(
                    before.given().len() as int,
                    self.given().len() as int,
                );
                proof {
                    assert(interpolations(
                        before.last_frames@,
                        channels as int,
                        frame.push(out),
                        channel_i + 1,
                    ) =~= interpolations(
                        before.last_frames@,
                        channels as int,
                        frame,
                        channel_i as int,
                    ).push(ResamplerCall::Interpolate { x0, x1, x2, x3, out }));
                    assert(self.calls() == before.calls() + interpolations(
                        before.last_frames@,
                        channels as int,
                        frame.push(out),
                        channel_i + 1,
                    ));
                }
                if !self.ring_out.push(out) {
                    proof {
                        lemma_aligned_plus(
                            before.given().len() as int,
                            channel_i as int,
                            channels as int,
                        );
                        lemma_small_mod(channel_i as nat, channels as nat);
                        lemma_offers_len(frame, None);
                    }
                    let ghost refused = *self;
                    self.clean_up(channel_i, measure_xruns);
                    proof {
                        let at = old(self).offers().len() + served * channels + channel_i;
                        lemma_offers_len(
                            before.given().subrange(
                                old(self).given().len() as int,
                                before.given().len() as int,
                            ),
                            None,
                        );
                        assert(refused.offers()[at] == (out, false));
                        assert(self.offers()[at] == refused.offers()[at]);
                        lemma_prefix_subrange(
                            refused.given(),
                            self.given(),
                            before.given().len() as int,
                            before.given().len() + channel_i,
                        );
                        lemma_prefix_subrange(
                            before.given(),
                            self.given(),
                            old(self).given().len() as int,
                            before.given().len() as int,
                        );
                        lemma_offers_len(
                            self.given().subrange(
                                refused.given().len() as int,
                                self.given().len() as int,
                            ),
                            if self.misaligned > 0 {
                                Some(refused.silence)
                            } else {
                                None
                            },
                        );
                    }
                    return (true, Ghost((consumed, served, channel_i as int)), false);
                }
                channel_i += 1;
                proof {
                    lemma_offers_push(frame, out);
                    assert(self.given().subrange(
                        before.given().len() as int,
                        self.given().len() as int,
                    ) == frame.push(out));
                }
            }
            proof {
                lemma_aligned_plus(before.given().len() as int, channels as int, channels as int);
                lemma_mod_self_0(channels as int);
                lemma_minus_frames(
                    self.local_buffer@.len() as int,
                    fresh_frames as int,
                    channels as int,
                );
                let frame = self.given().subrange(
                    before.given().len() as int,
                    self.given().len() as int,
                );
                lemma_offers_join(sent, frame, None);
                assert(self.calls() =~= made + (seq![ResamplerCall::SamplesNeeded { needed }]
                    + interpolations(
                    before.last_frames@,
                    channels as int,
                    frame,
                    channels as int,
                )));
                assert(sent + frame == self.given().subrange(start, self.given().len() as int)) by {
                    lemma_prefix_from(before.given(), self.given(), start);
                }
                assert(self.offers() =~= old(self).offers() + (offers_of(sent, None) + offers_of(
                    frame,
                    None,
                )));
            }
            dequeue_into(&mut self.local_buffer, &mut self.resample_scratch, 0, fresh);
            slide_in(&mut self.last_frames, self.resample_scratch.as_slice(), fresh);
            self.resampler.advance();
            proof {
                let queue = old(self).local_buffer@;
                let frame = self.given().subrange(
                    before.given().len() as int,
                    self.given().len() as int,
                );
                let fresh_old = queue.take(consumed);
                let fresh_new = queue.take(consumed + fresh);
                let outs_old = before.given().subrange(start, start + served * channels);
                let outs_new = self.given().subrange(start, start + served * channels + channels);
                assert(fresh_old.is_prefix_of(fresh_new)) by {
                    assert(fresh_new.subrange(0, consumed) == fresh_old);
                }
                assert(outs_old.is_prefix_of(outs_new)) by {
                    lemma_prefix_subrange(
                        before.given(),
                        self.given(),
                        start,
                        start + served * channels,
                    );
                    assert(outs_new.subrange(0, served * channels) == outs_old);
                }
                lemma_run_calls_stable(
                    asked,
                    old(self).last_frames@,
                    fresh_old,
                    fresh_new,
                    channels as int,
                    outs_old,
                    outs_new,
                );
                lemma_run_calls_push(
                    asked,
                    needed,
                    old(self).last_frames@,
                    fresh_new,
                    channels as int,
                    outs_new,
                );
                assert(fresh_new.take(channels * frames_used(asked)) == fresh_old);
                assert(outs_new.subrange(asked.len() * channels, asked.len() * channels + channels)
                    == frame);
                assert(self.calls() == made + (seq![ResamplerCall::SamplesNeeded { needed }]
                    + interpolations(before.last_frames@, channels as int, frame, channels as int)
                    + seq![ResamplerCall::Advance]));
                assert(self.resample_scratch@.take(fresh as int) == queue.skip(consumed).take(
                    fresh as int,
                ));
                lemma_slide_twice(
                    old(self).last_frames@,
                    queue.take(consumed),
                    queue.skip(consumed).take(fresh as int),
                );
                assert(queue.take(consumed) + queue.skip(consumed).take(fresh as int)
                    == queue.take(consumed + fresh));
                assert(queue.skip(consumed).skip(fresh as int) == queue.skip(consumed + fresh));
                lemma_frames_used_push(asked, needed);
                assert(consumed + fresh == channels * frames_used(asked.push(needed)))
                    by (nonlinear_arith)
                    requires
                        consumed == channels * frames_used(asked),
                        fresh == fresh_frames * channels,
                        frames_used(asked.push(needed)) == frames_used(asked) + fresh_frames,
                ;
                assert((served + 1) * channels == served * channels + channels)
                    by (nonlinear_arith);
                asked = asked.push(needed);
                consumed = consumed + fresh;
                served = served + 1;
            }
        }
        proof {
            assert(self.needs().subrange(first_need, first_need + served) == asked);
            assert(self.calls() == self.calls() + Seq::<ResamplerCall<S>>::empty() + Seq::<
                ResamplerCall<S>,
            >::empty());
        }
        (false, Ghost((consumed, served, 0)), true)
    }

    /// The xrun count once a callback has looked at the ring and found
    /// `slots` free slots in it: fewer than `LOW_WATER` is an xrun.
    pub open spec fn xruns_after_check(&self, slots: usize, measure_xruns: bool) -> usize {
        tallied(self.xrun_count(), measure_xruns && slots < LOW_WATER)
    }

    /// Whether a callback that finds `slots` free slots in the ring and
    /// delivers `delivered` samples turns compensation on: the stream is
    /// idle, the xrun count, this callback's included, has passed the
    /// threshold, and three frames are there to fill the lookback.
    pub open spec fn arms(&self, slots: usize, measure_xruns: bool, delivered: nat) -> bool {
        &&& self.strategy() == CompensationStrategy::Idle
        &&& self.xruns_after_check(slots, measure_xruns) > self.threshold()
        &&& self.queued().len() + delivered >= (FRAME_LOOKBACK - 1) * self.spec_channels()
    }

    /// The strategy after a callback that finds `slots` free slots in the
    /// ring and delivers `delivered` samples.
    pub open spec fn next_strategy(
        &self,
        slots: usize,
        measure_xruns: bool,
        delivered: nat,
    ) -> CompensationStrategy {
        if self.arms(slots, measure_xruns, delivered) {
            CompensationStrategy::Resample
        } else {
            self.strategy()
        }
    }

    /// What a callback without resampling leaves behind, `self` being the
    /// source after it, `delivered` what the callback brought and `written`
    /// the number of samples that the ring had room for. The samples
    /// waiting, those left from earlier first, went to the ring in order,
    /// the first `written` of them; nothing waits any more. If all were
    /// written, nothing else was written and no xrun is counted on top of
    /// `xruns`. If not, the others are lost, one xrun is counted, and the
    /// frame that the ring cut short is filled up with silence, written or
    /// pending.
    pub open spec fn passed_through(
        &self,
        before: &Self,
        delivered: Seq<S>,
        xruns: usize,
        measure_xruns: bool,
        written: int,
    ) -> bool {
        let start = before.given().len() as int;
        let waiting = before.queued() + delivered;
        &&& 0 <= written <= waiting.len()
        &&& self.lookback() == before.lookback()
        &&& self.queued() == Seq::<S>::empty()
        &&& padded(before.given() + waiting.take(written), self.given(), self.silence())
        &&& self.needs() == before.needs()
        &&& self.calls() == before.calls()
        &&& self.offers() == before.offers() + offers_after(
            self.given(),
            start,
            waiting,
            written,
            self.silence(),
            self.pending_alignment() > 0,
        )
        &&& written == waiting.len() ==> {
            &&& self.xrun_count() == xruns
            &&& self.pending_alignment() == 0
            &&& self.given().len() == start + written
        }
        &&& written < waiting.len() ==> {
            &&& self.xrun_count() == tallied(xruns, measure_xruns)
            &&& self.given().len() + self.pending_alignment() == start + written + alignment_gap(
                self.spec_channels() as int,
                written % (self.spec_channels() as int),
            )
        }
    }

    /// The calls that an input callback makes to the resampler before it
    /// moves samples: `start` when it turns compensation on, `retune` when
    /// the stream is resampling already and `xruns`, its xrun count after
    /// looking at the ring, is past the threshold, and none otherwise.
    pub open spec fn head_calls(&self, armed: bool, xruns: usize) -> Seq<ResamplerCall<S>> {
        if armed {
            seq![
                ResamplerCall::Start { occupancy: self.occupancy(), ring_size: self.ring_size() },
            ]
        } else if self.strategy() == CompensationStrategy::Resample && xruns > self.threshold() {
            seq![
                ResamplerCall::Retune { occupancy: self.occupancy(), ring_size: self.ring_size() },
            ]
        } else {
            Seq::empty()
        }
    }

    /// What a callback with resampling leaves behind, `self` being the
    /// source after it, `delivered` what the callback brought, `armed`
    /// telling whether this callback turned compensation on, `failed`
    /// whether the ring refused a sample, and `used` how many of the samples
    /// waiting were used up. A refusal is an xrun and empties the local
    /// buffer. Otherwise the samples not used up keep waiting, and the
    /// lookback has slid over those used up; on turning compensation on,
    /// the first three frames waiting fill the lookback behind its oldest
    /// frame instead.
    pub open spec fn resampled(
        &self,
        before: &Self,
        delivered: Seq<S>,
        xruns: usize,
        measure_xruns: bool,
        armed: bool,
        head: Seq<ResamplerCall<S>>,
        failed: bool,
        used: int,
        served: int,
        cut: int,
    ) -> bool {
        let channels = self.spec_channels() as int;
        let start = before.given().len() as int;
        let first_need = before.needs().len() as int;
        let waiting = before.queued() + delivered;
        let seeds = if armed {
            (FRAME_LOOKBACK - 1) * self.spec_channels()
        } else {
            0
        };
        let seeded = if armed {
            before.lookback().take(self.spec_channels() as int) + waiting.take(seeds)
        } else {
            before.lookback()
        };
        &&& self.xrun_count() == tallied(xruns, measure_xruns && failed)
        &&& before.needs().is_prefix_of(self.needs())
        &&& 0 <= served
        &&& first_need + served <= self.needs().len() <= first_need + served + 1
        &&& used - seeds == channels * frames_used(
            self.needs().subrange(first_need, first_need + served),
        )
        &&& failed ==> {
            &&& self.queued() == Seq::<S>::empty()
            &&& self.needs().len() == first_need + served + 1
            &&& self.offers().len() - before.offers().len() > self.given().len() - start
            &&& 0 <= cut < channels
            &&& start + served * channels + cut <= self.given().len()
            &&& before.offers().len() + served * channels + cut < self.offers().len()
            &&& !self.offers()[before.offers().len() + served * channels + cut].1
        }
        &&& self.calls() == before.calls() + head + run_calls(
            self.needs().subrange(first_need, first_need + served),
            seeded,
            waiting.subrange(seeds, used),
            channels,
            self.given().subrange(start, start + served * channels),
        ) + if self.needs().len() > first_need + served {
            seq![ResamplerCall::SamplesNeeded { needed: self.needs().last() }]
        } else {
            Seq::empty()
        } + if failed {
            interpolations(
                slide(seeded, waiting.subrange(seeds, used)),
                channels,
                self.given().subrange(
                    start + served * channels,
                    start + served * channels + cut,
                ).push(self.offers()[before.offers().len() + served * channels + cut].0),
                cut + 1,
            )
        } else {
            Seq::empty()
        }
        &&& !failed ==> {
            &&& self.pending_alignment() == 0
            &&& seeds <= used <= waiting.len()
            &&& self.queued() == waiting.skip(used)
            &&& self.lookback() == slide(seeded, waiting.subrange(seeds, used))
            &&& self.given().len() == start + served * channels
            &&& self.offers() == before.offers() + offers_of(
                self.given().subrange(start, self.given().len() as int),
                None,
            )
            &&& if self.needs().len() == first_need + served {
                served == frame_budget((waiting.len() - seeds) / channels)
            } else {
                self.queued().len() < channels * fresh_frames(self.needs().last())
            }
        }
    }

    /// Meant to be called from an input callback: takes what the callback
    /// delivers and writes the stream to the ring.
    ///
    /// * `buffer_in` - the samples delivered, a whole number of frames
    /// * `measure_xruns` - whether xruns count. While a device starts up,
    ///   xruns are to be expected and should not start compensation.
    ///
    /// The callback first looks at how much room the ring has; fewer than
    /// `LOW_WATER` free slots are an xrun. The samples delivered join those
    /// waiting in the local buffer. With an xrun count past the threshold, a
    /// resampling stream then lets its resampler retune, and an idle stream
    /// turns resampling on, as soon as three frames are waiting, and fills
    /// its lookback with them. The room found is recorded, and
    /// then samples are moved: unchanged, or resampled.
    ///
    /// The stream never writes a frame in part: when the ring refuses a
    /// sample within a frame, the rest of that frame is filled with silence
    /// as soon as the ring has room, by this call or by `realign`.
    #[verifier::rlimit(60)]
    pub fn input_samples(&mut self, buffer_in: &[S], measure_xruns: bool) -> (more: bool)
        requires
            old(self).wf(),
            old(self).pending_alignment() == 0,
            buffer_in@.len() % (old(self).spec_channels() as nat) == 0,
        ensures
            final(self).wf(),
            final(self).same_setup(old(self)),
            final(self).reports() == old(self).reports().push(final(self).reports().last()),
            final(self).occupancy().last() == slots_within(
                final(self).reports().last(),
                final(self).ring_size(),
            ),
            final(self).occupancy().last() <= final(self).ring_size(),
            final(self).occupancy() == slide(
                old(self).occupancy(),
                seq![final(self).occupancy().last()],
            ),
            final(self).strategy() == old(self).next_strategy(
                final(self).occupancy().last(),
                measure_xruns,
                buffer_in@.len(),
            ),
            old(self).given().is_prefix_of(final(self).given()),
            (final(self).given().len() + final(self).pending_alignment()) % (final(
                self).spec_channels() as int) == 0,
            final(self).strategy() != CompensationStrategy::Resample ==> !more,
            final(self).strategy() != CompensationStrategy::Resample ==> exists|written: int|
                final(self).passed_through(
                    old(self),
                    buffer_in@,
                    old(self).xruns_after_check(final(self).occupancy().last(), measure_xruns),
                    measure_xruns,
                    written,
                ),
            final(self).strategy() == CompensationStrategy::Resample ==> exists|
                failed: bool,
                used: int,
                served: int,
                cut: int,
            |
                {
                    &&& #[trigger] final(self).resampled(
                        old(self),
                        buffer_in@,
                        old(self).xruns_after_check(final(self).occupancy().last(), measure_xruns),
                        measure_xruns,
                        old(self).arms(
                            final(self).occupancy().last(),
                            measure_xruns,
                            buffer_in@.len(),
                        ),
                        old(self).head_calls(
                            old(self).arms(
                                final(self).occupancy().last(),
                                measure_xruns,
                                buffer_in@.len(),
                            ),
                            old(self).xruns_after_check(
                                final(self).occupancy().last(),
                                measure_xruns,
                            ),
                        ),
                        failed,
                        used,
                        served,
                        cut,
                    )
                    &&& more == (!failed && final(self).needs().len() == old(self).needs().len()
                        + served)
                },
    {
        let ring_slots: usize = self.ring_out.slots();
        if ring_slots < LOW_WATER {
            self.handle_xrun(measure_xruns);
        }
        let ghost xruns = self.xruns;
        self.enqueue(buffer_in);
        let ghost waiting = self.local_buffer@;
        let ghost mut armed = false;
        proof {
            lemma_lookback_frames(self.channels as int);
        }
        match self.strategy {
            CompensationStrategy::Resample => {
                if self.xruns > self.compensation_start_threshold {
                    self.resampler.retune(
                        self.rolling_ring_avg.as_slice(),
                        self.ring_out.capacity(),
                    );
                }
            },
            CompensationStrategy::Idle => {
                if self.xruns > self.compensation_start_threshold && self.local_buffer.len() >= (
                FRAME_LOOKBACK - 1) * self.channels {
                    self.arm();
                    proof {
                        armed = true;
                    }
                }
            },
            CompensationStrategy::Never => {},
        }
        let ghost seeds: int = if armed {
            (FRAME_LOOKBACK - 1) * self.channels
        } else {
            0
        };
        assert(self.local_buffer@ == waiting.skip(seeds));
        let ghost head = old(self).head_calls(armed, xruns);
        assert(self.calls() == old(self).calls() + head);
        slide_in_one(&mut self.rolling_ring_avg, ring_slots);
        assert(self.rolling_ring_avg@.last() == ring_slots);
        match self.strategy {
            CompensationStrategy::Resample => {
                let outcome = self.drain_resampled(measure_xruns);
                proof {
                    let used = seeds + outcome.1@.0;
                    assert(waiting.skip(seeds).take(outcome.1@.0) == waiting.subrange(seeds, used));
                    if !outcome.0 {
                        assert(waiting.skip(seeds).skip(outcome.1@.0) == waiting.skip(used));
                        assert(waiting.skip(seeds).len() == waiting.len() - seeds);
                    }
                    assert(xruns == old(self).xruns_after_check(ring_slots, measure_xruns));
                    assert(armed == old(self).arms(ring_slots, measure_xruns, buffer_in@.len()));
                    assert(self.resampled(
                        old(self),
                        buffer_in@,
                        xruns,
                        measure_xruns,
                        armed,
                        head,
                        outcome.0,
                        used,
                        outcome.1@.1,
                        outcome.1@.2,
                    ));
                }
                outcome.2
            },
            _ => {
                let written: usize = self.drain_direct(measure_xruns);
                assert(self.passed_through(
                    old(self),
                    buffer_in@,
                    xruns,
                    measure_xruns,
                    written as int,
                ));
                assert(xruns == old(self).xruns_after_check(ring_slots, measure_xruns));
                false
            },
        }
    }

    /// Goes on writing resampled frames where an input callback stopped
    /// because it had written as many as one call writes, with what waits
    /// in the local buffer. Returns whether this call stopped for the same
    /// reason, so that calling it for as long as it returns `true` writes
    /// every frame that the samples waiting allow.
    #[verifier::rlimit(60)]
    pub fn drain_further(&mut self, measure_xruns: bool) -> (more: bool)
        requires
            old(self).wf(),
            old(self).pending_alignment() == 0,
            old(self).strategy() == CompensationStrategy::Resample,
        ensures
            final(self).wf(),
            final(self).same_setup(old(self)),
            final(self).strategy() == old(self).strategy(),
            final(self).occupancy() == old(self).occupancy(),
            final(self).reports() == old(self).reports(),
            old(self).given().is_prefix_of(final(self).given()),
            (final(self).given().len() + final(self).pending_alignment()) % (final(
                self).spec_channels() as int) == 0,
            exists|failed: bool, used: int, served: int, cut: int|
                {
                    &&& #[trigger] final(self).resampled(
                        old(self),
                        Seq::<S>::empty(),
                        old(self).xrun_count(),
                        measure_xruns,
                        false,
                        Seq::<ResamplerCall<S>>::empty(),
                        failed,
                        used,
                        served,
                        cut,
                    )
                    &&& more == (!failed && final(self).needs().len() == old(self).needs().len()
                        + served)
                },
    {
        let ghost waiting = self.local_buffer@;
        let outcome = self.drain_resampled(measure_xruns);
        proof {
            let used = outcome.1@.0;
            assert(old(self).queued() + Seq::<S>::empty() == waiting);
            assert(waiting.subrange(0, used) == waiting.take(used));
            assert(self.calls() == old(self).calls() + Seq::<ResamplerCall<S>>::empty() + (
            self.calls().skip(old(self).calls().len() as int)));
            assert(self.resampled(
                old(self),
                Seq::<S>::empty(),
                old(self).xrun_count(),
                measure_xruns,
                false,
                Seq::<ResamplerCall<S>>::empty(),
                outcome.0,
                used,
                outcome.1@.1,
                outcome.1@.2,
            ));
        }
        outcome.2
    }

    /// Forces compensation to start with the next xrun.
    pub fn enable_compensation(&mut self)
        requires
            old(self).wf(),
        ensures
            final(self).wf(),
            final(self).same_setup(old(self)),
            final(self).xrun_count() == old(self).threshold(),
            final(self).strategy() == CompensationStrategy::Idle,
            final(self).given() == old(self).given(),
            final(self).queued() == old(self).queued(),
            final(self).pending_alignment() == old(self).pending_alignment(),
            final(self).occupancy() == old(self).occupancy(),
            final(self).lookback() == old(self).lookback(),
    {
        self.xruns = self.compensation_start_threshold;
        self.strategy = CompensationStrategy::Idle;
    }

    /// Forces compensation to never happen.
    pub fn disable_compensation(&mut self)
        requires
            old(self).wf(),
        ensures
            final(self).wf(),
            final(self).same_setup(old(self)),
            final(self).xrun_count() == 0,
            final(self).strategy() == CompensationStrategy::Never,
            final(self).given() == old(self).given(),
            final(self).queued() == old(self).queued(),
            final(self).pending_alignment() == old(self).pending_alignment(),
            final(self).occupancy() == old(self).occupancy(),
            final(self).lookback() == old(self).lookback(),
    {
        self.xruns = 0;
        self.strategy = CompensationStrategy::Never;
    }

    /// Goes back to the initial mode, in which compensation starts by
    /// itself, and forgets the xruns counted.
    pub fn auto_compensation(&mut self)
        requires
            old(self).wf(),
        ensures
            final(self).wf(),
            final(self).same_setup(old(self)),
            final(self).xrun_count() == 0,
            final(self).strategy() == CompensationStrategy::Idle,
            final(self).given() == old(self).given(),
            final(self).queued() == old(self).queued(),
            final(self).pending_alignment() == old(self).pending_alignment(),
            final(self).occupancy() == old(self).occupancy(),
            final(self).lookback() == old(self).lookback(),
    {
        self.xruns = 0;
        self.strategy = CompensationStrategy::Idle;
    }
}

} // verus!
