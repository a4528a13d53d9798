//! The stream sink: from a ring to the buffer of an output callback.

use crate::resample::{
    frames_used, interpolations, lemma_frames_used_push, lemma_run_calls_push,
    lemma_run_calls_stable, lemma_slide_twice, run_calls, slide, slide_in, slide_in_one, Recorded,
    Resampler, ResamplerCall, FRAME_LOOKBACK, ROLLING_AVG_LENGTH,
};
use crate::ring::{answers_of, slots_within, RingReader};
use crate::stream::{
    alignment_gap, answers_after, counted, filled, lemma_aligned_plus, lemma_answers_join,
    lemma_answers_len, lemma_answers_push, lemma_gap, lemma_lookback_frames, lemma_prefix_subrange,
    lemma_whole_frames, CompensationStrategy,
};
use vstd::arithmetic::div_mod::lemma_fundamental_div_mod;
use vstd::prelude::*;

verus! {

/// A stream sink, for an output callback. It reads interleaved samples from
/// the consumer half of a ring and writes them to the buffer of the
/// callback. Once `compensation_start_threshold` xruns were counted it
/// resamples what it reads.
#[verifier::reject_recursive_types(S)]
pub struct StreamSink<S, R> {
    /// Incoming samples.
    ring_in: RingReader<S>,
    /// Channel count.
    channels: usize,
    /// The last frames read, for interpolation: `FRAME_LOOKBACK` frames of
    /// `channels` samples, oldest frame first.
    last_frames: Vec<S>,
    /// The arithmetic of compensation, with the record of the calls to it.
    resampler: Recorded<S, R>,
    /// Ring occupancy at the latest callbacks, oldest first.
    rolling_ring_avg: Vec<usize>,
    /// Number of xruns counted.
    pub xruns: u64,
    /// Number of xruns at which compensation starts.
    compensation_start_threshold: u64,
    /// Compensation strategy.
    strategy: CompensationStrategy,
    /// Frames read for the output frame in the making.
    resample_scratch: Vec<S>,
    /// Samples still to drop from the ring to reach a frame boundary.
    misaligned: usize,
    /// What the resampler said that it needs, for every output frame begun.
    needs: Ghost<Seq<usize>>,
}

impl<S: Copy, R: Resampler<S>> StreamSink<S, R> {
    /// The number of channels.
    pub closed spec fn spec_channels(&self) -> usize {
        self.channels
    }

    /// The capacity of the ring, in samples.
    pub closed spec fn ring_size(&self) -> usize {
        self.ring_in.capacity()
    }

    /// The number of xruns at which compensation starts.
    pub closed spec fn threshold(&self) -> u64 {
        self.compensation_start_threshold
    }

    /// The number of xruns counted, the field `xruns`.
    pub closed spec fn xrun_count(&self) -> u64 {
        self.xruns
    }

    /// The strategy in use.
    pub closed spec fn strategy(&self) -> CompensationStrategy {
        self.strategy
    }

    /// Every sample read from the ring so far, oldest first.
    pub closed spec fn taken(&self) -> Seq<S> {
        self.ring_in.taken()
    }

    /// The answer of the ring to every read so far, oldest first: a sample,
    /// or `None` for a read that found the ring empty.
    pub closed spec fn answers(&self) -> Seq<Option<S>> {
        self.ring_in.answers()
    }

    /// Every count of samples ready that the ring reported so far, oldest
    /// first.
    pub closed spec fn reports(&self) -> Seq<usize> {
        self.ring_in.reports()
    }

    /// The number of fresh frames that the resampler said it needs, for
    /// every resampled output frame begun so far, oldest first.
    pub closed spec fn needs(&self) -> Seq<usize> {
        self.needs@
    }

    /// Every call made to the resampler so far, oldest first.
    pub closed spec fn calls(&self) -> Seq<ResamplerCall<S>> {
        self.resampler.calls()
    }

    /// Nothing but the record of calls to the resampler, and the resampler,
    /// may differ from `before`.
    pub closed spec fn same_but_calls(&self, before: &Self) -> bool {
        &&& self.ring_in == before.ring_in
        &&& self.channels == before.channels
        &&& self.last_frames == before.last_frames
        &&& self.rolling_ring_avg == before.rolling_ring_avg
        &&& self.xruns == before.xruns
        &&& self.compensation_start_threshold == before.compensation_start_threshold
        &&& self.strategy == before.strategy
        &&& self.resample_scratch == before.resample_scratch
        &&& self.misaligned == before.misaligned
        &&& self.needs == before.needs
    }

    /// The number of samples still to drop from the ring to reach a frame
    /// boundary.
    pub closed spec fn pending_alignment(&self) -> usize {
        self.misaligned
    }

    /// Ring occupancy at the latest callbacks, oldest first.
    pub closed spec fn occupancy(&self) -> Seq<usize> {
        self.rolling_ring_avg@
    }

    /// The frames kept for interpolation, oldest first, interleaved.
    pub closed spec fn lookback(&self) -> Seq<S> {
        self.last_frames@
    }

    /// The resampler.
    pub closed spec fn spec_resampler(&self) -> R {
        self.resampler.spec_resampler()
    }

    /// The sizes of the buffers fit the channel count, and every occupancy
    /// on record is within the capacity of the ring.
    pub closed spec fn shaped(&self) -> bool {
        &&& self.channels > 0
        &&& FRAME_LOOKBACK * self.channels <= usize::MAX
        &&& self.last_frames@.len() == FRAME_LOOKBACK * self.channels
        &&& self.resample_scratch@.len() == FRAME_LOOKBACK * self.channels
        &&& self.rolling_ring_avg@.len() == ROLLING_AVG_LENGTH
        &&& forall|i: int|
            0 <= i < self.rolling_ring_avg@.len() ==> #[trigger] self.rolling_ring_avg@[i]
                <= self.ring_in.capacity()
    }

    /// The invariant of a sink: it is `shaped`, and once the pending samples
    /// are dropped the ring is read up to a frame boundary.
    pub closed spec fn wf(&self) -> bool {
        &&& self.shaped()
        &&& self.misaligned < self.channels
        &&& (self.ring_in.taken().len() + self.misaligned) % (self.channels as int) == 0
    }

    /// In every state of a sink, the ring is read up to a frame boundary
    /// once the pending samples are dropped, and fewer samples than a frame
    /// has are pending.
    pub proof fn lemma_frame_boundary(&self)
        requires
            self.wf(),
        ensures
            self.spec_channels() > 0,
            self.pending_alignment() < self.spec_channels(),
            (self.taken().len() + self.pending_alignment()) % (self.spec_channels() as int) == 0,
    {
    }

    /// In every state of a sink, the record holds `ROLLING_AVG_LENGTH`
    /// occupancies, none of them above the capacity of the ring.
    pub proof fn lemma_occupancy_bounded(&self)
        requires
            self.wf(),
        ensures
            self.occupancy().len() == ROLLING_AVG_LENGTH,
            forall|i: int|
                0 <= i < self.occupancy().len() ==> #[trigger] self.occupancy()[i]
                    <= self.ring_size(),
    {
    }

    /// Creates a stream sink.
    ///
    /// * `ring_in` - the consumer half of a ring of interleaved samples
    /// * `channels` - the number of channels
    /// * `compensation_start_threshold` - the number of xruns at which
    ///   compensation starts
    /// * `resampler` - the arithmetic of compensation
    /// * `silence` - the sample that the lookback starts with
    pub fn new(
        ring_in: rtrb::Consumer<S>,
        channels: usize,
        compensation_start_threshold: u64,
        resampler: R,
        silence: S,
    ) -> (sink: Self)
        requires
            channels > 0,
            FRAME_LOOKBACK * channels <= usize::MAX,
        ensures
            sink.wf(),
            sink.spec_channels() == channels,
            sink.threshold() == compensation_start_threshold,
            sink.strategy() == CompensationStrategy::Idle,
            sink.xrun_count() == 0,
            sink.spec_resampler() == resampler,
            sink.taken() == Seq::<S>::empty(),
            sink.answers() == Seq::<Option<S>>::empty(),
            sink.reports() == Seq::<usize>::empty(),
            sink.needs() == Seq::<usize>::empty(),
            sink.calls() == Seq::<ResamplerCall<S>>::empty(),
            sink.pending_alignment() == 0,
            sink.occupancy() == Seq::new(ROLLING_AVG_LENGTH as nat, |i: int| 0usize),
            sink.lookback() == Seq::new((FRAME_LOOKBACK * channels) as nat, |i: int| silence),
    {
        let sink = StreamSink {
            ring_in: RingReader::new(ring_in),
            channels,
            last_frames: filled(silence, FRAME_LOOKBACK * channels),
            resampler: Recorded::new(resampler),
            rolling_ring_avg: filled(0usize, ROLLING_AVG_LENGTH),
            xruns: 0,
            compensation_start_threshold,
            strategy: CompensationStrategy::Idle,
            resample_scratch: filled(silence, FRAME_LOOKBACK * channels),
            misaligned: 0,
            needs: Ghost(Seq::empty()),
        };
        assert(0int % (channels as int) == 0) by (nonlinear_arith)
            requires
                channels > 0,
        ;
        sink
    }

    /// Creates a stream sink that starts compensation at 15 xruns (see
    /// [`StreamSink::new`]).
    pub fn with_defaults(
        ring_in: rtrb::Consumer<S>,
        channels: usize,
        resampler: R,
        silence: S,
    ) -> (sink: Self)
        requires
            channels > 0,
            FRAME_LOOKBACK * channels <= usize::MAX,
        ensures
            sink.wf(),
            sink.spec_channels() == channels,
            sink.threshold() == 15,
            sink.strategy() == CompensationStrategy::Idle,
            sink.xrun_count() == 0,
            sink.spec_resampler() == resampler,
            sink.taken() == Seq::<S>::empty(),
            sink.answers() == Seq::<Option<S>>::empty(),
            sink.reports() == Seq::<usize>::empty(),
            sink.needs() == Seq::<usize>::empty(),
            sink.calls() == Seq::<ResamplerCall<S>>::empty(),
            sink.pending_alignment() == 0,
            sink.occupancy() == Seq::new(ROLLING_AVG_LENGTH as nat, |i: int| 0usize),
            sink.lookback() == Seq::new((FRAME_LOOKBACK * channels) as nat, |i: int| silence),
    {
        Self::new(ring_in, channels, 15, resampler, silence)
    }

    /// The number of channels.
    #[verifier::when_used_as_spec(spec_channels)]
    pub fn channels(&self) -> (channels: usize)
        ensures
            channels == self.spec_channels(),
    {
        self.channels
    }

    /// The number of xruns counted, the field `xruns`.
    pub fn xruns(&self) -> (xruns: u64)
        ensures
            xruns == self.xrun_count(),
    {
        self.xruns
    }

    /// The strategy in use.
    pub fn get_strategy(&self) -> (strategy: &CompensationStrategy)
        ensures
            *strategy == self.strategy(),
    {
        &self.strategy
    }

    /// The resampler, with the ratio and position it has reached.
    pub fn resampler(&self) -> (resampler: &R)
        ensures
            *resampler == self.spec_resampler(),
    {
        self.resampler.resampler()
    }

    /// Channel count, ring and threshold are those of `before`.
    pub open spec fn same_setup(&self, before: &Self) -> bool {
        &&& self.spec_channels() == before.spec_channels()
        &&& self.ring_size() == before.ring_size()
        &&& self.threshold() == before.threshold()
    }

    /// Nothing but what was read from the ring, the pending alignment and
    /// the xrun count may differ from `before`.
    pub closed spec fn same_but_ring(&self, before: &Self) -> bool {
        &&& self.ring_in.capacity() == before.ring_in.capacity()
        &&& self.ring_in.reports() == before.ring_in.reports()
        &&& self.needs == before.needs
        &&& self.channels == before.channels
        &&& self.last_frames == before.last_frames
        &&& self.resampler == before.resampler
        &&& self.rolling_ring_avg == before.rolling_ring_avg
        &&& self.compensation_start_threshold == before.compensation_start_threshold
        &&& self.strategy == before.strategy
        &&& self.resample_scratch == before.resample_scratch
    }

    /// Counts one xrun, unless xruns are not being measured.
    fn handle_xrun(&mut self, measure_xruns: bool)
        ensures
            final(self).same_but_ring(old(self)),
            final(self).ring_in == old(self).ring_in,
            final(self).misaligned == old(self).misaligned,
            final(self).xruns == counted(old(self).xruns, measure_xruns),
    {
        if measure_xruns && self.xruns < u64::MAX {
            self.xruns += 1;
        }
    }

    /// Drops samples from the ring until it is read up to a frame boundary
    /// or found empty. Returns whether the boundary is reached; if not, the
    /// samples that are left to drop stay pending.
    pub fn realign(&mut self) -> (aligned: bool)
        requires
            old(self).wf(),
        ensures
            final(self).wf(),
            final(self).same_setup(old(self)),
            final(self).same_but_ring(old(self)),
            final(self).xrun_count() == old(self).xrun_count(),
            final(self).strategy() == old(self).strategy(),
            final(self).occupancy() == old(self).occupancy(),
            final(self).lookback() == old(self).lookback(),
            final(self).reports() == old(self).reports(),
            aligned <==> final(self).pending_alignment() == 0,
            old(self).taken().is_prefix_of(final(self).taken()),
            final(self).taken().len() + final(self).pending_alignment() == old(self).taken().len()
                + old(self).pending_alignment(),
            final(self).answers() == old(self).answers() + answers_of(
                final(self).taken().subrange(
                    old(self).taken().len() as int,
                    final(self).taken().len() as int,
                ),
                !aligned,
            ),
            aligned ==> final(self).taken().len() % (final(self).spec_channels() as nat) == 0,
    {
        let ghost start = self.taken().len() as int;
        proof {
            assert(self.answers() == self.answers() + answers_of(
                self.taken().subrange(start, start),
                false,
            ));
        }
        while self.misaligned > 0
            invariant
                self.wf(),
                self.same_but_ring(old(self)),
                self.xruns == old(self).xruns,
                old(self).taken().is_prefix_of(self.taken()),
                start == old(self).taken().len(),
                self.taken().len() + self.misaligned == old(self).taken().len() + old(
                    self).misaligned,
                self.answers() == old(self).answers() + answers_of(
                    self.taken().subrange(start, self.taken().len() as int),
                    false,
                ),
            decreases self.misaligned,
        {
            let ghost dropped = self.taken().subrange(start, self.taken().len() as int);
            match self.ring_in.pop() {
                Some(sample) => {
                    self.misaligned -= 1;
                    proof {
                        lemma_answers_push(dropped, sample);
                        assert(self.taken().subrange(start, self.taken().len() as int)
                            == dropped.push(sample));
                    }
                },
                None => {
                    return false;
                },
            }
        }
        true
    }

    /// Makes sure that interleaved data is never read out of step: after a
    /// read that failed `channel_i` samples into a frame, the rest of that
    /// frame is to be dropped. What the ring holds of it is dropped at once,
    /// what it does not hold yet stays pending.
    fn preserve_alignment(&mut self, channel_i: usize)
        requires
            old(self).shaped(),
            old(self).misaligned == 0,
            channel_i < old(self).channels,
            old(self).ring_in.taken().len() % (old(self).channels as nat) == channel_i,
        ensures
            final(self).wf(),
            final(self).same_but_ring(old(self)),
            final(self).xruns == old(self).xruns,
            old(self).taken().is_prefix_of(final(self).taken()),
            final(self).taken().len() + final(self).misaligned == old(self).taken().len()
                + alignment_gap(old(self).channels as int, channel_i as int),
            final(self).answers() == old(self).answers() + answers_of(
                final(self).taken().subrange(
                    old(self).taken().len() as int,
                    final(self).taken().len() as int,
                ),
                final(self).misaligned > 0,
            ),
    {
        proof {
            lemma_gap(self.ring_in.taken().len() as int, self.channels as int, channel_i as int);
        }
        self.misaligned = (self.channels - channel_i) % self.channels;
        let _ = self.realign();
    }

    /// What follows a failed read: the alignment is put right and the xrun
    /// is counted.
    fn clean_up(&mut self, channel_i: usize, measure_xruns: bool)
        requires
            old(self).shaped(),
            old(self).misaligned == 0,
            channel_i < old(self).channels,
            old(self).ring_in.taken().len() % (old(self).channels as nat) == channel_i,
        ensures
            final(self).wf(),
            final(self).same_but_ring(old(self)),
            final(self).xruns == counted(old(self).xruns, measure_xruns),
            old(self).taken().is_prefix_of(final(self).taken()),
            final(self).taken().len() + final(self).misaligned == old(self).taken().len()
                + alignment_gap(old(self).channels as int, channel_i as int),
            final(self).answers() == old(self).answers() + answers_of(
                final(self).taken().subrange(
                    old(self).taken().len() as int,
                    final(self).taken().len() as int,
                ),
                final(self).misaligned > 0,
            ),
    {
        self.preserve_alignment(channel_i);
        self.handle_xrun(measure_xruns);
    }

    /// Turns resampling on and fills the three newest frames of the
    /// lookback from the ring. Returns the number of samples that the ring
    /// had for it; a shortfall is an xrun.
    fn arm(&mut self, measure_xruns: bool) -> (seeded: usize)
        requires
            old(self).wf(),
            old(self).misaligned == 0,
        ensures
            final(self).wf(),
            final(self).same_setup(old(self)),
            final(self).strategy == CompensationStrategy::Resample,
            final(self).rolling_ring_avg == old(self).rolling_ring_avg,
            seeded <= (FRAME_LOOKBACK - 1) * old(self).channels,
            final(self).reports() == old(self).reports(),
            final(self).needs == old(self).needs,
            final(self).calls() == old(self).calls().push(
                (ResamplerCall::Start {
                    occupancy: old(self).rolling_ring_avg@,
                    ring_size: old(self).ring_in.capacity(),
                }),
            ),
            old(self).taken().is_prefix_of(final(self).taken()),
            old(self).taken().len() + seeded <= final(self).taken().len(),
            final(self).answers() == old(self).answers() + answers_after(
                final(self).taken(),
                old(self).taken().len() as int,
                seeded as int,
                seeded < (FRAME_LOOKBACK - 1) * old(self).channels,
                final(self).misaligned > 0,
            ),
            final(self).lookback() == old(self).lookback().take(old(self).channels as int)
                + final(self).taken().subrange(
                old(self).taken().len() as int,
                old(self).taken().len() + seeded,
            ) + old(self).lookback().skip(old(self).channels + seeded),
            seeded == (FRAME_LOOKBACK - 1) * old(self).channels ==> {
                &&& final(self).xruns == old(self).xruns
                &&& final(self).misaligned == 0
                &&& final(self).taken().len() == old(self).taken().len() + seeded
            },
            seeded < (FRAME_LOOKBACK - 1) * old(self).channels ==> {
                &&& final(self).xruns == counted(old(self).xruns, measure_xruns)
                &&& final(self).taken().len() + final(self).misaligned == old(self).taken().len()
                    + seeded + alignment_gap(
                    old(self).channels as int,
                    (seeded % old(self).channels) as int,
                )
            },
    {
        let channels: usize = self.channels;
        let wanted: usize = (FRAME_LOOKBACK - 1) * channels;
        self.strategy = CompensationStrategy::Resample;
        self.resampler.start(self.rolling_ring_avg.as_slice(), self.ring_in.capacity());
        let seeded: usize = self.ring_in.pop_into(
            self.last_frames.as_mut_slice(),
            channels,
            wanted,
        );
        proof {
            lemma_aligned_plus(old(self).taken().len() as int, seeded as int, channels as int);
            lemma_whole_frames(FRAME_LOOKBACK - 1, channels as int);
            assert(self.last_frames@.subrange(channels as int, channels + seeded)
                == self.taken().subrange(
                old(self).taken().len() as int,
                old(self).taken().len() + seeded,
            ));
            assert(self.last_frames@ == old(self).last_frames@.take(channels as int)
                + self.last_frames@.subrange(channels as int, channels + seeded) + old(
                self).last_frames@.skip(channels + seeded));
        }
        let ghost read = self.taken();
        if seeded < wanted {
            self.clean_up(seeded % channels, measure_xruns);
            proof {
                lemma_prefix_subrange(
                    read,
                    self.taken(),
                    old(self).taken().len() as int,
                    old(self).taken().len() + seeded,
                );
            }
        }
        seeded
    }

    /// Copies samples from the ring to `buffer_out` until the buffer is full
    /// or the ring empty. Returns the number of samples copied; a shortfall
    /// is an xrun.
    fn fill_direct(&mut self, buffer_out: &mut [S], measure_xruns: bool) -> (written: usize)
        requires
            old(self).wf(),
            old(self).misaligned == 0,
            old(buffer_out)@.len() % (old(self).channels as nat) == 0,
        ensures
            final(self).wf(),
            final(self).same_but_ring(old(self)),
            written <= old(buffer_out)@.len(),
            final(buffer_out)@.len() == old(buffer_out)@.len(),
            old(self).taken().is_prefix_of(final(self).taken()),
            final(self).answers() == old(self).answers() + answers_after(
                final(self).taken(),
                old(self).taken().len() as int,
                written as int,
                written < old(buffer_out)@.len(),
                final(self).misaligned > 0,
            ),
            final(buffer_out)@ == final(self).taken().subrange(
                old(self).taken().len() as int,
                old(self).taken().len() + written,
            ) + old(buffer_out)@.skip(written as int),
            written == old(buffer_out)@.len() ==> {
                &&& final(self).xruns == old(self).xruns
                &&& final(self).misaligned == 0
                &&& final(self).taken().len() == old(self).taken().len() + written
            },
            written < old(buffer_out)@.len() ==> {
                &&& final(self).xruns == counted(old(self).xruns, measure_xruns)
                &&& final(self).taken().len() + final(self).misaligned == old(self).taken().len()
                    + written + alignment_gap(
                    old(self).channels as int,
                    (written % old(self).channels) as int,
                )
            },
    {
        let length: usize = buffer_out.len();
        let written: usize = self.ring_in.pop_into(buffer_out, 0, length);
        proof {
            lemma_aligned_plus(
                old(self).taken().len() as int,
                written as int,
                self.channels as int,
            );
            assert(buffer_out@.subrange(0, written as int) == self.taken().subrange(
                old(self).taken().len() as int,
                old(self).taken().len() + written,
            ));
            assert(buffer_out@ == buffer_out@.subrange(0, written as int) + old(buffer_out)@.skip(
                written as int,
            ));
        }
        let ghost read = self.taken();
        if written < length {
            self.clean_up(written % self.channels, measure_xruns);
            proof {
                lemma_prefix_subrange(
                    read,
                    self.taken(),
                    old(self).taken().len() as int,
                    old(self).taken().len() + written,
                );
            }
        }
        written
    }

    /// Writes resampled frames to `buffer_out` until the buffer is full or
    /// the ring cannot supply a frame that is needed. Returns the number of
    /// frames written, a shortfall being an xrun, and two counts of samples
    /// read: those dropped first to reach a frame boundary, and the whole
    /// frames after them that the lookback has slid over.
    ///
    /// For each output frame the resampler says how many fresh frames it
    /// uses up, at most `FRAME_LOOKBACK`. They are read from the ring, each
    /// channel is interpolated from the lookback as it stood, and the
    /// lookback then slides over the fresh frames.
    #[verifier::rlimit(60)]
    fn fill_resampled(&mut self, buffer_out: &mut [S], measure_xruns: bool) -> (outcome: (
        usize,
        Ghost<(int, int)>,
    ))
        requires
            old(self).wf(),
            old(buffer_out)@.len() % (old(self).channels as nat) == 0,
        ensures
            final(self).wf(),
            final(self).same_setup(old(self)),
            final(self).strategy == old(self).strategy,
            final(self).rolling_ring_avg == old(self).rolling_ring_avg,
            outcome.0 * old(self).channels <= old(buffer_out)@.len(),
            final(buffer_out)@.len() == old(buffer_out)@.len(),
            final(buffer_out)@.skip(outcome.0 * old(self).channels) == old(buffer_out)@.skip(
                outcome.0 * old(self).channels,
            ),
            old(self).taken().is_prefix_of(final(self).taken()),
            final(self).reports() == old(self).reports(),
            old(self).needs().is_prefix_of(final(self).needs()),
            old(self).needs().len() + outcome.0 <= final(self).needs().len() <= old(
                self).needs().len() + outcome.0 + 1,
            final(self).calls() == old(self).calls() + run_calls(
                final(self).needs().subrange(
                    old(self).needs().len() as int,
                    old(self).needs().len() + outcome.0,
                ),
                old(self).last_frames@,
                final(self).taken().subrange(
                    old(self).taken().len() + outcome.1@.0,
                    old(self).taken().len() + outcome.1@.0 + outcome.1@.1,
                ),
                old(self).channels as int,
                final(buffer_out)@.take(outcome.0 * old(self).channels),
            ) + if final(self).needs().len() > old(self).needs().len() + outcome.0 {
                seq![ResamplerCall::SamplesNeeded { needed: final(self).needs().last() }]
            } else {
                Seq::empty()
            },
            outcome.1@.1 == old(self).channels * frames_used(
                final(self).needs().subrange(
                    old(self).needs().len() as int,
                    old(self).needs().len() + outcome.0,
                ),
            ),
            final(self).answers().len() - old(self).answers().len() >= final(self).taken().len()
                - old(self).taken().len(),
            outcome.0 * old(self).channels == old(buffer_out)@.len() ==> {
                &&& final(self).needs().len() == old(self).needs().len() + outcome.0
                &&& final(self).taken().len() == old(self).taken().len() + outcome.1@.0
                    + outcome.1@.1
                &&& final(self).answers() == old(self).answers() + answers_of(
                    final(self).taken().subrange(
                        old(self).taken().len() as int,
                        final(self).taken().len() as int,
                    ),
                    false,
                )
            },
            outcome.0 * old(self).channels < old(buffer_out)@.len() ==> final(
                self).answers().len() - old(self).answers().len() > final(self).taken().len()
                - old(self).taken().len(),
            0 <= outcome.1@.0 <= old(self).misaligned,
            0 <= outcome.1@.1,
            old(self).taken().len() + outcome.1@.0 + outcome.1@.1 <= final(self).taken().len(),
            final(self).last_frames@ == slide(
                old(self).last_frames@,
                final(self).taken().subrange(
                    old(self).taken().len() + outcome.1@.0,
                    old(self).taken().len() + outcome.1@.0 + outcome.1@.1,
                ),
            ),
            outcome.0 * old(self).channels == old(buffer_out)@.len() ==> {
                &&& final(self).xruns == old(self).xruns
                &&& old(buffer_out)@.len() > 0 ==> final(self).misaligned == 0
            },
            outcome.0 * old(self).channels < old(buffer_out)@.len() ==> final(self).xruns
                == counted(old(self).xruns, measure_xruns),
    {
        let channels: usize = self.channels;
        let length: usize = buffer_out.len();
        let frames: usize = length / channels;
        let ghost start = self.taken().len() as int;
        proof {
            lemma_fundamental_div_mod(length as int, channels as int);
            assert(frames * channels == length) by (nonlinear_arith)
                requires
                    length == channels * frames + 0,
            ;
            assert(slide(self.last_frames@, self.taken().subrange(start, start))
                == self.last_frames@);
        }
        if frames == 0 {
            assert(length == 0) by (nonlinear_arith)
                requires
                    frames == 0,
                    frames * channels == length,
            ;
            assert(buffer_out@.skip(0) == old(buffer_out)@.skip(0));
            assert(0 * channels == 0);
            assert(self.needs().subrange(
                self.needs().len() as int,
                self.needs().len() as int + 0,
            ) == Seq::<usize>::empty());
            assert(self.answers() == self.answers() + answers_of(
                self.taken().subrange(start, start),
                false,
            ));
            assert(self.calls() == self.calls() + Seq::<ResamplerCall<S>>::empty() + Seq::<
                ResamplerCall<S>,
            >::empty());
            return (0, Ghost((0, 0)));
        }
        assert(length > 0) by (nonlinear_arith)
            requires
                frames * channels == length,
                frames > 0,
                channels > 0,
        ;
        if !self.realign() {
            self.handle_xrun(measure_xruns);
            assert(buffer_out@.skip(0) == old(buffer_out)@.skip(0));
            assert(slide(self.last_frames@, self.taken().subrange(start, start))
                == self.last_frames@);
            assert(self.needs().subrange(
                self.needs().len() as int,
                self.needs().len() as int + 0,
            ) == Seq::<usize>::empty());
            assert(0 * channels == 0);
            assert(self.calls() == self.calls() + Seq::<ResamplerCall<S>>::empty() + Seq::<
                ResamplerCall<S>,
            >::empty());
            return (0, Ghost((0, 0)));
        }
        let ghost first_need = self.needs().len() as int;
        proof {
            assert(self.calls() == old(self).calls() + Seq::<ResamplerCall<S>>::empty());
        }
        let ghost mut asked: Seq<usize> = Seq::empty();
        assert(0 * channels == 0);
        let ghost skipped = old(self).misaligned as int;
        let ghost mut used: int = 0;
        assert(slide(self.last_frames@, self.taken().subrange(start + skipped, start + skipped))
            == self.last_frames@);
        let mut frame_i: usize = 0;
        while frame_i < frames
            invariant
                self.wf(),
                self.misaligned == 0,
                self.same_setup(old(self)),
                self.channels == channels,
                self.strategy == old(self).strategy,
                self.rolling_ring_avg == old(self).rolling_ring_avg,
                self.xruns == old(self).xruns,
                old(self).taken().is_prefix_of(self.taken()),
                start == old(self).taken().len(),
                skipped == old(self).misaligned,
                0 <= used,
                self.taken().len() == start + skipped + used,
                self.reports() == old(self).reports(),
                first_need == old(self).needs().len(),
                self.needs() == old(self).needs() + asked,
                asked.len() == frame_i,
                used == channels * frames_used(asked),
                self.answers() == old(self).answers() + answers_of(
                    self.taken().subrange(start, self.taken().len() as int),
                    false,
                ),
                self.last_frames@ == slide(
                    old(self).last_frames@,
                    self.taken().subrange(start + skipped, start + skipped + used),
                ),
                self.calls() == old(self).calls() + run_calls(
                    asked,
                    old(self).last_frames@,
                    self.taken().subrange(start + skipped, start + skipped + used),
                    channels as int,
                    buffer_out@.take(frame_i * channels),
                ),
                frame_i <= frames,
                frames * channels == length,
                buffer_out@.len() == length,
                old(buffer_out)@.len() == length,
                forall|i: int|
                    frame_i * channels <= i < length ==> buffer_out@[i] == old(buffer_out)@[i],
            decreases frames - frame_i,
        {
            let ghost made = self.calls();
            let needed: usize = self.resampler.samples_needed();
            proof {
                self.needs@ = self.needs@.push(needed);
                assert(self.needs() == old(self).needs() + asked.push(needed));
            }
            let fresh_frames: usize = if needed > FRAME_LOOKBACK {
                FRAME_LOOKBACK
            } else {
                needed
            };
            assert(fresh_frames * channels <= FRAME_LOOKBACK * channels) by (nonlinear_arith)
                requires
                    fresh_frames <= FRAME_LOOKBACK,
                    channels > 0,
            ;
            let fresh: usize = fresh_frames * channels;
            let ghost before = self.taken();
            let stored: usize = self.ring_in.pop_into(
                self.resample_scratch.as_mut_slice(),
                0,
                fresh,
            );
            proof {
                lemma_aligned_plus(before.len() as int, stored as int, channels as int);
                lemma_whole_frames(fresh_frames as int, channels as int);
                assert(frame_i * channels < length) by (nonlinear_arith)
                    requires
                        frame_i < frames,
                        frames * channels == length,
                        channels > 0,
                ;
            }
            if stored < fresh {
                let ghost partial = self.taken();
                self.clean_up(stored % channels, measure_xruns);
                proof {
                    assert(buffer_out@.skip(frame_i * channels) == old(buffer_out)@.skip(
                        frame_i * channels,
                    ));
                    lemma_prefix_subrange(
                        before,
                        partial,
                        start + skipped,
                        start + skipped + used,
                    );
                    lemma_prefix_subrange(
                        partial,
                        self.taken(),
                        start + skipped,
                        start + skipped + used,
                    );
                    assert(self.needs().subrange(first_need, first_need + frame_i) == asked);
                    assert(self.calls() == made + seq![
                        ResamplerCall::SamplesNeeded { needed },
                    ]);
                }
                return (frame_i, Ghost((skipped, used)));
            }
            let mut channel_i: usize = 0;
            let ghost state = *self;
            let ghost begun = buffer_out@;
            proof {
                assert(self.calls() == state.calls() + interpolations(
                    state.last_frames@,
                    channels as int,
                    buffer_out@.subrange(frame_i * channels, frame_i * channels + channels),
                    0,
                ));
            }
            proof {
                assert((frame_i + 1) * channels <= length) by (nonlinear_arith)
                    requires
                        frame_i < frames,
                        frames * channels == length,
                        channels > 0,
                ;
                assert((frame_i + 1) * channels == frame_i * channels + channels)
                    by (nonlinear_arith);
            }
            while channel_i < channels
                invariant
                    self.same_but_calls(&state),
                    state.shaped(),
                    self.shaped(),
                    self.channels == channels,
                    channel_i <= channels,
                    0 <= frame_i * channels,
                    frame_i * channels + channels <= length,
                    buffer_out@.len() == length,
                    old(buffer_out)@.len() == length,
                    begun.len() == length,
                    buffer_out@.take(frame_i * channels) == begun.take(frame_i * channels),
                    forall|i: int|
                        frame_i * channels + channels <= i < length ==> buffer_out@[i] == old(
                            buffer_out)@[i],
                    self.calls() == state.calls() + interpolations(
                        state.last_frames@,
                        channels as int,
                        buffer_out@.subrange(frame_i * channels, frame_i * channels + channels),
                        channel_i as int,
                    ),
                decreases channels - channel_i,
            {
                let ghost outs = buffer_out@.subrange(
                    frame_i * channels,
                    frame_i * channels + channels,
                );
                let x0: S = self.last_frames[channel_i];
                let x1: S = self.last_frames[channels + channel_i];
                let x2: S = self.last_frames[2 * channels + channel_i];
                let x3: S = self.last_frames[3 * channels + channel_i];
                let out: S = self.resampler.interpolate(x0, x1, x2, x3);
                buffer_out[frame_i * channels + channel_i] = out;
                proof {
                    assert(interpolations(
                        state.last_frames@,
                        channels as int,
                        buffer_out@.subrange(frame_i * channels, frame_i * channels + channels),
                        channel_i + 1,
                    ) == interpolations(
                        state.last_frames@,
                        channels as int,
                        outs,
                        channel_i as int,
                    ).push(ResamplerCall::Interpolate { x0, x1, x2, x3, out }));
                    assert(buffer_out@.take(frame_i * channels) == begun.take(frame_i * channels));
                }
                channel_i += 1;
            }
            slide_in(&mut self.last_frames, self.resample_scratch.as_slice(), fresh);
            self.resampler.advance();
            proof {
                let taken = self.taken();
                let fresh_old = before.subrange(start + skipped, start + skipped + used);
                let fresh_new = taken.subrange(start + skipped, start + skipped + used + fresh);
                let outs_old = begun.take(frame_i * channels);
                let outs_new = buffer_out@.take(frame_i * channels + channels);
                let frame = buffer_out@.subrange(frame_i * channels, frame_i * channels + channels);
                assert(fresh_old.is_prefix_of(fresh_new)) by {
                    lemma_prefix_subrange(before, taken, start + skipped, start + skipped + used);
                    assert(fresh_new.subrange(0, used) == fresh_old);
                }
                assert(outs_old.is_prefix_of(outs_new)) by {
                    assert(outs_new.subrange(0, frame_i * channels) == buffer_out@.take(
                        frame_i * channels,
                    ));
                }
                lemma_run_calls_stable(
                    asked,
                    old(self).last_frames@,
                    fresh_old,
                    fresh_new,
                    channels as int,
                    outs_old,
                    outs_new,
                );
                lemma_run_calls_push(
                    asked,
                    needed,
                    old(self).last_frames@,
                    fresh_new,
                    channels as int,
                    outs_new,
                );
                assert(fresh_new.take(channels * frames_used(asked)) == fresh_old);
                assert(outs_new.subrange(asked.len() * channels, asked.len() * channels + channels)
                    == frame);
                assert(self.calls() == made + (seq![ResamplerCall::SamplesNeeded { needed }]
                    + interpolations(state.last_frames@, channels as int, frame, channels as int)
                    + seq![ResamplerCall::Advance]));
            }
            proof {
                let taken = self.taken();
                let first = taken.subrange(start + skipped, start + skipped + used);
                let second = self.resample_scratch@.take(fresh as int);
                lemma_prefix_subrange(before, taken, start + skipped, start + skipped + used);
                lemma_slide_twice(old(self).last_frames@, first, second);
                assert(first + second == taken.subrange(
                    start + skipped,
                    start + skipped + used + fresh,
                ));
                lemma_answers_join(before.subrange(start, before.len() as int), second, false);
                assert(before.subrange(start, before.len() as int) + second == taken.subrange(
                    start,
                    taken.len() as int,
                ));
                lemma_frames_used_push(asked, needed);
                assert(used + fresh == channels * frames_used(asked.push(needed)))
                    by (nonlinear_arith)
                    requires
                        used == channels * frames_used(asked),
                        fresh == fresh_frames * channels,
                        frames_used(asked.push(needed)) == frames_used(asked) + fresh_frames,
                ;
                asked = asked.push(needed);
                used = used + fresh;
            }
            frame_i += 1;
        }
        assert(buffer_out@.skip(frames * channels) == old(buffer_out)@.skip(frames * channels));
        assert(self.needs().subrange(first_need, first_need + frames) == asked);
        (frames, Ghost((skipped, used)))
    }

    /// The xrun count once a callback has looked at the ring and found
    /// `slots` samples in it: a full ring is an overrun.
    pub open spec fn xruns_after_check(&self, slots: usize, measure_xruns: bool) -> u64 {
        counted(self.xrun_count(), measure_xruns && slots == self.ring_size())
    }

    /// Whether a callback that finds `slots` samples in the ring turns
    /// compensation on: the stream is idle and the xrun count, this
    /// callback's overrun included, has reached the threshold.
    pub open spec fn arms(&self, slots: usize, measure_xruns: bool) -> bool {
        &&& self.strategy() == CompensationStrategy::Idle
        &&& self.xruns_after_check(slots, measure_xruns) >= self.threshold()
    }

    /// The strategy after a callback that finds `slots` samples in the ring.
    pub open spec fn next_strategy(
        &self,
        slots: usize,
        measure_xruns: bool,
    ) -> CompensationStrategy {
        if self.arms(slots, measure_xruns) {
            CompensationStrategy::Resample
        } else {
            self.strategy()
        }
    }

    /// What a callback without resampling leaves behind, `self` being the
    /// sink after it and `written` the number of samples that the ring had
    /// for it. The first `written` slots of the buffer hold the samples
    /// read, in order, and the others are untouched. If the buffer was
    /// filled, nothing else was read and no xrun is counted on top of
    /// `xruns`. If not, one xrun is counted, and the rest of the frame that
    /// the ring ran out in is dropped or pending.
    pub open spec fn passed_through(
        &self,
        before: &Self,
        out_before: Seq<S>,
        out_after: Seq<S>,
        xruns: u64,
        measure_xruns: bool,
        written: int,
    ) -> bool {
        let start = before.taken().len() as int;
        &&& 0 <= written <= out_before.len()
        &&& out_after.len() == out_before.len()
        &&& self.lookback() == before.lookback()
        &&& out_after == self.taken().subrange(start, start + written) + out_before.skip(written)
        &&& self.needs() == before.needs()
        &&& self.calls() == before.calls()
        &&& self.answers() == before.answers() + answers_after(
            self.taken(),
            start,
            written,
            written < out_before.len(),
            self.pending_alignment() > 0,
        )
        &&& written == out_before.len() ==> {
            &&& self.xrun_count() == xruns
            &&& self.pending_alignment() == 0
            &&& self.taken().len() == start + written
        }
        &&& written < out_before.len() ==> {
            &&& self.xrun_count() == counted(xruns, measure_xruns)
            &&& self.taken().len() + self.pending_alignment() == start + written + alignment_gap(
                self.spec_channels() as int,
                written % (self.spec_channels() as int),
            )
        }
    }

    /// What a callback with resampling leaves behind, `self` being the sink
    /// after it. Of the samples read, the first `seeded` filled the lookback
    /// behind its oldest frame, which happens on turning compensation on
    /// and takes three frames; `skipped` were then dropped to reach a frame
    /// boundary; and the lookback has slid over the `used` that followed,
    /// whole frames. `frames_written` frames of the buffer were written, and
    /// the frames after them are untouched. One xrun is counted on top of
    /// `xruns` if the ring ran out while the lookback was filled, and one
    /// if the buffer was not filled.
    pub open spec fn resampled(
        &self,
        before: &Self,
        out_before: Seq<S>,
        out_after: Seq<S>,
        xruns: u64,
        measure_xruns: bool,
        armed: bool,
        seeded: int,
        skipped: int,
        used: int,
        frames_written: int,
    ) -> bool {
        let channels = self.spec_channels() as int;
        let start = before.taken().len() as int;
        let wanted = if armed {
            (FRAME_LOOKBACK - 1) * channels
        } else {
            0
        };
        let filled = before.lookback().take(channels) + self.taken().subrange(
            start,
            start + seeded,
        ) + before.lookback().skip(channels + seeded);
        let written = frames_written * channels;
        &&& 0 <= seeded <= wanted
        &&& 0 <= skipped
        &&& 0 <= used
        &&& start + seeded + skipped + used <= self.taken().len()
        &&& 0 <= frames_written
        &&& written <= out_before.len()
        &&& out_after.len() == out_before.len()
        &&& out_after.skip(written) == out_before.skip(written)
        &&& self.lookback() == slide(
            filled,
            self.taken().subrange(start + seeded + skipped, start + seeded + skipped + used),
        )
        &&& self.xrun_count() == counted(
            counted(xruns, measure_xruns && seeded < wanted),
            measure_xruns && written < out_before.len(),
        )
        &&& written == out_before.len() && written > 0 ==> self.pending_alignment() == 0
        &&& before.needs().is_prefix_of(self.needs())
        &&& before.needs().len() + frames_written <= self.needs().len() <= before.needs().len()
            + frames_written + 1
        &&& written == out_before.len() ==> self.needs().len() == before.needs().len()
            + frames_written
        &&& used == channels * frames_used(
            self.needs().subrange(
                before.needs().len() as int,
                before.needs().len() + frames_written,
            ),
        )
        &&& self.calls() == before.calls().push(
            if armed {
                ResamplerCall::Start {
                    occupancy: before.occupancy(),
                    ring_size: before.ring_size(),
                }
            } else {
                ResamplerCall::Retune {
                    occupancy: before.occupancy(),
                    ring_size: before.ring_size(),
                }
            },
        ) + run_calls(
            self.needs().subrange(
                before.needs().len() as int,
                before.needs().len() + frames_written,
            ),
            filled,
            self.taken().subrange(start + seeded + skipped, start + seeded + skipped + used),
            channels,
            out_after.take(written),
        ) + if self.needs().len() > before.needs().len() + frames_written {
            seq![ResamplerCall::SamplesNeeded { needed: self.needs().last() }]
        } else {
            Seq::empty()
        }
        &&& if seeded == wanted && written == out_before.len() {
            &&& self.taken().len() == start + seeded + used
            &&& self.answers() == before.answers() + answers_of(
                self.taken().subrange(start, self.taken().len() as int),
                false,
            )
        } else {
            self.answers().len() - before.answers().len() > self.taken().len() - start
        }
    }

    /// Meant to be called from an output callback: writes the stream to the
    /// buffer that the callback provides.
    ///
    /// * `buffer_out` - the buffer of the callback, a whole number of frames
    /// * `measure_xruns` - whether xruns count. While a device starts up,
    ///   xruns are to be expected and should not start compensation.
    ///
    /// The callback first looks at how full the ring is; a full ring is an
    /// overrun. A resampling stream then lets its resampler retune. An idle
    /// stream whose xrun count has reached the threshold turns resampling
    /// on and fills its lookback from the ring. The occupancy is recorded,
    /// and then samples are moved: unchanged, or resampled.
    ///
    /// The stream never reads a frame in part: when the ring runs out
    /// within a frame, the rest of that frame is dropped as soon as the ring
    /// has it, by this call or by `realign`.
    #[verifier::rlimit(60)]
    pub fn output_samples(&mut self, buffer_out: &mut [S], measure_xruns: bool)
        requires
            old(self).wf(),
            old(self).pending_alignment() == 0,
            old(buffer_out)@.len() % (old(self).spec_channels() as nat) == 0,
        ensures
            final(self).wf(),
            final(self).same_setup(old(self)),
            final(buffer_out)@.len() == old(buffer_out)@.len(),
            final(self).reports() == old(self).reports().push(final(self).reports().last()),
            final(self).occupancy().last() == slots_within(
                final(self).reports().last(),
                final(self).ring_size(),
            ),
            final(self).occupancy().last() <= final(self).ring_size(),
            final(self).occupancy() == slide(
                old(self).occupancy(),
                seq![final(self).occupancy().last()],
            ),
            final(self).strategy() == old(self).next_strategy(
                final(self).occupancy().last(),
                measure_xruns,
            ),
            old(self).taken().is_prefix_of(final(self).taken()),
            (final(self).taken().len() + final(self).pending_alignment()) % (final(
                self).spec_channels() as int) == 0,
            final(self).strategy() != CompensationStrategy::Resample ==> exists|written: int|
                final(self).passed_through(
                    old(self),
                    old(buffer_out)@,
                    final(buffer_out)@,
                    old(self).xruns_after_check(final(self).occupancy().last(), measure_xruns),
                    measure_xruns,
                    written,
                ),
            final(self).strategy() == CompensationStrategy::Resample ==> exists|
                seeded: int,
                skipped: int,
                used: int,
                frames_written: int,
            |
                final(self).resampled(
                    old(self),
                    old(buffer_out)@,
                    final(buffer_out)@,
                    old(self).xruns_after_check(final(self).occupancy().last(), measure_xruns),
                    measure_xruns,
                    old(self).arms(final(self).occupancy().last(), measure_xruns),
                    seeded,
                    skipped,
                    used,
                    frames_written,
                ),
    {
        let ring_slots: usize = self.ring_in.slots();
        if ring_slots == self.ring_in.capacity() {
            self.handle_xrun(measure_xruns);
        }
        let ghost xruns = self.xruns;
        let ghost start = self.taken().len() as int;
        let ghost mut armed = false;
        let ghost mut seeded: int = 0;
        proof {
            lemma_lookback_frames(self.channels as int);
            assert(self.last_frames@ == self.last_frames@.take(self.channels as int)
                + self.taken().subrange(start, start) + self.last_frames@.skip(
                self.channels as int,
            ));
        }
        match self.strategy {
            CompensationStrategy::Resample => {
                self.resampler.retune(self.rolling_ring_avg.as_slice(), self.ring_in.capacity());
            },
            CompensationStrategy::Idle => {
                if self.xruns >= self.compensation_start_threshold {
                    let count: usize = self.arm(measure_xruns);
                    proof {
                        armed = true;
                        seeded = count as int;
                    }
                }
            },
            CompensationStrategy::Never => {},
        }
        let ghost middle = self.taken();
        let ghost lookback_middle = self.last_frames@;
        let ghost pending_middle = self.misaligned > 0;
        let ghost answered = self.answers();
        let ghost seeds = middle.subrange(start, start + seeded);
        assert(answered == old(self).answers() + answers_after(
            middle,
            start,
            seeded,
            armed && seeded < (FRAME_LOOKBACK - 1) * self.channels,
            pending_middle,
        )) by {
            if !armed {
                assert(answers_of(middle.subrange(start, start), false) == Seq::<
                    Option<S>,
                >::empty());
            }
        }
        slide_in_one(&mut self.rolling_ring_avg, ring_slots);
        assert(self.rolling_ring_avg@.last() == ring_slots);
        match self.strategy {
            CompensationStrategy::Resample => {
                let outcome = self.fill_resampled(buffer_out, measure_xruns);
                proof {
                    let dropped = middle.len() - start - seeded;
                    let skipped = dropped + outcome.1@.0;
                    let used = outcome.1@.1;
                    let wanted: int = if armed {
                        (FRAME_LOOKBACK - 1) * self.channels
                    } else {
                        0
                    };
                    let seeds = middle.subrange(start, start + seeded);
                    let drops = middle.subrange(start + seeded, middle.len() as int);
                    lemma_prefix_subrange(middle, self.taken(), start, start + seeded);
                    assert(lookback_middle == old(self).last_frames@.take(self.channels as int)
                        + self.taken().subrange(start, start + seeded) + old(
                        self).last_frames@.skip(self.channels + seeded));
                    assert(self.taken().subrange(
                        middle.len() + outcome.1@.0,
                        middle.len() + outcome.1@.0 + outcome.1@.1,
                    ) == self.taken().subrange(
                        start + seeded + skipped,
                        start + seeded + skipped + used,
                    ));
                    lemma_answers_len(seeds, seeded < wanted);
                    lemma_answers_len(drops, pending_middle);
                    lemma_answers_len(seeds, false);
                    if seeded == wanted && outcome.0 * self.channels == old(buffer_out)@.len() {
                        let rest = self.taken().subrange(
                            middle.len() as int,
                            self.taken().len() as int,
                        );
                        lemma_answers_join(seeds, rest, false);
                        assert(middle.len() == start + seeded);
                        assert(seeds + rest == self.taken().subrange(
                            start,
                            self.taken().len() as int,
                        ));
                        assert(answered == old(self).answers() + answers_of(seeds, false));
                        assert(self.answers() == answered + answers_of(rest, false));
                        assert(self.answers() =~= old(self).answers() + (answers_of(seeds, false)
                            + answers_of(rest, false)));
                    }
                    assert(xruns == old(self).xruns_after_check(ring_slots, measure_xruns));
                    assert(armed == old(self).arms(ring_slots, measure_xruns));
                    assert(self.resampled(
                        old(self),
                        old(buffer_out)@,
                        buffer_out@,
                        xruns,
                        measure_xruns,
                        armed,
                        seeded,
                        skipped,
                        used,
                        outcome.0 as int,
                    ));
                }
            },
            _ => {
                let written: usize = self.fill_direct(buffer_out, measure_xruns);
                assert(xruns == old(self).xruns_after_check(ring_slots, measure_xruns));
                assert(self.passed_through(
                    old(self),
                    old(buffer_out)@,
                    buffer_out@,
                    xruns,
                    measure_xruns,
                    written as int,
                ));
            },
        }
    }

    /// Forces compensation to start at the next callback.
    pub fn enable_compensation(&mut self)
        requires
            old(self).wf(),
        ensures
            final(self).wf(),
            final(self).same_setup(old(self)),
            final(self).xrun_count() == old(self).threshold(),
            final(self).strategy() == CompensationStrategy::Idle,
            final(self).taken() == old(self).taken(),
            final(self).pending_alignment() == old(self).pending_alignment(),
            final(self).occupancy() == old(self).occupancy(),
            final(self).lookback() == old(self).lookback(),
    {
        self.xruns = self.compensation_start_threshold;
        self.strategy = CompensationStrategy::Idle;
    }

    /// Forces compensation to never happen.
    pub fn disable_compensation(&mut self)
        requires
            old(self).wf(),
        ensures
            final(self).wf(),
            final(self).same_setup(old(self)),
            final(self).xrun_count() == 0,
            final(self).strategy() == CompensationStrategy::Never,
            final(self).taken() == old(self).taken(),
            final(self).pending_alignment() == old(self).pending_alignment(),
            final(self).occupancy() == old(self).occupancy(),
            final(self).lookback() == old(self).lookback(),
    {
        self.xruns = 0;
        self.strategy = CompensationStrategy::Never;
    }

    /// Goes back to the initial mode, in which compensation starts by
    /// itself, and forgets the xruns counted.
    pub fn reset_compensation(&mut self)
        requires
            old(self).wf(),
        ensures
            final(self).wf(),
            final(self).same_setup(old(self)),
            final(self).xrun_count() == 0,
            final(self).strategy() == CompensationStrategy::Idle,
            final(self).taken() == old(self).taken(),
            final(self).pending_alignment() == old(self).pending_alignment(),
            final(self).occupancy() == old(self).occupancy(),
            final(self).lookback() == old(self).lookback(),
    {
        self.xruns = 0;
        self.strategy = CompensationStrategy::Idle;
    }
}

} // verus!
