//! What the streams need to resample: the user-supplied arithmetic and the
//! sliding windows that feed it.

use vstd::prelude::*;

verus! {

/// Number of frames of history that interpolation looks at.
pub const FRAME_LOOKBACK: usize = 4;

/// Number of callbacks whose ring occupancy the rolling window remembers.
pub const ROLLING_AVG_LENGTH: usize = 64;

/// The arithmetic of drift compensation. A stream decides when samples move
/// and which; how the resampling ratio follows the occupancy of the ring,
/// and what an interpolated sample is, it asks of its resampler. A stream
/// relies on nothing that a resampler returns.
///
/// The position of the resampler is a fraction of a frame between the
/// second and the third frame of the lookback.
pub trait Resampler<S> {
    /// Compensation begins: the ratio returns to one and the position to
    /// zero. `occupancy` holds the ring occupancy seen by the latest
    /// callbacks, oldest first, each at most `ring_size`.
    fn start(&mut self, occupancy: &[usize], ring_size: usize);

    /// One callback has passed while compensation is on: the ratio follows
    /// the occupancy.
    fn retune(&mut self, occupancy: &[usize], ring_size: usize);

    /// The number of fresh input frames that the next output frame uses up:
    /// the whole part of position plus ratio. A stream takes at most
    /// `FRAME_LOOKBACK` fresh frames for one output frame.
    fn samples_needed(&self) -> usize;

    /// The output sample of one channel at the current position, from the
    /// four lookback samples of that channel, oldest first.
    fn interpolate(&self, x0: S, x1: S, x2: S, x3: S) -> S;

    /// One output frame is done: the position moves on by the ratio and
    /// keeps its fractional part.
    fn advance(&mut self);
}

/// The number of fresh frames that a stream takes for an output frame of
/// which the resampler says that it needs `need`: no more than the lookback
/// holds.
pub open spec fn fresh_frames(need: usize) -> int {
    if need > FRAME_LOOKBACK {
        FRAME_LOOKBACK as int
    } else {
        need as int
    }
}

/// The number of fresh frames that a stream takes for a run of output
/// frames, `needs` being what the resampler said for each.
pub open spec fn frames_used(needs: Seq<usize>) -> int
    decreases needs.len(),
{
    if needs.len() == 0 {
        0
    } else {
        frames_used(needs.drop_last()) + fresh_frames(needs.last())
    }
}

/// One more output frame uses up what it needs.
pub proof fn lemma_frames_used_push(needs: Seq<usize>, need: usize)
    ensures
        frames_used(needs.push(need)) == frames_used(needs) + fresh_frames(need),
{
    assert(needs.push(need).drop_last() == needs);
}

/// A call that a stream made to its resampler, with what it handed over and
/// what it got back.
pub enum ResamplerCall<S> {
    /// `start`, with the occupancies shown and the ring size.
    Start { occupancy: Seq<usize>, ring_size: usize },
    /// `retune`, with the occupancies shown and the ring size.
    Retune { occupancy: Seq<usize>, ring_size: usize },
    /// `samples_needed`, with its answer.
    SamplesNeeded { needed: usize },
    /// `interpolate`, with the four lookback samples and its answer.
    Interpolate { x0: S, x1: S, x2: S, x3: S, out: S },
    /// `advance`.
    Advance,
}

/// A resampler together with the record of every call made to it. A stream
/// reaches its resampler through this only, so that what it asked of the
/// resampler, and in which order, can be read off the record.
pub struct Recorded<S, R> {
    resampler: R,
    calls: Ghost<Seq<ResamplerCall<S>>>,
}

impl<S: Copy, R: Resampler<S>> Recorded<S, R> {
    /// Every call made so far, oldest first.
    pub closed spec fn calls(&self) -> Seq<ResamplerCall<S>> {
        self.calls@
    }

    /// The resampler.
    pub closed spec fn spec_resampler(&self) -> R {
        self.resampler
    }

    /// Takes a resampler to which no call was made yet.
    pub fn new(resampler: R) -> (recorded: Self)
        ensures
            recorded.spec_resampler() == resampler,
            recorded.calls() == Seq::<ResamplerCall<S>>::empty(),
    {
        Recorded { resampler, calls: Ghost(Seq::empty()) }
    }

    /// The resampler, with the ratio and position it has reached.
    pub fn resampler(&self) -> (resampler: &R)
        ensures
            *resampler == self.spec_resampler(),
    {
        &self.resampler
    }

    /// Calls `start` and records the call.
    pub fn start(&mut self, occupancy: &[usize], ring_size: usize)
        ensures
            final(self).calls() == old(self).calls().push(
                (ResamplerCall::Start { occupancy: occupancy@, ring_size }),
            ),
    {
        self.resampler.start(occupancy, ring_size);
        proof {
            self.calls@ = self.calls@.push(
                ResamplerCall::Start { occupancy: occupancy@, ring_size },
            );
        }
    }

    /// Calls `retune` and records the call.
    pub fn retune(&mut self, occupancy: &[usize], ring_size: usize)
        ensures
            final(self).calls() == old(self).calls().push(
                (ResamplerCall::Retune { occupancy: occupancy@, ring_size }),
            ),
    {
        self.resampler.retune(occupancy, ring_size);
        proof {
            self.calls@ = self.calls@.push(
                ResamplerCall::Retune { occupancy: occupancy@, ring_size },
            );
        }
    }

    /// Calls `samples_needed`, records the call and hands on the answer.
    pub fn samples_needed(&mut self) -> (needed: usize)
        ensures
            final(self).calls() == old(self).calls().push(
                (ResamplerCall::SamplesNeeded { needed }),
            ),
    {
        let needed: usize = self.resampler.samples_needed();
        proof {
            self.calls@ = self.calls@.push(ResamplerCall::SamplesNeeded { needed });
        }
        needed
    }

    /// Calls `interpolate`, records the call and hands on the answer.
    pub fn interpolate(&mut self, x0: S, x1: S, x2: S, x3: S) -> (out: S)
        ensures
            final(self).calls() == old(self).calls().push(
                (ResamplerCall::Interpolate { x0, x1, x2, x3, out }),
            ),
    {
        let out: S = self.resampler.interpolate(x0, x1, x2, x3);
        proof {
            self.calls@ = self.calls@.push(ResamplerCall::Interpolate { x0, x1, x2, x3, out });
        }
        out
    }

    /// Calls `advance` and records the call.
    pub fn advance(&mut self)
        ensures
            final(self).calls() == old(self).calls().push(ResamplerCall::Advance),
    {
        self.resampler.advance();
        proof {
            self.calls@ = self.calls@.push(ResamplerCall::Advance);
        }
    }
}

/// The calls that interpolate the first `count` channels of one output
/// frame: channel by channel, each from the four samples of that channel in
/// `lookback`, oldest first, with the result that `outs` holds for it.
pub open spec fn interpolations<S>(
    lookback: Seq<S>,
    channels: int,
    outs: Seq<S>,
    count: int,
) -> Seq<ResamplerCall<S>> {
    Seq::new(
        count as nat,
        |channel: int|
            ResamplerCall::Interpolate {
                x0: lookback[channel],
                x1: lookback[channels + channel],
                x2: lookback[2 * channels + channel],
                x3: lookback[3 * channels + channel],
                out: outs[channel],
            },
    )
}

/// The calls that make one output frame: the resampler is asked what it
/// needs, every channel is interpolated from the lookback as it stands, and
/// the resampler advances.
pub open spec fn frame_calls<S>(
    need: usize,
    lookback: Seq<S>,
    channels: int,
    outs: Seq<S>,
) -> Seq<ResamplerCall<S>> {
    seq![ResamplerCall::SamplesNeeded { needed: need }] + interpolations(
        lookback,
        channels,
        outs,
        channels,
    ) + seq![ResamplerCall::Advance]
}

/// The calls that make a run of output frames, one after the other. `needs`
/// is what the resampler says it needs for each, `lookback` the lookback
/// before the first, `fresh` the fresh samples that the frames use up, and
/// `outs` the frames made. The lookback of each frame is the first one slid
/// over what the frames before it used up.
pub open spec fn run_calls<S>(
    needs: Seq<usize>,
    lookback: Seq<S>,
    fresh: Seq<S>,
    channels: int,
    outs: Seq<S>,
) -> Seq<ResamplerCall<S>>
    decreases needs.len(),
{
    if needs.len() == 0 {
        Seq::empty()
    } else {
        let earlier = needs.drop_last();
        run_calls(earlier, lookback, fresh, channels, outs) + frame_calls(
            needs.last(),
            slide(lookback, fresh.take(channels * frames_used(earlier))),
            channels,
            outs.subrange(earlier.len() * channels, earlier.len() * channels + channels),
        )
    }
}

/// No run of frames uses up a negative number of frames.
pub proof fn lemma_frames_used_positive(needs: Seq<usize>)
    ensures
        frames_used(needs) >= 0,
    decreases needs.len(),
{
    if needs.len() > 0 {
        lemma_frames_used_positive(needs.drop_last());
    }
}

/// The calls of a run of frames do not change when more fresh samples and
/// more frames follow.
pub proof fn lemma_run_calls_stable<S>(
    needs: Seq<usize>,
    lookback: Seq<S>,
    fresh: Seq<S>,
    more_fresh: Seq<S>,
    channels: int,
    outs: Seq<S>,
    more_outs: Seq<S>,
)
    requires
        channels > 0,
        fresh.is_prefix_of(more_fresh),
        outs.is_prefix_of(more_outs),
        channels * frames_used(needs) <= fresh.len(),
        needs.len() * channels <= outs.len(),
    ensures
        run_calls(needs, lookback, more_fresh, channels, more_outs) == run_calls(
            needs,
            lookback,
            fresh,
            channels,
            outs,
        ),
    decreases needs.len(),
{
    if needs.len() > 0 {
        let earlier = needs.drop_last();
        lemma_frames_used_positive(earlier);
        let used = channels * frames_used(earlier);
        let at = earlier.len() * channels;
        assert(0 <= used <= channels * frames_used(needs)) by (nonlinear_arith)
            requires
                channels > 0,
                frames_used(earlier) >= 0,
                frames_used(needs) == frames_used(earlier) + fresh_frames(needs.last()),
                fresh_frames(needs.last()) >= 0,
                used == channels * frames_used(earlier),
        ;
        assert(0 <= at && at + channels == needs.len() * channels) by (nonlinear_arith)
            requires
                channels > 0,
                earlier.len() + 1 == needs.len(),
                at == earlier.len() * channels,
        ;
        lemma_run_calls_stable(earlier, lookback, fresh, more_fresh, channels, outs, more_outs);
        assert(more_fresh.take(used) == fresh.take(used));
        assert(more_outs.subrange(at, at + channels) == outs.subrange(at, at + channels));
    }
}

/// One more frame adds its calls to those of the frames before it.
pub proof fn lemma_run_calls_push<S>(
    needs: Seq<usize>,
    need: usize,
    lookback: Seq<S>,
    fresh: Seq<S>,
    channels: int,
    outs: Seq<S>,
)
    ensures
        run_calls(needs.push(need), lookback, fresh, channels, outs) == run_calls(
            needs,
            lookback,
            fresh,
            channels,
            outs,
        ) + frame_calls(
            need,
            slide(lookback, fresh.take(channels * frames_used(needs))),
            channels,
            outs.subrange(needs.len() * channels, needs.len() * channels + channels),
        ),
{
    assert(needs.push(need).drop_last() == needs);
}

/// A window over a stream after `fresh` has passed: as long as before, and
/// holding the newest items of the window followed by `fresh`.
pub open spec fn slide<T>(window: Seq<T>, fresh: Seq<T>) -> Seq<T> {
    (window + fresh).skip(fresh.len() as int)
}

/// Sliding over `first` and then over `second` is sliding over both.
pub proof fn lemma_slide_twice<T>(window: Seq<T>, first: Seq<T>, second: Seq<T>)
    ensures
        slide(slide(window, first), second) == slide(window, first + second),
{
    assert(slide(slide(window, first), second) =~= slide(window, first + second));
}

/// Slides `window` over the first `count` items of `fresh`.
pub fn slide_in<T: Copy>(window: &mut Vec<T>, fresh: &[T], count: usize)
    requires
        count <= old(window)@.len(),
        count <= fresh@.len(),
    ensures
        final(window)@ == slide(old(window)@, fresh@.take(count as int)),
{
    let length: usize = window.len();
    let kept: usize = length - count;
    let mut i: usize = 0;
    while i < kept
        invariant
            i <= kept,
            kept + count == length,
            window@.len() == length,
            old(window)@.len() == length,
            forall|j: int| 0 <= j < i ==> window@[j] == old(window)@[j + count],
            forall|j: int| i <= j < length ==> window@[j] == old(window)@[j],
        decreases kept - i,
    {
        window[i] = window[i + count];
        i += 1;
    }
    let mut j: usize = 0;
    while j < count
        invariant
            j <= count,
            kept + count == length,
            count <= fresh@.len(),
            window@.len() == length,
            old(window)@.len() == length,
            forall|k: int| 0 <= k < kept ==> window@[k] == old(window)@[k + count],
            forall|k: int| 0 <= k < j ==> window@[kept + k] == fresh@[k],
        decreases count - j,
    {
        window[kept + j] = fresh[j];
        j += 1;
    }
    assert(window@ =~= slide(old(window)@, fresh@.take(count as int)));
}

/// Slides `window` over the single item `value`.
pub fn slide_in_one<T: Copy>(window: &mut Vec<T>, value: T)
    requires
        old(window)@.len() >= 1,
    ensures
        final(window)@ == slide(old(window)@, seq![value]),
{
    let length: usize = window.len();
    let mut i: usize = 0;
    while i + 1 < length
        invariant
            i < length,
            window@.len() == length,
            old(window)@.len() == length,
            forall|j: int| 0 <= j < i ==> window@[j] == old(window)@[j + 1],
            forall|j: int| i <= j < length ==> window@[j] == old(window)@[j],
        decreases length - i,
    {
        window[i] = window[i + 1];
        i += 1;
    }
    window[length - 1] = value;
    assert(window@ =~= slide(old(window)@, seq![value]));
}

} // verus!
