//! The two streams that sit in a device callback: a sink that plays what an
//! application wrote to a ring, and a source that writes what a device
//! recorded to one. Each counts underruns and overruns and, past a
//! threshold, turns on resampling to follow the drift of the device clock.

pub use crate::sink::StreamSink;
pub use crate::source::StreamSource;

use crate::resample::FRAME_LOOKBACK;
use crate::ring::{answers_of, offers_of};
use vstd::arithmetic::div_mod::{
    lemma_add_mod_noop, lemma_fundamental_div_mod, lemma_mod_bound, lemma_mod_multiples_basic,
    lemma_mod_multiples_vanish, lemma_mod_twice,
};
use vstd::prelude::*;

verus! {

/// What a stream does about drift.
#[derive(Debug, Clone, Copy, PartialEq, Eq)]
pub enum CompensationStrategy {
    /// Resampling is switched off and stays off.
    Never,
    /// Samples pass unchanged until enough xruns were counted.
    Idle,
    /// Samples are resampled; ratio and position are the resampler's.
    Resample,
}

/// An xrun counter after one more event, which counts only when `count`
/// holds. The counter stays at its maximum once there.
pub open spec fn counted(xruns: u64, count: bool) -> u64 {
    if count && xruns < u64::MAX {
        (xruns + 1) as u64
    } else {
        xruns
    }
}

/// The same as [`counted`], for a counter of type `usize`.
pub open spec fn tallied(xruns: usize, count: bool) -> usize {
    if count && xruns < usize::MAX {
        (xruns + 1) as usize
    } else {
        xruns
    }
}

/// `after` is `before` followed by nothing but copies of `silence`.
pub open spec fn padded<S>(before: Seq<S>, after: Seq<S>, silence: S) -> bool {
    &&& before.is_prefix_of(after)
    &&& forall|i: int| before.len() <= i < after.len() ==> after[i] == silence
}

/// The answers of a ring to a run of reads, `taken` being every sample read
/// so far and the run having begun after the first `start` of them. The ring
/// gave `kept` samples. If the run fell `short`, it then gave an empty
/// answer, after which the rest of the frame cut was asked for: the ring
/// gave the samples that follow in `taken`, and one more empty answer if
/// some are still `pending`.
pub open spec fn answers_after<S>(
    taken: Seq<S>,
    start: int,
    kept: int,
    short: bool,
    pending: bool,
) -> Seq<Option<S>> {
    answers_of(taken.subrange(start, start + kept), short) + if short {
        answers_of(taken.subrange(start + kept, taken.len() as int), pending)
    } else {
        Seq::empty()
    }
}

/// The offers to a ring in a run of writes, `given` being every sample
/// written so far, the run having begun after the first `start` of them, and
/// `waiting` the samples to write. The ring took the first `kept` of them.
/// If that is not all, it refused the next, after which the rest of the
/// frame cut was filled with `silence`: the ring took the samples that
/// follow in `given`, and refused one more if some are still `pending`.
pub open spec fn offers_after<S>(
    given: Seq<S>,
    start: int,
    waiting: Seq<S>,
    kept: int,
    silence: S,
    pending: bool,
) -> Seq<(S, bool)> {
    if kept < waiting.len() {
        offers_of(waiting.take(kept), Some(waiting[kept])) + offers_of(
            given.subrange(start + kept, given.len() as int),
            if pending {
                Some(silence)
            } else {
                None
            },
        )
    } else {
        offers_of(waiting.take(kept), None)
    }
}

/// The number of answers to a run of reads.
pub(crate) proof fn lemma_answers_len<S>(samples: Seq<S>, then_empty: bool)
    ensures
        answers_of(samples, then_empty).len() == samples.len() + if then_empty {
            1int
        } else {
            0int
        },
{
}

/// One more sample read is one more answer.
pub(crate) proof fn lemma_answers_push<S>(samples: Seq<S>, sample: S)
    ensures
        answers_of(samples.push(sample), false) == answers_of(samples, false).push(Some(sample)),
{
    assert(answers_of(samples.push(sample), false) =~= answers_of(samples, false).push(
        Some(sample),
    ));
}

/// Answers to two runs of reads, the first without an empty answer, are the
/// answers to one run.
pub(crate) proof fn lemma_answers_join<S>(first: Seq<S>, second: Seq<S>, then_empty: bool)
    ensures
        answers_of(first, false) + answers_of(second, then_empty) == answers_of(
            first + second,
            then_empty,
        ),
{
    assert(answers_of(first, false) + answers_of(second, then_empty) =~= answers_of(
        first + second,
        then_empty,
    ));
}

/// The number of offers in a run of writes.
pub(crate) proof fn lemma_offers_len<S>(samples: Seq<S>, refused: Option<S>)
    ensures
        offers_of(samples, refused).len() == samples.len() + if refused is Some {
            1int
        } else {
            0int
        },
{
}

/// One more sample written is one more offer.
pub(crate) proof fn lemma_offers_push<S>(samples: Seq<S>, sample: S)
    ensures
        offers_of(samples.push(sample), None) == offers_of(samples, None).push((sample, true)),
{
    assert(offers_of(samples.push(sample), None) =~= offers_of(samples, None).push(
        (sample, true),
    ));
}

/// Offers in two runs of writes, the first without a refusal, are the
/// offers of one run.
pub(crate) proof fn lemma_offers_join<S>(first: Seq<S>, second: Seq<S>, refused: Option<S>)
    ensures
        offers_of(first, None) + offers_of(second, refused) == offers_of(first + second, refused),
{
    assert(offers_of(first, None) + offers_of(second, refused) =~= offers_of(
        first + second,
        refused,
    ));
}

/// The most output frames that one input callback writes while resampling,
/// `frames_waiting` being the frames that wait when the writing begins: two
/// more than twice as many, as far as a `usize` counts.
pub open spec fn frame_budget(frames_waiting: int) -> int {
    if frames_waiting > (usize::MAX - 2) / 2 {
        usize::MAX as int
    } else {
        2 * frames_waiting + 2
    }
}

/// The number of free ring slots below which an input callback counts an
/// xrun: the reader of the ring is falling behind.
pub const LOW_WATER: usize = 10;

/// The number of samples to skip in a ring to reach the next frame boundary
/// when `channel_i` samples of a frame of `channels` have gone through.
pub open spec fn alignment_gap(channels: int, channel_i: int) -> int {
    (channels - channel_i) % channels
}

/// A vector of `count` copies of `value`.
pub(crate) fn filled<T: Copy>(value: T, count: usize) -> (v: Vec<T>)
    ensures
        v@ == Seq::new(count as nat, |i: int| value),
{
    let mut v: Vec<T> = Vec::new();
    let mut i: usize = 0;
    while i < count
        invariant
            i <= count,
            v@ == Seq::new(i as nat, |j: int| value),
        decreases count - i,
    {
        v.push(value);
        i += 1;
        assert(v@ =~= Seq::new(i as nat, |j: int| value));
    }
    v
}

/// The gap is shorter than a frame, and closes the frame that `taken`
/// samples left open.
pub(crate) proof fn lemma_gap(taken: int, channels: int, channel_i: int)
    requires
        0 <= taken,
        0 < channels,
        0 <= channel_i < channels,
        taken % channels == channel_i,
    ensures
        0 <= alignment_gap(channels, channel_i) < channels,
        (taken + alignment_gap(channels, channel_i)) % channels == 0,
{
    let gap = alignment_gap(channels, channel_i);
    lemma_mod_bound(channels - channel_i, channels);
    // The frame closes when what is left of it is added ...
    lemma_fundamental_div_mod(taken, channels);
    lemma_mod_multiples_vanish(taken / channels + 1, 0, channels);
    assert(taken + (channels - channel_i) == channels * (taken / channels + 1) + 0)
        by (nonlinear_arith)
        requires
            taken == channels * (taken / channels) + channel_i,
    ;
    // ... and the gap is what is left of it, but for whole frames.
    lemma_add_mod_noop(taken, channels - channel_i, channels);
    lemma_mod_twice(channels - channel_i, channels);
    lemma_add_mod_noop(taken, gap, channels);
}

/// Samples added to whole frames leave open what they leave open alone.
pub(crate) proof fn lemma_aligned_plus(taken: int, more: int, channels: int)
    requires
        0 <= taken,
        0 <= more,
        0 < channels,
        taken % channels == 0,
    ensures
        (taken + more) % channels == more % channels,
        0 <= more % channels < channels,
{
    lemma_add_mod_noop(taken, more, channels);
    lemma_mod_twice(more, channels);
    lemma_mod_bound(more, channels);
}

/// Whole frames leave no frame open.
pub(crate) proof fn lemma_whole_frames(frames: int, channels: int)
    requires
        0 <= frames,
        0 < channels,
    ensures
        (frames * channels) % channels == 0,
        0 <= frames * channels,
{
    lemma_mod_multiples_basic(frames, channels);
    assert(0 <= frames * channels) by (nonlinear_arith)
        requires
            0 <= frames,
            0 < channels,
    ;
}
/// Products with `FRAME_LOOKBACK`, written out.
pub(crate) proof fn lemma_lookback_frames(channels: int)
    ensures
        FRAME_LOOKBACK * channels == 4 * channels,
        (FRAME_LOOKBACK - 1) * channels == 3 * channels,
{
    assert(FRAME_LOOKBACK * channels == 4 * channels) by (nonlinear_arith)
        requires
            FRAME_LOOKBACK == 4,
    ;
    assert((FRAME_LOOKBACK - 1) * channels == 3 * channels) by (nonlinear_arith)
        requires
            FRAME_LOOKBACK == 4,
    ;
}

/// Whole frames less whole frames are whole frames.
pub(crate) proof fn lemma_minus_frames(length: int, fresh_frames: int, channels: int)
    requires
        0 < channels,
        length % channels == 0,
    ensures
        (length - fresh_frames * channels) % channels == 0,
{
    lemma_mod_multiples_vanish(fresh_frames, length - fresh_frames * channels, channels);
    assert(channels * fresh_frames + (length - fresh_frames * channels) == length)
        by (nonlinear_arith);
}

/// What follows `from` in a sequence is what follows it in a sequence that
/// the first starts, and then what the second adds.
pub(crate) proof fn lemma_prefix_from<T>(short: Seq<T>, long: Seq<T>, from: int)
    requires
        short.is_prefix_of(long),
        0 <= from <= short.len(),
    ensures
        short.subrange(from, short.len() as int) + long.subrange(
            short.len() as int,
            long.len() as int,
        ) == long.subrange(from, long.len() as int),
{
    assert(short.subrange(from, short.len() as int) + long.subrange(
        short.len() as int,
        long.len() as int,
    ) =~= long.subrange(from, long.len() as int));
}

/// A part of a sequence is the same part of every sequence that starts with
/// it.
pub(crate) proof fn lemma_prefix_subrange<T>(short: Seq<T>, long: Seq<T>, from: int, to: int)
    requires
        short.is_prefix_of(long),
        0 <= from <= to <= short.len(),
    ensures
        long.subrange(from, to) == short.subrange(from, to),
{
    assert(long.subrange(from, to) =~= short.subrange(from, to));
}

} // verus!
