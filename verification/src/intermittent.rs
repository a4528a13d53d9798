//! Messages that arrive now and then: a source that stamps what a device
//! callback delivers with the local time and sends it on, and a sink that
//! hands on what it receives.

use crate::time::{duration_nanos, DeltaDuration};
use std::collections::VecDeque;
use std::marker::PhantomData;
use std::sync::mpsc::{Receiver, Sender};
use std::time::Duration;
use vstd::prelude::*;

verus! {

/// `std::sync::mpsc::Sender`, the sending end of a channel; nothing is
/// known of what is inside.
#[verifier::external_type_specification]
#[verifier::external_body]
#[verifier::reject_recursive_types(T)]
pub struct ExSender<T>(Sender<T>);

/// `std::sync::mpsc::Receiver`, the receiving end of a channel; nothing is
/// known of what is inside.
#[verifier::external_type_specification]
#[verifier::external_body]
#[verifier::reject_recursive_types(T)]
pub struct ExReceiver<T>(Receiver<T>);

/// `Sender::send`: hands `value` to the channel and returns `true`, or
/// returns `false` when the receiver is gone. That depends on the other end,
/// so nothing is claimed of the result.
#[verifier::external_body]
fn channel_send<T>(channel: &Sender<T>, value: T) -> bool {
    channel.send(value).is_ok()
}

/// `Receiver::recv`: waits for the next value of the channel, or returns
/// `None` once every sender is gone. What arrives depends on the other end,
/// so nothing is claimed of the result.
#[verifier::external_body]
fn channel_recv<T>(channel: &Receiver<T>) -> Option<T> {
    channel.recv().ok()
}

/// Appends `items` to `queue`, in order.
fn enqueue_all<T>(queue: &mut VecDeque<T>, items: Vec<T>)
    ensures
        final(queue)@ == old(queue)@ + items@,
{
    for item in it: items
        invariant
            queue@ == old(queue)@ + it.seq().take(it.index() as int),
            it.seq() == items@,
    {
        queue.push_back(item);
        assert(it.seq().take(it.index() + 1) == it.seq().take(it.index() as int).push(item));
    }
    assert(items@.take(items@.len() as int) == items@);
}

/// A value and the time at which it was taken, counted from the start of
/// the local clock.
#[derive(Debug, Clone)]
pub struct TimedValue<T> {
    pub since_start: Duration,
    pub value: T,
}

/// One run of a converting function on a queue: what the queue held when
/// the function was called, the time it was called with, the value it
/// returned, and what it left in the queue.
pub struct Run<In, Out> {
    pub before: Seq<In>,
    pub since_start: Duration,
    pub value: Option<TimedValue<Out>>,
    pub after: Seq<In>,
}

/// A queue of input items and the function that turns its front into an
/// output value.
pub struct StreamMapper<In, Out, F> {
    pub values_in: VecDeque<In>,
    step: F,
    output: PhantomData<Out>,
    runs: Ghost<Seq<Run<In, Out>>>,
}

impl<In, Out, F: FnMut(&mut VecDeque<In>, Duration) -> Option<TimedValue<Out>>> StreamMapper<
    In,
    Out,
    F,
> {
    /// The items waiting, oldest first.
    pub closed spec fn queued(&self) -> Seq<In> {
        self.values_in@
    }

    /// The function that looks at the queue.
    pub closed spec fn function(&self) -> F {
        self.step
    }

    /// Every run of the function made through `step`, oldest first.
    pub closed spec fn runs(&self) -> Seq<Run<In, Out>> {
        self.runs@
    }

    /// The function can be called on every queue and time.
    pub closed spec fn total(&self) -> bool {
        forall|queue: &mut VecDeque<In>, since_start: Duration|
            call_requires(self.step, (queue, since_start))
    }

    /// Creates a mapper with an empty queue.
    pub fn new(step: F) -> (mapper: Self)
        requires
            forall|queue: &mut VecDeque<In>, since_start: Duration|
                call_requires(step, (queue, since_start)),
        ensures
            mapper.total(),
            mapper.function() == step,
            mapper.queued() == Seq::<In>::empty(),
            mapper.runs() == Seq::<Run<In, Out>>::empty(),
    {
        StreamMapper {
            values_in: VecDeque::new(),
            step,
            output: PhantomData,
            runs: Ghost(Seq::empty()),
        }
    }

    /// Lets the function look at the queue, unless the queue is empty.
    pub fn step(&mut self, since_start: Duration) -> (value: Option<TimedValue<Out>>)
        requires
            old(self).total(),
        ensures
            final(self).total(),
            final(self).function() == old(self).function(),
            old(self).queued().len() == 0 ==> {
                &&& value is None
                &&& final(self).queued() == old(self).queued()
                &&& final(self).runs() == old(self).runs()
            },
            old(self).queued().len() > 0 ==> final(self).runs() == old(self).runs().push(
                (Run {
                    before: old(self).queued(),
                    since_start,
                    value,
                    after: final(self).queued(),
                }),
            ),
            old(self).queued().len() > 0 ==> exists|queue: &mut VecDeque<In>|
                {
                    &&& queue@ == old(self).queued()
                    &&& final(queue)@ == final(self).queued()
                    &&& call_ensures(old(self).function(), (queue, since_start), value)
                },
    {
        if self.values_in.len() != 0 {
            let value = (self.step)(&mut self.values_in, since_start);
            proof {
                self.runs@ = self.runs@.push(
                    Run {
                        before: old(self).values_in@,
                        since_start,
                        value,
                        after: self.values_in@,
                    },
                );
            }
            value
        } else {
            None
        }
    }
}

/// Hands on what arrives on a channel.
#[verifier::reject_recursive_types(Output)]
pub struct IntermittentSink<Output, F> {
    channel_in: Receiver<Output>,
    send: F,
}

impl<Output, F: FnMut(Output)> IntermittentSink<Output, F> {
    /// The function can be called on every value.
    pub closed spec fn total(&self) -> bool {
        forall|value: Output| call_requires(self.send, (value,))
    }

    /// Creates a sink that hands what `channel_in` delivers to `send`.
    pub fn new(channel_in: Receiver<Output>, send: F) -> (sink: Self)
        requires
            forall|value: Output| call_requires(send, (value,)),
        ensures
            sink.total(),
    {
        IntermittentSink { channel_in, send }
    }

    /// The function that values are handed to.
    pub closed spec fn function(&self) -> F {
        self.send
    }

    /// Hands on what the channel gave: a value goes to the function, and
    /// `None`, which the channel gives once every sender is gone, ends the
    /// handing on. Returns whether there was a value.
    pub fn deliver(&mut self, received: Option<Output>) -> (more: bool)
        requires
            old(self).total(),
        ensures
            final(self).total(),
            more == received is Some,
            received matches Some(value) ==> call_ensures(old(self).function(), (value,), ()),
    {
        match received {
            Some(value) => {
                (self.send)(value);
                true
            },
            None => false,
        }
    }

    /// Waits for the next value of the channel and hands it to the
    /// function. Returns `false`, with nothing handed on, once every sender
    /// of the channel is gone.
    pub fn forward(&mut self) -> (more: bool)
        requires
            old(self).total(),
        ensures
            final(self).total(),
            more ==> exists|value: Output| call_ensures(old(self).function(), (value,), ()),
    {
        let received = channel_recv(&self.channel_in);
        self.deliver(received)
    }
}

/// The time to put on what a device delivered at its time `timestamp` when
/// the local clock stood at `since_start`. The first delivery is stamped
/// with the local time; every later one with the device time moved by
/// `relative`, the difference that the first one found.
pub open spec fn stamp_nanos(
    relative: Option<DeltaDuration>,
    since_start: Duration,
    timestamp: Duration,
) -> int {
    match relative {
        Some(delta) => duration_nanos(timestamp) + delta.nanos(),
        None => duration_nanos(since_start) as int,
    }
}

/// The difference between the local clock and the device clock after a
/// delivery: the one known, or else local time less device time at this
/// first delivery.
pub open spec fn offset_nanos(
    relative: Option<DeltaDuration>,
    since_start: Duration,
    timestamp: Duration,
) -> int {
    match relative {
        Some(delta) => delta.nanos(),
        None => duration_nanos(since_start) - duration_nanos(timestamp),
    }
}

/// Whether a delivery at device time `timestamp` can be stamped: moved by
/// `relative`, the device time is a duration.
pub open spec fn stampable(relative: Option<DeltaDuration>, timestamp: Duration) -> bool {
    match relative {
        Some(delta) => delta.fits(timestamp),
        None => true,
    }
}

/// Takes what a device callback delivers, with the device's time stamp, and
/// sends on the messages found in it, stamped with local time.
#[verifier::reject_recursive_types(Converted)]
pub struct IntermittentSource<Input, Converted, F> {
    relative: Option<DeltaDuration>,
    channel_out: Sender<TimedValue<Converted>>,
    mapper: StreamMapper<Input, Converted, F>,
    sends: Ghost<Seq<(TimedValue<Converted>, bool)>>,
}

impl<
    Input,
    Converted,
    F: FnMut(&mut VecDeque<Input>, Duration) -> Option<TimedValue<Converted>>,
> IntermittentSource<Input, Converted, F> {
    /// The difference between the local clock and the device clock, once a
    /// delivery has shown it.
    pub closed spec fn relative(&self) -> Option<DeltaDuration> {
        self.relative
    }

    /// The items delivered and not yet converted, oldest first.
    pub closed spec fn queued(&self) -> Seq<Input> {
        self.mapper.queued()
    }

    /// The converting function can be called on every queue and time.
    pub closed spec fn total(&self) -> bool {
        self.mapper.total()
    }

    /// The converting function.
    pub closed spec fn function(&self) -> F {
        self.mapper.function()
    }

    /// Every run of the converting function so far, oldest first.
    pub closed spec fn runs(&self) -> Seq<Run<Input, Converted>> {
        self.mapper.runs()
    }

    /// Every value handed to the channel so far, and whether the channel
    /// took it, oldest first.
    pub closed spec fn sends(&self) -> Seq<(TimedValue<Converted>, bool)> {
        self.sends@
    }

    /// Channel and converting function are those of `before`, and the
    /// records of runs and sends are as long.
    pub closed spec fn same_ends(&self, before: &Self) -> bool {
        &&& self.channel_out == before.channel_out
        &&& self.mapper.function() == before.mapper.function()
        &&& self.mapper.runs() == before.mapper.runs()
        &&& self.sends == before.sends
    }

    /// Creates a source that sends to `out` what `convert` finds.
    pub fn new(out: Sender<TimedValue<Converted>>, convert: F) -> (source: Self)
        requires
            forall|queue: &mut VecDeque<Input>, since_start: Duration|
                call_requires(convert, (queue, since_start)),
        ensures
            source.total(),
            source.function() == convert,
            source.relative() is None,
            source.queued() == Seq::<Input>::empty(),
            source.runs() == Seq::<Run<Input, Converted>>::empty(),
            source.sends() == Seq::<(TimedValue<Converted>, bool)>::empty(),
    {
        IntermittentSource {
            relative: None,
            channel_out: out,
            mapper: StreamMapper::new(convert),
            sends: Ghost(Seq::empty()),
        }
    }

    /// Whether a delivery at device time `timestamp` can be stamped.
    pub fn can_stamp(&self, timestamp: Duration) -> (possible: bool)
        ensures
            possible == stampable(self.relative(), timestamp),
    {
        match &self.relative {
            Some(relative) => relative.checked_add_to(timestamp).is_some(),
            None => true,
        }
    }

    /// The local time to put on a delivery made at device time `timestamp`
    /// while the local clock stood at `since_start`. The first delivery
    /// fixes the difference between the two clocks and is stamped with the
    /// local time; every later one is stamped with its device time moved by
    /// that difference.
    pub fn stamp(&mut self, since_start: Duration, timestamp: Duration) -> (processed: Duration)
        requires
            stampable(old(self).relative(), timestamp),
        ensures
            final(self).total() == old(self).total(),
            final(self).queued() == old(self).queued(),
            final(self).same_ends(old(self)),
            duration_nanos(processed) == stamp_nanos(old(self).relative(), since_start, timestamp),
            old(self).relative() is None ==> processed == since_start,
            final(self).relative() is Some,
            final(self).relative()->0.nanos() == offset_nanos(
                old(self).relative(),
                since_start,
                timestamp,
            ),
            old(self).relative() is Some ==> final(self).relative() == old(self).relative(),
    {
        match &self.relative {
            Some(relative) => relative.add_to(timestamp),
            None => {
                self.relative = Some(DeltaDuration::sub(since_start, timestamp));
                since_start
            },
        }
    }

    /// Hands a value to the channel; returns whether the channel took it.
    fn send(&mut self, value: TimedValue<Converted>) -> (accepted: bool)
        ensures
            final(self).relative == old(self).relative,
            final(self).mapper == old(self).mapper,
            final(self).sends() == old(self).sends().push((value, accepted)),
    {
        let ghost handed = value;
        let accepted = channel_send(&self.channel_out, value);
        proof {
            self.sends@ = self.sends@.push((handed, accepted));
        }
        accepted
    }

    /// Takes a delivery of the device into the queue: `messages_in`, made
    /// at device time `timestamp` while the local clock stood at
    /// `since_start`. Returns the local time to put on what is found in it.
    /// Nothing is converted or sent yet: that is done by calling
    /// [`IntermittentSource::forward_next`] with the time returned, for as
    /// long as it returns `true`.
    pub fn queue_messages(
        &mut self,
        messages_in: Vec<Input>,
        since_start: Duration,
        timestamp: Duration,
    ) -> (stamp: Duration)
        requires
            stampable(old(self).relative(), timestamp),
        ensures
            old(self).total() ==> final(self).total(),
            final(self).same_ends(old(self)),
            final(self).function() == old(self).function(),
            final(self).runs() == old(self).runs(),
            final(self).sends() == old(self).sends(),
            final(self).queued() == old(self).queued() + messages_in@,
            duration_nanos(stamp) == stamp_nanos(old(self).relative(), since_start, timestamp),
            old(self).relative() is None ==> stamp == since_start,
            final(self).relative() is Some,
            final(self).relative()->0.nanos() == offset_nanos(
                old(self).relative(),
                since_start,
                timestamp,
            ),
            old(self).relative() is Some ==> final(self).relative() == old(self).relative(),
    {
        let stamp = self.stamp(since_start, timestamp);
        enqueue_all(&mut self.mapper.values_in, messages_in);
        stamp
    }

    /// Takes a delivery into the queue as
    /// [`IntermittentSource::queue_messages`] does, whatever its time stamp:
    /// where the delivery cannot be stamped, nothing is done and the result
    /// is `None`.
    pub fn try_queue_messages(
        &mut self,
        messages_in: Vec<Input>,
        since_start: Duration,
        timestamp: Duration,
    ) -> (stamp: Option<Duration>)
        ensures
            old(self).total() ==> final(self).total(),
            final(self).same_ends(old(self)),
            final(self).function() == old(self).function(),
            final(self).runs() == old(self).runs(),
            final(self).sends() == old(self).sends(),
            stamp is Some == stampable(old(self).relative(), timestamp),
            match stamp {
                Some(stamp) => {
                    &&& final(self).queued() == old(self).queued() + messages_in@
                    &&& duration_nanos(stamp) == stamp_nanos(
                        old(self).relative(),
                        since_start,
                        timestamp,
                    )
                    &&& old(self).relative() is None ==> stamp == since_start
                    &&& final(self).relative() is Some
                    &&& final(self).relative()->0.nanos() == offset_nanos(
                        old(self).relative(),
                        since_start,
                        timestamp,
                    )
                    &&& old(self).relative() is Some ==> final(self).relative() == old(
                        self).relative()
                },
                None => {
                    &&& final(self).relative() == old(self).relative()
                    &&& final(self).queued() == old(self).queued()
                },
            },
    {
        if self.can_stamp(timestamp) {
            Some(self.queue_messages(messages_in, since_start, timestamp))
        } else {
            None
        }
    }

    /// Runs the converting function once on the queue, with the time
    /// `stamp`, and sends on the value that it returns. Returns whether
    /// there was a value and the channel took it; a delivery is forwarded by
    /// calling this for as long as it returns `true`.
    ///
    /// On an empty queue the function is not run and the result is `false`.
    /// It is also `false` when the function returns no value, and when the
    /// channel does not take the value because its receiver is gone.
    pub fn forward_next(&mut self, stamp: Duration) -> (more: bool)
        requires
            old(self).total(),
        ensures
            final(self).total(),
            final(self).relative() == old(self).relative(),
            final(self).function() == old(self).function(),
            old(self).queued().len() == 0 ==> {
                &&& !more
                &&& final(self).queued() == old(self).queued()
                &&& final(self).runs() == old(self).runs()
                &&& final(self).sends() == old(self).sends()
            },
            old(self).queued().len() > 0 ==> {
                &&& final(self).runs().len() == old(self).runs().len() + 1
                &&& final(self).runs() == old(self).runs().push(final(self).runs().last())
                &&& final(self).runs().last().before == old(self).queued()
                &&& final(self).runs().last().since_start == stamp
                &&& final(self).runs().last().after == final(self).queued()
                &&& match final(self).runs().last().value {
                    Some(value) => final(self).sends() == old(self).sends().push((value, more)),
                    None => final(self).sends() == old(self).sends() && !more,
                }
            },
            old(self).queued().len() > 0 ==> exists|queue: &mut VecDeque<Input>|
                {
                    &&& queue@ == old(self).queued()
                    &&& final(queue)@ == final(self).queued()
                    &&& call_ensures(
                        old(self).function(),
                        (queue, stamp),
                        final(self).runs().last().value,
                    )
                },
    {
        match self.mapper.step(stamp) {
            Some(value) => self.send(value),
            None => false,
        }
    }
}

} // verus!
