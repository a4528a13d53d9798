//! The two ends of a single-producer single-consumer sample ring, each with
//! a record of what passed through it.

use vstd::prelude::*;

verus! {

/// `rtrb::Consumer`, the reading half of a ring; nothing is known of what
/// is inside.
#[verifier::external_type_specification]
#[verifier::external_body]
#[verifier::reject_recursive_types(T)]
pub struct ExConsumer<T>(rtrb::Consumer<T>);

/// `rtrb::Producer`, the writing half of a ring; nothing is known of what
/// is inside.
#[verifier::external_type_specification]
#[verifier::external_body]
#[verifier::reject_recursive_types(T)]
pub struct ExProducer<T>(rtrb::Producer<T>);

/// `RingBuffer::capacity` on the consumer's ring: the number of slots the
/// ring was made with. Nothing is claimed of the number.
#[verifier::external_body]
fn consumer_capacity<S>(ring: &rtrb::Consumer<S>) -> usize {
    ring.buffer().capacity()
}

/// `Consumer::slots`: how many items are ready to be read. Items arrive from
/// another thread, so nothing is claimed of the number.
#[verifier::external_body]
fn consumer_slots<S>(ring: &rtrb::Consumer<S>) -> usize {
    ring.slots()
}

/// `Consumer::pop`: the oldest item, or `None` when the ring is empty.
/// Whether the ring is empty depends on the producer, so nothing is claimed
/// of the result.
#[verifier::external_body]
fn consumer_pop<S>(ring: &mut rtrb::Consumer<S>) -> Option<S> {
    ring.pop().ok()
}

/// `RingBuffer::capacity` on the producer's ring: the number of slots the
/// ring was made with. Nothing is claimed of the number.
#[verifier::external_body]
fn producer_capacity<S>(ring: &rtrb::Producer<S>) -> usize {
    ring.buffer().capacity()
}

/// `Producer::slots`: how many slots are free to be written. Slots are freed
/// by another thread, so nothing is claimed of the number.
#[verifier::external_body]
fn producer_slots<S>(ring: &rtrb::Producer<S>) -> usize {
    ring.slots()
}

/// `Producer::push`: stores the item and returns `true`, or returns `false`
/// when the ring is full. Whether the ring is full depends on the consumer,
/// so nothing is claimed of the result.
#[verifier::external_body]
fn producer_push<S>(ring: &mut rtrb::Producer<S>, value: S) -> bool {
    ring.push(value).is_ok()
}

/// The count that a ring reports, held to the capacity of the ring.
pub open spec fn spec_slots_within(reported: usize, capacity: usize) -> usize {
    if reported <= capacity {
        reported
    } else {
        capacity
    }
}

/// The count that a ring reports, held to the capacity of the ring.
#[verifier::when_used_as_spec(spec_slots_within)]
pub fn slots_within(reported: usize, capacity: usize) -> (slots: usize)
    ensures
        slots == spec_slots_within(reported, capacity),
{
    if reported <= capacity {
        reported
    } else {
        capacity
    }
}

/// The samples among the answers of a ring to reads, in order: an answer is
/// a sample, or `None` for a read that found the ring empty.
pub open spec fn samples_read<S>(answers: Seq<Option<S>>) -> Seq<S>
    decreases answers.len(),
{
    if answers.len() == 0 {
        Seq::empty()
    } else {
        let earlier = samples_read(answers.drop_last());
        match answers.last() {
            Some(sample) => earlier.push(sample),
            None => earlier,
        }
    }
}

/// The answers of a ring that gave `samples`, one after the other, and
/// then, if `then_empty`, was found empty once.
pub open spec fn answers_of<S>(samples: Seq<S>, then_empty: bool) -> Seq<Option<S>> {
    let given = Seq::new(samples.len(), |i: int| Some(samples[i]));
    if then_empty {
        given.push(None)
    } else {
        given
    }
}

/// The offers to a ring that took `accepted`, one after the other, and then,
/// if `refused` holds a sample, had no room for that one.
pub open spec fn offers_of<S>(accepted: Seq<S>, refused: Option<S>) -> Seq<(S, bool)> {
    let taken = Seq::new(accepted.len(), |i: int| (accepted[i], true));
    match refused {
        Some(sample) => taken.push((sample, false)),
        None => taken,
    }
}

/// The samples among the offers to a ring that the ring accepted, in order:
/// an offer is a sample and whether the ring had room for it.
pub open spec fn samples_written<S>(offers: Seq<(S, bool)>) -> Seq<S>
    decreases offers.len(),
{
    if offers.len() == 0 {
        Seq::empty()
    } else {
        let earlier = samples_written(offers.drop_last());
        if offers.last().1 {
            earlier.push(offers.last().0)
        } else {
            earlier
        }
    }
}

/// The reading end of a sample ring.
#[verifier::reject_recursive_types(S)]
pub struct RingReader<S> {
    ring: rtrb::Consumer<S>,
    capacity: usize,
    answers: Ghost<Seq<Option<S>>>,
    reports: Ghost<Seq<usize>>,
}

impl<S> RingReader<S> {
    /// The number of slots of the ring.
    pub closed spec fn spec_capacity(&self) -> usize {
        self.capacity
    }

    /// The answer of the ring to every read made through this reader,
    /// oldest first.
    pub closed spec fn answers(&self) -> Seq<Option<S>> {
        self.answers@
    }

    /// Every count of samples ready that the ring reported to this reader,
    /// oldest first.
    pub closed spec fn reports(&self) -> Seq<usize> {
        self.reports@
    }

    /// Every sample that was read from the ring through this reader, oldest
    /// first.
    pub closed spec fn taken(&self) -> Seq<S> {
        samples_read(self.answers@)
    }

    /// What was read is the samples among the answers.
    pub proof fn lemma_taken(&self)
        ensures
            self.taken() == samples_read(self.answers()),
    {
    }

    /// Wraps the consumer half of a ring from which nothing was read yet.
    pub fn new(ring: rtrb::Consumer<S>) -> (reader: Self)
        ensures
            reader.answers() == Seq::<Option<S>>::empty(),
            reader.reports() == Seq::<usize>::empty(),
            reader.taken() == Seq::<S>::empty(),
    {
        let capacity: usize = consumer_capacity(&ring);
        RingReader { ring, capacity, answers: Ghost(Seq::empty()), reports: Ghost(Seq::empty()) }
    }

    /// The number of slots of the ring.
    #[verifier::when_used_as_spec(spec_capacity)]
    pub fn capacity(&self) -> (capacity: usize)
        ensures
            capacity == self.spec_capacity(),
    {
        self.capacity
    }

    /// The number of samples that are ready to be read, never more than the
    /// capacity: asks the ring once and returns its report, held to the
    /// capacity.
    pub fn slots(&mut self) -> (slots: usize)
        ensures
            slots <= final(self).capacity(),
            final(self).capacity() == old(self).capacity(),
            final(self).answers() == old(self).answers(),
            final(self).taken() == old(self).taken(),
            final(self).reports().len() == old(self).reports().len() + 1,
            final(self).reports() == old(self).reports().push(final(self).reports().last()),
            slots == slots_within(final(self).reports().last(), final(self).capacity()),
    {
        let reported: usize = consumer_slots(&self.ring);
        proof {
            self.reports@ = self.reports@.push(reported);
        }
        slots_within(reported, self.capacity)
    }

    /// Reads the oldest sample, or returns `None` when the ring is empty:
    /// asks the ring once and returns its answer.
    pub fn pop(&mut self) -> (sample: Option<S>)
        ensures
            final(self).capacity() == old(self).capacity(),
            final(self).reports() == old(self).reports(),
            final(self).answers() == old(self).answers().push(sample),
            final(self).taken() == match sample {
                Some(s) => old(self).taken().push(s),
                None => old(self).taken(),
            },
    {
        let sample = consumer_pop(&mut self.ring);
        proof {
            let before = self.answers@;
            self.answers@ = before.push(sample);
            assert(before.push(sample).drop_last() == before);
        }
        sample
    }
}

impl<S: Copy> RingReader<S> {
    /// Reads up to `count` samples into `dest[start..start + count]`, in
    /// order, and stops at the first read that finds the ring empty. Returns
    /// the number of samples stored; the rest of `dest` is left as it was.
    pub fn pop_into(&mut self, dest: &mut [S], start: usize, count: usize) -> (stored: usize)
        requires
            start + count <= old(dest)@.len(),
        ensures
            stored <= count,
            final(self).capacity() == old(self).capacity(),
            final(self).reports() == old(self).reports(),
            final(self).answers() == old(self).answers() + answers_of(
                final(dest)@.subrange(start as int, start + stored),
                stored < count,
            ),
            final(self).taken() == old(self).taken() + final(dest)@.subrange(
                start as int,
                start + stored,
            ),
            final(dest)@.len() == old(dest)@.len(),
            forall|i: int|
                0 <= i < start || start + stored <= i < old(dest)@.len() ==> final(dest)@[i]
                    == old(dest)@[i],
    {
        let length: usize = dest.len();
        let mut stored: usize = 0;
        while stored < count
            invariant
                stored <= count,
                start + count <= length,
                dest@.len() == length,
                old(dest)@.len() == length,
                self.capacity() == old(self).capacity(),
                self.reports() == old(self).reports(),
                self.answers() == old(self).answers() + answers_of(
                    dest@.subrange(start as int, start + stored),
                    false,
                ),
                self.taken() == old(self).taken() + dest@.subrange(start as int, start + stored),
                forall|i: int|
                    0 <= i < start || start + stored <= i < length ==> dest@[i] == old(dest)@[i],
            decreases count - stored,
        {
            let ghost read = dest@.subrange(start as int, start + stored);
            match self.pop() {
                Some(sample) => {
                    dest[start + stored] = sample;
                    stored += 1;
                    assert(dest@.subrange(start as int, start + stored) == read.push(sample));
                    assert(answers_of(read.push(sample), false) == answers_of(read, false).push(
                        Some(sample),
                    ));
                },
                None => {
                    return stored;
                },
            }
        }
        stored
    }
}

/// The writing end of a sample ring.
#[verifier::reject_recursive_types(S)]
pub struct RingWriter<S> {
    ring: rtrb::Producer<S>,
    capacity: usize,
    offers: Ghost<Seq<(S, bool)>>,
    reports: Ghost<Seq<usize>>,
}

impl<S> RingWriter<S> {
    /// The number of slots of the ring.
    pub closed spec fn spec_capacity(&self) -> usize {
        self.capacity
    }

    /// Every sample that was offered to the ring through this writer, and
    /// whether the ring had room for it, oldest first.
    pub closed spec fn offers(&self) -> Seq<(S, bool)> {
        self.offers@
    }

    /// Every count of free slots that the ring reported to this writer,
    /// oldest first.
    pub closed spec fn reports(&self) -> Seq<usize> {
        self.reports@
    }

    /// Every sample that was written to the ring through this writer, oldest
    /// first.
    pub closed spec fn given(&self) -> Seq<S> {
        samples_written(self.offers@)
    }

    /// What was written is the samples among the offers that the ring
    /// accepted.
    pub proof fn lemma_given(&self)
        ensures
            self.given() == samples_written(self.offers()),
    {
    }

    /// Wraps the producer half of a ring to which nothing was written yet.
    pub fn new(ring: rtrb::Producer<S>) -> (writer: Self)
        ensures
            writer.offers() == Seq::<(S, bool)>::empty(),
            writer.reports() == Seq::<usize>::empty(),
            writer.given() == Seq::<S>::empty(),
    {
        let capacity: usize = producer_capacity(&ring);
        RingWriter { ring, capacity, offers: Ghost(Seq::empty()), reports: Ghost(Seq::empty()) }
    }

    /// The number of slots of the ring.
    #[verifier::when_used_as_spec(spec_capacity)]
    pub fn capacity(&self) -> (capacity: usize)
        ensures
            capacity == self.spec_capacity(),
    {
        self.capacity
    }

    /// The number of slots that are free to be written, never more than the
    /// capacity: asks the ring once and returns its report, held to the
    /// capacity.
    pub fn slots(&mut self) -> (slots: usize)
        ensures
            slots <= final(self).capacity(),
            final(self).capacity() == old(self).capacity(),
            final(self).offers() == old(self).offers(),
            final(self).given() == old(self).given(),
            final(self).reports().len() == old(self).reports().len() + 1,
            final(self).reports() == old(self).reports().push(final(self).reports().last()),
            slots == slots_within(final(self).reports().last(), final(self).capacity()),
    {
        let reported: usize = producer_slots(&self.ring);
        proof {
            self.reports@ = self.reports@.push(reported);
        }
        slots_within(reported, self.capacity)
    }

    /// Writes one sample; returns `false`, with nothing written, when the
    /// ring is full: offers the sample to the ring once and returns its
    /// answer.
    pub fn push(&mut self, sample: S) -> (written: bool)
        ensures
            final(self).capacity() == old(self).capacity(),
            final(self).reports() == old(self).reports(),
            final(self).offers() == old(self).offers().push((sample, written)),
            final(self).given() == if written {
                old(self).given().push(sample)
            } else {
                old(self).given()
            },
    {
        let written = producer_push(&mut self.ring, sample);
        proof {
            let before = self.offers@;
            self.offers@ = before.push((sample, written));
            assert(before.push((sample, written)).drop_last() == before);
        }
        written
    }
}

} // verus!
