//! The two ends that a MIDI port adapter hands to an application, and the
//! step that an input port takes on the bytes it receives.

use crate::intermittent::TimedValue;
use crate::midi::{parse, parse_midi, MidiData};
use std::collections::VecDeque;
use std::sync::mpsc::{Receiver, Sender};
use std::time::Duration;
use vstd::prelude::*;

verus! {

/// The application's end of a MIDI input port: the messages received, each
/// with its local time.
pub struct MidirSource {
    pub receiver: Receiver<TimedValue<MidiData>>,
}

/// The application's end of a MIDI output port: the messages to send.
#[derive(Debug)]
pub struct MidirSink {
    pub sender: Sender<MidiData>,
}

/// Takes one message off the front of the queue, as `parse_midi` does, and
/// stamps it with `time`.
pub fn parse_timed(buffer: &mut VecDeque<u8>, time: Duration) -> (message: Option<
    TimedValue<MidiData>,
>)
    ensures
        final(buffer)@ == parse(old(buffer)@).1,
        match message {
            Some(timed) => timed.since_start == time && parse(old(buffer)@).0 == Some(
                timed.value@,
            ),
            None => parse(old(buffer)@).0 is None,
        },
{
    match parse_midi(buffer) {
        Some(parsed) => Some(TimedValue { since_start: time, value: parsed }),
        None => None,
    }
}

} // verus!
