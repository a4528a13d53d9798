//! MIDI 1.0 wire codec: typed messages, a streaming parser over a byte queue
//! and the matching serializer.

use std::collections::VecDeque;
use std::time::Duration;
use vstd::prelude::*;

verus! {

/// One quarter-frame time code fragment; each payload is a nibble.
#[derive(Debug, Clone, PartialEq, Eq)]
pub enum Timecode {
    FrameLow(u8),
    FrameHigh(u8),
    SecondsLow(u8),
    SecondsHigh(u8),
    MinutesLow(u8),
    MinutesHigh(u8),
    HoursLow(u8),
    HoursHigh(u8),
}

/// System common messages.
#[derive(Debug, Clone, PartialEq, Eq)]
pub enum SysCommon {
    QuarterFrame { time_fragment: Timecode },
    SongPositionPointer { position: u16 },
    SongSelect { song: u8 },
    TuneRequest,
}

/// System real-time messages; each is a single status byte on the wire.
#[derive(Debug, Clone, Copy, PartialEq, Eq)]
pub enum SysRt {
    MidiClock,
    Tick,
    Start,
    Continue,
    Stop,
    ActiveSensing,
    Reset,
}

/// A decoded MIDI message.
#[derive(Debug, Clone, PartialEq, Eq)]
pub enum MidiData {
    NoteOff { channel: u8, note: u8, velocity: u8 },
    NoteOn { channel: u8, note: u8, velocity: u8 },
    Aftertouch { channel: u8, note: u8, pressure: u8 },
    ControlChange { channel: u8, controller: u8, value: u8 },
    ProgramChange { channel: u8, patch: u8 },
    ChannelPressure { channel: u8, pressure: u8 },
    PitchBend { channel: u8, pitch_bend: u16 },
    SysCommon(SysCommon),
    SysRt(SysRt),
    SysEx { id_and_data: Vec<u8> },
    MidiNone,
}

/// A message together with the time at which it was received.
#[derive(Debug, Clone, PartialEq, Eq)]
pub struct MidiMessage {
    pub data: MidiData,
    pub timestamp: Duration,
}

/// The mathematical content of a [`MidiData`]: the same message with the
/// system-exclusive payload as a sequence.
pub enum MidiEvent {
    NoteOff { channel: u8, note: u8, velocity: u8 },
    NoteOn { channel: u8, note: u8, velocity: u8 },
    Aftertouch { channel: u8, note: u8, pressure: u8 },
    ControlChange { channel: u8, controller: u8, value: u8 },
    ProgramChange { channel: u8, patch: u8 },
    ChannelPressure { channel: u8, pressure: u8 },
    PitchBend { channel: u8, pitch_bend: u16 },
    SysCommon(SysCommon),
    SysRt(SysRt),
    SysEx { id_and_data: Seq<u8> },
    MidiNone,
}

impl View for MidiData {
    type V = MidiEvent;

    open spec fn view(&self) -> MidiEvent {
        match *self {
            MidiData::NoteOff { channel, note, velocity } => MidiEvent::NoteOff {
                channel,
                note,
                velocity,
            },
            MidiData::NoteOn { channel, note, velocity } => MidiEvent::NoteOn {
                channel,
                note,
                velocity,
            },
            MidiData::Aftertouch { channel, note, pressure } => MidiEvent::Aftertouch {
                channel,
                note,
                pressure,
            },
            MidiData::ControlChange { channel, controller, value } => MidiEvent::ControlChange {
                channel,
                controller,
                value,
            },
            MidiData::ProgramChange { channel, patch } => MidiEvent::ProgramChange {
                channel,
                patch,
            },
            MidiData::ChannelPressure { channel, pressure } => MidiEvent::ChannelPressure {
                channel,
                pressure,
            },
            MidiData::PitchBend { channel, pitch_bend } => MidiEvent::PitchBend {
                channel,
                pitch_bend,
            },
            MidiData::SysCommon(msg) => MidiEvent::SysCommon(msg),
            MidiData::SysRt(msg) => MidiEvent::SysRt(msg),
            MidiData::SysEx { id_and_data } => MidiEvent::SysEx { id_and_data: id_and_data@ },
            MidiData::MidiNone => MidiEvent::MidiNone,
        }
    }
}

impl SysRt {
    /// The status byte that stands for this message on the wire.
    pub open spec fn spec_status(self) -> u8 {
        match self {
            SysRt::MidiClock => 0xF8,
            SysRt::Tick => 0xF9,
            SysRt::Start => 0xFA,
            SysRt::Continue => 0xFB,
            SysRt::Stop => 0xFC,
            SysRt::ActiveSensing => 0xFE,
            SysRt::Reset => 0xFF,
        }
    }

    /// The status byte that stands for this message on the wire.
    #[verifier::when_used_as_spec(spec_status)]
    pub fn status(self) -> (byte: u8)
        ensures
            byte == self.spec_status(),
    {
        match self {
            SysRt::MidiClock => 0xF8,
            SysRt::Tick => 0xF9,
            SysRt::Start => 0xFA,
            SysRt::Continue => 0xFB,
            SysRt::Stop => 0xFC,
            SysRt::ActiveSensing => 0xFE,
            SysRt::Reset => 0xFF,
        }
    }
}

impl Timecode {
    /// Which of the eight fragments this is, 0 for `FrameLow` up to 7 for
    /// `HoursHigh`.
    pub open spec fn kind(self) -> u8 {
        match self {
            Timecode::FrameLow(_) => 0,
            Timecode::FrameHigh(_) => 1,
            Timecode::SecondsLow(_) => 2,
            Timecode::SecondsHigh(_) => 3,
            Timecode::MinutesLow(_) => 4,
            Timecode::MinutesHigh(_) => 5,
            Timecode::HoursLow(_) => 6,
            Timecode::HoursHigh(_) => 7,
        }
    }

    /// The payload carried by the fragment.
    pub open spec fn value(self) -> u8 {
        match self {
            Timecode::FrameLow(v) => v,
            Timecode::FrameHigh(v) => v,
            Timecode::SecondsLow(v) => v,
            Timecode::SecondsHigh(v) => v,
            Timecode::MinutesLow(v) => v,
            Timecode::MinutesHigh(v) => v,
            Timecode::HoursLow(v) => v,
            Timecode::HoursHigh(v) => v,
        }
    }

    /// The fragment of the given kind (taken modulo 8) with the given payload.
    pub open spec fn from_parts(kind: int, value: u8) -> Timecode {
        let k = kind % 8;
        if k == 0 {
            Timecode::FrameLow(value)
        } else if k == 1 {
            Timecode::FrameHigh(value)
        } else if k == 2 {
            Timecode::SecondsLow(value)
        } else if k == 3 {
            Timecode::SecondsHigh(value)
        } else if k == 4 {
            Timecode::MinutesLow(value)
        } else if k == 5 {
            Timecode::MinutesHigh(value)
        } else if k == 6 {
            Timecode::HoursLow(value)
        } else {
            Timecode::HoursHigh(value)
        }
    }

    /// The data byte of a quarter-frame message: kind in the high nibble,
    /// the low four bits of the payload in the low nibble.
    pub open spec fn data_byte(self) -> u8 {
        (16 * self.kind() + self.value() % 16) as u8
    }
}

/// A data byte without its top bit.
pub open spec fn data7(byte: u8) -> u8 {
    (byte % 128) as u8
}

/// The low seven bits of a 14-bit value, as sent first on the wire.
pub open spec fn low7(x: u16) -> u8 {
    (x % 128) as u8
}

/// Bits 7 to 13 of a 14-bit value, as sent second on the wire.
pub open spec fn high7(x: u16) -> u8 {
    ((x / 128) % 128) as u8
}

/// The 14-bit value carried by two data bytes, low byte first; the top bit
/// of each byte is ignored.
pub open spec fn join14(low: u8, high: u8) -> u16 {
    (low % 128 + 128 * (high % 128)) as u16
}

/// A voice status byte: the message kind in the high nibble, the low four
/// bits of the channel in the low nibble.
pub open spec fn voice_status(kind: u8, channel: u8) -> u8 {
    (kind + channel % 16) as u8
}

/// The bytes that a message is serialized to.
pub open spec fn encode(m: MidiEvent) -> Seq<u8> {
    match m {
        MidiEvent::NoteOff { channel, note, velocity } => seq![
            voice_status(0x80, channel),
            note,
            velocity,
        ],
        MidiEvent::NoteOn { channel, note, velocity } => seq![
            voice_status(0x90, channel),
            note,
            velocity,
        ],
        MidiEvent::Aftertouch { channel, note, pressure } => seq![
            voice_status(0xA0, channel),
            note,
            pressure,
        ],
        MidiEvent::ControlChange { channel, controller, value } => seq![
            voice_status(0xB0, channel),
            controller,
            value,
        ],
        MidiEvent::ProgramChange { channel, patch } => seq![voice_status(0xC0, channel), patch],
        MidiEvent::ChannelPressure { channel, pressure } => seq![
            voice_status(0xD0, channel),
            pressure,
        ],
        MidiEvent::PitchBend { channel, pitch_bend } => seq![
            voice_status(0xE0, channel),
            low7(pitch_bend),
            high7(pitch_bend),
        ],
        MidiEvent::SysCommon(SysCommon::QuarterFrame { time_fragment }) => seq![
            0xF1u8,
            time_fragment.data_byte(),
        ],
        MidiEvent::SysCommon(SysCommon::SongPositionPointer { position }) => seq![
            0xF2u8,
            low7(position),
            high7(position),
        ],
        MidiEvent::SysCommon(SysCommon::SongSelect { song }) => seq![0xF3u8, song],
        MidiEvent::SysCommon(SysCommon::TuneRequest) => seq![0xF6u8],
        MidiEvent::SysRt(msg) => seq![msg.spec_status()],
        MidiEvent::SysEx { id_and_data } => seq![0xF0u8] + id_and_data + seq![0xF7u8],
        MidiEvent::MidiNone => Seq::empty(),
    }
}

/// A byte with its top bit set starts a message; any other byte is data.
pub open spec fn is_status(byte: u8) -> bool {
    byte >= 0x80
}

/// The index of the first status byte of `s` at or after `from`, or
/// `s.len()` when only data bytes follow.
pub open spec fn next_status(s: Seq<u8>, from: int) -> int
    decreases s.len() - from,
{
    if from < 0 || from >= s.len() {
        s.len() as int
    } else if is_status(s[from]) {
        from
    } else {
        next_status(s, from + 1)
    }
}

/// The index at which the message that the parser will look at next starts,
/// searching from `from`: leading data bytes are junk, and a system-exclusive
/// message that is cut short by another status byte is junk up to that byte.
/// The result is `s.len()` when nothing but junk is left.
pub open spec fn resync(s: Seq<u8>, from: int) -> int
    decreases s.len() - from,
{
    let header = next_status(s, from);
    if from < 0 || header >= s.len() || s[header] != 0xF0 {
        header
    } else {
        let end = next_status(s, header + 1);
        if end >= s.len() || s[end] == 0xF7 {
            header
        } else {
            proof {
                lemma_next_status(s, from);
                lemma_next_status(s, header + 1);
            }
            resync(s, end)
        }
    }
}

/// What is left of a queue once the junk at its front is dropped.
pub open spec fn pending(s: Seq<u8>) -> Seq<u8> {
    s.subrange(resync(s, 0), s.len() as int)
}

/// The length of the message that `status` starts, for every status byte
/// but the start of a system-exclusive message.
pub open spec fn fixed_length(status: u8) -> nat {
    if status < 0xC0 {
        3
    } else if status < 0xE0 {
        2
    } else if status < 0xF0 {
        3
    } else if status == 0xF1 || status == 0xF3 {
        2
    } else if status == 0xF2 {
        3
    } else {
        1
    }
}

/// The length of the message at the front of `s`, where `s` starts with a
/// status byte; `None` for an empty queue and for a system-exclusive message
/// that its end byte does not close.
pub open spec fn needed_length(s: Seq<u8>) -> Option<nat> {
    if s.len() == 0 {
        None
    } else if s[0] != 0xF0 {
        Some(fixed_length(s[0]))
    } else {
        let end = next_status(s, 1);
        if end < s.len() && s[end] == 0xF7 {
            Some((end + 1) as nat)
        } else {
            None
        }
    }
}

/// The message that one complete frame of bytes stands for. Data bytes are
/// read without their top bit. Reserved status bytes and a stray end of
/// system-exclusive stand for nothing.
pub open spec fn decode_frame(frame: Seq<u8>) -> Option<MidiEvent> {
    let status = frame[0];
    let channel = (status % 16) as u8;
    if status < 0x80 {
        None
    } else if status < 0x90 {
        Some(MidiEvent::NoteOff { channel, note: data7(frame[1]), velocity: data7(frame[2]) })
    } else if status < 0xA0 {
        Some(MidiEvent::NoteOn { channel, note: data7(frame[1]), velocity: data7(frame[2]) })
    } else if status < 0xB0 {
        Some(MidiEvent::Aftertouch { channel, note: data7(frame[1]), pressure: data7(frame[2]) })
    } else if status < 0xC0 {
        Some(
            MidiEvent::ControlChange {
                channel,
                controller: data7(frame[1]),
                value: data7(frame[2]),
            },
        )
    } else if status < 0xD0 {
        Some(MidiEvent::ProgramChange { channel, patch: data7(frame[1]) })
    } else if status < 0xE0 {
        Some(MidiEvent::ChannelPressure { channel, pressure: data7(frame[1]) })
    } else if status < 0xF0 {
        Some(MidiEvent::PitchBend { channel, pitch_bend: join14(frame[1], frame[2]) })
    } else if status == 0xF0 {
        Some(MidiEvent::SysEx { id_and_data: frame.subrange(1, frame.len() - 1) })
    } else if status == 0xF1 {
        let data = data7(frame[1]);
        Some(
            MidiEvent::SysCommon(
                SysCommon::QuarterFrame {
                    time_fragment: Timecode::from_parts(data as int / 16, (data % 16) as u8),
                },
            ),
        )
    } else if status == 0xF2 {
        Some(
            MidiEvent::SysCommon(
                SysCommon::SongPositionPointer { position: join14(frame[1], frame[2]) },
            ),
        )
    } else if status == 0xF3 {
        Some(MidiEvent::SysCommon(SysCommon::SongSelect { song: data7(frame[1]) }))
    } else if status == 0xF6 {
        Some(MidiEvent::SysCommon(SysCommon::TuneRequest))
    } else if status == 0xF8 {
        Some(MidiEvent::SysRt(SysRt::MidiClock))
    } else if status == 0xF9 {
        Some(MidiEvent::SysRt(SysRt::Tick))
    } else if status == 0xFA {
        Some(MidiEvent::SysRt(SysRt::Start))
    } else if status == 0xFB {
        Some(MidiEvent::SysRt(SysRt::Continue))
    } else if status == 0xFC {
        Some(MidiEvent::SysRt(SysRt::Stop))
    } else if status == 0xFE {
        Some(MidiEvent::SysRt(SysRt::ActiveSensing))
    } else if status == 0xFF {
        Some(MidiEvent::SysRt(SysRt::Reset))
    } else {
        None
    }
}

/// One step of the parser on the queue contents `s`: the decoded message, if
/// any, and what stays in the queue. Junk at the front is dropped. When the
/// queue then holds a complete message, its bytes are taken off and decoded;
/// otherwise nothing more is taken and there is no message.
pub open spec fn parse(s: Seq<u8>) -> (Option<MidiEvent>, Seq<u8>) {
    let queue = pending(s);
    match needed_length(queue) {
        Some(n) => if queue.len() >= n {
            (
                decode_frame(queue.subrange(0, n as int)),
                queue.subrange(n as int, queue.len() as int),
            )
        } else {
            (None, queue)
        },
        None => (None, queue),
    }
}

/// `next_status` stays within the sequence, skips data bytes only, and stops
/// at a status byte.
pub proof fn lemma_next_status(s: Seq<u8>, from: int)
    requires
        0 <= from <= s.len(),
    ensures
        from <= next_status(s, from) <= s.len(),
        forall|k: int| from <= k < next_status(s, from) ==> !is_status(#[trigger] s[k]),
        next_status(s, from) < s.len() ==> is_status(s[next_status(s, from)]),
    decreases s.len() - from,
{
    if from < s.len() && !is_status(s[from]) {
        lemma_next_status(s, from + 1);
    }
}

/// `resync` stays within the sequence and stops at a status byte.
pub proof fn lemma_resync(s: Seq<u8>, from: int)
    requires
        0 <= from <= s.len(),
    ensures
        from <= resync(s, from) <= s.len(),
        resync(s, from) < s.len() ==> is_status(s[resync(s, from)]),
    decreases s.len() - from,
{
    lemma_next_status(s, from);
    let header = next_status(s, from);
    if header < s.len() && s[header] == 0xF0 {
        lemma_next_status(s, header + 1);
        let end = next_status(s, header + 1);
        if end < s.len() && s[end] != 0xF7 {
            lemma_resync(s, end);
        }
    }
}

/// `next_status` finds the status byte at `end` when only data bytes lie
/// between `from` and `end`.
pub proof fn lemma_next_status_is(s: Seq<u8>, from: int, end: int)
    requires
        0 <= from <= end <= s.len(),
        forall|k: int| from <= k < end ==> !is_status(#[trigger] s[k]),
        end < s.len() ==> is_status(s[end]),
    ensures
        next_status(s, from) == end,
    decreases end - from,
{
    if from < end {
        lemma_next_status_is(s, from + 1, end);
    }
}

/// A message that the wire carries unchanged: a channel below 16, data
/// bytes below 128, 14-bit values below 16384, time code payloads below 16,
/// a system-exclusive payload of data bytes only. `MidiNone` has no wire
/// form.
pub open spec fn well_formed(m: MidiEvent) -> bool {
    match m {
        MidiEvent::NoteOff { channel, note, velocity } => channel < 16 && note < 128 && velocity
            < 128,
        MidiEvent::NoteOn { channel, note, velocity } => channel < 16 && note < 128 && velocity
            < 128,
        MidiEvent::Aftertouch { channel, note, pressure } => channel < 16 && note < 128
            && pressure < 128,
        MidiEvent::ControlChange { channel, controller, value } => channel < 16 && controller
            < 128 && value < 128,
        MidiEvent::ProgramChange { channel, patch } => channel < 16 && patch < 128,
        MidiEvent::ChannelPressure { channel, pressure } => channel < 16 && pressure < 128,
        MidiEvent::PitchBend { channel, pitch_bend } => channel < 16 && pitch_bend < 16384,
        MidiEvent::SysCommon(SysCommon::QuarterFrame { time_fragment }) => time_fragment.value()
            < 16,
        MidiEvent::SysCommon(SysCommon::SongPositionPointer { position }) => position < 16384,
        MidiEvent::SysCommon(SysCommon::SongSelect { song }) => song < 128,
        MidiEvent::SysCommon(SysCommon::TuneRequest) => true,
        MidiEvent::SysRt(_) => true,
        MidiEvent::SysEx { id_and_data } => forall|i: int|
            0 <= i < id_and_data.len() ==> !is_status(#[trigger] id_and_data[i]),
        MidiEvent::MidiNone => false,
    }
}

/// Round trip: the parser reads the wire form of a well-formed message back
/// as that message, takes exactly its bytes, and leaves whatever follows
/// them in the queue.
pub proof fn lemma_parse_encode(m: MidiEvent, rest: Seq<u8>)
    requires
        well_formed(m),
    ensures
        parse(encode(m) + rest) == (Some(m), rest),
{
    let bytes = encode(m);
    let s = bytes + rest;
    assert(bytes.len() >= 1);
    assert(s[0] == bytes[0]);
    assert(is_status(s[0]));
    assert(next_status(s, 0) == 0);
    match m {
        MidiEvent::SysEx { id_and_data } => {
            let end: int = id_and_data.len() as int + 1;
            assert(s[end] == 0xF7);
            assert forall|k: int| 1 <= k < end implies !is_status(#[trigger] s[k]) by {
                assert(s[k] == id_and_data[k - 1]);
            }
            lemma_next_status_is(s, 1, end);
            assert(resync(s, 0) == 0);
            assert(pending(s) == s);
            assert(needed_length(s) == Some((end + 1) as nat));
            assert(s.subrange(0, end + 1) == bytes);
            assert(s.subrange(end + 1, s.len() as int) == rest);
            assert(bytes.subrange(1, bytes.len() - 1) == id_and_data);
        },
        _ => {
            assert(s[0] != 0xF0);
            assert(resync(s, 0) == 0);
            assert(pending(s) == s);
            assert(needed_length(s) == Some(bytes.len()));
            assert(s.subrange(0, bytes.len() as int) == bytes);
            assert(s.subrange(bytes.len() as int, s.len() as int) == rest);
            assert(decode_frame(bytes) == Some(m));
        },
    }
}

/// The parser yields well-formed messages only.
pub proof fn lemma_parse_well_formed(s: Seq<u8>)
    requires
        parse(s).0 is Some,
    ensures
        well_formed(parse(s).0->0),
{
    let queue = pending(s);
    let n = needed_length(queue)->0 as int;
    let frame = queue.subrange(0, n);
    if queue[0] == 0xF0 {
        lemma_next_status(queue, 1);
        let payload = frame.subrange(1, frame.len() - 1);
        assert forall|i: int| 0 <= i < payload.len() implies !is_status(#[trigger] payload[i]) by {
            assert(payload[i] == queue[i + 1]);
        }
    }
}

/// The parser leaves the end of the queue as it is, and a message that it
/// yields has taken at least one byte off the queue.
pub proof fn lemma_parse_takes_from_the_front(s: Seq<u8>)
    ensures
        parse(s).1.is_suffix_of(s),
        parse(s).0 is Some ==> parse(s).1.len() < s.len(),
{
    lemma_resync(s, 0);
    let queue = pending(s);
    assert(queue.is_suffix_of(s));
    if queue.len() > 0 {
        lemma_next_status(queue, 1);
    }
    let rest = parse(s).1;
    assert(rest.is_suffix_of(queue));
    assert(rest =~= s.subrange(s.len() - rest.len(), s.len() as int));
}

/// One message as the wire carries it when nothing is amiss: a status byte,
/// then as many data bytes as the status byte asks for, or, for a
/// system-exclusive message, data bytes up to the end byte.
pub open spec fn clean_frame(frame: Seq<u8>) -> bool {
    &&& frame.len() >= 1
    &&& is_status(frame[0])
    &&& if frame[0] == 0xF0 {
        &&& frame.len() >= 2
        &&& frame.last() == 0xF7
        &&& forall|i: int| 1 <= i < frame.len() - 1 ==> !is_status(#[trigger] frame[i])
    } else {
        &&& frame.len() == fixed_length(frame[0])
        &&& forall|i: int| 1 <= i < frame.len() ==> !is_status(#[trigger] frame[i])
    }
}

/// Round trip, the other way: the message that a clean frame stands for is
/// serialized to that frame, byte for byte.
pub proof fn lemma_encode_decode(frame: Seq<u8>)
    requires
        clean_frame(frame),
        decode_frame(frame) is Some,
    ensures
        encode(decode_frame(frame)->0) == frame,
{
    let status = frame[0];
    let bytes = encode(decode_frame(frame)->0);
    if status == 0xF0 {
        assert(bytes =~= frame);
    } else {
        if frame.len() >= 2 {
            assert(!is_status(frame[1]));
        }
        if frame.len() >= 3 {
            assert(!is_status(frame[2]));
        }
        assert(bytes =~= frame);
    }
}

/// Splits a 14-bit value into its two data bytes, low byte first.
pub fn u16_to_midi_bytes(x: u16) -> (bytes: [u8; 2])
    ensures
        bytes[0] == low7(x),
        bytes[1] == high7(x),
{
    let high: u8 = ((x >> 7) & 0x7F) as u8;
    let low: u8 = (x & 0x7F) as u8;
    assert((x >> 7) & 0x7F == (x / 128) % 128) by (bit_vector);
    assert(x & 0x7F == x % 128) by (bit_vector);
    [low, high]
}

/// Puts `low`'s bottom nibble under the high nibble `high`.
fn with_low_nibble(high: u8, low: u8) -> (byte: u8)
    requires
        high % 16 == 0,
    ensures
        byte == high + low % 16,
{
    assert(high % 16 == 0 ==> high | (low & 0x0F) == high + low % 16) by (bit_vector);
    high | (low & 0x0F)
}

/// The data byte of a quarter-frame message.
fn timecode_byte(time_fragment: &Timecode) -> (byte: u8)
    ensures
        byte == time_fragment.data_byte(),
{
    match time_fragment {
        Timecode::FrameLow(v) => with_low_nibble(0x00, *v),
        Timecode::FrameHigh(v) => with_low_nibble(0x10, *v),
        Timecode::SecondsLow(v) => with_low_nibble(0x20, *v),
        Timecode::SecondsHigh(v) => with_low_nibble(0x30, *v),
        Timecode::MinutesLow(v) => with_low_nibble(0x40, *v),
        Timecode::MinutesHigh(v) => with_low_nibble(0x50, *v),
        Timecode::HoursLow(v) => with_low_nibble(0x60, *v),
        Timecode::HoursHigh(v) => with_low_nibble(0x70, *v),
    }
}

/// Appends every byte of `bytes` to `writer`.
fn write_all(writer: &mut Vec<u8>, bytes: &Vec<u8>)
    ensures
        final(writer)@ == old(writer)@ + bytes@,
{
    let mut i: usize = 0;
    while i < bytes.len()
        invariant
            i <= bytes.len(),
            writer@ == old(writer)@ + bytes@.subrange(0, i as int),
        decreases bytes.len() - i,
    {
        writer.push(bytes[i]);
        i += 1;
    }
    assert(bytes@.subrange(0, i as int) == bytes@);
}

/// Appends the wire form of `message` to `writer` and returns the number of
/// bytes appended. `MidiNone` appends nothing.
pub fn write_midi_bytes(message: &MidiData, writer: &mut Vec<u8>) -> (written: usize)
    ensures
        final(writer)@ == old(writer)@ + encode(message@),
        written == encode(message@).len(),
{
    let start: usize = writer.len();
    match message {
        MidiData::NoteOff { channel, note, velocity } => {
            writer.push(with_low_nibble(0x80, *channel));
            writer.push(*note);
            writer.push(*velocity);
        },
        MidiData::NoteOn { channel, note, velocity } => {
            writer.push(with_low_nibble(0x90, *channel));
            writer.push(*note);
            writer.push(*velocity);
        },
        MidiData::Aftertouch { channel, note, pressure } => {
            writer.push(with_low_nibble(0xA0, *channel));
            writer.push(*note);
            writer.push(*pressure);
        },
        MidiData::ControlChange { channel, controller, value } => {
            writer.push(with_low_nibble(0xB0, *channel));
            writer.push(*controller);
            writer.push(*value);
        },
        MidiData::ProgramChange { channel, patch } => {
            writer.push(with_low_nibble(0xC0, *channel));
            writer.push(*patch);
        },
        MidiData::ChannelPressure { channel, pressure } => {
            writer.push(with_low_nibble(0xD0, *channel));
            writer.push(*pressure);
        },
        MidiData::PitchBend { channel, pitch_bend } => {
            let split_pitch_bend = u16_to_midi_bytes(*pitch_bend);
            writer.push(with_low_nibble(0xE0, *channel));
            writer.push(split_pitch_bend[0]);
            writer.push(split_pitch_bend[1]);
        },
        MidiData::SysCommon(msg) => match msg {
            SysCommon::QuarterFrame { time_fragment } => {
                writer.push(0xF1);
                writer.push(timecode_byte(time_fragment));
            },
            SysCommon::SongPositionPointer { position } => {
                let split_position = u16_to_midi_bytes(*position);
                writer.push(0xF2);
                writer.push(split_position[0]);
                writer.push(split_position[1]);
            },
            SysCommon::SongSelect { song } => {
                writer.push(0xF3);
                writer.push(*song);
            },
            SysCommon::TuneRequest => {
                writer.push(0xF6);
            },
        },
        MidiData::SysRt(msg) => {
            writer.push(msg.status());
        },
        MidiData::SysEx { id_and_data } => {
            writer.push(0xF0);
            write_all(writer, id_and_data);
            writer.push(0xF7);
        },
        MidiData::MidiNone => {},
    }
    assert(writer@ == old(writer)@ + encode(message@));
    writer.len() - start
}

/// Takes the byte at the front of the queue.
pub fn n(buffer: &mut VecDeque<u8>) -> (byte: u8)
    requires
        old(buffer)@.len() > 0,
    ensures
        byte == old(buffer)@[0],
        final(buffer)@ == old(buffer)@.subrange(1, old(buffer)@.len() as int),
{
    buffer.pop_front().unwrap()
}

/// Takes `count` bytes off the front of the queue.
fn discard(buffer: &mut VecDeque<u8>, count: usize)
    requires
        count <= old(buffer)@.len(),
    ensures
        final(buffer)@ == old(buffer)@.subrange(count as int, old(buffer)@.len() as int),
{
    let mut i: usize = 0;
    while i < count
        invariant
            i <= count <= old(buffer)@.len(),
            buffer@ == old(buffer)@.subrange(i as int, old(buffer)@.len() as int),
        decreases count - i,
    {
        buffer.pop_front();
        i += 1;
    }
}

/// Drops the junk at the front of the queue and tells how many bytes the
/// message that is now at the front takes, the status byte included.
/// Returns `None` when the queue is empty after that, or when it starts a
/// system-exclusive message whose end has not arrived yet.
pub fn prep_message(buffer: &mut VecDeque<u8>) -> (needed: Option<usize>)
    ensures
        final(buffer)@ == pending(old(buffer)@),
        match needed {
            Some(n) => needed_length(final(buffer)@) == Some(n as nat),
            None => needed_length(final(buffer)@) is None,
        },
{
    let ghost all = buffer@;
    let ghost mut at: int = 0;
    loop
        invariant
            0 <= at <= all.len(),
            buffer@ == all.subrange(at, all.len() as int),
            resync(all, at) == resync(all, 0),
            all == old(buffer)@,
        decreases all.len() - at,
    {
        let ghost start = at;
        while buffer.len() > 0 && buffer[0] < 0x80
            invariant
                0 <= start <= at <= all.len(),
                buffer@ == all.subrange(at, all.len() as int),
                next_status(all, at) == next_status(all, start),
            decreases all.len() - at,
        {
            buffer.pop_front();
            proof {
                at = at + 1;
            }
        }
        proof {
            lemma_next_status(all, start);
        }
        if buffer.len() == 0 {
            return None;
        }
        let first_byte: u8 = buffer[0];
        assert(first_byte == all[at]);
        assert(next_status(all, start) == at);
        if first_byte != 0xF0 {
            assert(resync(all, start) == at);
            return Some(
                if first_byte < 0xC0 {
                    3
                } else if first_byte < 0xE0 {
                    2
                } else if first_byte < 0xF0 {
                    3
                } else if first_byte == 0xF1 || first_byte == 0xF3 {
                    2
                } else if first_byte == 0xF2 {
                    3
                } else {
                    1
                },
            );
        }
        let mut i: usize = 1;
        while i < buffer.len() && buffer[i] < 0x80
            invariant
                0 <= at <= all.len(),
                1 <= i <= buffer.len(),
                buffer@ == all.subrange(at, all.len() as int),
                next_status(all, at + i) == next_status(all, at + 1),
                next_status(buffer@, i as int) == next_status(buffer@, 1),
            decreases buffer.len() - i,
        {
            assert(buffer@[i as int] == all[at + i]);
            i += 1;
        }
        proof {
            lemma_next_status(all, at + 1);
            lemma_next_status(buffer@, 1);
        }
        if i == buffer.len() {
            assert(resync(all, start) == at);
            return None;
        }
        assert(buffer@[i as int] == all[at + i]);
        if buffer[i] == 0xF7 {
            assert(resync(all, start) == at);
            return Some(i + 1);
        }
        assert(resync(all, start) == resync(all, at + i));
        discard(buffer, i);
        proof {
            at = at + i;
        }
    }
}

/// Takes a data byte off the queue and clears its top bit.
fn data_byte(buffer: &mut VecDeque<u8>) -> (byte: u8)
    requires
        old(buffer)@.len() > 0,
    ensures
        byte == data7(old(buffer)@[0]),
        final(buffer)@ == old(buffer)@.subrange(1, old(buffer)@.len() as int),
{
    let raw: u8 = n(buffer);
    assert(raw & 0x7F == raw % 128) by (bit_vector);
    raw & 0x7F
}

/// Takes two data bytes off the queue and joins them to a 14-bit value, low
/// byte first.
fn data_pair(buffer: &mut VecDeque<u8>) -> (value: u16)
    requires
        old(buffer)@.len() > 1,
    ensures
        value == join14(old(buffer)@[0], old(buffer)@[1]),
        final(buffer)@ == old(buffer)@.subrange(2, old(buffer)@.len() as int),
{
    let low: u8 = n(buffer);
    let high: u8 = n(buffer);
    assert((low as u16 & 0x7F) | ((high as u16 & 0x7F) << 7) == low % 128 + 128 * (high % 128))
        by (bit_vector);
    (low as u16 & 0x7F) | ((high as u16 & 0x7F) << 7)
}

/// The time code fragment that a quarter-frame data byte stands for.
fn timecode_from(data: u8) -> (time_fragment: Timecode)
    requires
        data < 128,
    ensures
        time_fragment == Timecode::from_parts(data as int / 16, (data % 16) as u8),
{
    assert((data >> 4) & 0x0F == data / 16) by (bit_vector);
    assert(data & 0x0F == data % 16) by (bit_vector);
    let value_type: u8 = (data >> 4) & 0x0F;
    let value: u8 = data & 0x0F;
    match value_type {
        0 => Timecode::FrameLow(value),
        1 => Timecode::FrameHigh(value),
        2 => Timecode::SecondsLow(value),
        3 => Timecode::SecondsHigh(value),
        4 => Timecode::MinutesLow(value),
        5 => Timecode::MinutesHigh(value),
        6 => Timecode::HoursLow(value),
        _ => Timecode::HoursHigh(value),
    }
}

/// Takes one message off the front of the queue.
///
/// Junk at the front of the queue is dropped first: data bytes that no
/// status byte introduces, and a system-exclusive message that another
/// status byte cuts short. If a complete message is then at the front, its
/// bytes are taken and the message is returned; a reserved status byte or a
/// stray end of system-exclusive is taken and gives `None`. If the message
/// at the front is incomplete, it stays in the queue and the result is
/// `None`.
pub fn parse_midi(buffer: &mut VecDeque<u8>) -> (message: Option<MidiData>)
    ensures
        final(buffer)@ == parse(old(buffer)@).1,
        match message {
            Some(m) => parse(old(buffer)@).0 == Some(m@),
            None => parse(old(buffer)@).0 is None,
        },
{
    let needed = prep_message(buffer);
    let needed: usize = match needed {
        Some(needed) => needed,
        None => {
            return None;
        },
    };
    if buffer.len() < needed {
        return None;
    }
    let ghost queue = buffer@;
    let ghost frame = queue.subrange(0, needed as int);
    proof {
        if queue.len() > 0 {
            lemma_next_status(queue, 1);
        }
    }
    assert(1 <= needed);
    assert(queue[0] == 0xF0 ==> 2 <= needed && queue[needed - 1] == 0xF7);
    let first_byte: u8 = n(buffer);
    assert(first_byte == frame[0]);
    assert(first_byte >= 0x80) by {
        lemma_resync(old(buffer)@, 0);
    }
    assert(first_byte >> 4 == first_byte / 16) by (bit_vector);
    assert(first_byte & 0x0F == first_byte % 16) by (bit_vector);
    let message: u8 = first_byte >> 4;
    let channel: u8 = first_byte & 0x0F;
    if first_byte <= 0xEF {
        assert(frame[1] == queue[1]);
        if needed == 3 {
            assert(frame[2] == queue[2]);
        }
        match message {
            0x8 => {
                let note: u8 = data_byte(buffer);
                let velocity: u8 = data_byte(buffer);
                Some(MidiData::NoteOff { channel, note, velocity })
            },
            0x9 => {
                let note: u8 = data_byte(buffer);
                let velocity: u8 = data_byte(buffer);
                Some(MidiData::NoteOn { channel, note, velocity })
            },
            0xA => {
                let note: u8 = data_byte(buffer);
                let pressure: u8 = data_byte(buffer);
                Some(MidiData::Aftertouch { channel, note, pressure })
            },
            0xB => {
                let controller: u8 = data_byte(buffer);
                let value: u8 = data_byte(buffer);
                Some(MidiData::ControlChange { channel, controller, value })
            },
            0xC => {
                let patch: u8 = data_byte(buffer);
                Some(MidiData::ProgramChange { channel, patch })
            },
            0xD => {
                let pressure: u8 = data_byte(buffer);
                Some(MidiData::ChannelPressure { channel, pressure })
            },
            _ => {
                let pitch_bend: u16 = data_pair(buffer);
                Some(MidiData::PitchBend { channel, pitch_bend })
            },
        }
    } else {
        match channel {
            0x0 => {
                let mut data: Vec<u8> = Vec::new();
                let mut i: usize = 1;
                while i + 1 < needed
                    invariant
                        1 <= i < needed <= queue.len(),
                        buffer@ == queue.subrange(i as int, queue.len() as int),
                        data@ == queue.subrange(1, i as int),
                    decreases needed - i,
                {
                    let next: u8 = n(buffer);
                    data.push(next);
                    i += 1;
                }
                let _ = n(buffer);
                assert(data@ == frame.subrange(1, frame.len() - 1));
                Some(MidiData::SysEx { id_and_data: data })
            },
            0x1 => {
                assert(frame[1] == queue[1]);
                let data: u8 = data_byte(buffer);
                let time_fragment = timecode_from(data);
                Some(MidiData::SysCommon(SysCommon::QuarterFrame { time_fragment }))
            },
            0x2 => {
                assert(frame[1] == queue[1] && frame[2] == queue[2]);
                let position: u16 = data_pair(buffer);
                Some(MidiData::SysCommon(SysCommon::SongPositionPointer { position }))
            },
            0x3 => {
                assert(frame[1] == queue[1]);
                let song: u8 = data_byte(buffer);
                Some(MidiData::SysCommon(SysCommon::SongSelect { song }))
            },
            0x6 => Some(MidiData::SysCommon(SysCommon::TuneRequest)),
            0x8 => Some(MidiData::SysRt(SysRt::MidiClock)),
            0x9 => Some(MidiData::SysRt(SysRt::Tick)),
            0xA => Some(MidiData::SysRt(SysRt::Start)),
            0xB => Some(MidiData::SysRt(SysRt::Continue)),
            0xC => Some(MidiData::SysRt(SysRt::Stop)),
            0xE => Some(MidiData::SysRt(SysRt::ActiveSensing)),
            0xF => Some(MidiData::SysRt(SysRt::Reset)),
            _ => None,
        }
    }
}

} // verus!
