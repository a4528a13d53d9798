use clocked::midi::{
    n, parse_midi, prep_message, u16_to_midi_bytes, write_midi_bytes, MidiData, MidiMessage,
    SysCommon, SysRt, Timecode,
};
use std::collections::VecDeque;
use std::time::Duration;

fn queue(bytes: &[u8]) -> VecDeque<u8> {
    bytes.iter().copied().collect()
}

fn bytes_of(message: &MidiData) -> Vec<u8> {
    let mut out = Vec::new();
    let written = write_midi_bytes(message, &mut out);
    assert_eq!(written, out.len());
    out
}

fn round_trip(message: MidiData) {
    let bytes = bytes_of(&message);
    let mut buffer = queue(&bytes);
    assert_eq!(parse_midi(&mut buffer), Some(message));
    assert!(buffer.is_empty());
}

#[test]
fn note_on_round_trips() {
    let message = MidiData::NoteOn { channel: 0, note: 66, velocity: 100 };
    assert_eq!(bytes_of(&message), vec![0x90, 0x42, 0x64]);
    let mut buffer = queue(&[0x90, 0x42, 0x64]);
    assert_eq!(parse_midi(&mut buffer), Some(message));
    assert!(buffer.is_empty());
}

#[test]
fn sysex_parses_and_reserializes() {
    let mut buffer = queue(&[0xF0, 0x7D, 0x01, 0x02, 0xF7]);
    let parsed = parse_midi(&mut buffer);
    assert_eq!(parsed, Some(MidiData::SysEx { id_and_data: vec![0x7D, 0x01, 0x02] }));
    assert!(buffer.is_empty());
    assert_eq!(bytes_of(&parsed.unwrap()), vec![0xF0, 0x7D, 0x01, 0x02, 0xF7]);
}

#[test]
fn pitch_bend_round_trips() {
    let message = MidiData::PitchBend { channel: 3, pitch_bend: 8192 };
    assert_eq!(bytes_of(&message), vec![0xE3, 0x00, 0x40]);
    round_trip(message);
}

#[test]
fn every_voice_message_round_trips() {
    for channel in 0..16u8 {
        for data in [0u8, 1, 63, 64, 127] {
            round_trip(MidiData::NoteOff { channel, note: data, velocity: 127 - data });
            round_trip(MidiData::NoteOn { channel, note: data, velocity: 127 - data });
            round_trip(MidiData::Aftertouch { channel, note: data, pressure: 127 - data });
            round_trip(MidiData::ControlChange { channel, controller: data, value: 127 - data });
            round_trip(MidiData::ProgramChange { channel, patch: data });
            round_trip(MidiData::ChannelPressure { channel, pressure: data });
        }
        for pitch_bend in [0u16, 1, 127, 128, 8191, 8192, 16383] {
            round_trip(MidiData::PitchBend { channel, pitch_bend });
        }
    }
}

#[test]
fn voice_status_bytes() {
    assert_eq!(bytes_of(&MidiData::NoteOff { channel: 1, note: 2, velocity: 3 }), vec![0x81, 2, 3]);
    assert_eq!(bytes_of(&MidiData::Aftertouch { channel: 2, note: 4, pressure: 5 }), vec![0xA2, 4, 5]);
    assert_eq!(
        bytes_of(&MidiData::ControlChange { channel: 15, controller: 7, value: 100 }),
        vec![0xBF, 7, 100]
    );
    assert_eq!(bytes_of(&MidiData::ProgramChange { channel: 4, patch: 9 }), vec![0xC4, 9]);
    assert_eq!(bytes_of(&MidiData::ChannelPressure { channel: 5, pressure: 11 }), vec![0xD5, 11]);
}

#[test]
fn channel_is_cut_to_four_bits_on_write() {
    assert_eq!(
        bytes_of(&MidiData::NoteOn { channel: 0x13, note: 60, velocity: 1 }),
        vec![0x93, 60, 1]
    );
}

#[test]
fn every_system_common_message_round_trips() {
    for value in 0..16u8 {
        round_trip(MidiData::SysCommon(SysCommon::QuarterFrame { time_fragment: Timecode::FrameLow(value) }));
        round_trip(MidiData::SysCommon(SysCommon::QuarterFrame { time_fragment: Timecode::FrameHigh(value) }));
        round_trip(MidiData::SysCommon(SysCommon::QuarterFrame { time_fragment: Timecode::SecondsLow(value) }));
        round_trip(MidiData::SysCommon(SysCommon::QuarterFrame { time_fragment: Timecode::SecondsHigh(value) }));
        round_trip(MidiData::SysCommon(SysCommon::QuarterFrame { time_fragment: Timecode::MinutesLow(value) }));
        round_trip(MidiData::SysCommon(SysCommon::QuarterFrame { time_fragment: Timecode::MinutesHigh(value) }));
        round_trip(MidiData::SysCommon(SysCommon::QuarterFrame { time_fragment: Timecode::HoursLow(value) }));
        round_trip(MidiData::SysCommon(SysCommon::QuarterFrame { time_fragment: Timecode::HoursHigh(value) }));
    }
    for position in [0u16, 1, 128, 8192, 16383] {
        round_trip(MidiData::SysCommon(SysCommon::SongPositionPointer { position }));
    }
    for song in [0u8, 1, 127] {
        round_trip(MidiData::SysCommon(SysCommon::SongSelect { song }));
    }
    round_trip(MidiData::SysCommon(SysCommon::TuneRequest));
}

#[test]
fn system_common_bytes() {
    assert_eq!(
        bytes_of(&MidiData::SysCommon(SysCommon::QuarterFrame { time_fragment: Timecode::SecondsHigh(5) })),
        vec![0xF1, 0x35]
    );
    assert_eq!(
        bytes_of(&MidiData::SysCommon(SysCommon::SongPositionPointer { position: 300 })),
        vec![0xF2, 44, 2]
    );
    assert_eq!(bytes_of(&MidiData::SysCommon(SysCommon::SongSelect { song: 3 })), vec![0xF3, 3]);
    assert_eq!(bytes_of(&MidiData::SysCommon(SysCommon::TuneRequest)), vec![0xF6]);
}

#[test]
fn every_realtime_message_round_trips() {
    let all = [
        (SysRt::MidiClock, 0xF8u8),
        (SysRt::Tick, 0xF9),
        (SysRt::Start, 0xFA),
        (SysRt::Continue, 0xFB),
        (SysRt::Stop, 0xFC),
        (SysRt::ActiveSensing, 0xFE),
        (SysRt::Reset, 0xFF),
    ];
    for (message, status) in all {
        assert_eq!(message.status(), status);
        assert_eq!(bytes_of(&MidiData::SysRt(message)), vec![status]);
        round_trip(MidiData::SysRt(message));
    }
}

#[test]
fn sysex_round_trips() {
    round_trip(MidiData::SysEx { id_and_data: vec![] });
    round_trip(MidiData::SysEx { id_and_data: vec![0x7F] });
    round_trip(MidiData::SysEx { id_and_data: (0..128u8).collect() });
}

#[test]
fn midi_none_writes_nothing() {
    let mut out = vec![1u8, 2];
    assert_eq!(write_midi_bytes(&MidiData::MidiNone, &mut out), 0);
    assert_eq!(out, vec![1, 2]);
}

#[test]
fn write_appends_to_what_is_there() {
    let mut out = vec![0xF8u8];
    assert_eq!(write_midi_bytes(&MidiData::NoteOn { channel: 0, note: 1, velocity: 2 }, &mut out), 3);
    assert_eq!(out, vec![0xF8, 0x90, 1, 2]);
}

#[test]
fn parse_takes_one_message_and_leaves_the_rest() {
    let mut buffer = queue(&[0x90, 60, 100, 0x80, 60, 0, 0xF8]);
    assert_eq!(parse_midi(&mut buffer), Some(MidiData::NoteOn { channel: 0, note: 60, velocity: 100 }));
    assert_eq!(buffer, queue(&[0x80, 60, 0, 0xF8]));
    assert_eq!(parse_midi(&mut buffer), Some(MidiData::NoteOff { channel: 0, note: 60, velocity: 0 }));
    assert_eq!(parse_midi(&mut buffer), Some(MidiData::SysRt(SysRt::MidiClock)));
    assert_eq!(parse_midi(&mut buffer), None);
    assert!(buffer.is_empty());
}

#[test]
fn leading_data_bytes_are_dropped() {
    let mut buffer = queue(&[1, 2, 3, 0xC5, 7]);
    assert_eq!(parse_midi(&mut buffer), Some(MidiData::ProgramChange { channel: 5, patch: 7 }));
    assert!(buffer.is_empty());
    let mut junk = queue(&[1, 2, 3]);
    assert_eq!(parse_midi(&mut junk), None);
    assert!(junk.is_empty());
}

#[test]
fn incomplete_message_waits_in_the_queue() {
    let mut buffer = queue(&[0x90, 60]);
    assert_eq!(parse_midi(&mut buffer), None);
    assert_eq!(buffer, queue(&[0x90, 60]));
    buffer.push_back(100);
    assert_eq!(parse_midi(&mut buffer), Some(MidiData::NoteOn { channel: 0, note: 60, velocity: 100 }));
    assert!(buffer.is_empty());
}

#[test]
fn incomplete_sysex_waits_in_the_queue() {
    let mut buffer = queue(&[0xF0, 1, 2]);
    assert_eq!(parse_midi(&mut buffer), None);
    assert_eq!(buffer, queue(&[0xF0, 1, 2]));
    buffer.push_back(3);
    buffer.push_back(0xF7);
    assert_eq!(parse_midi(&mut buffer), Some(MidiData::SysEx { id_and_data: vec![1, 2, 3] }));
    assert!(buffer.is_empty());
}

#[test]
fn sysex_cut_short_is_dropped() {
    let mut buffer = queue(&[0xF0, 1, 2, 0x90, 60, 100]);
    assert_eq!(parse_midi(&mut buffer), Some(MidiData::NoteOn { channel: 0, note: 60, velocity: 100 }));
    assert!(buffer.is_empty());
    let mut twice = queue(&[0xF0, 1, 0xF0, 2, 0xF0, 3, 0xF7, 0xF6]);
    assert_eq!(parse_midi(&mut twice), Some(MidiData::SysEx { id_and_data: vec![3] }));
    assert_eq!(twice, queue(&[0xF6]));
}

#[test]
fn reserved_status_bytes_are_taken_and_give_nothing() {
    for status in [0xF4u8, 0xF5, 0xFD, 0xF7] {
        let mut buffer = queue(&[status, 0xF8]);
        assert_eq!(parse_midi(&mut buffer), None);
        assert_eq!(buffer, queue(&[0xF8]));
        assert_eq!(parse_midi(&mut buffer), Some(MidiData::SysRt(SysRt::MidiClock)));
    }
    let mut alone = queue(&[0xF4]);
    assert_eq!(parse_midi(&mut alone), None);
    assert!(alone.is_empty());
}

#[test]
fn data_bytes_lose_their_top_bit() {
    let mut buffer = queue(&[0xC0, 0x85]);
    assert_eq!(parse_midi(&mut buffer), Some(MidiData::ProgramChange { channel: 0, patch: 5 }));
    let mut song = queue(&[0xF3, 0x85]);
    assert_eq!(parse_midi(&mut song), Some(MidiData::SysCommon(SysCommon::SongSelect { song: 5 })));
    let mut bend = queue(&[0xE0, 0xFF, 0xFF]);
    assert_eq!(parse_midi(&mut bend), Some(MidiData::PitchBend { channel: 0, pitch_bend: 16383 }));
}

#[test]
fn quarter_frame_splits_its_data_byte() {
    let mut buffer = queue(&[0xF1, 0x7A]);
    assert_eq!(
        parse_midi(&mut buffer),
        Some(MidiData::SysCommon(SysCommon::QuarterFrame { time_fragment: Timecode::HoursHigh(10) }))
    );
    let mut low = queue(&[0xF1, 0x03]);
    assert_eq!(
        parse_midi(&mut low),
        Some(MidiData::SysCommon(SysCommon::QuarterFrame { time_fragment: Timecode::FrameLow(3) }))
    );
}

#[test]
fn prep_message_tells_the_length() {
    for (status, length) in [
        (0x80u8, 3usize),
        (0x9F, 3),
        (0xA0, 3),
        (0xB1, 3),
        (0xC2, 2),
        (0xD3, 2),
        (0xE4, 3),
        (0xF1, 2),
        (0xF2, 3),
        (0xF3, 2),
        (0xF4, 1),
        (0xF5, 1),
        (0xF6, 1),
        (0xF7, 1),
        (0xF8, 1),
        (0xF9, 1),
        (0xFA, 1),
        (0xFB, 1),
        (0xFC, 1),
        (0xFD, 1),
        (0xFE, 1),
        (0xFF, 1),
    ] {
        let mut buffer = queue(&[5, status]);
        assert_eq!(prep_message(&mut buffer), Some(length));
        assert_eq!(buffer, queue(&[status]));
    }
    let mut sysex = queue(&[0xF0, 1, 2, 3, 0xF7, 9]);
    assert_eq!(prep_message(&mut sysex), Some(5));
    assert_eq!(sysex.len(), 6);
    let mut open = queue(&[0xF0, 1, 2, 3]);
    assert_eq!(prep_message(&mut open), None);
    assert_eq!(open.len(), 4);
    let mut empty = queue(&[]);
    assert_eq!(prep_message(&mut empty), None);
}

#[test]
fn n_takes_the_front_byte() {
    let mut buffer = queue(&[7, 8]);
    assert_eq!(n(&mut buffer), 7);
    assert_eq!(buffer, queue(&[8]));
}

#[test]
fn u16_splits_low_byte_first() {
    assert_eq!(u16_to_midi_bytes(0), [0, 0]);
    assert_eq!(u16_to_midi_bytes(8192), [0x00, 0x40]);
    assert_eq!(u16_to_midi_bytes(16383), [0x7F, 0x7F]);
    assert_eq!(u16_to_midi_bytes(300), [44, 2]);
    assert_eq!(u16_to_midi_bytes(0xFFFF), [0x7F, 0x7F]);
}

#[test]
fn round_trip_with_bytes_following() {
    let message = MidiData::SysEx { id_and_data: vec![1, 2, 3] };
    let mut bytes = bytes_of(&message);
    bytes.extend_from_slice(&[0x90, 1]);
    let mut buffer = queue(&bytes);
    assert_eq!(parse_midi(&mut buffer), Some(message));
    assert_eq!(buffer, queue(&[0x90, 1]));
}

#[test]
fn midi_message_holds_data_and_time() {
    let message = MidiMessage {
        data: MidiData::SysRt(SysRt::Start),
        timestamp: Duration::from_millis(5),
    };
    assert_eq!(message.clone(), message);
    assert_eq!(message.timestamp, Duration::from_millis(5));
}
