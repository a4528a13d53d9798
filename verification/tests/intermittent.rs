use clocked::intermittent::{IntermittentSink, IntermittentSource, StreamMapper, TimedValue};
use clocked::midi::{MidiData, SysRt};
use clocked::midir::{parse_timed, MidirSink, MidirSource};
use std::collections::VecDeque;
use std::sync::mpsc;
use std::time::Duration;

fn ms(millis: u64) -> Duration {
    Duration::from_millis(millis)
}

fn input_messages<T, F>(
    source: &mut IntermittentSource<u8, T, F>,
    messages_in: Vec<u8>,
    since_start: Duration,
    timestamp: Duration,
) where
    F: FnMut(&mut VecDeque<u8>, Duration) -> Option<TimedValue<T>>,
{
    let stamp = source.queue_messages(messages_in, since_start, timestamp);
    while source.forward_next(stamp) {}
}

fn pair(queue: &mut VecDeque<u8>, time: Duration) -> Option<TimedValue<u16>> {
    if queue.len() >= 2 {
        let high = queue.pop_front().unwrap() as u16;
        let low = queue.pop_front().unwrap() as u16;
        Some(TimedValue { since_start: time, value: high * 256 + low })
    } else {
        None
    }
}

#[test]
fn mapper_steps_only_on_a_queue_that_holds_something() {
    let mut calls = 0;
    let mut mapper = StreamMapper::new(|queue: &mut VecDeque<u8>, time: Duration| {
        calls += 1;
        pair(queue, time)
    });
    assert!(mapper.step(ms(1)).is_none());
    mapper.values_in.push_back(1);
    assert!(mapper.step(ms(2)).is_none());
    mapper.values_in.push_back(2);
    let value = mapper.step(ms(3)).unwrap();
    assert_eq!(value.value, 258);
    assert_eq!(value.since_start, ms(3));
    assert!(mapper.values_in.is_empty());
    assert!(mapper.step(ms(4)).is_none());
    drop(mapper);
    assert_eq!(calls, 2);
}

#[test]
fn timed_parse_stamps_the_message() {
    let mut queue: VecDeque<u8> = [0x90, 60, 100, 0xF8].into_iter().collect();
    let first = parse_timed(&mut queue, ms(7)).unwrap();
    assert_eq!(first.since_start, ms(7));
    assert_eq!(first.value, MidiData::NoteOn { channel: 0, note: 60, velocity: 100 });
    let second = parse_timed(&mut queue, ms(8)).unwrap();
    assert_eq!(second.value, MidiData::SysRt(SysRt::MidiClock));
    assert!(parse_timed(&mut queue, ms(9)).is_none());
}

#[test]
fn source_stamps_with_local_time() {
    let (sender, receiver) = mpsc::channel();
    let mut source = IntermittentSource::new(sender, parse_timed);
    // The device clock is 900 ms behind the local clock.
    input_messages(&mut source, vec![0x90, 60, 100, 0x80, 60, 0], ms(1000), ms(100));
    let first = receiver.try_recv().unwrap();
    assert_eq!(first.since_start, ms(1000));
    assert_eq!(first.value, MidiData::NoteOn { channel: 0, note: 60, velocity: 100 });
    let second = receiver.try_recv().unwrap();
    assert_eq!(second.since_start, ms(1000));
    assert_eq!(second.value, MidiData::NoteOff { channel: 0, note: 60, velocity: 0 });
    assert!(receiver.try_recv().is_err());
    // Later deliveries go by the device time, whatever the local clock says.
    input_messages(&mut source, vec![0xF8], ms(5000), ms(350));
    let third = receiver.try_recv().unwrap();
    assert_eq!(third.since_start, ms(1250));
    assert_eq!(third.value, MidiData::SysRt(SysRt::MidiClock));
}

#[test]
fn source_with_device_clock_ahead() {
    let (sender, receiver) = mpsc::channel();
    let mut source = IntermittentSource::new(sender, parse_timed);
    input_messages(&mut source, vec![0xFA], ms(10), ms(4000));
    assert_eq!(receiver.try_recv().unwrap().since_start, ms(10));
    assert!(source.can_stamp(ms(3990)));
    assert!(!source.can_stamp(ms(3989)));
    input_messages(&mut source, vec![0xFC], ms(20), ms(4500));
    assert_eq!(receiver.try_recv().unwrap().since_start, ms(510));
    assert_eq!(source.try_queue_messages(vec![0xFB], ms(30), ms(1000)), None);
    assert!(!source.forward_next(ms(0)));
    assert!(receiver.try_recv().is_err());
    assert_eq!(source.try_queue_messages(vec![0xFB], ms(30), ms(3990)), Some(ms(0)));
    assert!(source.forward_next(ms(0)));
    assert!(!source.forward_next(ms(0)));
    let last = receiver.try_recv().unwrap();
    assert_eq!(last.since_start, ms(0));
    assert_eq!(last.value, MidiData::SysRt(SysRt::Continue));
}

#[test]
fn source_keeps_an_incomplete_message_for_the_next_delivery() {
    let (sender, receiver) = mpsc::channel();
    let mut source = IntermittentSource::new(sender, parse_timed);
    input_messages(&mut source, vec![0x90, 60], ms(0), ms(0));
    assert!(receiver.try_recv().is_err());
    input_messages(&mut source, vec![100, 0xF0, 1], ms(5), ms(5));
    let note = receiver.try_recv().unwrap();
    assert_eq!(note.since_start, ms(5));
    assert_eq!(note.value, MidiData::NoteOn { channel: 0, note: 60, velocity: 100 });
    assert!(receiver.try_recv().is_err());
    input_messages(&mut source, vec![2, 0xF7], ms(9), ms(9));
    let sysex = receiver.try_recv().unwrap();
    assert_eq!(sysex.since_start, ms(9));
    assert_eq!(sysex.value, MidiData::SysEx { id_and_data: vec![1, 2] });
}

#[test]
fn source_stops_quietly_when_the_receiver_is_gone() {
    let (sender, receiver) = mpsc::channel();
    let mut source = IntermittentSource::new(sender, parse_timed);
    drop(receiver);
    input_messages(&mut source, vec![0xF8, 0xF8, 0xF8], ms(1), ms(1));
    input_messages(&mut source, vec![0xF8], ms(2), ms(2));
}

#[test]
fn source_goes_on_until_the_converter_yields_nothing() {
    let (sender, receiver) = mpsc::channel();
    // A converter that takes the front item and, on a 1, puts a 2 and a 3
    // at the back of the queue.
    let mut source = IntermittentSource::new(sender, |queue: &mut VecDeque<u8>, time: Duration| {
        let value = queue.pop_front().unwrap();
        if value == 1 {
            queue.push_back(2);
            queue.push_back(3);
        }
        Some(TimedValue { since_start: time, value })
    });
    input_messages(&mut source, vec![1], ms(1), ms(1));
    assert_eq!(receiver.try_recv().unwrap().value, 1);
    assert_eq!(receiver.try_recv().unwrap().value, 2);
    assert_eq!(receiver.try_recv().unwrap().value, 3);
    assert!(receiver.try_recv().is_err());
}

#[test]
fn source_forwards_one_value_at_a_time() {
    let (sender, receiver) = mpsc::channel();
    let mut source = IntermittentSource::new(sender, parse_timed);
    assert!(!source.forward_next(ms(1)));
    let stamp = source.queue_messages(vec![0xF8, 0xFA, 0x90], ms(7), ms(3));
    assert_eq!(stamp, ms(7));
    assert!(receiver.try_recv().is_err());
    assert!(source.forward_next(stamp));
    assert_eq!(receiver.try_recv().unwrap().value, MidiData::SysRt(SysRt::MidiClock));
    assert!(receiver.try_recv().is_err());
    assert!(source.forward_next(stamp));
    assert_eq!(receiver.try_recv().unwrap().value, MidiData::SysRt(SysRt::Start));
    assert!(!source.forward_next(stamp));
    assert!(receiver.try_recv().is_err());
    drop(receiver);
    assert_eq!(source.queue_messages(vec![60, 100, 0xF8], ms(9), ms(5)), ms(9));
    assert!(!source.forward_next(ms(9)));
    assert!(source.forward_next(ms(9)) == false);
}

#[test]
fn sink_hands_on_what_arrives() {
    let (sender, receiver) = mpsc::channel();
    let (seen_in, seen_out) = mpsc::channel();
    let mut sink = IntermittentSink::new(receiver, move |value: u32| {
        seen_in.send(value * 2).unwrap();
    });
    sender.send(1).unwrap();
    sender.send(2).unwrap();
    assert!(sink.forward());
    assert_eq!(seen_out.try_recv(), Ok(2));
    assert!(sink.forward());
    assert_eq!(seen_out.try_recv(), Ok(4));
    drop(sender);
    assert!(!sink.forward());
    assert!(seen_out.try_recv().is_err());
}

#[test]
fn port_ends_hold_their_channels() {
    let (sender, receiver) = mpsc::channel();
    let source = MidirSource { receiver };
    sender
        .send(TimedValue { since_start: ms(3), value: MidiData::SysRt(SysRt::Stop) })
        .unwrap();
    assert_eq!(source.receiver.recv().unwrap().value, MidiData::SysRt(SysRt::Stop));
    let (sender, receiver) = mpsc::channel();
    let sink = MidirSink { sender };
    sink.sender.send(MidiData::MidiNone).unwrap();
    assert_eq!(receiver.recv().unwrap(), MidiData::MidiNone);
}

#[test]
fn stamp_fixes_the_difference_at_the_first_delivery() {
    let (sender, _receiver) = mpsc::channel::<TimedValue<MidiData>>();
    let mut source = IntermittentSource::new(sender, parse_timed);
    assert_eq!(source.stamp(ms(1000), ms(100)), ms(1000));
    assert_eq!(source.stamp(ms(9999), ms(101)), ms(1001));
    assert_eq!(source.stamp(ms(0), ms(100)), ms(1000));
    let (sender, _receiver) = mpsc::channel::<TimedValue<MidiData>>();
    let mut ahead = IntermittentSource::new(sender, parse_timed);
    assert_eq!(ahead.stamp(ms(5), ms(105)), ms(5));
    assert_eq!(ahead.stamp(ms(77), ms(100)), ms(0));
    assert_eq!(ahead.stamp(ms(77), ms(1100)), ms(1000));
    assert!(!ahead.can_stamp(ms(99)));
}

#[test]
fn sink_delivers_what_it_is_given() {
    let (_sender, receiver) = mpsc::channel::<u32>();
    let (seen_in, seen_out) = mpsc::channel();
    let mut sink = IntermittentSink::new(receiver, move |value: u32| {
        seen_in.send(value + 1).unwrap();
    });
    assert!(sink.deliver(Some(41)));
    assert_eq!(seen_out.try_recv(), Ok(42));
    assert!(!sink.deliver(None));
    assert!(seen_out.try_recv().is_err());
}
