use clocked::resample::{Resampler, FRAME_LOOKBACK, ROLLING_AVG_LENGTH};
use clocked::stream::{CompensationStrategy, StreamSink};
use rtrb::RingBuffer;

/// A resampler that keeps the ratio at one: every output frame uses up one
/// fresh frame and is the second frame of the lookback.
#[derive(Default)]
struct Unity {
    started: usize,
    retuned: usize,
    advanced: usize,
    seen_ring_size: usize,
    worst_occupancy: usize,
    window_length: usize,
}

impl Unity {
    fn look(&mut self, occupancy: &[usize], ring_size: usize) {
        self.seen_ring_size = ring_size;
        self.window_length = occupancy.len();
        for slots in occupancy {
            self.worst_occupancy = self.worst_occupancy.max(*slots);
        }
    }
}

impl Resampler<i32> for Unity {
    fn start(&mut self, occupancy: &[usize], ring_size: usize) {
        self.started += 1;
        self.look(occupancy, ring_size);
    }

    fn retune(&mut self, occupancy: &[usize], ring_size: usize) {
        self.retuned += 1;
        self.look(occupancy, ring_size);
    }

    fn samples_needed(&self) -> usize {
        1
    }

    fn interpolate(&self, _x0: i32, x1: i32, _x2: i32, _x3: i32) -> i32 {
        x1
    }

    fn advance(&mut self) {
        self.advanced += 1;
    }
}

/// A resampler that plays a fixed list of needs, one per output frame, and
/// adds up the lookback so that every sample of it shows in the output.
struct Script {
    needs: Vec<usize>,
    at: usize,
}

impl Resampler<i32> for Script {
    fn start(&mut self, _occupancy: &[usize], _ring_size: usize) {}

    fn retune(&mut self, _occupancy: &[usize], _ring_size: usize) {}

    fn samples_needed(&self) -> usize {
        self.needs[self.at % self.needs.len()]
    }

    fn interpolate(&self, x0: i32, x1: i32, x2: i32, x3: i32) -> i32 {
        x0 * 1000 + x1 * 100 + x2 * 10 + x3
    }

    fn advance(&mut self) {
        self.at += 1;
    }
}

/// A resampler that keeps the occupancies it is shown.
#[derive(Default)]
struct Watch {
    shown: Vec<Vec<usize>>,
}

impl Resampler<i32> for Watch {
    fn start(&mut self, occupancy: &[usize], _ring_size: usize) {
        self.shown.push(occupancy.to_vec());
    }

    fn retune(&mut self, occupancy: &[usize], _ring_size: usize) {
        self.shown.push(occupancy.to_vec());
    }

    fn samples_needed(&self) -> usize {
        1
    }

    fn interpolate(&self, _x0: i32, x1: i32, _x2: i32, _x3: i32) -> i32 {
        x1
    }

    fn advance(&mut self) {}
}

const UNTOUCHED: i32 = -1;

#[test]
fn sink_underrun_leaves_the_rest_untouched() {
    let (mut producer, consumer) = RingBuffer::new(512);
    let mut sink = StreamSink::new(consumer, 1, 15, Unity::default(), 0);
    for sample in 0..100 {
        producer.push(sample).unwrap();
    }
    let mut buffer = [UNTOUCHED; 256];
    sink.output_samples(&mut buffer, true);
    for (i, sample) in buffer.iter().enumerate() {
        if i < 100 {
            assert_eq!(*sample, i as i32);
        } else {
            assert_eq!(*sample, UNTOUCHED);
        }
    }
    assert_eq!(sink.xruns, 1);
    assert_eq!(sink.xruns(), 1);
    assert!(sink.realign());
    assert!(producer.slots() == 512);
    assert_eq!(*sink.get_strategy(), CompensationStrategy::Idle);
}

#[test]
fn sink_passes_samples_through_in_order() {
    let (mut producer, consumer) = RingBuffer::new(64);
    let mut sink = StreamSink::with_defaults(consumer, 2, Unity::default(), 0);
    assert_eq!(sink.channels(), 2);
    for sample in 0..40 {
        producer.push(sample).unwrap();
    }
    let mut buffer = [UNTOUCHED; 32];
    sink.output_samples(&mut buffer, true);
    let expected: Vec<i32> = (0..32).collect();
    assert_eq!(buffer.to_vec(), expected);
    assert_eq!(sink.xruns, 0);
    assert_eq!(producer.slots(), 64 - 8);
}

#[test]
fn sink_counts_an_overrun_when_the_ring_is_full() {
    let (mut producer, consumer) = RingBuffer::new(8);
    let mut sink = StreamSink::new(consumer, 1, 15, Unity::default(), 0);
    for sample in 0..8 {
        producer.push(sample).unwrap();
    }
    let mut buffer = [UNTOUCHED; 4];
    sink.output_samples(&mut buffer, true);
    assert_eq!(buffer, [0, 1, 2, 3]);
    assert_eq!(sink.xruns, 1);
    sink.output_samples(&mut buffer, true);
    assert_eq!(buffer, [4, 5, 6, 7]);
    assert_eq!(sink.xruns, 1);
}

#[test]
fn sink_counts_nothing_while_xruns_are_not_measured() {
    let (mut producer, consumer) = RingBuffer::new(8);
    let mut sink = StreamSink::new(consumer, 1, 15, Unity::default(), 0);
    for sample in 0..8 {
        producer.push(sample).unwrap();
    }
    let mut buffer = [UNTOUCHED; 16];
    sink.output_samples(&mut buffer, false);
    assert_eq!(sink.xruns, 0);
    assert_eq!(&buffer[..8], &[0, 1, 2, 3, 4, 5, 6, 7]);
    assert_eq!(&buffer[8..], &[UNTOUCHED; 8]);
}

#[test]
fn sink_with_empty_buffer_reads_nothing() {
    let (mut producer, consumer) = RingBuffer::new(8);
    let mut sink = StreamSink::new(consumer, 2, 15, Unity::default(), 0);
    producer.push(1).unwrap();
    let mut buffer: [i32; 0] = [];
    sink.output_samples(&mut buffer, true);
    assert_eq!(sink.xruns, 0);
    assert_eq!(producer.slots(), 7);
}

#[test]
fn sink_drops_the_rest_of_a_frame_cut_short() {
    let (mut producer, consumer) = RingBuffer::new(64);
    let mut sink = StreamSink::new(consumer, 3, 15, Unity::default(), 0);
    for sample in [10, 11, 12, 20] {
        producer.push(sample).unwrap();
    }
    let mut buffer = [UNTOUCHED; 6];
    sink.output_samples(&mut buffer, true);
    assert_eq!(buffer, [10, 11, 12, 20, UNTOUCHED, UNTOUCHED]);
    assert_eq!(sink.xruns, 1);
    assert!(!sink.realign());
    producer.push(21).unwrap();
    assert!(!sink.realign());
    assert_eq!(producer.slots(), 64);
    for sample in [22, 30, 31, 32] {
        producer.push(sample).unwrap();
    }
    assert!(sink.realign());
    assert_eq!(producer.slots(), 64 - 3);
    let mut next = [UNTOUCHED; 3];
    sink.output_samples(&mut next, true);
    assert_eq!(next, [30, 31, 32]);
    assert_eq!(sink.xruns, 1);
}

#[test]
fn sink_drops_at_once_what_the_ring_holds_of_a_cut_frame() {
    let (mut producer, consumer) = RingBuffer::new(64);
    let mut sink = StreamSink::new(consumer, 2, 15, Unity::default(), 0);
    producer.push(1).unwrap();
    let mut buffer = [UNTOUCHED; 2];
    sink.output_samples(&mut buffer, true);
    assert_eq!(buffer, [1, UNTOUCHED]);
    for sample in [2, 3, 4] {
        producer.push(sample).unwrap();
    }
    assert!(sink.realign());
    sink.output_samples(&mut buffer, true);
    assert_eq!(buffer, [3, 4]);
}

#[test]
fn sink_turns_compensation_on_at_the_threshold() {
    let (mut producer, consumer) = RingBuffer::new(64);
    let mut sink = StreamSink::new(consumer, 2, 2, Unity::default(), 0);
    let mut buffer = [UNTOUCHED; 4];
    sink.output_samples(&mut buffer, true);
    assert_eq!(sink.xruns, 1);
    assert_eq!(*sink.get_strategy(), CompensationStrategy::Idle);
    sink.output_samples(&mut buffer, true);
    assert_eq!(sink.xruns, 2);
    assert_eq!(*sink.get_strategy(), CompensationStrategy::Idle);
    assert_eq!(sink.resampler().started, 0);
    for sample in 1..=20 {
        producer.push(sample).unwrap();
    }
    sink.output_samples(&mut buffer, true);
    assert_eq!(*sink.get_strategy(), CompensationStrategy::Resample);
    assert_eq!(sink.resampler().started, 1);
    assert_eq!(sink.resampler().retuned, 0);
    assert_eq!(sink.resampler().advanced, 2);
    assert_eq!(sink.xruns, 2);
    // Frames (1,2) (3,4) (5,6) seed the lookback behind a frame of silence.
    // Each output frame is the second frame of the lookback, and one fresh
    // frame slides in after it.
    assert_eq!(buffer, [1, 2, 3, 4]);
    assert_eq!(producer.slots(), 64 - 10);
    sink.output_samples(&mut buffer, true);
    assert_eq!(buffer, [5, 6, 7, 8]);
    assert_eq!(sink.resampler().retuned, 1);
}

#[test]
fn sink_shows_the_resampler_occupancies_within_the_ring_size() {
    let (mut producer, consumer) = RingBuffer::new(16);
    let mut sink = StreamSink::new(consumer, 1, 0, Unity::default(), 0);
    let mut buffer = [UNTOUCHED; 4];
    for round in 0..100 {
        while producer.push(round).is_ok() {}
        sink.output_samples(&mut buffer, true);
    }
    assert_eq!(*sink.get_strategy(), CompensationStrategy::Resample);
    assert_eq!(sink.resampler().seen_ring_size, 16);
    assert_eq!(sink.resampler().window_length, ROLLING_AVG_LENGTH);
    assert_eq!(sink.resampler().worst_occupancy, 16);
}

#[test]
fn sink_resampling_stops_at_an_empty_ring() {
    let (mut producer, consumer) = RingBuffer::new(64);
    let mut sink = StreamSink::new(consumer, 2, 0, Unity::default(), 0);
    for sample in 1..=9 {
        producer.push(sample).unwrap();
    }
    let mut buffer = [UNTOUCHED; 8];
    sink.output_samples(&mut buffer, true);
    // Six samples seed the lookback; one whole frame is left for the first
    // output frame, and the second finds a single sample.
    assert_eq!(buffer, [1, 2, UNTOUCHED, UNTOUCHED, UNTOUCHED, UNTOUCHED, UNTOUCHED, UNTOUCHED]);
    assert_eq!(sink.xruns, 1);
    assert!(!sink.realign());
    producer.push(10).unwrap();
    assert!(sink.realign());
    assert_eq!(producer.slots(), 64);
}

#[test]
fn sink_seeding_from_a_short_ring_is_an_xrun() {
    let (mut producer, consumer) = RingBuffer::new(64);
    let mut sink = StreamSink::new(consumer, 2, 0, Unity::default(), 0);
    for sample in 1..=3 {
        producer.push(sample).unwrap();
    }
    let mut buffer = [UNTOUCHED; 4];
    sink.output_samples(&mut buffer, true);
    assert_eq!(*sink.get_strategy(), CompensationStrategy::Resample);
    assert_eq!(buffer, [UNTOUCHED; 4]);
    assert_eq!(sink.xruns, 2);
    assert!(!sink.realign());
    producer.push(4).unwrap();
    assert!(sink.realign());
}

#[test]
fn sink_lookback_slides_by_what_the_resampler_needs() {
    let (mut producer, consumer) = RingBuffer::new(64);
    let script = Script { needs: vec![0, 1, 2, 9], at: 0 };
    let mut sink = StreamSink::new(consumer, 1, 0, script, 0);
    for sample in 1..=14 {
        producer.push(sample).unwrap();
    }
    let mut buffer = [UNTOUCHED; 5];
    sink.output_samples(&mut buffer, true);
    // Lookback after seeding: 0 1 2 3. Each output shows the lookback as it
    // stood. The needs 0, 1, 2 and 9, the last cut to the length of the
    // lookback, let it slide to 1 2 3 4, then 3 4 5 6, then 7 8 9 10.
    assert_eq!(buffer, [123, 123, 1234, 3456, 7890 + 10]);
    assert_eq!(FRAME_LOOKBACK, 4);
    assert_eq!(producer.slots(), 64 - 4);
    assert_eq!(sink.xruns, 0);
}

#[test]
fn sink_operator_controls_set_strategy_and_count() {
    let (_producer, consumer) = RingBuffer::<i32>::new(8);
    let mut sink = StreamSink::new(consumer, 1, 7, Unity::default(), 0);
    sink.disable_compensation();
    assert_eq!(*sink.get_strategy(), CompensationStrategy::Never);
    assert_eq!(sink.xruns, 0);
    sink.enable_compensation();
    assert_eq!(*sink.get_strategy(), CompensationStrategy::Idle);
    assert_eq!(sink.xruns, 7);
    let mut buffer = [UNTOUCHED; 1];
    sink.output_samples(&mut buffer, false);
    assert_eq!(*sink.get_strategy(), CompensationStrategy::Resample);
    sink.reset_compensation();
    assert_eq!(*sink.get_strategy(), CompensationStrategy::Idle);
    assert_eq!(sink.xruns, 0);
}

#[test]
fn sink_never_resamples_once_disabled() {
    let (mut producer, consumer) = RingBuffer::new(8);
    let mut sink = StreamSink::new(consumer, 1, 1, Unity::default(), 0);
    sink.disable_compensation();
    let mut buffer = [UNTOUCHED; 2];
    for _ in 0..5 {
        sink.output_samples(&mut buffer, true);
    }
    assert_eq!(sink.xruns, 5);
    assert_eq!(*sink.get_strategy(), CompensationStrategy::Never);
    producer.push(1).unwrap();
    producer.push(2).unwrap();
    sink.output_samples(&mut buffer, true);
    assert_eq!(buffer, [1, 2]);
    assert_eq!(sink.resampler().started, 0);
}

#[test]
fn sink_frames_stay_in_step_through_underruns() {
    let (mut producer, consumer) = RingBuffer::new(256);
    let channels = 3;
    let mut sink = StreamSink::new(consumer, channels, 1000, Unity::default(), 0);
    let mut next: i32 = 0;
    for round in 0..200usize {
        for _ in 0..(round * 7 % 11) {
            if producer.push(next).is_ok() {
                next += 1;
            }
        }
        while !sink.realign() {
            producer.push(next).unwrap();
            next += 1;
        }
        let mut buffer = [UNTOUCHED; 6];
        sink.output_samples(&mut buffer, true);
        for frame in buffer.chunks(channels) {
            if frame[0] != UNTOUCHED {
                assert_eq!(frame[0] % channels as i32, 0);
            }
            for (channel, sample) in frame.iter().enumerate() {
                if *sample != UNTOUCHED {
                    assert_eq!(*sample, frame[0] + channel as i32);
                }
            }
        }
    }
}

#[test]
fn sink_records_the_occupancy_of_every_callback() {
    let (mut producer, consumer) = RingBuffer::new(32);
    let mut sink = StreamSink::new(consumer, 1, 2, Watch::default(), 0);
    let mut buffer = [UNTOUCHED; 2];
    let mut seen = Vec::new();
    for round in 0..70usize {
        for _ in 0..(round % 5) {
            producer.push(round as i32).unwrap();
        }
        seen.push(32 - producer.slots());
        sink.output_samples(&mut buffer, true);
    }
    let shown = &sink.resampler().shown;
    // The first two callbacks count the xruns that turn compensation on at
    // the third; from then on every callback shows the record as the
    // callback before left it.
    assert_eq!(shown.len(), 68);
    for (i, window) in shown.iter().enumerate() {
        let callbacks = i + 2;
        assert_eq!(window.len(), ROLLING_AVG_LENGTH);
        for (j, slots) in window.iter().enumerate() {
            let age = ROLLING_AVG_LENGTH - j;
            if age <= callbacks {
                assert_eq!(*slots, seen[callbacks - age]);
            } else {
                assert_eq!(*slots, 0);
            }
        }
    }
}
