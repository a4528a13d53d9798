use clocked::resample::Resampler;
use clocked::stream::{CompensationStrategy, StreamSink, StreamSource};
use rtrb::RingBuffer;

fn hermite(x0: f32, x1: f32, x2: f32, x3: f32, t: f32) -> f32 {
    let diff = x1 - x2;
    let c1 = x2 - x0;
    let c3 = x3 - x0 + 3.0 * diff;
    let c2 = -(2.0 * diff + c1 + c3);
    0.5 * ((c3 * t + c2) * t + c1) * t + x1
}

/// Hermite interpolation at a ratio that a PID tunes towards a half-full
/// ring.
struct Pid {
    prop_factor: f64,
    integ_factor: f64,
    deriv_factor: f64,
    min_factor: f64,
    max_factor: f64,
    factor_last_interp: f64,
    integral: f64,
    last_avg: f64,
    ratio: f64,
    time: f64,
    /// Whether the occupancies count free slots rather than samples.
    counts_free_slots: bool,
}

impl Pid {
    fn fixed(ratio: f64) -> Pid {
        Pid {
            prop_factor: 0.0,
            integ_factor: 0.0,
            deriv_factor: 0.0,
            min_factor: ratio.log2(),
            max_factor: ratio.log2(),
            factor_last_interp: 1.0,
            integral: 0.0,
            last_avg: 0.0,
            ratio,
            time: 0.0,
            counts_free_slots: false,
        }
    }

    fn tuned(prop_factor: f64, integ_factor: f64, counts_free_slots: bool) -> Pid {
        Pid {
            prop_factor,
            integ_factor,
            deriv_factor: 0.0,
            min_factor: -0.2,
            max_factor: 0.2,
            factor_last_interp: 0.05,
            integral: 0.0,
            last_avg: 0.0,
            ratio: 1.0,
            time: 0.0,
            counts_free_slots,
        }
    }

    fn average(&self, occupancy: &[usize], ring_size: usize) -> f64 {
        let mean =
            occupancy.iter().map(|x| *x as f64).sum::<f64>() / occupancy.len() as f64 / ring_size as f64;
        if self.counts_free_slots {
            1.0 - mean
        } else {
            mean
        }
    }
}

impl Resampler<f32> for Pid {
    fn start(&mut self, occupancy: &[usize], ring_size: usize) {
        self.integral = 0.0;
        self.time = 0.0;
        self.last_avg = self.average(occupancy, ring_size);
    }

    fn retune(&mut self, occupancy: &[usize], ring_size: usize) {
        let avg = self.average(occupancy, ring_size);
        assert!((0.0..=1.0).contains(&avg));
        let error = avg - 0.5;
        self.integral += error;
        let factor = (error * self.prop_factor
            + self.integral * self.integ_factor
            + (avg - self.last_avg) * self.deriv_factor)
            .max(self.min_factor)
            .min(self.max_factor);
        self.ratio = (2_f64.powf(factor) - self.ratio) * self.factor_last_interp + self.ratio;
        self.last_avg = avg;
    }

    fn samples_needed(&self) -> usize {
        (self.time + self.ratio) as usize
    }

    fn interpolate(&self, x0: f32, x1: f32, x2: f32, x3: f32) -> f32 {
        hermite(x0, x1, x2, x3, self.time as f32)
    }

    fn advance(&mut self) {
        self.time += self.ratio;
        while self.time >= 1.0 {
            self.time -= 1.0;
        }
    }
}

#[test]
fn sink_at_ratio_one_plays_the_second_lookback_sample() {
    let (mut producer, consumer) = RingBuffer::new(64);
    let mut sink = StreamSink::new(consumer, 1, 0, Pid::fixed(1.0), 0.0f32);
    let input: Vec<f32> = (1..=20).map(|i| (i as f32 * 0.37).sin()).collect();
    for sample in &input {
        producer.push(*sample).unwrap();
    }
    let mut buffer = [9.0f32; 8];
    sink.output_samples(&mut buffer, true);
    assert_eq!(*sink.get_strategy(), CompensationStrategy::Resample);
    assert_eq!(buffer.to_vec(), input[..8].to_vec());
    assert_eq!(sink.xruns, 0);
}

#[test]
fn sink_at_ratio_one_half_puts_a_sample_between_two() {
    let (mut producer, consumer) = RingBuffer::new(64);
    let mut sink = StreamSink::new(consumer, 2, 0, Pid::fixed(0.5), 0.0f32);
    // Two channels: the whole numbers and their squares.
    for i in 1..=12 {
        producer.push(i as f32).unwrap();
        producer.push((i * i) as f32).unwrap();
    }
    let mut buffer = [0.0f32; 4];
    sink.output_samples(&mut buffer, true);
    // The lookback holds silence and the frames 1, 2, 3. The cubic through
    // 0, 1, 4, 9 is the square: half way between 1 and 2 it gives 2.25.
    assert_eq!(buffer, [1.0, 1.0, 1.5, 2.25]);
    let mut buffer = [0.0f32; 8];
    sink.output_samples(&mut buffer, true);
    assert_eq!(buffer, [2.0, 4.0, 2.5, 6.25, 3.0, 9.0, 3.5, 12.25]);
    assert_eq!(sink.xruns, 0);
    // Three frames filled the lookback and six output frames used up three.
    assert_eq!(producer.slots(), 64 - 12);
}

#[test]
fn sink_at_ratio_three_halves_uses_three_frames_for_two() {
    let (mut producer, consumer) = RingBuffer::new(64);
    let mut sink = StreamSink::new(consumer, 1, 0, Pid::fixed(1.5), 0.0f32);
    for i in 1..=40 {
        producer.push(i as f32).unwrap();
    }
    let mut buffer = [0.0f32; 8];
    sink.output_samples(&mut buffer, true);
    // Every output frame uses up one or two fresh frames, in turn.
    assert_eq!(producer.slots(), 64 - 40 + 3 + 12);
    assert_eq!(buffer[0], 1.0);
    assert_eq!(buffer[2], 4.0);
    assert_eq!(buffer[4], 7.0);
    assert_eq!(buffer[6], 10.0);
    assert_eq!(buffer[1], hermite(1.0, 2.0, 3.0, 4.0, 0.5));
    assert_eq!(buffer[1], 2.5);
    assert_eq!(sink.xruns, 0);
}

#[test]
fn source_at_ratio_two_keeps_every_other_frame() {
    let (producer, mut consumer) = RingBuffer::new(64);
    let mut source = StreamSource::new(producer, 1, 0, Pid::fixed(2.0), 0.0f32);
    source.xruns = 1;
    let input: Vec<f32> = (1..=12).map(|i| i as f32).collect();
    source.input_samples(&input, true);
    assert_eq!(*source.get_strategy(), CompensationStrategy::Resample);
    let mut output = Vec::new();
    while let Ok(sample) = consumer.pop() {
        output.push(sample);
    }
    // The lookback starts as 0 1 2 3 and moves on by two frames for every
    // output frame, which is its second sample. The last sample waits for
    // a second one to come.
    assert_eq!(output, vec![1.0, 3.0, 5.0, 7.0]);
}

#[test]
fn sink_follows_a_device_that_runs_fast() {
    let claimed_sample_rate = 48_000.0f64;
    let sample_rate = 49_000.0f64;
    let buffer_size = 256usize;
    let (mut producer, consumer) = RingBuffer::new(buffer_size * 8);
    let mut sink = StreamSink::with_defaults(consumer, 1, Pid::tuned(0.02, 0.0001, false), 0.0f32);

    let mut phase = 0.0f64;
    let mut owed = 0.0f64;
    let mut consumed = 0usize;
    let mut produced = 0usize;
    let mut armed_at = None;

    while !producer.is_full() {
        producer.push(phase.sin() as f32).unwrap();
        phase += 440.0 / claimed_sample_rate * std::f64::consts::TAU;
    }

    for callback in 0..15000 {
        let mut buffer = [0.0f32; 256];
        sink.output_samples(&mut buffer, true);
        assert!(sink.realign());
        produced += buffer.len();
        if armed_at.is_none() && *sink.get_strategy() == CompensationStrategy::Resample {
            armed_at = Some((callback, sink.xruns));
        }

        // While the device played one buffer, the application made a
        // little less than one.
        owed += buffer_size as f64 * claimed_sample_rate / sample_rate;
        while owed >= 1.0 {
            owed -= 1.0;
            if producer.push(phase.sin() as f32).is_ok() {
                consumed += 1;
            }
            phase += 440.0 / claimed_sample_rate * std::f64::consts::TAU;
        }
    }

    let (_, xruns_at_arming) = armed_at.expect("compensation started");
    assert!(xruns_at_arming >= 15);

    let expected_ratio = claimed_sample_rate / sample_rate;
    let resample_ratio = sink.resampler().ratio;
    assert!(
        (resample_ratio - expected_ratio).abs() < 0.001,
        "ratio {} expected {} xruns {} armed {:?} consumed {} produced {}",
        resample_ratio,
        expected_ratio,
        sink.xruns,
        armed_at,
        consumed,
        produced
    );

    let ratio = consumed as f64 / produced as f64;
    assert!((ratio - expected_ratio).abs() < 0.005);

    // The ring has settled around half full.
    let held = buffer_size * 8 - producer.slots();
    assert!(held > buffer_size * 3 && held < buffer_size * 5, "held {}", held);
}

#[test]
fn source_follows_a_device_that_runs_fast() {
    let claimed_sample_rate = 48_000.0f64;
    let sample_rate = 49_000.0f64;
    let buffer_size = 256usize;
    let (producer, mut consumer) = RingBuffer::new(buffer_size * 8);
    let mut source = StreamSource::with_defaults(producer, 1, Pid::tuned(0.02, 0.0001, true), 0.0f32);

    let mut phase = 0.0f64;
    let mut owed = 0.0f64;
    let mut consumed = 0usize;
    let mut produced = 0usize;
    let mut armed_at = None;

    for callback in 0..15000 {
        let mut buffer = [0.0f32; 256];
        for sample in buffer.iter_mut() {
            *sample = phase.sin() as f32;
            phase += 440.0 / sample_rate * std::f64::consts::TAU;
        }
        source.input_samples(&buffer, true);
        assert!(source.realign());
        consumed += buffer.len();
        if armed_at.is_none() && *source.get_strategy() == CompensationStrategy::Resample {
            armed_at = Some((callback, source.xruns));
        }

        // While the device recorded one buffer, the application took a
        // little less than one.
        owed += buffer_size as f64 * claimed_sample_rate / sample_rate;
        while owed >= 1.0 {
            owed -= 1.0;
            if consumer.pop().is_ok() {
                produced += 1;
            }
        }
    }

    let (_, xruns_at_arming) = armed_at.expect("compensation started");
    assert!(xruns_at_arming > 15);

    let expected_ratio = sample_rate / claimed_sample_rate;
    let resample_ratio = source.resampler().ratio;
    assert!(
        (resample_ratio - expected_ratio).abs() < 0.001,
        "ratio {} expected {} xruns {} armed {:?} consumed {} produced {}",
        resample_ratio,
        expected_ratio,
        source.xruns,
        armed_at,
        consumed,
        produced
    );

    let ratio = consumed as f64 / produced as f64;
    assert!((ratio - expected_ratio).abs() < 0.005, "ratio {}", ratio);

    // The ring has settled around half full.
    let held = consumer.slots();
    assert!(held > buffer_size * 3 && held < buffer_size * 5, "held {}", held);
}
