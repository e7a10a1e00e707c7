//! From blocks to results, with the spectrum computed by `rustfft`.
use audio_analyzer::capture::{channel, CaptureWriter};
use audio_analyzer::controller::{AnalyzerController, ConnectionState, Supervisor};
use audio_analyzer::dsp::{
    bin_metrics, channel_peaks, one_sided_factor, snapshot_of, AnalysisWindow, BinNumbers,
    SpectrumAnalyzer, WindowNumbers,
};
use audio_analyzer::model::{
    AnalysisSnapshot, AudioBlock, ChannelRoute, RuntimeStats, SharedStats, SignalLevel, StereoFrame,
    AUDIO_BLOCK_FRAMES, FFT_SIZE, HOP_SIZE, SPECTRUM_BINS, VECTOR_SCOPE_POINTS,
};
use audio_analyzer::pipeline::{
    publish_pending, result_queue, take_counted, take_latest_matching, AnalysisTask, AnalyzerRuntime, DspWorker,
};
use audio_analyzer::shared::{flag, FlagWatch};
use audio_analyzer::source::{AudioInfo, InputSource, InputStream, OpenedSource};
use rustfft::num_complex::Complex;
use rustfft::{Fft, FftPlanner};
use std::cell::{Cell, RefCell};
use std::rc::Rc;
use std::sync::Arc;

struct SpectrumMath {
    fft: Arc<dyn Fft<f32>>,
    window: Vec<f32>,
    coherent_gain: f32,
    reference_power: Vec<f32>,
    measurement_power: Vec<f32>,
    cross_power: Vec<Complex<f32>>,
}

fn amplitude_to_db(amplitude: f32) -> f32 {
    20.0 * amplitude.max(10.0_f32.powf(-120.0 / 20.0)).log10()
}

fn blend(previous: f32, current: f32) -> f32 {
    previous + 0.2 * (current - previous)
}

fn level(samples: impl Iterator<Item = f32>, peak: u32) -> SignalLevel {
    let mut sum_squares = 0.0_f32;
    let mut count = 0_usize;
    for sample in samples {
        sum_squares += sample * sample;
        count += 1;
    }
    SignalLevel {
        peak_dbfs: amplitude_to_db(f32::from_bits(peak)).to_bits(),
        rms_dbfs: amplitude_to_db((sum_squares / count as f32).sqrt()).to_bits(),
    }
}

fn correlation(frames: &[StereoFrame]) -> f32 {
    let mut cross = 0.0_f32;
    let mut reference_power = 0.0_f32;
    let mut measurement_power = 0.0_f32;
    for frame in frames {
        let reference = f32::from_bits(frame.reference);
        let measurement = f32::from_bits(frame.measurement);
        cross += reference * measurement;
        reference_power += reference * reference;
        measurement_power += measurement * measurement;
    }
    let denominator = (reference_power * measurement_power).sqrt();
    if denominator <= 1.0e-20 {
        0.0
    } else {
        (cross / denominator).clamp(-1.0, 1.0)
    }
}

impl SpectrumMath {
    fn new() -> Self {
        let window: Vec<f32> = (0..FFT_SIZE)
            .map(|index| {
                0.5 * (1.0
                    - (2.0 * std::f32::consts::PI * index as f32 / (FFT_SIZE - 1) as f32).cos())
            })
            .collect();
        SpectrumMath {
            fft: FftPlanner::new().plan_fft_forward(FFT_SIZE),
            coherent_gain: window.iter().sum::<f32>() / FFT_SIZE as f32,
            window,
            reference_power: vec![0.0; SPECTRUM_BINS],
            measurement_power: vec![0.0; SPECTRUM_BINS],
            cross_power: vec![Complex::default(); SPECTRUM_BINS],
        }
    }

    fn transform(&self, samples: impl Iterator<Item = f32>) -> Vec<Complex<f32>> {
        let mut values: Vec<Complex<f32>> = samples
            .zip(&self.window)
            .map(|(sample, weight)| Complex::new(sample * weight, 0.0))
            .collect();
        self.fft.process(&mut values);
        values
    }

    fn numbers(&mut self, window: &AnalysisWindow, frames: &Vec<StereoFrame>) -> WindowNumbers {
        let references = || frames.iter().map(|frame| f32::from_bits(frame.reference));
        let measurements = || frames.iter().map(|frame| f32::from_bits(frame.measurement));
        let reference_fft = self.transform(references());
        let measurement_fft = self.transform(measurements());
        let peaks = channel_peaks(frames);
        let silent = BinNumbers {
            reference_dbfs: 0,
            measurement_dbfs: 0,
            reference_power: 0,
            power_product: 0,
            transfer_db: 0,
            phase_degrees: 0,
            coherence: 0,
        };
        let mut numbers = WindowNumbers {
            measurement_level: level(measurements(), peaks.measurement),
            reference_level: level(references(), peaks.reference),
            phase_correlation: correlation(frames).to_bits(),
            bins: [silent; SPECTRUM_BINS],
        };
        for bin in 0..SPECTRUM_BINS {
            let reference = reference_fft[bin];
            let measurement = measurement_fft[bin];
            let cross = measurement * reference.conj();
            if window.restarts_average {
                self.reference_power[bin] = reference.norm_sqr();
                self.measurement_power[bin] = measurement.norm_sqr();
                self.cross_power[bin] = cross;
            } else {
                self.reference_power[bin] = blend(self.reference_power[bin], reference.norm_sqr());
                self.measurement_power[bin] =
                    blend(self.measurement_power[bin], measurement.norm_sqr());
                let previous = self.cross_power[bin];
                self.cross_power[bin] = previous + (cross - previous) * 0.2;
            }
            let scale = one_sided_factor(bin) as f32;
            let full_scale = FFT_SIZE as f32 * self.coherent_gain;
            let transfer = self.cross_power[bin] / self.reference_power[bin];
            let product = self.reference_power[bin] * self.measurement_power[bin];
            let coherence = (self.cross_power[bin].norm_sqr() / product).clamp(0.0, 1.0);
            numbers.bins[bin] = BinNumbers {
                reference_dbfs: amplitude_to_db(reference.norm() * scale / full_scale).to_bits(),
                measurement_dbfs: amplitude_to_db(measurement.norm() * scale / full_scale)
                    .to_bits(),
                reference_power: self.reference_power[bin].to_bits(),
                power_product: product.to_bits(),
                transfer_db: amplitude_to_db(transfer.norm()).to_bits(),
                phase_degrees: transfer.arg().to_degrees().to_bits(),
                coherence: coherence.to_bits(),
            };
        }
        numbers
    }
}

fn analyze_signals(
    sample_rate: u32,
    reference: impl Fn(usize) -> f32,
    measurement: impl Fn(usize) -> f32,
) -> AnalysisSnapshot {
    let mut analyzer = SpectrumAnalyzer::new(sample_rate);
    let mut math = SpectrumMath::new();
    let mut snapshot = None;
    for block_index in 0..(FFT_SIZE / AUDIO_BLOCK_FRAMES) {
        let mut block = AudioBlock {
            start_frame: (block_index * AUDIO_BLOCK_FRAMES) as u64,
            valid_frames: AUDIO_BLOCK_FRAMES,
            has_reference: true,
            ..AudioBlock::default()
        };
        for frame_index in 0..AUDIO_BLOCK_FRAMES {
            let index = block_index * AUDIO_BLOCK_FRAMES + frame_index;
            block.frames[frame_index] = StereoFrame {
                reference: reference(index).to_bits(),
                measurement: measurement(index).to_bits(),
            };
        }
        if let Some(window) = analyzer.process_block(&block) {
            let frames = analyzer.last_window();
            snapshot = Some(snapshot_of(window, frames, &math.numbers(&window, frames)));
        }
    }
    snapshot.expect("one FFT frame should be produced")
}

fn watch(raised: bool) -> FlagWatch {
    let (mut switch, watch) = flag();
    switch.set(raised);
    watch
}

fn tone_at(bin: usize) -> impl Fn(usize) -> f32 + Copy {
    move |index| (2.0 * std::f32::consts::PI * bin as f32 * index as f32 / FFT_SIZE as f32).sin()
}

fn value(pattern: u32) -> f32 {
    f32::from_bits(pattern)
}

#[test]
fn hann_window_reports_bin_centered_full_scale_tone_at_zero_dbfs() {
    let bin = 64;
    let snapshot = analyze_signals(48_000, tone_at(bin), tone_at(bin));
    assert!(value(snapshot.bins[bin].measurement_dbfs).abs() < 0.05);
    assert!(value(snapshot.bins[bin].reference_dbfs).abs() < 0.05);
    assert!(value(snapshot.measurement_level.peak_dbfs).abs() < 0.01);
    assert!((value(snapshot.measurement_level.rms_dbfs) + 3.0103).abs() < 0.01);
}

#[test]
fn transfer_function_reports_half_gain_with_unit_coherence() {
    let bin = 80;
    let tone = tone_at(bin);
    let snapshot = analyze_signals(48_000, tone, |index| 0.5 * tone(index));
    assert!((value(snapshot.bins[bin].transfer_db) + 6.0206).abs() < 0.05);
    assert!(value(snapshot.bins[bin].coherence) > 0.999);
}

#[test]
fn transfer_phase_matches_a_known_sample_delay() {
    let bin = 40;
    let delay = 4.0;
    let phase = |index: f32| 2.0 * std::f32::consts::PI * bin as f32 * index / FFT_SIZE as f32;
    let snapshot = analyze_signals(
        48_000,
        |index| phase(index as f32).sin(),
        |index| phase(index as f32 - delay).sin(),
    );
    let expected_degrees = -360.0 * bin as f32 * delay / FFT_SIZE as f32;
    assert!((value(snapshot.bins[bin].phase_degrees) - expected_degrees).abs() < 0.05);
}

#[test]
fn a_frame_gap_resets_the_overlap_history() {
    let mut analyzer = SpectrumAnalyzer::new(48_000);
    let mut block = AudioBlock { valid_frames: AUDIO_BLOCK_FRAMES, ..AudioBlock::default() };
    assert!(analyzer.process_block(&block).is_none());
    block.start_frame = (AUDIO_BLOCK_FRAMES * 2) as u64;
    assert!(analyzer.process_block(&block).is_none());
    assert_eq!(analyzer.held_frames(), AUDIO_BLOCK_FRAMES);
}

#[test]
fn correlation_reports_in_phase_opposite_and_quadrature_signals() {
    let bin = 32;
    let tone = tone_at(bin);
    let in_phase = analyze_signals(48_000, tone, tone);
    let opposite = analyze_signals(48_000, tone, |index| -tone(index));
    let quadrature = analyze_signals(48_000, tone, |index| {
        (2.0 * std::f32::consts::PI * bin as f32 * index as f32 / FFT_SIZE as f32).cos()
    });
    assert!(value(in_phase.phase_correlation.unwrap()) > 0.999);
    assert!(value(opposite.phase_correlation.unwrap()) < -0.999);
    assert!(value(quadrature.phase_correlation.unwrap()).abs() < 0.001);
}

#[test]
fn vector_scope_preserves_reference_measurement_pairs() {
    let snapshot = analyze_signals(
        48_000,
        |index| index as f32 / FFT_SIZE as f32,
        |index| -(index as f32) / FFT_SIZE as f32,
    );
    assert_eq!(snapshot.scope_len, VECTOR_SCOPE_POINTS);
    let stride = FFT_SIZE / VECTOR_SCOPE_POINTS;
    let point = snapshot.scope_points[42];
    let expected = (42 * stride) as f32 / FFT_SIZE as f32;
    assert!((value(point.reference) - expected).abs() < f32::EPSILON);
    assert!((value(point.measurement) + expected).abs() < f32::EPSILON);
}

#[test]
fn mono_analysis_omits_reference_only_metrics() {
    let mut analyzer = SpectrumAnalyzer::new(48_000);
    let mut math = SpectrumMath::new();
    let mut snapshot = None;
    for block_index in 0..(FFT_SIZE / AUDIO_BLOCK_FRAMES) {
        let block = AudioBlock {
            start_frame: (block_index * AUDIO_BLOCK_FRAMES) as u64,
            valid_frames: AUDIO_BLOCK_FRAMES,
            has_reference: false,
            ..AudioBlock::default()
        };
        if let Some(window) = analyzer.process_block(&block) {
            let frames = analyzer.last_window();
            snapshot = Some(snapshot_of(window, frames, &math.numbers(&window, frames)));
        }
    }
    let snapshot = snapshot.unwrap();
    assert!(snapshot.reference_level.is_none());
    assert!(snapshot.phase_correlation.is_none());
    assert_eq!(snapshot.scope_len, 0);
    assert_eq!(value(snapshot.bins[9].transfer_db), -120.0);
    assert_eq!(value(snapshot.bins[9].coherence), 0.0);
}

#[test]
fn successive_windows_overlap_by_half() {
    let mut analyzer = SpectrumAnalyzer::new(48_000);
    let mut starts = Vec::new();
    let mut previous: Vec<StereoFrame> = Vec::new();
    for index in 0..24_u64 {
        let mut block = AudioBlock {
            start_frame: 7 + index * AUDIO_BLOCK_FRAMES as u64,
            valid_frames: AUDIO_BLOCK_FRAMES,
            ..AudioBlock::default()
        };
        for (offset, frame) in block.frames.iter_mut().enumerate() {
            frame.measurement = (index as usize * AUDIO_BLOCK_FRAMES + offset) as u32;
        }
        if let Some(window) = analyzer.process_block(&block) {
            starts.push((window.sequence, window.window_start_frame, window.restarts_average));
            let frames = analyzer.last_window();
            if !previous.is_empty() {
                assert_eq!(&previous[HOP_SIZE..], &frames[..HOP_SIZE]);
            }
            previous = frames.clone();
        }
    }
    assert_eq!(
        starts,
        vec![(0, 7, true), (1, 1_031, false), (2, 2_055, false), (3, 3_079, false), (4, 4_103, false)]
    );
    analyzer.reset_history();
    assert_eq!(analyzer.held_frames(), 0);
}

#[test]
fn a_run_gives_as_many_windows_as_fit() {
    for reset_first in [false, true] {
        let mut analyzer = SpectrumAnalyzer::new(48_000);
        let mut offset = 0;
        if reset_first {
            let early = AudioBlock { valid_frames: 99, ..AudioBlock::default() };
            assert!(analyzer.process_block(&early).is_none());
            analyzer.reset_history();
            offset = 5_000;
        }
        let mut starts = Vec::new();
        for index in 0..41_u64 {
            let block = AudioBlock {
                start_frame: offset + index * 200,
                valid_frames: 200,
                ..AudioBlock::default()
            };
            if let Some(window) = analyzer.process_block(&block) {
                starts.push((window.sequence, window.window_start_frame - offset));
            }
        }
        let expected: Vec<(u64, u64)> = (0..7).map(|k| (k, k * 1_024)).collect();
        assert_eq!(starts, expected);
        assert_eq!(analyzer.held_frames(), 41 * 200 - 7 * 1_024);
    }
}

#[test]
fn a_bin_without_power_has_no_transfer_function() {
    let numbers = BinNumbers {
        reference_dbfs: 1,
        measurement_dbfs: 2,
        reference_power: 1.0_f32.to_bits(),
        power_product: 1.0e-20_f32.to_bits(),
        transfer_db: 3,
        phase_degrees: 4,
        coherence: 5,
    };
    let metrics = bin_metrics(true, numbers);
    assert_eq!((metrics.transfer_db, metrics.phase_degrees, metrics.coherence), (3, 4, 0));
    let strong = BinNumbers { power_product: 1.0_f32.to_bits(), ..numbers };
    assert_eq!(bin_metrics(true, strong).coherence, 5);
    assert_eq!(bin_metrics(false, strong).coherence, 0);
    let weak = BinNumbers { reference_power: 1.0e-20_f32.to_bits(), ..strong };
    assert_eq!(value(bin_metrics(true, weak).transfer_db), -120.0);
    assert_eq!((bin_metrics(true, weak).reference_dbfs, bin_metrics(true, weak).coherence), (1, 0));
    assert_eq!(one_sided_factor(0), 1);
    assert_eq!(one_sided_factor(1), 2);
    assert_eq!(one_sided_factor(FFT_SIZE / 2), 1);
}

#[test]
fn no_sample_exceeds_the_reported_peak() {
    let frame = |reference: f32, measurement: f32| StereoFrame {
        reference: reference.to_bits(),
        measurement: measurement.to_bits(),
    };
    let peaks = channel_peaks(&vec![frame(0.25, -0.5), frame(f32::NAN, 0.125), frame(-0.75, 0.0)]);
    assert_eq!((value(peaks.reference), value(peaks.measurement)), (0.75, 0.5));
}

#[test]
fn route_switch_filters_queued_old_results() {
    let (mut producer, mut consumer) = result_queue(3);
    let mut pending = Some(AnalysisSnapshot::default());
    publish_pending(&mut producer, &mut pending);
    assert!(pending.is_none());
    assert!(take_latest_matching(&mut consumer, 1).is_none());
    for sequence in 1..=3 {
        pending = Some(AnalysisSnapshot {
            sequence,
            route_generation: 1,
            ..AnalysisSnapshot::default()
        });
        publish_pending(&mut producer, &mut pending);
        assert!(pending.is_none());
    }
    assert_eq!(take_latest_matching(&mut consumer, 1).unwrap().sequence, 3);
    assert!(take_latest_matching(&mut consumer, 1).is_none());
}

#[test]
fn full_queue_retries_the_last_snapshot_without_new_audio() {
    let (mut producer, mut consumer) = result_queue(1);
    publish_pending(&mut producer, &mut Some(AnalysisSnapshot::default()));
    let mut pending = Some(AnalysisSnapshot { sequence: 42, ..AnalysisSnapshot::default() });
    publish_pending(&mut producer, &mut pending);
    assert_eq!(pending.as_ref().unwrap().sequence, 42);
    take_latest_matching(&mut consumer, 0).unwrap();
    publish_pending(&mut producer, &mut pending);
    assert!(pending.is_none());
    assert_eq!(take_latest_matching(&mut consumer, 0).unwrap().sequence, 42);
}

#[test]
fn the_newest_result_of_the_route_is_taken_even_if_others_follow() {
    let (mut producer, mut consumer) = result_queue(3);
    for (sequence, route_generation) in [(1, 4), (2, 4), (3, 5)] {
        let snapshot =
            AnalysisSnapshot { sequence, route_generation, ..AnalysisSnapshot::default() };
        publish_pending(&mut producer, &mut Some(snapshot));
    }
    assert_eq!(take_latest_matching(&mut consumer, 4).unwrap().sequence, 2);
    assert!(take_counted(&mut consumer, 0, 4).is_none());
}

#[test]
fn the_worker_counts_gaps_and_replaced_results() {
    let mut worker = DspWorker::new(48_000);
    let mut math = SpectrumMath::new();
    let (mut results, mut reader) = result_queue(1);
    let mut discontinuities = 0;
    let mut dropped = 0;
    let mut windows = 0;
    for index in 0..24_u64 {
        let block = AudioBlock {
            start_frame: index * AUDIO_BLOCK_FRAMES as u64 + u64::from(index >= 20),
            valid_frames: AUDIO_BLOCK_FRAMES,
            ..AudioBlock::default()
        };
        let (window, step) = worker.accept(&block);
        discontinuities += step.discontinuities;
        if let Some(window) = window {
            windows += 1;
            let numbers = math.numbers(&window, worker.last_window());
            dropped += worker.complete(window, &numbers).dropped_results;
            worker.publish(&mut results);
        }
    }
    assert_eq!(windows, 4);
    assert_eq!(discontinuities, 1);
    assert_eq!(dropped, 2);
    assert_eq!(take_latest_matching(&mut reader, 0).unwrap().sequence, 0);
    worker.publish(&mut results);
    assert_eq!(take_latest_matching(&mut reader, 0).unwrap().sequence, 3);
}

#[test]
fn the_worker_passes_over_what_is_no_block() {
    let mut worker = DspWorker::new(48_000);
    assert_eq!(worker.accept_received(None), (false, None, RuntimeStats::default()));
    let gap = AudioBlock { valid_frames: AUDIO_BLOCK_FRAMES, ..AudioBlock::default() };
    assert!(worker.accept_received(Some(gap)).0);
    let broken = AudioBlock { valid_frames: 257, ..AudioBlock::default() };
    assert_eq!(worker.accept_received(Some(broken)), (true, None, RuntimeStats::default()));
    let late = AudioBlock { start_frame: 9, valid_frames: 1, ..AudioBlock::default() };
    let (taken, window, step) = worker.accept_received(Some(late));
    assert!(taken && window.is_none());
    assert_eq!(step.discontinuities, 1);
}

#[test]
fn the_worker_takes_the_blocks_of_the_input_in_order() {
    let route = ChannelRoute::default_for_channels(1);
    let (mut writer, input) = channel(1, route, Arc::default()).unwrap();
    let (mut input, _control) = input.into_parts();
    let mut worker = DspWorker::new(48_000);
    assert!(!worker.accept_next(&mut input).0);
    writer.write_interleaved(&[0_u32; FFT_SIZE], |sample: u32| sample);
    for index in 0..FFT_SIZE / AUDIO_BLOCK_FRAMES {
        let (taken, window, step) = worker.accept_next(&mut input);
        assert!(taken);
        assert_eq!(window.is_some(), index == 7);
        assert_eq!(step, RuntimeStats::default());
    }
    assert!(!worker.accept_next(&mut input).0);
}

struct ToneSource {
    sample_rate: u32,
    fail_next: bool,
    opens: Rc<Cell<usize>>,
    stops: Rc<Cell<usize>>,
    line: Rc<RefCell<Option<CaptureWriter>>>,
}

struct ToneStream {
    line: Rc<RefCell<Option<CaptureWriter>>>,
    stops: Rc<Cell<usize>>,
}

impl InputStream for ToneStream {
    fn stop(&mut self) {
        if self.line.take().is_some() {
            self.stops.set(self.stops.get() + 1);
        }
    }
}

impl InputSource for ToneSource {
    fn open(&mut self, stats: Arc<SharedStats>, _: &mut FlagWatch) -> Result<OpenedSource, String> {
        self.opens.set(self.opens.get() + 1);
        if std::mem::take(&mut self.fail_next) {
            return Err("test device unavailable".to_owned());
        }
        let route = ChannelRoute::default_for_channels(2);
        let (writer, input) = channel(2, route, stats)?;
        *self.line.borrow_mut() = Some(writer);
        OpenedSource::new(
            AudioInfo {
                host_name: "synthetic".to_owned(),
                device_name: "paired tone".to_owned(),
                sample_rate: self.sample_rate,
                channels: 2,
                initial_route: route,
            },
            input,
            Box::new(ToneStream { line: Rc::clone(&self.line), stops: Rc::clone(&self.stops) }),
        )
    }
}

/// The threads of a session, run one step at a time.
struct Bench {
    controller: AnalyzerController,
    supervisor: Supervisor<ToneSource>,
    task: Option<(AnalysisTask, SpectrumMath)>,
    line: Rc<RefCell<Option<CaptureWriter>>>,
    position: usize,
    opens: Rc<Cell<usize>>,
    stops: Rc<Cell<usize>>,
}

impl Bench {
    fn new(sample_rate: u32, fail_next: bool) -> Bench {
        let line = Rc::new(RefCell::new(None));
        let opens = Rc::new(Cell::new(0));
        let stops = Rc::new(Cell::new(0));
        let (controller, port) = AnalyzerController::with_source(ToneSource {
            sample_rate,
            fail_next,
            opens: Rc::clone(&opens),
            stops: Rc::clone(&stops),
            line: Rc::clone(&line),
        });
        let supervisor = Supervisor::new(port);
        Bench { controller, supervisor, task: None, line, position: 0, opens, stops }
    }

    fn supervise(&mut self) {
        let cancelled = self.supervisor.is_cancelled();
        if self.supervisor.end_cancelled(cancelled).is_some() {
            self.task = None;
        }
        if let Some(result) = self.supervisor.open_requested() {
            let mut task = None;
            let runtime = result.map(|(runtime, analysis)| {
                task = Some((analysis, SpectrumMath::new()));
                runtime
            });
            let cancelled = self.supervisor.is_cancelled();
            if self.supervisor.finish_start(cancelled, runtime).0 {
                self.task = task;
            }
        }
        self.supervisor.publish();
    }

    fn play(&mut self) {
        let mut data = [0.0_f32; AUDIO_BLOCK_FRAMES * 2];
        for pair in data.chunks_exact_mut(2) {
            let phase = 2.0 * std::f32::consts::PI * 32.0 * (self.position % FFT_SIZE) as f32
                / FFT_SIZE as f32;
            pair[0] = 0.5 * phase.sin();
            pair[1] = 0.25 * phase.sin();
            self.position += 1;
        }
        if let Some(writer) = self.line.borrow_mut().as_mut() {
            writer.write_interleaved(&data, |sample: f32| sample.to_bits());
        }
    }

    fn analyze(&mut self) {
        if let Some((task, math)) = &mut self.task {
            loop {
                let (taken, window) = task.take_block();
                if let Some(window) = window {
                    let numbers = math.numbers(&window, task.last_window());
                    task.complete(window, &numbers);
                }
                task.publish();
                if !taken {
                    break;
                }
            }
        }
    }

    fn snapshot(&mut self) -> AnalysisSnapshot {
        for _ in 0..100 {
            self.supervise();
            self.play();
            self.analyze();
            self.controller.poll(false);
            if let Some(snapshot) = self.controller.take_latest() {
                return snapshot;
            }
        }
        panic!("missing snapshot: {:?}", self.controller.state());
    }

    fn settle(&mut self) {
        self.supervise();
        self.controller.poll(false);
    }
}

#[test]
fn failed_start_retries_routes_stop_and_reconnect_use_fresh_sessions() {
    let mut bench = Bench::new(48_000, true);
    assert!(bench.controller.info().is_none());
    bench.controller.start().unwrap();
    assert!(bench.controller.start().is_err());
    bench.settle();
    assert!(matches!(
        bench.controller.state(),
        ConnectionState::Failed(error) if error == "test device unavailable"
    ));
    bench.controller.start().unwrap();
    bench.settle();
    assert_eq!(bench.controller.state(), &ConnectionState::Running);
    let initial = bench.snapshot();
    assert!(initial.has_reference);
    assert!((value(initial.bins[32].transfer_db) + 6.0206).abs() < 0.03);
    assert!((value(initial.bins[32].measurement_dbfs) + 12.0412).abs() < 0.03);
    assert!(value(initial.bins[32].coherence) > 0.999);
    assert!(bench
        .controller
        .set_route(ChannelRoute { reference: None, measurement: 2 })
        .is_err());
    bench.controller.set_route(ChannelRoute { reference: None, measurement: 0 }).unwrap();
    let mono = bench.snapshot();
    assert!(!mono.has_reference);
    assert_ne!(mono.route_generation, initial.route_generation);
    assert!((value(mono.bins[32].measurement_dbfs) + 6.0206).abs() < 0.03);
    assert_eq!(bench.controller.stats().discontinuities, 1);
    bench.controller.stop();
    assert!(bench.controller.info().is_none());
    assert!(bench.controller.take_latest().is_none());
    assert_eq!(bench.controller.stats().received_audio_frames, 0);
    bench.settle();
    assert_eq!(bench.controller.state(), &ConnectionState::Stopped);
    assert_eq!(bench.stops.get(), 1);
    bench.controller.start().unwrap();
    bench.settle();
    assert_eq!(bench.controller.state(), &ConnectionState::Running);
    let reconnected = bench.snapshot();
    assert!(reconnected.has_reference);
    assert_eq!(reconnected.route_generation, 0);
    bench.supervisor.shut_down();
    assert_eq!(bench.opens.get(), 3);
    assert_eq!(bench.stops.get(), 2);
}

#[test]
fn production_pipeline_supports_high_sample_rates() {
    for sample_rate in [96_000, 192_000] {
        let mut bench = Bench::new(sample_rate, false);
        bench.controller.start().unwrap();
        let result = bench.snapshot();
        assert_eq!(result.sample_rate, sample_rate);
        assert!((value(result.bins[32].transfer_db) + 6.0206).abs() < 0.03);
    }
}

#[test]
fn stop_with_unread_started_event_cannot_resurrect_the_old_session() {
    let mut bench = Bench::new(48_000, false);
    bench.controller.start().unwrap();
    bench.supervise();
    // The display has not read the start, so the event queue is full.
    bench.controller.stop();
    bench.supervise();
    assert_eq!(bench.stops.get(), 1);
    bench.controller.poll(false);
    assert!(bench.controller.info().is_none());
    assert_eq!(bench.controller.state(), &ConnectionState::Stopping);
    bench.settle();
    assert!(bench.controller.info().is_none());
    assert_eq!(bench.controller.state(), &ConnectionState::Stopped);
    bench.controller.start().unwrap();
    bench.settle();
    assert_eq!(bench.controller.state(), &ConnectionState::Running);
    bench.supervisor.shut_down();
    assert_eq!(bench.stops.get(), 2);
}

#[test]
fn a_start_that_was_given_up_opens_nothing() {
    let mut bench = Bench::new(48_000, false);
    bench.controller.start().unwrap();
    bench.controller.stop();
    bench.settle();
    assert_eq!(bench.controller.state(), &ConnectionState::Stopped);
    assert_eq!(bench.opens.get(), 0);
}

#[test]
fn a_session_that_was_given_up_while_it_started_is_stopped_at_once() {
    let mut bench = Bench::new(48_000, false);
    bench.controller.start().unwrap();
    let opened = bench.supervisor.open_requested().unwrap().map(|(runtime, _)| runtime);
    let (running, ended) = bench.supervisor.finish_start(true, opened);
    assert!(!running);
    assert_eq!(ended.unwrap().info().device_name, "paired tone");
    assert_eq!(bench.stops.get(), 1);
}

#[test]
fn requests_are_refused_at_the_wrong_time() {
    let mut bench = Bench::new(48_000, false);
    assert_eq!(
        bench.controller.set_route(ChannelRoute::default_for_channels(1)).err().unwrap(),
        "input is not connected"
    );
    bench.controller.start().unwrap();
    assert_eq!(
        bench.controller.start().err().unwrap(),
        "input is already connected or changing state"
    );
    bench.controller.poll(true);
    assert_eq!(
        bench.controller.start().err().unwrap(),
        "an input start request is already pending"
    );
    assert_eq!(
        bench.controller.start_requested(false).err().unwrap(),
        "an input start request is already pending"
    );
    assert!(bench.controller.start_requested(true).is_ok());
    assert_eq!(bench.controller.state(), &ConnectionState::Starting);
    assert!(bench.supervisor.open_requested().is_some());
    assert!(bench.supervisor.open_requested().is_none());
    assert!(bench.supervisor.open_when(false).is_none());
    assert!(matches!(bench.supervisor.open_when(true), Some(Ok(_))));
    assert_eq!(bench.opens.get(), 2);
}

#[test]
fn a_runtime_reports_its_input_and_takes_routes() {
    let line = Rc::new(RefCell::new(None));
    let stops = Rc::new(Cell::new(0));
    let mut source = ToneSource {
        sample_rate: 44_100,
        fail_next: false,
        opens: Rc::default(),
        stops: Rc::clone(&stops),
        line,
    };
    let early = AnalyzerRuntime::start_unless(&mut source, true, &mut watch(false));
    assert_eq!(early.err().unwrap().message, "input start cancelled");
    assert_eq!(source.opens.get(), 0);
    let late = AnalyzerRuntime::start_unless(&mut source, false, &mut watch(true));
    assert_eq!(late.err().unwrap().message, "input start cancelled");
    assert_eq!((source.opens.get(), stops.replace(0)), (1, 1));
    let refused = AnalyzerRuntime::start_with(&mut source, &mut watch(true));
    assert_eq!(refused.err().unwrap(), "input start cancelled");
    let (mut runtime, _task) =
        AnalyzerRuntime::start_with(&mut source, &mut watch(false)).ok().unwrap();
    assert_eq!(runtime.info().sample_rate, 44_100);
    assert_eq!(runtime.stats().received_audio_frames, 0);
    assert!(runtime.set_route(ChannelRoute { reference: None, measurement: 1 }).is_ok());
    assert_eq!(
        runtime.set_route(ChannelRoute { reference: Some(5), measurement: 1 }).err().unwrap(),
        "Reference channel is outside the 2 available channels"
    );
    assert!(runtime.take_latest().is_none());
    assert_eq!(runtime.stats().dropped_results, 0);
    runtime.stop();
    assert_eq!(stops.get(), 1);
}

#[test]
fn a_session_that_gave_its_reader_away_refuses_routes() {
    let mut bench = Bench::new(48_000, false);
    bench.controller.start().unwrap();
    bench.settle();
    let mut ended = bench.supervisor.shut_down().unwrap();
    assert_eq!(
        ended.set_route(ChannelRoute { reference: None, measurement: 0 }).err().unwrap(),
        "the route is set where the results are read"
    );
    assert!(bench.controller.set_route(ChannelRoute { reference: None, measurement: 0 }).is_ok());
}

#[test]
fn a_result_that_was_refused_is_offered_again() {
    let (mut producer, mut consumer) = result_queue(1);
    publish_pending(&mut producer, &mut Some(AnalysisSnapshot::default()));
    let mut pending = Some(AnalysisSnapshot { sequence: 7, ..AnalysisSnapshot::default() });
    for _ in 0..3 {
        publish_pending(&mut producer, &mut pending);
        assert!(pending.is_some());
    }
    assert!(take_latest_matching(&mut consumer, 0).is_some());
    publish_pending(&mut producer, &mut pending);
    assert!(pending.is_none());
}

#[test]
fn a_start_is_asked_for_again_once_the_last_one_was_taken_up() {
    let mut bench = Bench::new(48_000, true);
    bench.controller.start().unwrap();
    bench.controller.poll(true);
    assert!(bench.controller.start().is_err());
    bench.settle();
    bench.controller.start().unwrap();
    bench.settle();
    assert_eq!(bench.controller.state(), &ConnectionState::Running);
}

#[test]
fn an_opened_input_that_was_called_off_is_stopped() {
    let stops = Rc::new(Cell::new(0));
    let mut source = ToneSource {
        sample_rate: 48_000,
        fail_next: false,
        opens: Rc::default(),
        stops: Rc::clone(&stops),
        line: Rc::default(),
    };
    let stats = Arc::new(SharedStats::default());
    let opened = source.open(Arc::clone(&stats), &mut watch(false));
    let result = AnalyzerRuntime::from_opened(opened, true, stats);
    let refused = result.err().unwrap();
    assert_eq!(refused.message, "input start cancelled");
    assert!(refused.source.is_some());
    assert_eq!(stops.get(), 1);
    refused.source.unwrap().stop();
    assert_eq!(stops.get(), 1);
}
