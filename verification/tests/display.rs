//! What the display keeps and shows.
use audio_analyzer::controller::{AnalyzerController, ConnectionState, Supervisor};
use audio_analyzer::model::{
    AnalysisSnapshot, ChannelRoute, SharedStats, SignalLevel, StereoFrame, FFT_SIZE, SPECTRUM_BINS,
};
use audio_analyzer::shared::FlagWatch;
use audio_analyzer::source::{InputSource, OpenedSource};
use audio_analyzer::ui::state::{
    history_spectrum, AnalysisView, DisplayHold, HistoryBuffer, HistoryPoint, HistoryView, PeakHold,
    HISTORY_CAPACITY, HISTORY_SPECTRUM_BANDS,
};
use audio_analyzer::ui::widgets::{
    frequency_grid_marks, history_frequency_ticks, history_lines, meter_zone, spectrogram_levels,
    HistoryLines, MeterZone,
};
use audio_analyzer::ui::{
    card_layout, channel_text, connection_text, font_order, plotted_bins, plotted_value,
    stream_status, CardLayout,
    DisplayState, MeterFall, StreamStatus,
};
use std::collections::VecDeque;
use std::sync::Arc;

fn bits(value: f32) -> u32 {
    value.to_bits()
}

fn band_plan(sample_rate: u32) -> [usize; SPECTRUM_BINS] {
    let mut plan = [0; SPECTRUM_BINS];
    let resolution = sample_rate as f32 / FFT_SIZE as f32;
    let log_span = (sample_rate as f32 * 0.5 / 20.0).ln();
    for (bin, band) in plan.iter_mut().enumerate().skip(1) {
        let frequency = bin as f32 * resolution;
        *band = ((frequency / 20.0).ln() / log_span * (HISTORY_SPECTRUM_BANDS - 1) as f32).round()
            as usize;
    }
    plan
}

fn snapshot(frame: u64) -> AnalysisSnapshot {
    AnalysisSnapshot {
        window_start_frame: frame,
        sample_rate: 48_000,
        measurement_level: SignalLevel { peak_dbfs: bits(-3.0), rms_dbfs: bits(-6.0) },
        ..AnalysisSnapshot::default()
    }
}

fn quiet(frame: u64) -> AnalysisSnapshot {
    let mut input = snapshot(frame);
    for metrics in &mut input.bins {
        metrics.measurement_dbfs = bits(-120.0);
    }
    input
}

fn push(history: &mut HistoryBuffer, snapshot: &AnalysisSnapshot, discontinuities: u64) -> bool {
    history.push(snapshot, &band_plan(snapshot.sample_rate.max(1)), discontinuities)
}

fn fall(hold: &PeakHold, now: f64) -> MeterFall {
    let last = f64::from_bits(hold.last_time());
    let until = f64::from_bits(hold.hold_until());
    let elapsed = (now - last.max(until)).max(0.0) as f32;
    MeterFall {
        deadline: (now + 0.5).to_bits(),
        released: bits(f32::from_bits(hold.held_dbfs()) - 24.0 * elapsed),
    }
}

fn update(hold: &mut PeakHold, peak_dbfs: f32, now: f64) -> f32 {
    let fall = fall(hold, now);
    f32::from_bits(hold.update(bits(peak_dbfs), now.to_bits(), fall.deadline, fall.released))
}

fn loudest(levels: &[u32]) -> f32 {
    levels.iter().map(|level| f32::from_bits(*level)).fold(f32::NEG_INFINITY, f32::max)
}

fn seconds(point: &HistoryPoint) -> f64 {
    point.frame as f64 / point.sample_rate as f64
}

fn columns(points: &VecDeque<HistoryPoint>, width: usize) -> Vec<Option<usize>> {
    let start = points.back().map_or(0.0, |last| seconds(last) - 300.0);
    points
        .iter()
        .map(|point| {
            if seconds(point) < start {
                return None;
            }
            let place = ((seconds(point) - start) / 300.0 * width as f64).floor();
            Some(place.clamp(0.0, width.max(1) as f64 - 1.0) as usize)
        })
        .collect()
}

fn levels(points: &VecDeque<HistoryPoint>, width: usize) -> Vec<u32> {
    spectrogram_levels(points, &columns(points, width), width)
}

fn point(frame: u64) -> HistoryPoint {
    HistoryPoint {
        frame,
        sample_rate: 48_000,
        measurement_rms: bits(-6.0),
        reference_rms: None,
        spectrum_dbfs: [bits(-3.0); HISTORY_SPECTRUM_BANDS],
        gap: false,
    }
}

#[test]
fn history_keeps_every_audible_fft_bin_peak() {
    for rate in [48_000, 96_000, 192_000] {
        let plan = band_plan(rate);
        for bin in 1..SPECTRUM_BINS {
            let mut input = quiet(0);
            input.sample_rate = rate;
            input.bins[bin].measurement_dbfs = bits(-3.0);
            assert_eq!(
                history_spectrum(&input, &plan)
                    .into_iter()
                    .map(f32::from_bits)
                    .fold(-120.0, f32::max),
                -3.0
            );
        }
    }
}

#[test]
fn history_rejects_zero_rate_and_recovers_after_frame_reset() {
    let mut history = HistoryBuffer::default();
    assert!(!push(&mut history, &AnalysisSnapshot::default(), 0));
    assert!(push(&mut history, &snapshot(48_000), 0));
    assert!(push(&mut history, &snapshot(0), 0));
    assert_eq!(history.points().len(), 1);
    assert!(seconds(&history.points()[0]).is_finite());
}

#[test]
fn peak_hold_does_not_release_during_hold_when_updates_are_sparse() {
    let mut hold = PeakHold::default();
    update(&mut hold, -3.0, 1.0);
    assert!((update(&mut hold, -60.0, 1.6) + 5.4).abs() < 0.01);
}

#[test]
fn peak_hold_waits_then_releases_at_twenty_four_db_per_second() {
    let mut hold = PeakHold::default();
    assert_eq!(update(&mut hold, -3.0, 1.0), -3.0);
    assert_eq!(update(&mut hold, -20.0, 1.4), -3.0);
    let released = update(&mut hold, -20.0, 1.9);
    assert!((released + 12.6).abs() < 0.01);
}

#[test]
fn history_downsamples_to_ten_hertz_and_marks_gaps() {
    let mut history = HistoryBuffer::default();
    push(&mut history, &snapshot(0), 0);
    push(&mut history, &snapshot(1_000), 0);
    push(&mut history, &snapshot(4_800), 0);
    push(&mut history, &snapshot(9_600), 1);
    assert_eq!(history.points().len(), 3);
    assert!(!history.points()[1].gap);
    assert!(history.points()[2].gap);
}

#[test]
fn history_records_log_spaced_frequency_levels() {
    let mut input = quiet(0);
    let band = HISTORY_SPECTRUM_BANDS / 2;
    let fraction = band as f32 / (HISTORY_SPECTRUM_BANDS - 1) as f32;
    let frequency = 20.0 * ((input.sample_rate as f32 * 0.5 / 20.0).ln() * fraction).exp();
    let bin = (frequency / (input.sample_rate as f32 / FFT_SIZE as f32)).round() as usize;
    input.bins[bin].measurement_dbfs = bits(-7.0);

    let mut history = HistoryBuffer::default();
    assert!(push(&mut history, &input, 0));
    assert_eq!(loudest(&history.points()[0].spectrum_dbfs), -7.0);
    assert_eq!(f32::from_bits(history.points()[0].spectrum_dbfs[band]), -7.0);
}

#[test]
fn history_never_exceeds_three_thousand_points() {
    let mut history = HistoryBuffer::default();
    let plan = band_plan(48_000);
    for index in 0..3_100_u64 {
        history.push(&snapshot(index * 4_800), &plan, 0);
    }
    assert_eq!(history.points().len(), HISTORY_CAPACITY);
    assert_eq!(history.points()[0].frame, 100 * 4_800);
}

#[test]
fn display_hold_freezes_only_plot_updates() {
    let mut hold = DisplayHold::default();
    assert!(hold.accepts_plot_update());
    hold.toggle();
    assert!(hold.active());
    assert!(!hold.accepts_plot_update());
}

#[test]
fn spectrogram_aggregates_peaks_and_blanks_discontinuities() {
    let mut points = VecDeque::from([point(48_000)]);
    let image = levels(&points, 600);
    assert_eq!(image[599], bits(-3.0));
    assert_eq!(image[0], bits(-120.0));
    points.push_back(HistoryPoint { gap: true, ..point(52_800) });
    assert!(levels(&points, 600).iter().all(|level| *level == bits(-120.0)));
    assert!(levels(&points, 0).is_empty());
}

#[test]
fn the_spectrogram_has_the_highest_band_on_top() {
    let mut low = point(0);
    low.spectrum_dbfs = [bits(-120.0); HISTORY_SPECTRUM_BANDS];
    low.spectrum_dbfs[0] = bits(-9.0);
    let mut high = point(14_400_000);
    high.spectrum_dbfs[95] = bits(-1.0);
    let points = VecDeque::from([low, high]);
    let image = spectrogram_levels(&points, &vec![Some(0), Some(7)], 4);
    assert_eq!(image.len(), 4 * HISTORY_SPECTRUM_BANDS);
    assert_eq!(image[95 * 4], bits(-9.0));
    assert_eq!(image[94 * 4], bits(-120.0));
    assert_eq!(image[3], bits(-1.0));
    assert_eq!(image[7], bits(-3.0));
    let hidden = spectrogram_levels(&points, &vec![None, Some(2)], 4);
    assert_eq!(hidden[95 * 4], bits(-120.0));
    assert_eq!(hidden[2], bits(-1.0));
}

#[test]
fn a_cell_shows_the_loudest_of_its_points() {
    let mut loud = point(10);
    loud.spectrum_dbfs[40] = bits(-0.5);
    let points = VecDeque::from([point(0), loud, point(20)]);
    let image = spectrogram_levels(&points, &vec![Some(1), Some(1), Some(1)], 2);
    assert_eq!(image[(95 - 40) * 2 + 1], bits(-0.5));
    assert_eq!(image[(95 - 40) * 2], bits(-120.0));
}

#[test]
fn no_line_is_drawn_across_a_gap_or_to_a_hidden_point() {
    let reference = Some(bits(-9.0));
    let points = VecDeque::from([
        point(0),
        HistoryPoint { reference_rms: reference, ..point(1) },
        HistoryPoint { reference_rms: reference, ..point(2) },
        HistoryPoint { gap: true, reference_rms: reference, ..point(3) },
        point(4),
        HistoryPoint { reference_rms: reference, ..point(5) },
    ]);
    let visible = vec![false, true, true, true, true, true];
    let none = HistoryLines { measurement_from: None, reference_from: None };
    assert_eq!(
        history_lines(&points, &visible),
        vec![
            none,
            none,
            HistoryLines { measurement_from: Some(1), reference_from: Some(1) },
            none,
            HistoryLines { measurement_from: Some(3), reference_from: None },
            HistoryLines { measurement_from: Some(4), reference_from: None },
        ]
    );
}

#[test]
fn the_meter_does_not_fall_while_a_peak_is_held() {
    let mut hold = PeakHold::default();
    assert_eq!(update(&mut hold, -10.0, 2.0), -10.0);
    assert_eq!(update(&mut hold, -30.0, 2.5), -10.0);
    assert_eq!(update(&mut hold, -12.0, 100.0), -12.0);
    assert_eq!(update(&mut hold, 1.0, 100.1), 1.0);
}

#[test]
fn a_bin_below_twenty_hertz_is_not_shown() {
    let mut input = quiet(0);
    input.sample_rate = 2_000;
    input.bins[20].measurement_dbfs = bits(-1.0);
    input.bins[0].measurement_dbfs = bits(-1.0);
    let plan = [200; SPECTRUM_BINS];
    assert_eq!(loudest(&history_spectrum(&input, &plan)), -120.0);
    assert_eq!(plotted_bins(&input)[0].bin, 21);
    input.bins[21].measurement_dbfs = bits(-2.0);
    assert_eq!(f32::from_bits(history_spectrum(&input, &plan)[95]), -2.0);
    input.sample_rate = 40;
    input.bins[1_024].measurement_dbfs = bits(-2.0);
    assert_eq!(loudest(&history_spectrum(&input, &plan)), -120.0);
    assert_eq!(plotted_bins(&input).len(), 1);
}

#[test]
fn axis_marks_end_at_the_upper_limit() {
    assert_eq!(
        history_frequency_ticks(48_000),
        vec![40, 200, 2_000, 20_000, 40_000, 48_000]
    );
    assert_eq!(history_frequency_ticks(40_000), vec![40, 200, 2_000, 20_000, 40_000]);
    assert_eq!(history_frequency_ticks(40_020), vec![40, 200, 2_000, 20_000, 40_000]);
    assert_eq!(history_frequency_ticks(40_080), vec![40, 200, 2_000, 20_000, 40_000, 40_080]);
    assert!(history_frequency_ticks(40).is_empty());
    assert_eq!(history_frequency_ticks(41), vec![40, 41]);
    assert_eq!(
        frequency_grid_marks(48_000),
        vec![40, 100, 200, 400, 1_000, 2_000, 4_000, 10_000, 20_000, 40_000, 48_000]
    );
    assert_eq!(frequency_grid_marks(30), vec![30]);
}

#[test]
fn the_top_of_a_meter_warns() {
    assert_eq!(meter_zone(0), MeterZone::Normal);
    assert_eq!(meter_zone(21), MeterZone::Normal);
    assert_eq!(meter_zone(22), MeterZone::High);
    assert_eq!(meter_zone(23), MeterZone::Clip);
}

#[test]
fn views_have_labels_and_axes() {
    assert_eq!(HistoryView::default(), HistoryView::Level);
    let labels: Vec<&str> = HistoryView::ALL.iter().map(|view| view.label()).collect();
    assert_eq!(labels, vec!["音量 / LEVEL", "周波数 / SPECTRUM"]);
    let labels: Vec<&str> = AnalysisView::ALL.iter().map(|view| view.label()).collect();
    assert_eq!(labels, vec!["周波数", "伝達関数", "位相", "コヒーレンス"]);
    let axes: Vec<(i32, i32, &str)> = AnalysisView::ALL
        .iter()
        .map(|view| (view.axis().low, view.axis().high, view.axis().unit))
        .collect();
    assert_eq!(
        axes,
        vec![(-120, 6, "dBFS"), (-60, 20, "dB"), (-180, 180, "deg"), (0, 1, "")]
    );
    assert!(AnalysisView::Spectrum.available(false));
    assert!(!AnalysisView::Phase.available(false));
    assert!(AnalysisView::Phase.available(true));
}

#[test]
fn texts_tell_the_state_of_the_input() {
    assert_eq!(stream_status(0, true), StreamStatus::Healthy);
    assert_eq!(stream_status(0, false).label(), "● 入力待機 / 停止");
    assert_eq!(stream_status(3, true), StreamStatus::Fault);
    assert_eq!(stream_status(3, true).label(), "● ストリーム異常");
    assert_eq!(StreamStatus::Healthy.label(), "● システム正常");
    assert_eq!(channel_text(None), "無効");
    assert_eq!(channel_text(Some(usize::MAX)), "入力 18446744073709551616");
    assert_eq!(channel_text(Some(0)), "入力 1");
    assert_eq!(connection_text(&ConnectionState::Stopped), "入力未接続");
    assert_eq!(connection_text(&ConnectionState::Starting), "入力デバイスに接続中…");
    assert_eq!(connection_text(&ConnectionState::Running), "入力接続済み");
    assert_eq!(connection_text(&ConnectionState::Stopping), "入力を停止中…");
    assert_eq!(
        connection_text(&ConnectionState::Failed("busy".to_owned())),
        "入力接続に失敗: busy"
    );
}

#[test]
fn each_view_plots_its_own_value() {
    let mut input = quiet(0);
    input.bins[7].transfer_db = 1;
    input.bins[7].phase_degrees = 2;
    input.bins[7].coherence = 3;
    let bins = plotted_bins(&input);
    let values: Vec<u32> =
        AnalysisView::ALL.iter().map(|view| plotted_value(*view, &bins[6])).collect();
    assert_eq!(values, vec![bits(-120.0), 1, 2, 3]);
}

#[test]
fn fonts_are_tried_in_order() {
    assert_eq!(font_order(false, false), vec!["jetbrains-regular"]);
    assert_eq!(font_order(false, true), vec!["jetbrains-regular", "japanese-system"]);
    assert_eq!(font_order(true, false), vec!["jetbrains-bold"]);
    assert_eq!(font_order(true, true), vec!["jetbrains-bold", "japanese-system"]);
}

#[test]
fn cards_stand_side_by_side_where_there_is_room() {
    assert_eq!(card_layout(bits(1_440.0)), CardLayout::ThreeColumns);
    assert_eq!(card_layout(bits(1_050.0)), CardLayout::ThreeColumns);
    assert_eq!(card_layout(bits(1_049.9)), CardLayout::TwoColumns);
    assert_eq!(card_layout(bits(700.0)), CardLayout::TwoColumns);
    assert_eq!(card_layout(bits(699.9)), CardLayout::OneColumn);
}

fn show(display: &mut DisplayState, snapshot: &AnalysisSnapshot, now: f64) -> bool {
    let measurement = fall(&display.measurement_peak_hold, now);
    let reference = fall(&display.reference_peak_hold, now);
    let plan = band_plan(snapshot.sample_rate.max(1));
    display.update_snapshot(snapshot, now.to_bits(), measurement, reference, &plan, 0)
}

#[test]
fn a_result_is_shown_and_a_frozen_plot_stays() {
    let mut display = DisplayState::new(None);
    let mut first = snapshot(0);
    first.sequence = 5;
    first.has_reference = true;
    first.reference_level =
        Some(SignalLevel { peak_dbfs: bits(-9.0), rms_dbfs: bits(-12.0) });
    first.scope_points[1] = StereoFrame { reference: bits(0.5), measurement: bits(0.25) };
    first.scope_len = 2;
    assert!(show(&mut display, &first, 1.0));
    assert_eq!(display.latest_sequence, Some(5));
    assert_eq!(display.measurement_held_dbfs, bits(-3.0));
    assert_eq!(display.reference_held_dbfs, bits(-9.0));
    assert_eq!(display.scope_points.len(), 2);
    assert_eq!(display.scope_points[1].measurement, bits(0.25));
    assert_eq!(display.plotted.len(), SPECTRUM_BINS - 1);
    assert!(display.has_reference);

    display.display_hold.toggle();
    let mut second = snapshot(4_800);
    second.sample_rate = 96_000;
    assert!(!show(&mut display, &second, 1.1));
    assert!(display.has_reference);
    assert_eq!(display.plotted_rate, 48_000);
    assert_eq!(display.reference_held_dbfs, bits(-120.0));
    assert_eq!(display.latest_window_start, 4_800);
    assert!(display.reference_level.is_none());
}

struct UnavailableInput;

impl InputSource for UnavailableInput {
    fn open(&mut self, _: Arc<SharedStats>, _: &mut FlagWatch) -> Result<OpenedSource, String> {
        Err("test input unavailable".to_owned())
    }
}

#[test]
fn the_display_starts_anew_when_the_connection_changes() {
    let (mut controller, port) = AnalyzerController::with_source(UnavailableInput);
    let mut supervisor = Supervisor::new(port);
    let mut display = DisplayState::new(None);
    assert!(!display.poll_connection(&mut controller, false));
    show(&mut display, &snapshot(0), 1.0);
    display.request_start(&mut controller);
    assert_eq!(controller.state(), &ConnectionState::Starting);
    assert!(display.poll_connection(&mut controller, false));
    assert!(display.history.points().is_empty());

    let opened = supervisor.open_requested().unwrap().map(|(runtime, _)| runtime);
    let cancelled = supervisor.is_cancelled();
    assert!(!supervisor.finish_start(cancelled, opened).0);
    supervisor.publish();
    assert!(display.poll_connection(&mut controller, false));
    assert_eq!(
        display.display_connection,
        ConnectionState::Failed("test input unavailable".to_owned())
    );
    assert!(display.latest_sequence.is_none());
    assert_eq!(display.measurement_level.peak_dbfs, bits(-120.0));
    assert!(!display.request_stop(&mut controller));

    assert!(display.poll_connection(&mut controller, true));
    assert_eq!(
        controller.state(),
        &ConnectionState::Failed("control worker exited unexpectedly".to_owned())
    );
}

#[test]
fn a_refused_route_leaves_the_one_in_force() {
    let (mut controller, _port) = AnalyzerController::with_source(UnavailableInput);
    let mut display = DisplayState::new(Some(ChannelRoute::default_for_channels(2)));
    assert!(display.has_reference);
    let route = ChannelRoute { reference: None, measurement: 0 };
    assert!(!display.choose_route(&mut controller, route));
    assert_eq!(display.route, ChannelRoute::default_for_channels(2));
    assert_eq!(display.route_error.as_deref(), Some("input is not connected"));
    display.route_answered(route, Ok(()));
    assert_eq!(display.route, route);
    assert!(display.route_error.is_none());
    assert!(!display.has_reference);
    assert!(!display.choose_route(&mut controller, route));
    assert!(display.route_error.is_none());
}

#[test]
fn a_stop_that_is_asked_for_clears_the_display() {
    let (mut controller, _port) = AnalyzerController::with_source(UnavailableInput);
    let mut display = DisplayState::new(Some(ChannelRoute::default_for_channels(2)));
    display.request_start(&mut controller);
    show(&mut display, &snapshot(0), 1.0);
    assert!(display.request_stop(&mut controller));
    assert_eq!(controller.state(), &ConnectionState::Stopping);
    assert_eq!(display.route, ChannelRoute::default_for_channels(1));
    assert!(display.history.points().is_empty());
    display.request_start(&mut controller);
    assert!(display.route_error.is_none());
}

#[test]
fn a_start_that_cannot_be_sent_is_shown() {
    let (mut controller, _port) = AnalyzerController::with_source(UnavailableInput);
    let mut display = DisplayState::new(None);
    display.request_start(&mut controller);
    display.poll_connection(&mut controller, true);
    display.request_start(&mut controller);
    assert!(matches!(controller.state(), ConnectionState::Failed(_)));
    assert_eq!(
        display.route_error.as_deref(),
        Some("an input start request is already pending")
    );
}

#[test]
fn a_closed_display_gives_the_input_up() {
    let (mut controller, port) = AnalyzerController::with_source(UnavailableInput);
    let mut supervisor = Supervisor::new(port);
    assert!(!supervisor.is_cancelled());
    controller.abandon();
    assert!(supervisor.is_cancelled());
    assert!(supervisor.end_cancelled(true).is_none());
    assert!(supervisor.shut_down().is_none());
}
