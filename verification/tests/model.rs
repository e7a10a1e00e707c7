//! Routes, their packed form, and the plain types of the model.
use audio_analyzer::level::{does_reach, is_above, is_later, take_greater, take_magnitude};
use audio_analyzer::model::{
    pack_route, unpack_route, AnalysisSnapshot, AudioBlock, BinMetrics, ChannelRoute, RouteControl,
    RuntimeStats, SharedStats, SignalLevel, FFT_SIZE, HOP_SIZE, SILENCE_DBFS,
    SPECTRUM_BINS,
};
use audio_analyzer::shared::{flag, SharedRoute};
use audio_analyzer::text::decimal_text;

#[test]
fn route_control_publishes_a_complete_route() {
    let mut control = RouteControl::new(ChannelRoute::default_for_channels(2));
    let route = ChannelRoute { reference: Some(3), measurement: 2 };
    control.store(route);
    let (loaded, generation) = control.load();
    assert_eq!(loaded, route);
    assert_eq!(generation, 1);
}

#[test]
fn route_validation_rejects_out_of_range_channels() {
    assert!(ChannelRoute { reference: Some(0), measurement: 2 }.validate(2).is_err());
}

#[test]
fn a_shared_route_is_replaced_for_every_reader() {
    let first = ChannelRoute::default_for_channels(2);
    let mut shared = SharedRoute::new(RouteControl::new(first), 65_535);
    let mut watch = shared.watch();
    assert_eq!(shared.channels(), 65_535);
    assert_eq!(shared.load().load(), (first, 0));
    let route = ChannelRoute { reference: None, measurement: 65_534 };
    shared.store(route);
    assert_eq!(shared.load().load(), (route, 1));
    let mut other = shared.share();
    other.store(first);
    assert_eq!(other.load().load(), (first, 2));
    assert_eq!(shared.load().load(), (first, 2));
    assert_eq!(watch.load().load(), (first, 2));
}

#[test]
fn stores_of_several_owners_are_all_counted() {
    let route = |measurement| ChannelRoute { reference: None, measurement };
    let mut first = SharedRoute::new(RouteControl::new(route(0)), 100);
    let mut second = first.share();
    let mut third = second.share();
    for measurement in 0..9 {
        let owner = match measurement % 3 {
            0 => &mut first,
            1 => &mut second,
            _ => &mut third,
        };
        owner.store(route(measurement));
        assert_eq!(owner.load().load(), (route(measurement), measurement as u64 + 1));
    }
    assert_eq!(first.load().load(), (route(8), 9));
}

#[test]
fn a_flag_is_seen_as_it_was_set_last() {
    let (mut switch, mut watch) = flag();
    assert!(!watch.is_set());
    switch.set(true);
    assert!(watch.is_set());
    switch.set(false);
    assert!(!watch.is_set());
}

#[test]
fn each_rejection_names_the_channel_and_the_range() {
    let route = ChannelRoute { reference: None, measurement: 11 };
    assert_eq!(
        route.validate(10).err().unwrap(),
        "Measurement channel 12 is outside the 10 available channels"
    );
    let route = ChannelRoute { reference: Some(10), measurement: 9 };
    assert_eq!(
        route.validate(10).err().unwrap(),
        "Reference channel is outside the 10 available channels"
    );
    let route = ChannelRoute { reference: Some(9), measurement: 9 };
    assert_eq!(route.validate(10).unwrap(), route);
}

#[test]
fn the_default_route_compares_two_channels_where_there_are_two() {
    assert_eq!(
        ChannelRoute::default_for_channels(1),
        ChannelRoute { reference: None, measurement: 0 }
    );
    assert_eq!(
        ChannelRoute::default_for_channels(8),
        ChannelRoute { reference: Some(0), measurement: 1 }
    );
}

#[test]
fn a_packed_route_is_unpacked_with_its_generation() {
    for route in [
        ChannelRoute { reference: None, measurement: 7 },
        ChannelRoute { reference: Some(0), measurement: 65_534 },
        ChannelRoute { reference: Some(65_534), measurement: 0 },
    ] {
        assert_eq!(unpack_route(pack_route(route, 77)), (route, 77));
    }
}

#[test]
fn the_generation_wraps_around_and_leaves_the_route_alone() {
    let route = ChannelRoute { reference: Some(1), measurement: 2 };
    let mut control = RouteControl::from_word(pack_route(route, 0xffff_ffff));
    control.store(route);
    assert_eq!(control.load(), (route, 0));
}

#[test]
fn totals_add_up_and_wrap_around() {
    let stats = SharedStats::default();
    let mut analysis = stats.analysis_end();
    let mut capture = stats.capture_end();
    let mut errors = stats.error_end();
    analysis.add(&RuntimeStats {
        discontinuities: u64::MAX,
        dropped_results: 2,
        ..RuntimeStats::default()
    });
    analysis.add(&RuntimeStats { discontinuities: 3, ..RuntimeStats::default() });
    capture.add(&RuntimeStats {
        received_audio_frames: 5,
        dropped_audio_frames: 4,
        stream_errors: 1,
        ..RuntimeStats::default()
    });
    errors.count();
    assert_eq!(
        stats.view().totals(),
        RuntimeStats {
            received_audio_frames: 5,
            dropped_audio_frames: 4,
            stream_errors: 2,
            discontinuities: 2,
            dropped_results: 2,
        }
    );
}

#[test]
fn empty_values_are_silent() {
    let snapshot = AnalysisSnapshot::default();
    assert_eq!(f32::from_bits(snapshot.measurement_level.peak_dbfs), -120.0);
    assert_eq!(f32::from_bits(SignalLevel::default().rms_dbfs), -120.0);
    assert_eq!(f32::from_bits(SILENCE_DBFS), -120.0);
    assert_eq!(snapshot.bins[SPECTRUM_BINS - 1], BinMetrics::default());
    assert_eq!(snapshot.scope_len, 0);
    assert_eq!(HOP_SIZE * 2, FFT_SIZE);
    let mut block = AudioBlock::default();
    block.valid_frames = 9;
    block.has_reference = true;
    block.clear();
    assert_eq!(block.valid_frames, 0);
}

#[test]
fn levels_compare_as_the_numbers_they_stand_for() {
    let values = [
        f32::NEG_INFINITY, -120.0, -3.5, -0.0, 0.0, f32::MIN_POSITIVE, 1.0e-20, 0.5, 6.0,
        f32::INFINITY, f32::NAN,
    ];
    for a in values {
        assert_eq!(f32::from_bits(take_magnitude(a.to_bits())).to_bits(), a.abs().to_bits());
        for b in values {
            assert_eq!(is_above(a.to_bits(), b.to_bits()), a > b);
            assert_eq!(does_reach(a.to_bits(), b.to_bits()), a >= b);
            let (x, y) = (f64::from(a), f64::from(b));
            assert_eq!(is_later(x.to_bits(), y.to_bits()), x > y);
            let greater = f32::from_bits(take_greater(a.to_bits(), b.to_bits()));
            assert!(greater == a.max(b) || (a.is_nan() && b.is_nan()));
        }
    }
}

#[test]
fn numbers_are_written_in_decimal() {
    for number in [0_u128, 7, 10, 65_535, 1_000_000, u128::MAX] {
        assert_eq!(decimal_text(number), number.to_string());
    }
}
