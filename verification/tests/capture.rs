//! Capture: blocks, overload, changes of route and malformed input.
use audio_analyzer::capture::{channel, BlockAssembler, CaptureWriter, CapturedInput, AUDIO_QUEUE_BLOCKS};
use audio_analyzer::model::{
    AudioBlock, ChannelRoute, SharedStats, StereoFrame, AUDIO_BLOCK_FRAMES,
};
use std::sync::Arc;

fn open(channels: usize) -> (CaptureWriter, CapturedInput, Arc<SharedStats>) {
    let stats = Arc::new(SharedStats::default());
    let route = ChannelRoute::default_for_channels(channels);
    let (writer, input) = channel(channels, route, Arc::clone(&stats)).unwrap();
    (writer, input, stats)
}

fn bits(value: f32) -> u32 {
    value.to_bits()
}

fn silent() -> StereoFrame {
    StereoFrame { reference: 0, measurement: 0 }
}

#[test]
fn overload_drops_whole_pairs_and_preserves_the_next_timestamp() {
    let (mut writer, mut input, stats) = open(2);
    let data = [0.25_f32; AUDIO_BLOCK_FRAMES * 2];
    for _ in 0..AUDIO_QUEUE_BLOCKS + 2 {
        writer.write_interleaved(&data, bits);
    }
    assert_eq!(stats.view().totals().dropped_audio_frames, (2 * AUDIO_BLOCK_FRAMES) as u64);
    for index in 0..AUDIO_QUEUE_BLOCKS {
        let block = input.receive().unwrap();
        assert_eq!(block.start_frame, (index * AUDIO_BLOCK_FRAMES) as u64);
        assert_eq!(block.valid_frames, AUDIO_BLOCK_FRAMES);
        assert!(block.has_reference);
    }
    writer.write_interleaved(&data, bits);
    assert_eq!(
        input.receive().unwrap().start_frame,
        ((AUDIO_QUEUE_BLOCKS + 2) * AUDIO_BLOCK_FRAMES) as u64
    );
}

#[test]
fn route_change_discards_partial_input_and_uses_one_complete_new_route() {
    let (mut writer, mut input, stats) = open(2);
    writer.write_interleaved(&[0.5, 0.25], bits);
    input.route_control().store(ChannelRoute { reference: None, measurement: 0 });
    writer.write_interleaved(&[0.5; AUDIO_BLOCK_FRAMES * 2], bits);
    let block = input.receive().unwrap();
    assert_eq!(block.start_frame, 1);
    assert_eq!(block.route_generation, 1);
    assert!(!block.has_reference);
    assert!(block
        .frames
        .iter()
        .all(|frame| frame.measurement == bits(0.5) && frame.reference == bits(0.0)));
    assert_eq!(stats.view().totals().dropped_audio_frames, 1);
}

#[test]
fn malformed_interleaved_input_creates_a_gap_instead_of_shifted_pairs() {
    let (mut writer, mut input, stats) = open(2);
    writer.write_interleaved(&[0.5, 0.25], bits);
    writer.write_interleaved(&[0.5, 0.25, 0.5], bits);
    writer.write_interleaved(&[0.25; AUDIO_BLOCK_FRAMES * 2], bits);
    assert_eq!(input.receive().unwrap().start_frame, 3);
    assert_eq!(stats.view().totals().stream_errors, 1);
    assert_eq!(stats.view().totals().dropped_audio_frames, 3);
}

#[test]
fn assembler_preserves_channel_pairs_and_frame_numbers() {
    let mut assembler = BlockAssembler::new();
    assembler.begin_callback(ChannelRoute { reference: Some(0), measurement: 1 }, 0);
    let mut completed = None;
    for index in 0..AUDIO_BLOCK_FRAMES {
        completed = assembler.push(StereoFrame {
            reference: bits(index as f32),
            measurement: bits(-(index as f32)),
        });
    }
    let block = completed.expect("a complete block should be emitted");
    assert_eq!(block.start_frame, 0);
    assert_eq!(block.valid_frames, AUDIO_BLOCK_FRAMES);
    assert_eq!(f32::from_bits(block.frames[42].reference), 42.0);
    assert_eq!(f32::from_bits(block.frames[42].measurement), -42.0);
}

#[test]
fn route_change_discards_a_partial_block() {
    let mut assembler = BlockAssembler::new();
    assembler.begin_callback(ChannelRoute::default_for_channels(2), 0);
    assembler.push(silent());
    assert_eq!(assembler.begin_callback(ChannelRoute::default_for_channels(2), 2), 1);
    assert_eq!(assembler.pending_frames(), 0);
}

#[test]
fn reference_state_is_preserved_across_multiple_blocks_in_one_callback() {
    let mut assembler = BlockAssembler::new();
    assembler.begin_callback(ChannelRoute { reference: Some(0), measurement: 1 }, 4);
    let mut completed: Vec<AudioBlock> = Vec::new();
    for _ in 0..(AUDIO_BLOCK_FRAMES * 2) {
        if let Some(block) = assembler.push(silent()) {
            completed.push(block);
        }
    }
    assert_eq!(completed.len(), 2);
    assert!(completed.iter().all(|block| block.has_reference));
    assert!(completed.iter().all(|block| block.route_generation == 4));
}

#[test]
fn a_refused_block_is_filled_again_from_its_start() {
    let mut assembler = BlockAssembler::new();
    assembler.begin_callback(ChannelRoute::default_for_channels(2), 0);
    let mut full = None;
    for _ in 0..AUDIO_BLOCK_FRAMES {
        full = assembler.push(silent());
    }
    let mut rejected = full.unwrap();
    rejected.clear();
    assembler.reuse(rejected);
    assert_eq!(assembler.pending_frames(), 0);
    assert_eq!(assembler.skip(5), 0);
    assembler.push(silent());
    assert_eq!(assembler.pending_frames(), 1);
    assert_eq!(assembler.skip(2), 1);
}

#[test]
fn every_received_frame_is_sent_pending_or_dropped() {
    let (mut writer, mut input, stats) = open(2);
    let data = [0.125_f32; 2 * 300];
    for _ in 0..70 {
        writer.write_interleaved(&data, bits);
    }
    let mut sent = 0;
    while let Some(block) = input.receive() {
        assert_eq!(block.start_frame, sent);
        sent += block.valid_frames as u64;
    }
    let totals = stats.view().totals();
    assert_eq!(totals.received_audio_frames, 70 * 300);
    assert_eq!(totals.received_audio_frames, sent + totals.dropped_audio_frames + (70 * 300) % 256);
    assert_eq!(sent, (AUDIO_QUEUE_BLOCKS * AUDIO_BLOCK_FRAMES) as u64);
}

#[test]
fn one_step_reports_what_it_adds_to_the_totals() {
    let (mut writer, _input, stats) = open(2);
    let step = writer.write_interleaved(&[0.5, 0.25, 0.5, 0.25], bits);
    assert_eq!(step.received_audio_frames, 2);
    assert_eq!(step.dropped_audio_frames, 0);
    let bad = writer.write_interleaved(&[0.5], bits);
    assert_eq!(bad.stream_errors, 1);
    assert_eq!(stats.view().totals().received_audio_frames, 2 + bad.received_audio_frames);
}

#[test]
fn a_mono_input_is_measured_on_its_only_channel() {
    let (mut writer, mut input, _stats) = open(1);
    let data: Vec<f32> = (0..AUDIO_BLOCK_FRAMES).map(|index| index as f32).collect();
    writer.write_interleaved(&data, bits);
    let block = input.receive().unwrap();
    assert!(!block.has_reference);
    assert_eq!(f32::from_bits(block.frames[255].measurement), 255.0);
    assert_eq!(block.frames[255].reference, 0);
    assert!(input.receive().is_none());
}

#[test]
fn integer_samples_are_converted_one_by_one() {
    let (mut writer, mut input, _stats) = open(2);
    let data: Vec<i16> = (0..2 * AUDIO_BLOCK_FRAMES as i16).collect();
    writer.write_interleaved(&data, |sample: i16| (sample as f32 / 32768.0).to_bits());
    let block = input.receive().unwrap();
    assert_eq!(f32::from_bits(block.frames[3].reference), 6.0 / 32768.0);
    assert_eq!(f32::from_bits(block.frames[3].measurement), 7.0 / 32768.0);
}

#[test]
fn a_queue_is_refused_for_unusable_channels() {
    let route = ChannelRoute { reference: None, measurement: 0 };
    for channels in [0, 65_536] {
        let message = channel(channels, route, Arc::default()).err().unwrap();
        assert_eq!(message, "input must have 1..=65535 channels");
    }
    let far = ChannelRoute { reference: Some(2), measurement: 0 };
    assert_eq!(
        channel(2, far, Arc::default()).err().unwrap(),
        "Reference channel is outside the 2 available channels"
    );
    assert!(channel(65_535, route, Arc::default()).is_ok());
}

#[test]
fn frames_may_be_cut_into_callbacks_anywhere() {
    let data: Vec<f32> = (0..2 * 1_000).map(|index| index as f32).collect();
    let (mut whole, mut whole_input, whole_stats) = open(2);
    let (mut parts, mut parts_input, parts_stats) = open(2);
    whole.write_interleaved(&data, bits);
    parts.write_interleaved(&data[..2 * 333], bits);
    parts.write_interleaved(&data[2 * 333..], bits);
    for _ in 0..3 {
        let (a, b) = (whole_input.receive().unwrap(), parts_input.receive().unwrap());
        assert_eq!(a.start_frame, b.start_frame);
        assert_eq!(a.frames, b.frames);
    }
    assert!(whole_input.receive().is_none() && parts_input.receive().is_none());
    assert_eq!(whole_stats.view().totals(), parts_stats.view().totals());
}

#[test]
fn a_session_accounts_for_every_frame() {
    let (mut writer, mut input, stats) = open(2);
    let mut brought = 0;
    for index in 0..90_usize {
        let samples = 2 * 301 + usize::from(index % 10 == 9);
        writer.write_interleaved(&vec![0.5_f32; samples], bits);
        brought += (samples / 2 + samples % 2) as u64;
        if index == 50 {
            input.route_control().store(ChannelRoute { reference: None, measurement: 1 });
        }
    }
    let mut queued = 0;
    let mut end = 0;
    while let Some(block) = input.receive() {
        assert!(block.start_frame >= end);
        end = block.start_frame + block.valid_frames as u64;
        queued += block.valid_frames as u64;
    }
    assert!(end <= brought);
    let totals = stats.view().totals();
    assert_eq!(totals.stream_errors, 9);
    assert!(brought - queued - totals.dropped_audio_frames < AUDIO_BLOCK_FRAMES as u64);
}

#[test]
fn a_queue_starts_with_the_route_it_was_made_for() {
    let route = ChannelRoute { reference: Some(4), measurement: 2 };
    let (_writer, mut input) = channel(5, route, Arc::default()).unwrap();
    assert_eq!(input.channels(), 5);
    assert_eq!(input.route_control().load().load(), (route, 0));
}

#[test]
fn a_full_queue_takes_a_block_again_once_one_was_taken_out() {
    let (mut writer, mut input, stats) = open(1);
    let data = [0.5_f32; AUDIO_BLOCK_FRAMES];
    for _ in 0..AUDIO_QUEUE_BLOCKS {
        assert_eq!(writer.write_interleaved(&data, bits).dropped_audio_frames, 0);
    }
    assert_eq!(writer.write_interleaved(&data, bits).dropped_audio_frames, 256);
    assert!(input.receive().is_some());
    assert_eq!(writer.write_interleaved(&data, bits).dropped_audio_frames, 0);
    assert_eq!(writer.write_interleaved(&data, bits).dropped_audio_frames, 256);
    assert_eq!(stats.view().totals().dropped_audio_frames, 512);
}
