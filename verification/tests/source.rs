//! The input port and the choice of a device.
use audio_analyzer::audio::{describe_input, startup_outcome, HostSearch};
use audio_analyzer::capture::channel;
use audio_analyzer::model::ChannelRoute;
use audio_analyzer::source::{AudioInfo, InputStream, OpenedSource};
use std::cell::Cell;
use std::rc::Rc;
use std::sync::Arc;

struct LocalStream(Rc<Cell<usize>>);

impl InputStream for LocalStream {
    fn stop(&mut self) {
        self.0.set(self.0.get() + 1);
    }
}

fn info(name: &str, channels: usize, initial_route: ChannelRoute) -> AudioInfo {
    AudioInfo {
        host_name: name.into(),
        device_name: name.into(),
        sample_rate: 48_000,
        channels,
        initial_route,
    }
}

#[test]
fn thread_local_stream_is_stopped_exactly_once() {
    let stops = Rc::new(Cell::new(0));
    let route = ChannelRoute::default_for_channels(2);
    let (_writer, input) = channel(2, route, Arc::default()).unwrap();
    let mut source = OpenedSource::new(
        info("local", 2, route),
        input,
        Box::new(LocalStream(Rc::clone(&stops))),
    )
    .ok()
    .unwrap();
    source.stop();
    source.stop();
    drop(source);
    assert_eq!(stops.get(), 1);
}

#[test]
fn incompatible_metadata_is_rejected_and_stream_is_stopped() {
    let stops = Rc::new(Cell::new(0));
    let route = ChannelRoute::default_for_channels(2);
    let (_writer, input) = channel(2, route, Arc::default()).unwrap();
    let result = OpenedSource::new(
        info("invalid", 3, route),
        input,
        Box::new(LocalStream(Rc::clone(&stops))),
    );
    assert!(result.is_err());
    assert_eq!(stops.get(), 1);
    assert_eq!(result.err().unwrap(), "source metadata does not match its capture channel");
}

#[test]
fn a_queue_on_another_route_is_rejected() {
    let stops = Rc::new(Cell::new(0));
    let route = ChannelRoute::default_for_channels(2);
    let (_writer, mut input) = channel(2, route, Arc::default()).unwrap();
    input.route_control().store(ChannelRoute { reference: None, measurement: 1 });
    let result = OpenedSource::new(
        info("moved", 2, route),
        input,
        Box::new(LocalStream(Rc::clone(&stops))),
    );
    assert_eq!(result.err().unwrap(), "source metadata does not match its capture channel");
    assert_eq!(stops.get(), 1);
}

#[test]
fn unusable_inputs_are_rejected_with_a_reason() {
    let route = ChannelRoute::default_for_channels(2);
    let format = "input requires a nonzero sample rate and 1..=65535 channels";
    assert!(info("good", 2, route).validate().is_ok());
    assert_eq!(info("none", 0, route).validate().err().unwrap(), format);
    assert_eq!(info("many", 65_536, route).validate().err().unwrap(), format);
    let mut silent = info("silent", 2, route);
    silent.sample_rate = 0;
    assert_eq!(silent.validate().err().unwrap(), format);
    assert_eq!(
        info("narrow", 1, route).validate().err().unwrap(),
        "Measurement channel 2 is outside the 1 available channels"
    );
}

#[test]
fn a_device_is_described_with_the_default_route() {
    let info = describe_input("host".into(), "device".into(), 96_000, 4);
    assert_eq!(info.host_name, "host");
    assert_eq!(info.device_name, "device");
    assert_eq!(info.sample_rate, 96_000);
    assert_eq!(info.channels, 4);
    assert_eq!(info.initial_route, ChannelRoute { reference: Some(0), measurement: 1 });
}

#[test]
fn a_stream_is_used_once_a_window_has_arrived() {
    assert_eq!(startup_outcome(10, 2_058, true, true), Some(Ok(())));
    assert_eq!(startup_outcome(u64::MAX - 47, 2_000, false, true), Some(Ok(())));
    assert_eq!(startup_outcome(10, 2_057, false, false), None);
    assert_eq!(
        startup_outcome(10, 2_057, true, true),
        Some(Err("input start cancelled".to_owned()))
    );
    assert_eq!(
        startup_outcome(10, 2_057, false, true),
        Some(Err(
            "input stream did not deliver a complete analysis window within two seconds".to_owned()
        ))
    );
}

#[test]
fn a_search_without_result_reports_every_host() {
    let mut search = HostSearch::new();
    assert_eq!(search.report(), "No usable input stream was found. ");
    assert!(search.proceed(false).is_ok());
    assert_eq!(search.proceed(true).err().unwrap(), "input start cancelled");
    assert!(search.tried("Asio", Err("no default input device".to_owned())).is_none());
    assert_eq!(
        search.report(),
        "No usable input stream was found. Asio: no default input device"
    );
    assert!(search.tried("Wasapi", Err("busy".to_owned())).is_none());
    assert_eq!(
        search.report(),
        "No usable input stream was found. Asio: no default input device | Wasapi: busy"
    );
    let route = ChannelRoute::default_for_channels(1);
    let (_writer, input) = channel(1, route, Arc::default()).unwrap();
    let opened = OpenedSource::new(
        info("local", 1, route),
        input,
        Box::new(LocalStream(Rc::new(Cell::new(0)))),
    );
    assert_eq!(search.tried("local", opened).unwrap().info().device_name, "local");
}
