//! The input port: what a source of audio has to provide, and what is checked of it.
use std::sync::Arc;

use vstd::prelude::*;

use crate::capture::CapturedInput;
use crate::model::{ChannelRoute, RouteControl, SharedStats};
use crate::shared::FlagWatch;

verus! {

/// What an input says of itself.
#[derive(Debug)]
pub struct AudioInfo {
    pub host_name: String,
    pub device_name: String,
    pub sample_rate: u32,
    pub channels: usize,
    pub initial_route: ChannelRoute,
}

/// Message for an input without samples, or with too few or too many channels.
pub open spec fn format_rejection() -> Seq<char> {
    "input requires a nonzero sample rate and 1..=65535 channels"@
}

/// Message for an input that does not describe its own queue.
pub open spec fn metadata_rejection() -> Seq<char> {
    "source metadata does not match its capture channel"@
}

impl AudioInfo {
    /// Samples arrive, on a number of channels that can be handled.
    pub open spec fn format_supported(&self) -> bool {
        self.sample_rate != 0 && 1 <= self.channels <= 0xffff
    }

    /// The input can be analysed, starting with the route that it proposes.
    pub open spec fn valid(&self) -> bool {
        self.format_supported() && self.initial_route.fits(self.channels)
    }

    /// What the message says of an input that cannot be analysed.
    pub open spec fn rejection(&self) -> Seq<char> {
        if !self.format_supported() {
            format_rejection()
        } else {
            self.initial_route.rejection(self.channels)
        }
    }

    pub fn validate(&self) -> (result: Result<(), String>)
        ensures
            result is Ok <==> self.valid(),
            result matches Err(message) ==> message@ == self.rejection(),
    {
        if self.sample_rate == 0 || self.channels == 0 || self.channels > 0xffff {
            return Err("input requires a nonzero sample rate and 1..=65535 channels".to_owned());
        }
        match self.initial_route.validate(self.channels) {
            Ok(_) => Ok(()),
            Err(message) => Err(message),
        }
    }
}

impl Clone for AudioInfo {
    fn clone(&self) -> (copy: AudioInfo)
        ensures
            copy.host_name@ == self.host_name@,
            copy.device_name@ == self.device_name@,
            copy.sample_rate == self.sample_rate,
            copy.channels == self.channels,
            copy.initial_route == self.initial_route,
    {
        AudioInfo {
            host_name: self.host_name.clone(),
            device_name: self.device_name.clone(),
            sample_rate: self.sample_rate,
            channels: self.channels,
            initial_route: self.initial_route,
        }
    }
}

/// Opens an input. Only the factory crosses threads; what it opens stays on the thread
/// that opened it.
pub trait InputSource {
    /// Opening an input once, whose frames are counted by `stats`, can come to `result` and
    /// leave the source as `after` and the flag as it was looked up last. What this means
    /// an implementation says.
    open spec fn opens(
        &self,
        stats: SharedStats,
        cancelled: FlagWatch,
        result: Result<OpenedSource, String>,
        cancelled_after: FlagWatch,
        after: &Self,
    ) -> bool {
        arbitrary()
    }

    fn open(&mut self, stats: Arc<SharedStats>, cancelled: &mut FlagWatch) -> (result: Result<
        OpenedSource,
        String,
    >)
        ensures
            old(self).opens(*stats, *old(cancelled), result, *final(cancelled), &*final(self)),
            final(cancelled).values() == old(cancelled).values(),
            old(cancelled).place() <= final(cancelled).place(),
    ;
}

/// A running input. `stop` must bring the callbacks to rest before it returns.
pub trait InputStream {
    /// The state of the stream, numbered as an implementation says.
    open spec fn state(&self) -> int {
        arbitrary()
    }

    /// The state that it has once it was told to stop, one time.
    open spec fn stopped_state(&self) -> int {
        arbitrary()
    }

    fn stop(&mut self)
        ensures
            final(self).state() == old(self).stopped_state(),
    ;
}

/// An input that was opened and checked, with its stream.
pub struct OpenedSource {
    info: AudioInfo,
    input: Option<CapturedInput>,
    stream: HeldStream,
    running: bool,
}

/// The stream of an input.
pub struct HeldStream {
    pub stream: Box<dyn InputStream>,
}

impl HeldStream {
    pub open spec fn state(self) -> int {
        self.stream.state()
    }

    /// The state once the stream was told to stop, one time.
    pub open spec fn stopped_state(self) -> int {
        self.stream.stopped_state()
    }

    pub fn stop(&mut self)
        ensures
            final(self).state() == old(self).stopped_state(),
    {
        self.stream.stop();
    }
}

/// An input that was not accepted: why, and its stream, which was told to stop.
pub struct RefusedSource {
    pub message: String,
    pub stream: HeldStream,
}

impl OpenedSource {
    pub closed spec fn spec_info(self) -> AudioInfo {
        self.info
    }

    /// The captured input, unless it was taken.
    pub closed spec fn input(self) -> Option<CapturedInput> {
        self.input
    }

    /// This was not told to stop yet.
    pub closed spec fn running(self) -> bool {
        self.running
    }

    /// The stream.
    pub closed spec fn stream(self) -> HeldStream {
        self.stream
    }

    /// What becomes of an input that is told to stop: its stream is told so, one time, unless
    /// it was before.
    pub open spec fn ends(self, after: OpenedSource) -> bool {
        &&& !after.running()
        &&& if self.running() {
            after.stream().state() == self.stream().stopped_state()
        } else {
            after.stream() == self.stream()
        }
        &&& after.spec_info() == self.spec_info()
        &&& after.input() == self.input()
    }

    /// What becomes of an input that comes with the queue `input`, on which `route` is in
    /// force: it is accepted if its description can be analysed and describes that
    /// queue. The stream is told to stop once if it is not accepted, and not at all
    /// otherwise.
    pub open spec fn checks(
        info: AudioInfo,
        input: CapturedInput,
        stream: HeldStream,
        route: ChannelRoute,
        result: Result<OpenedSource, RefusedSource>,
    ) -> bool {
        let described = input.spec_channels() == info.channels && route == info.initial_route;
        match result {
            Ok(source) => {
                &&& info.valid() && described
                &&& source.spec_info() == info
                &&& source.input() == Some(input)
                &&& source.running()
                &&& source.stream() == stream
            },
            Err(refused) => {
                &&& refused.stream.state() == stream.stopped_state()
                &&& {
                    ||| !info.valid() && refused.message@ == info.rejection()
                    ||| info.valid() && !described && refused.message@ == metadata_rejection()
                }
            },
        }
    }

    /// Checks an input against its queue, on which `route` was found in force.
    pub fn with_route(
        info: AudioInfo,
        input: CapturedInput,
        stream: HeldStream,
        route: ChannelRoute,
    ) -> (result: Result<OpenedSource, RefusedSource>)
        ensures
            OpenedSource::checks(info, input, stream, route, result),
    {
        let mut stream = stream;
        if let Err(message) = info.validate() {
            stream.stop();
            return Err(RefusedSource { message, stream });
        }
        if input.channels() != info.channels || route != info.initial_route {
            stream.stop();
            let message = "source metadata does not match its capture channel".to_owned();
            return Err(RefusedSource { message, stream });
        }
        Ok(OpenedSource { info, input: Some(input), stream, running: true })
    }

    /// `new` gives what the check came to; of an input that is not accepted, only why.
    pub open spec fn reports(
        outcome: Result<OpenedSource, RefusedSource>,
        result: Result<OpenedSource, String>,
    ) -> bool {
        match outcome {
            Ok(source) => result == Ok::<OpenedSource, String>(source),
            Err(refused) => result == Err::<OpenedSource, String>(refused.message),
        }
    }

    /// Checks an input against its queue, with the route that is in force now.
    pub fn new(
        info: AudioInfo,
        input: CapturedInput,
        stream: Box<dyn InputStream>,
    ) -> (result: Result<OpenedSource, String>)
        ensures
            exists|
                looked_up: CapturedInput,
                control: RouteControl,
                outcome: Result<OpenedSource, RefusedSource>,
            |
                {
                    &&& input.control().finds(looked_up.control(), control)
                    &&& looked_up.blocks() == input.blocks()
                    &&& #[trigger] OpenedSource::checks(
                        info,
                        looked_up,
                        (HeldStream { stream }),
                        control.route(),
                        outcome,
                    )
                    &&& OpenedSource::reports(outcome, result)
                },
    {
        let mut looked_up = input;
        let control = looked_up.route_control().load();
        let (route, _) = control.load();
        let held = HeldStream { stream };
        let outcome = OpenedSource::with_route(info, looked_up, held, route);
        assert(OpenedSource::checks(info, looked_up, held, control.route(), outcome));
        match outcome {
            Ok(source) => Ok(source),
            Err(refused) => Err(refused.message),
        }
    }

    pub fn info(&self) -> (info: &AudioInfo)
        ensures
            *info == self.spec_info(),
    {
        &self.info
    }

    /// Takes the captured input out, the first time.
    pub(crate) fn take_input(&mut self) -> (input: Option<CapturedInput>)
        ensures
            input == old(self).input(),
            final(self).input() is None,
            final(self).spec_info() == old(self).spec_info(),
            final(self).running() == old(self).running(),
            final(self).stream() == old(self).stream(),
    {
        self.input.take()
    }

    /// Tells the stream to stop, the first time.
    pub fn stop(&mut self)
        ensures
            old(self).ends(*final(self)),
    {
        if self.running {
            self.running = false;
            self.stream.stop();
        }
    }
}

/// An input is valid exactly if it delivers samples, on 1 to 65535 channels, and has the
/// channels of the route it proposes. What is wrong with its format is told before what is
/// wrong with the route.
pub proof fn when_an_input_is_valid(info: AudioInfo)
    ensures
        info.valid() <==> {
            &&& info.sample_rate != 0
            &&& 0 < info.channels < 65536
            &&& info.initial_route.measurement < info.channels
            &&& info.initial_route.reference matches Some(channel) ==> channel < info.channels
        },
        info.sample_rate == 0 || info.channels == 0 || info.channels >= 65536 ==> info.rejection()
            == "input requires a nonzero sample rate and 1..=65535 channels"@,
        info.sample_rate != 0 && 0 < info.channels < 65536 ==> info.rejection()
            == info.initial_route.rejection(info.channels),
{
}

/// An input is accepted exactly if it is valid and describes its own queue; then it is kept
/// as it was offered, with its stream running. Otherwise its stream is stopped.
pub proof fn when_an_input_is_accepted(
    info: AudioInfo,
    input: CapturedInput,
    stream: HeldStream,
    route: ChannelRoute,
    result: Result<OpenedSource, RefusedSource>,
)
    requires
        OpenedSource::checks(info, input, stream, route, result),
    ensures
        result is Ok <==> {
            &&& info.sample_rate != 0
            &&& 0 < info.channels < 65536
            &&& info.initial_route.measurement < info.channels
            &&& info.initial_route.reference matches Some(channel) ==> channel < info.channels
            &&& input.control().spec_channels() == info.channels
            &&& route.measurement == info.initial_route.measurement
            &&& route.reference == info.initial_route.reference
        },
        result matches Ok(source) ==> {
            &&& source.spec_info() == info
            &&& source.input() == Some(input)
            &&& source.stream() == stream
            &&& source.running()
        },
        result matches Err(refused) ==> {
            &&& refused.stream.state() == stream.stopped_state()
            &&& !info.valid() ==> refused.message@ == info.rejection()
            &&& info.valid() ==> refused.message@
                == "source metadata does not match its capture channel"@
        },
{
}

/// Who is told to stop twice passes it on once: after the second time the stream is as it
/// was after the first.
pub proof fn a_second_stop_does_nothing(
    source: OpenedSource,
    once: OpenedSource,
    twice: OpenedSource,
)
    requires
        source.ends(once),
        once.ends(twice),
    ensures
        twice.stream() == once.stream(),
        !once.running() && !twice.running(),
        source.running() ==> once.stream().state() == source.stream().stopped_state(),
        !source.running() ==> once.stream() == source.stream(),
{
}

} // verus!
