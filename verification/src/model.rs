//! Values shared by capture, analysis and display.
//!
//! Sample values and measured quantities are carried as the bit patterns of
//! IEEE-754 single-precision numbers; nothing here computes with them.
use vstd::prelude::*;
use vstd::string::*;

use crate::shared::{
    add_to_counter, amounts_added, counter_adds, counter_looks, counter_place, counter_values,
    new_counter, read_counter, share_counter, value_at, Counter,
};
use crate::text::{decimal, decimal_text};

verus! {

pub const AUDIO_BLOCK_FRAMES: usize = 256;

pub const FFT_SIZE: usize = 2048;

pub const HOP_SIZE: usize = FFT_SIZE / 2;

pub const SPECTRUM_BINS: usize = FFT_SIZE / 2 + 1;

/// Number of frames of one window that the vector scope shows.
pub const VECTOR_SCOPE_POINTS: usize = 256;

/// Bit pattern of -120.0, the level that stands for silence.
pub const SILENCE_DBFS: u32 = 0xc2f0_0000;

/// One sample of each analysed channel, taken at the same instant.
#[derive(Clone, Copy, Debug, PartialEq, Eq, Structural)]
pub struct StereoFrame {
    pub reference: u32,
    pub measurement: u32,
}

/// The frame whose two samples are zero.
pub open spec fn silent_frame() -> StereoFrame {
    StereoFrame { reference: 0, measurement: 0 }
}

impl Default for StereoFrame {
    fn default() -> (frame: StereoFrame)
        ensures
            frame == silent_frame(),
    {
        StereoFrame { reference: 0, measurement: 0 }
    }
}

/// A run of consecutive frames, all captured under one channel route.
#[derive(Debug)]
pub struct AudioBlock {
    pub start_frame: u64,
    pub valid_frames: usize,
    pub route_generation: u64,
    pub has_reference: bool,
    pub frames: [StereoFrame; AUDIO_BLOCK_FRAMES],
}

impl AudioBlock {
    /// The count of valid frames does not exceed the room for them.
    pub open spec fn wf(&self) -> bool {
        self.valid_frames <= AUDIO_BLOCK_FRAMES
    }

    /// The valid frames, in the order of capture.
    pub open spec fn content(&self) -> Seq<StereoFrame> {
        self.frames@.take(self.valid_frames as int)
    }

    /// The block without frames that every capture starts from.
    pub open spec fn is_blank(&self) -> bool {
        &&& self.start_frame == 0
        &&& self.valid_frames == 0
        &&& self.route_generation == 0
        &&& !self.has_reference
        &&& forall|i: int| 0 <= i < AUDIO_BLOCK_FRAMES ==> #[trigger] self.frames@[i] == silent_frame()
    }

    pub fn blank() -> (block: AudioBlock)
        ensures
            block.is_blank(),
    {
        AudioBlock {
            start_frame: 0,
            valid_frames: 0,
            route_generation: 0,
            has_reference: false,
            frames: [StereoFrame { reference: 0, measurement: 0 };AUDIO_BLOCK_FRAMES],
        }
    }

    /// Forgets the captured frames.
    pub fn clear(&mut self)
        ensures
            *final(self) == (AudioBlock { valid_frames: 0, ..*old(self) }),
            final(self).wf(),
            final(self).content() == Seq::<StereoFrame>::empty(),
    {
        self.valid_frames = 0;
        assert(self.content() =~= Seq::<StereoFrame>::empty());
    }
}

impl Default for AudioBlock {
    fn default() -> (block: AudioBlock)
        ensures
            block.is_blank(),
    {
        AudioBlock::blank()
    }
}

/// Which input channels are analysed: the measured one, and the one that it is
/// compared with, if any. Channels are numbered from zero.
#[derive(Clone, Copy, Debug, PartialEq, Eq, Structural)]
pub struct ChannelRoute {
    pub reference: Option<usize>,
    pub measurement: usize,
}

/// Message for a measurement channel that the input does not have.
pub open spec fn measurement_out_of_range(measurement: usize, channels: usize) -> Seq<char> {
    "Measurement channel "@ + decimal((measurement + 1) as nat) + " is outside the "@ + decimal(
        channels as nat,
    ) + " available channels"@
}

/// Message for a reference channel that the input does not have.
pub open spec fn reference_out_of_range(channels: usize) -> Seq<char> {
    "Reference channel is outside the "@ + decimal(channels as nat) + " available channels"@
}

impl ChannelRoute {
    pub open spec fn measurement_fits(self, channels: usize) -> bool {
        self.measurement < channels
    }

    pub open spec fn reference_fits(self, channels: usize) -> bool {
        self.reference matches Some(channel) ==> channel < channels
    }

    /// Both channels exist on an input with `channels` channels.
    pub open spec fn fits(self, channels: usize) -> bool {
        self.measurement_fits(channels) && self.reference_fits(channels)
    }

    /// The route survives being packed into one word.
    pub open spec fn packable(self) -> bool {
        &&& self.measurement <= 0xffff
        &&& self.reference matches Some(channel) ==> channel < 0xffff
    }

    /// What the message says when the route does not fit.
    pub open spec fn rejection(self, channels: usize) -> Seq<char> {
        if !self.measurement_fits(channels) {
            measurement_out_of_range(self.measurement, channels)
        } else {
            reference_out_of_range(channels)
        }
    }

    /// The second channel against the first one, or the only channel by itself.
    pub open spec fn spec_default_for_channels(channels: usize) -> ChannelRoute {
        if channels >= 2 {
            ChannelRoute { reference: Some(0), measurement: 1 }
        } else {
            ChannelRoute { reference: None, measurement: 0 }
        }
    }

    pub fn default_for_channels(channels: usize) -> (route: ChannelRoute)
        ensures
            route == ChannelRoute::spec_default_for_channels(channels),
    {
        if channels >= 2 {
            ChannelRoute { reference: Some(0), measurement: 1 }
        } else {
            ChannelRoute { reference: None, measurement: 0 }
        }
    }

    /// Hands the route back if an input with `channels` channels has both of its
    /// channels, and says which one is missing otherwise. A missing measurement
    /// channel is reported first.
    pub fn validate(self, channels: usize) -> (result: Result<ChannelRoute, String>)
        ensures
            result is Ok <==> self.fits(channels),
            result matches Ok(route) ==> route == self,
            result matches Err(message) ==> message@ == self.rejection(channels),
    {
        if self.measurement >= channels {
            let mut message = "Measurement channel ".to_owned();
            let number = decimal_text(self.measurement as u128 + 1);
            message.append(number.as_str());
            message.append(" is outside the ");
            let available = decimal_text(channels as u128);
            message.append(available.as_str());
            message.append(" available channels");
            return Err(message);
        }
        if let Some(channel) = self.reference {
            if channel >= channels {
                let mut message = "Reference channel is outside the ".to_owned();
                let available = decimal_text(channels as u128);
                message.append(available.as_str());
                message.append(" available channels");
                return Err(message);
            }
        }
        Ok(self)
    }
}

/// Code of the reference channel inside a packed word: zero for none, else one
/// more than the channel, held to sixteen bits.
pub open spec fn reference_code(reference: Option<usize>) -> int {
    match reference {
        None => 0,
        Some(channel) => if channel % 0x1_0000 == 0xffff {
            0xffff
        } else {
            channel % 0x1_0000 + 1
        },
    }
}

/// One word for a route and its generation: generation, reference code and
/// measurement channel, from the high end down, in 32, 16 and 16 bits.
pub open spec fn packed_word(route: ChannelRoute, generation: u64) -> int {
    (generation % 0x1_0000_0000) * 0x1_0000_0000 + reference_code(route.reference) * 0x1_0000
        + route.measurement % 0x1_0000
}

/// The route that a word holds.
pub open spec fn word_route(word: u64) -> ChannelRoute {
    let code = word / 0x1_0000 % 0x1_0000;
    ChannelRoute {
        reference: if code == 0 {
            None
        } else {
            Some((code - 1) as usize)
        },
        measurement: (word % 0x1_0000) as usize,
    }
}

/// The generation that a word holds.
pub open spec fn word_generation(word: u64) -> u64 {
    word / 0x1_0000_0000
}

/// Generation that follows `generation`; it returns to zero after 32 bits.
pub open spec fn next_generation(generation: u64) -> u64 {
    if generation >= 0xffff_ffff {
        0
    } else {
        (generation + 1) as u64
    }
}

/// Packs a route and a generation into one word, so that both change together.
pub fn pack_route(route: ChannelRoute, generation: u64) -> (word: u64)
    ensures
        word == packed_word(route, generation),
{
    let whole: usize = route.measurement;
    let measurement: u64 = whole as u16 as u64;
    let reference: u64 = match route.reference {
        None => 0,
        Some(channel) => {
            let low: u16 = channel as u16;
            assert(channel as u16 == channel % 0x1_0000) by (bit_vector);
            low.saturating_add(1) as u64
        },
    };
    assert(whole as u16 == whole % 0x1_0000) by (bit_vector);
    assert(generation as u32 == generation % 0x1_0000_0000) by (bit_vector);
    let high: u64 = generation as u32 as u64;
    assert((high << 32) | (reference << 16) | measurement == high * 0x1_0000_0000 + reference
        * 0x1_0000 + measurement) by (bit_vector)
        requires
            high < 0x1_0000_0000,
            reference < 0x1_0000,
            measurement < 0x1_0000,
    ;
    (high << 32) | (reference << 16) | measurement
}

/// Takes a word apart again.
pub fn unpack_route(word: u64) -> (parts: (ChannelRoute, u64))
    ensures
        parts.0 == word_route(word),
        parts.1 == word_generation(word),
        parts.0.packable(),
        parts.1 <= 0xffff_ffff,
{
    assert(word & 0xffff == word % 0x1_0000) by (bit_vector);
    assert((word >> 16) & 0xffff == word / 0x1_0000 % 0x1_0000) by (bit_vector);
    assert(word >> 32 == word / 0x1_0000_0000) by (bit_vector);
    let measurement: usize = (word & 0xffff) as usize;
    let code: usize = ((word >> 16) & 0xffff) as usize;
    let generation: u64 = word >> 32;
    let reference: Option<usize> = if code != 0 {
        Some(code - 1)
    } else {
        None
    };
    (ChannelRoute { reference, measurement }, generation)
}

/// A packed word gives back the route and the generation that went into it.
pub proof fn packed_word_splits(route: ChannelRoute, generation: u64, word: u64)
    requires
        word == packed_word(route, generation),
    ensures
        word_generation(word) == generation % 0x1_0000_0000,
        route.packable() ==> word_route(word) == route,
{
    assert(word / 0x1_0000 == (generation % 0x1_0000_0000) * 0x1_0000 + reference_code(
        route.reference,
    ));
}

/// A route put in force is read back whole, under another generation than the route
/// it replaced. So a result computed under the old route can be told from one
/// computed under the new route.
pub proof fn stored_route_is_read_back(before: RouteControl, after: RouteControl, route: ChannelRoute)
    requires
        route.packable(),
        after.word() == packed_word(route, next_generation(before.generation())),
    ensures
        after.route() == route,
        after.generation() == next_generation(before.generation()),
        after.generation() != before.generation(),
{
    packed_word_splits(route, next_generation(before.generation()), after.word());
}

/// A route that fits an input of at most 65535 channels can be packed.
pub proof fn fitting_route_is_packable(route: ChannelRoute, channels: usize)
    requires
        route.fits(channels),
        channels <= 0xffff,
    ensures
        route.packable(),
{
}

/// The default route of an input fits it.
pub proof fn default_route_fits(channels: usize)
    requires
        channels > 0,
    ensures
        ChannelRoute::spec_default_for_channels(channels).fits(channels),
{
}

/// The channel route in force and its generation, held in one word so that a
/// change of route is never seen in part.
#[derive(Clone, Copy, Debug, PartialEq, Eq, Structural)]
pub struct RouteControl {
    packed_route: u64,
}

impl RouteControl {
    /// The word that holds the route.
    pub closed spec fn word(self) -> u64 {
        self.packed_route
    }

    /// The route in force.
    pub open spec fn route(self) -> ChannelRoute {
        word_route(self.word())
    }

    /// How many times the route was replaced, modulo 2 to the 32.
    pub open spec fn generation(self) -> u64 {
        word_generation(self.word())
    }

    /// Puts `route` in force as generation zero.
    pub fn new(route: ChannelRoute) -> (control: RouteControl)
        ensures
            control.word() == packed_word(route, 0),
            control.generation() == 0,
            route.packable() ==> control.route() == route,
    {
        let packed_route: u64 = pack_route(route, 0);
        assert(packed_route / 0x1_0000 == reference_code(route.reference));
        RouteControl { packed_route }
    }

    /// The control that a word stands for.
    pub fn from_word(word: u64) -> (control: RouteControl)
        ensures
            control.word() == word,
    {
        RouteControl { packed_route: word }
    }

    /// The word that stands for the control.
    pub fn into_word(self) -> (word: u64)
        ensures
            word == self.word(),
    {
        self.packed_route
    }

    /// The route in force and its generation.
    pub fn load(&self) -> (parts: (ChannelRoute, u64))
        ensures
            parts == (self.route(), self.generation()),
            parts.0.packable(),
            parts.1 <= 0xffff_ffff,
    {
        unpack_route(self.packed_route)
    }

    /// Puts `route` in force under the next generation.
    pub fn store(&mut self, route: ChannelRoute)
        ensures
            final(self).word() == packed_word(route, next_generation(old(self).generation())),
            final(self).generation() == next_generation(old(self).generation()),
            route.packable() ==> final(self).route() == route,
    {
        let (_, generation) = unpack_route(self.packed_route);
        self.packed_route = pack_route(route, generation.wrapping_add(1));
        proof {
            packed_word_splits(route, next_generation(generation), self.packed_route);
        }
    }
}

/// The word that `RouteControl::store` leaves when it finds `word`.
pub open spec fn republished_word(word: u64, route: ChannelRoute) -> u64 {
    packed_word(route, next_generation(word_generation(word))) as u64
}

/// Computes the word that `RouteControl::store` leaves when it finds `word`.
pub(crate) fn republished(word: u64, route: ChannelRoute) -> (next: Option<u64>)
    ensures
        next == Some(republished_word(word, route)),
{
    let mut control = RouteControl::from_word(word);
    control.store(route);
    Some(control.into_word())
}

/// Totals of one session, or what one step adds to them.
#[derive(Clone, Copy, Debug, PartialEq, Eq, Structural)]
pub struct RuntimeStats {
    pub received_audio_frames: u64,
    pub dropped_audio_frames: u64,
    pub stream_errors: u64,
    pub discontinuities: u64,
    pub dropped_results: u64,
}

/// The counts of a session in which nothing has happened.
pub open spec fn no_stats() -> RuntimeStats {
    RuntimeStats {
        received_audio_frames: 0,
        dropped_audio_frames: 0,
        stream_errors: 0,
        discontinuities: 0,
        dropped_results: 0,
    }
}

impl Default for RuntimeStats {
    fn default() -> (stats: RuntimeStats)
        ensures
            stats == no_stats(),
    {
        RuntimeStats {
            received_audio_frames: 0,
            dropped_audio_frames: 0,
            stream_errors: 0,
            discontinuities: 0,
            dropped_results: 0,
        }
    }
}

/// The totals of one session. Each owner that adds to them has an end of its own, and
/// anyone can read them.
pub struct SharedStats {
    received_audio_frames: Counter,
    dropped_audio_frames: Counter,
    stream_errors: Counter,
    discontinuities: Counter,
    dropped_results: Counter,
}

impl Default for SharedStats {
    fn default() -> (stats: SharedStats)
        ensures
            stats.starts_at_zero(),
    {
        SharedStats {
            received_audio_frames: new_counter(),
            dropped_audio_frames: new_counter(),
            stream_errors: new_counter(),
            discontinuities: new_counter(),
            dropped_results: new_counter(),
        }
    }
}

/// The first value of the counter is zero.
pub open spec fn counts_from_zero(values: Seq<u64>) -> bool {
    values.len() > 0 && values[0] == 0
}

impl SharedStats {
    /// All the values of the total of received frames, in order.
    pub closed spec fn received_values(self) -> Seq<u64> {
        counter_values(self.received_audio_frames)
    }

    /// All the values of the total of dropped frames, in order.
    pub closed spec fn dropped_values(self) -> Seq<u64> {
        counter_values(self.dropped_audio_frames)
    }

    /// All the values of the total of stream errors, in order.
    pub closed spec fn error_values(self) -> Seq<u64> {
        counter_values(self.stream_errors)
    }

    /// All the values of the total of discontinuities, in order.
    pub closed spec fn discontinuity_values(self) -> Seq<u64> {
        counter_values(self.discontinuities)
    }

    /// All the values of the total of dropped results, in order.
    pub closed spec fn dropped_result_values(self) -> Seq<u64> {
        counter_values(self.dropped_results)
    }

    /// The first value of each total is zero.
    pub open spec fn starts_at_zero(self) -> bool {
        &&& counts_from_zero(self.received_values())
        &&& counts_from_zero(self.dropped_values())
        &&& counts_from_zero(self.error_values())
        &&& counts_from_zero(self.discontinuity_values())
        &&& counts_from_zero(self.dropped_result_values())
    }

    /// An end for someone who reads the totals.
    pub fn view(&self) -> (view: StatsView)
        ensures
            view.reads(*self),
    {
        StatsView {
            received: share_counter(&self.received_audio_frames),
            dropped: share_counter(&self.dropped_audio_frames),
            errors: share_counter(&self.stream_errors),
            discontinuities: share_counter(&self.discontinuities),
            dropped_results: share_counter(&self.dropped_results),
        }
    }

    /// An end for the capture callback, which counts frames and errors.
    pub fn capture_end(&self) -> (end: CaptureCounts)
        ensures
            end.counts_in(*self),
            end.is_fresh(),
    {
        CaptureCounts {
            received: share_counter(&self.received_audio_frames),
            dropped: share_counter(&self.dropped_audio_frames),
            errors: share_counter(&self.stream_errors),
        }
    }

    /// An end for the analysis, which counts discontinuities and dropped results.
    pub fn analysis_end(&self) -> (end: AnalysisCounts)
        ensures
            end.counts_in(*self),
            end.is_fresh(),
    {
        AnalysisCounts {
            discontinuities: share_counter(&self.discontinuities),
            dropped: share_counter(&self.dropped_results),
        }
    }

    /// An end for the driver of a device, which counts errors.
    pub fn error_end(&self) -> (end: ErrorCount)
        ensures
            end.values() == self.error_values(),
            end.added() == Seq::<u64>::empty(),
    {
        ErrorCount { errors: share_counter(&self.stream_errors) }
    }
}

/// The totals, as one reader sees them: they never go back.
pub struct StatsView {
    received: Counter,
    dropped: Counter,
    errors: Counter,
    discontinuities: Counter,
    dropped_results: Counter,
}

impl StatsView {
    pub closed spec fn received(self) -> Counter {
        self.received
    }

    pub closed spec fn dropped(self) -> Counter {
        self.dropped
    }

    pub closed spec fn errors(self) -> Counter {
        self.errors
    }

    pub closed spec fn discontinuities(self) -> Counter {
        self.discontinuities
    }

    pub closed spec fn dropped_results(self) -> Counter {
        self.dropped_results
    }

    /// It reads these totals.
    pub open spec fn reads(self, stats: SharedStats) -> bool {
        &&& counter_values(self.received()) == stats.received_values()
        &&& counter_values(self.dropped()) == stats.dropped_values()
        &&& counter_values(self.errors()) == stats.error_values()
        &&& counter_values(self.discontinuities()) == stats.discontinuity_values()
        &&& counter_values(self.dropped_results()) == stats.dropped_result_values()
    }

    /// Reading gives these totals, none of which is older than what was read before.
    pub open spec fn shows(self, after: StatsView, totals: RuntimeStats) -> bool {
        &&& counter_shows(self.received(), after.received(), totals.received_audio_frames)
        &&& counter_shows(self.dropped(), after.dropped(), totals.dropped_audio_frames)
        &&& counter_shows(self.errors(), after.errors(), totals.stream_errors)
        &&& counter_shows(
            self.discontinuities(),
            after.discontinuities(),
            totals.discontinuities,
        )
        &&& counter_shows(
            self.dropped_results(),
            after.dropped_results(),
            totals.dropped_results,
        )
    }

    /// The totals as they stand now.
    pub fn totals(&mut self) -> (totals: RuntimeStats)
        ensures
            old(self).shows(*final(self), totals),
    {
        RuntimeStats {
            received_audio_frames: read_counter(&mut self.received),
            dropped_audio_frames: read_counter(&mut self.dropped),
            stream_errors: read_counter(&mut self.errors),
            discontinuities: read_counter(&mut self.discontinuities),
            dropped_results: read_counter(&mut self.dropped_results),
        }
    }
}

/// Reading a counter, once, gives `value`, at a place that is not before those come across so far.
pub open spec fn counter_shows(before: Counter, after: Counter, value: u64) -> bool {
    &&& counter_values(after) == counter_values(before)
    &&& counter_looks(after) == counter_looks(before) + 1
    &&& counter_place(before) <= counter_place(after) < counter_values(before).len()
    &&& value == value_at(counter_values(before), counter_place(after))
}

/// What the capture callback counts.
pub struct CaptureCounts {
    received: Counter,
    dropped: Counter,
    errors: Counter,
}

impl CaptureCounts {
    pub closed spec fn received(self) -> Counter {
        self.received
    }

    pub closed spec fn dropped(self) -> Counter {
        self.dropped
    }

    pub closed spec fn errors(self) -> Counter {
        self.errors
    }

    /// It counts towards these totals.
    pub open spec fn counts_in(self, stats: SharedStats) -> bool {
        &&& counter_values(self.received()) == stats.received_values()
        &&& counter_values(self.dropped()) == stats.dropped_values()
        &&& counter_values(self.errors()) == stats.error_values()
    }

    /// Nothing was counted through it.
    pub open spec fn is_fresh(self) -> bool {
        &&& amounts_added(self.received()) == Seq::<u64>::empty()
        &&& amounts_added(self.dropped()) == Seq::<u64>::empty()
        &&& amounts_added(self.errors()) == Seq::<u64>::empty()
    }

    /// What one step counted is added, once.
    pub open spec fn adds(self, after: CaptureCounts, step: RuntimeStats) -> bool {
        &&& counter_adds(self.received(), after.received(), step.received_audio_frames)
        &&& counter_adds(self.dropped(), after.dropped(), step.dropped_audio_frames)
        &&& counter_adds(self.errors(), after.errors(), step.stream_errors)
    }

    /// Adds what one step counted; each total wraps around.
    pub fn add(&mut self, step: &RuntimeStats)
        ensures
            old(self).adds(*final(self), *step),
    {
        add_to_counter(&mut self.received, step.received_audio_frames);
        add_to_counter(&mut self.dropped, step.dropped_audio_frames);
        add_to_counter(&mut self.errors, step.stream_errors);
    }
}

/// What the analysis counts.
pub struct AnalysisCounts {
    discontinuities: Counter,
    dropped: Counter,
}

impl AnalysisCounts {
    pub closed spec fn discontinuities(self) -> Counter {
        self.discontinuities
    }

    pub closed spec fn dropped(self) -> Counter {
        self.dropped
    }

    /// It counts towards these totals.
    pub open spec fn counts_in(self, stats: SharedStats) -> bool {
        &&& counter_values(self.discontinuities()) == stats.discontinuity_values()
        &&& counter_values(self.dropped()) == stats.dropped_result_values()
    }

    /// Nothing was counted through it.
    pub open spec fn is_fresh(self) -> bool {
        &&& amounts_added(self.discontinuities()) == Seq::<u64>::empty()
        &&& amounts_added(self.dropped()) == Seq::<u64>::empty()
    }

    /// What one step counted is added, once.
    pub open spec fn adds(self, after: AnalysisCounts, step: RuntimeStats) -> bool {
        &&& counter_adds(self.discontinuities(), after.discontinuities(), step.discontinuities)
        &&& counter_adds(self.dropped(), after.dropped(), step.dropped_results)
    }

    /// Adds what one step counted; each total wraps around.
    pub fn add(&mut self, step: &RuntimeStats)
        ensures
            old(self).adds(*final(self), *step),
    {
        add_to_counter(&mut self.discontinuities, step.discontinuities);
        add_to_counter(&mut self.dropped, step.dropped_results);
    }
}

/// What the driver of a device counts.
pub struct ErrorCount {
    errors: Counter,
}

impl ErrorCount {
    /// All the values of the total, in order.
    pub closed spec fn values(self) -> Seq<u64> {
        counter_values(self.errors)
    }

    /// What was added through it.
    pub closed spec fn added(self) -> Seq<u64> {
        amounts_added(self.errors)
    }

    /// Counts one error.
    pub fn count(&mut self)
        ensures
            final(self).values() == old(self).values(),
            final(self).added() == old(self).added().push(1),
    {
        add_to_counter(&mut self.errors, 1);
    }
}

/// Peak and RMS level of one channel over one window.
#[derive(Clone, Copy, Debug, PartialEq, Eq, Structural)]
pub struct SignalLevel {
    pub peak_dbfs: u32,
    pub rms_dbfs: u32,
}

/// The level of a channel that carries nothing.
pub open spec fn silent_level() -> SignalLevel {
    SignalLevel { peak_dbfs: SILENCE_DBFS, rms_dbfs: SILENCE_DBFS }
}

impl Default for SignalLevel {
    fn default() -> (level: SignalLevel)
        ensures
            level == silent_level(),
    {
        SignalLevel { peak_dbfs: SILENCE_DBFS, rms_dbfs: SILENCE_DBFS }
    }
}

/// What is known of one frequency bin.
#[derive(Clone, Copy, Debug, PartialEq, Eq, Structural)]
pub struct BinMetrics {
    pub reference_dbfs: u32,
    pub measurement_dbfs: u32,
    pub transfer_db: u32,
    pub phase_degrees: u32,
    pub coherence: u32,
}

/// The bin whose fields are all zero.
pub open spec fn zero_bin() -> BinMetrics {
    BinMetrics {
        reference_dbfs: 0,
        measurement_dbfs: 0,
        transfer_db: 0,
        phase_degrees: 0,
        coherence: 0,
    }
}

impl Default for BinMetrics {
    fn default() -> (bin: BinMetrics)
        ensures
            bin == zero_bin(),
    {
        BinMetrics {
            reference_dbfs: 0,
            measurement_dbfs: 0,
            transfer_db: 0,
            phase_degrees: 0,
            coherence: 0,
        }
    }
}

/// Everything that one analysis window says about the input.
#[derive(Debug)]
pub struct AnalysisSnapshot {
    pub sequence: u64,
    pub window_start_frame: u64,
    pub sample_rate: u32,
    pub route_generation: u64,
    pub has_reference: bool,
    pub measurement_level: SignalLevel,
    pub reference_level: Option<SignalLevel>,
    pub phase_correlation: Option<u32>,
    pub scope_points: [StereoFrame; VECTOR_SCOPE_POINTS],
    pub scope_len: usize,
    pub bins: [BinMetrics; SPECTRUM_BINS],
}

impl AnalysisSnapshot {
    /// The scope holds no more points than there is room for.
    pub open spec fn wf(&self) -> bool {
        self.scope_len <= VECTOR_SCOPE_POINTS
    }
}

impl Default for AnalysisSnapshot {
    fn default() -> (snapshot: AnalysisSnapshot)
        ensures
            snapshot.sequence == 0,
            snapshot.window_start_frame == 0,
            snapshot.sample_rate == 0,
            snapshot.route_generation == 0,
            !snapshot.has_reference,
            snapshot.measurement_level == silent_level(),
            snapshot.reference_level is None,
            snapshot.phase_correlation is None,
            snapshot.scope_len == 0,
            forall|i: int|
                0 <= i < VECTOR_SCOPE_POINTS ==> #[trigger] snapshot.scope_points@[i]
                    == silent_frame(),
            forall|i: int|
                0 <= i < SPECTRUM_BINS ==> #[trigger] snapshot.bins@[i] == zero_bin(),
    {
        AnalysisSnapshot {
            sequence: 0,
            window_start_frame: 0,
            sample_rate: 0,
            route_generation: 0,
            has_reference: false,
            measurement_level: SignalLevel::default(),
            reference_level: None,
            phase_correlation: None,
            scope_points: [StereoFrame { reference: 0, measurement: 0 };VECTOR_SCOPE_POINTS],
            scope_len: 0,
            bins: [BinMetrics::default();SPECTRUM_BINS],
        }
    }
}

/// A route fits exactly if the input has its channels, which are numbered from zero.
pub proof fn a_route_fits_if_its_channels_are_there(route: ChannelRoute, channels: usize)
    ensures
        route.fits(channels) <==> {
            &&& route.measurement < channels
            &&& forall|channel: usize|
                route.reference == Some(channel) ==> #[trigger] exists_on(channel, channels)
        },
{
    if let Some(channel) = route.reference {
        assert(exists_on(channel, channels) == (channel < channels));
    }
}

/// An input with `channels` channels has this one.
pub open spec fn exists_on(channel: usize, channels: usize) -> bool {
    channel < channels
}

/// The default route compares the second channel with the first one wherever there are two,
/// and measures the only one by itself otherwise. With more channels it is the same.
pub proof fn the_default_route_takes_the_first_channels(channels: usize, more: usize)
    ensures
        channels >= 2 ==> {
            let route = ChannelRoute::spec_default_for_channels(channels);
            route.reference == Some(0usize) && route.measurement == 1
        },
        channels < 2 ==> {
            let route = ChannelRoute::spec_default_for_channels(channels);
            route.reference is None && route.measurement == 0
        },
        2 <= channels <= more ==> ChannelRoute::spec_default_for_channels(channels)
            == ChannelRoute::spec_default_for_channels(more),
{
}

/// Why a route is refused names the channel that is missing, counted from one, and how many
/// there are. A missing measurement channel comes first.
pub proof fn a_refusal_names_the_channels(route: ChannelRoute, channels: usize)
    requires
        route.measurement < usize::MAX,
    ensures
        route.measurement >= channels ==> route.rejection(channels) == "Measurement channel "@
            + decimal((route.measurement + 1) as nat) + " is outside the "@ + decimal(
            channels as nat,
        ) + " available channels"@,
        route.measurement < channels ==> route.rejection(channels)
            == "Reference channel is outside the "@ + decimal(channels as nat)
            + " available channels"@,
{
}

/// Two words that hold different routes or generations differ, so neither is mistaken for
/// the other.
pub proof fn words_tell_routes_apart(
    route: ChannelRoute,
    generation: u64,
    other: ChannelRoute,
    other_generation: u64,
    word: u64,
)
    requires
        route.measurement <= 0xffff && other.measurement <= 0xffff,
        route.reference matches Some(channel) ==> channel <= 0xfffe,
        other.reference matches Some(channel) ==> channel <= 0xfffe,
        generation <= 0xffff_ffff && other_generation <= 0xffff_ffff,
        word == packed_word(route, generation),
        word == packed_word(other, other_generation),
    ensures
        route == other,
        generation == other_generation,
        word_route(word) == route,
        word_generation(word) == generation,
{
    packed_word_splits(route, generation, word);
    packed_word_splits(other, other_generation, word);
}

/// Generations follow one another by one, and start again at zero after 32 bits.
pub proof fn generations_follow_by_one(generation: u64)
    requires
        generation <= 0xffff_ffff,
    ensures
        next_generation(generation) == (generation + 1) % 0x1_0000_0000,
{
}

/// The content of a block is its first frames, as many as it says are valid.
pub proof fn the_content_is_the_valid_frames(block: AudioBlock, i: int)
    requires
        block.wf(),
        0 <= i < block.valid_frames,
    ensures
        block.content().len() == block.valid_frames,
        block.content()[i] == block.frames@[i],
{
}

/// What the capture callback counts is what a reader of the same totals reads: each amount is
/// added to the total of its name, once, and what is read as a total is one of the values of
/// that total, none older than what was read before.
pub proof fn what_capture_counts_is_what_is_read(
    stats: SharedStats,
    end: CaptureCounts,
    step: RuntimeStats,
    end_after: CaptureCounts,
    view: StatsView,
    totals: RuntimeStats,
    view_after: StatsView,
)
    requires
        end.counts_in(stats),
        end.adds(end_after, step),
        view.reads(stats),
        view.shows(view_after, totals),
    ensures
        counter_values(end.received()) == counter_values(view.received()),
        counter_values(end.dropped()) == counter_values(view.dropped()),
        counter_values(end.errors()) == counter_values(view.errors()),
        amounts_added(end_after.received()) == amounts_added(end.received()).push(
            step.received_audio_frames,
        ),
        amounts_added(end_after.dropped()) == amounts_added(end.dropped()).push(
            step.dropped_audio_frames,
        ),
        amounts_added(end_after.errors()) == amounts_added(end.errors()).push(step.stream_errors),
        end_after.counts_in(stats) && view_after.reads(stats),
        counter_values(view.received())[counter_place(view_after.received()) as int]
            == totals.received_audio_frames,
        counter_values(view.dropped())[counter_place(view_after.dropped()) as int]
            == totals.dropped_audio_frames,
        counter_values(view.errors())[counter_place(view_after.errors()) as int]
            == totals.stream_errors,
        counter_place(view.received()) <= counter_place(view_after.received()),
        counter_place(view.dropped()) <= counter_place(view_after.dropped()),
        counter_place(view.errors()) <= counter_place(view_after.errors()),
{
}

/// The same of what the analysis counts: discontinuities as discontinuities, and dropped
/// results as such.
pub proof fn what_the_analysis_counts_is_what_is_read(
    stats: SharedStats,
    end: AnalysisCounts,
    step: RuntimeStats,
    end_after: AnalysisCounts,
    view: StatsView,
    totals: RuntimeStats,
    view_after: StatsView,
)
    requires
        end.counts_in(stats),
        end.adds(end_after, step),
        view.reads(stats),
        view.shows(view_after, totals),
    ensures
        counter_values(end.discontinuities()) == counter_values(view.discontinuities()),
        counter_values(end.dropped()) == counter_values(view.dropped_results()),
        amounts_added(end_after.discontinuities()) == amounts_added(end.discontinuities()).push(
            step.discontinuities,
        ),
        amounts_added(end_after.dropped()) == amounts_added(end.dropped()).push(
            step.dropped_results,
        ),
        end_after.counts_in(stats),
        counter_values(view.discontinuities())[counter_place(view_after.discontinuities()) as int]
            == totals.discontinuities,
        counter_values(view.dropped_results())[counter_place(view_after.dropped_results()) as int]
            == totals.dropped_results,
        counter_place(view.discontinuities()) <= counter_place(view_after.discontinuities()),
        counter_place(view.dropped_results()) <= counter_place(view_after.dropped_results()),
{
}

/// The totals of a session start at zero: the first value of each of them is, and nothing was
/// added through a new end.
pub proof fn the_totals_start_at_zero(stats: SharedStats, view: StatsView, end: CaptureCounts)
    requires
        stats.starts_at_zero(),
        view.reads(stats),
        end.is_fresh(),
    ensures
        counter_values(view.received())[0] == 0,
        counter_values(view.dropped())[0] == 0,
        counter_values(view.errors())[0] == 0,
        counter_values(view.discontinuities())[0] == 0,
        counter_values(view.dropped_results())[0] == 0,
        amounts_added(end.received()).len() == 0,
        amounts_added(end.dropped()).len() == 0,
        amounts_added(end.errors()).len() == 0,
{
}

} // verus!
