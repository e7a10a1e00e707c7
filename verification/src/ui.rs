//! What the display shows, apart from drawing it.
//!
//! Levels and times are the bit patterns of floating-point numbers.
use vstd::prelude::*;
use vstd::string::*;

use crate::controller::{start_pending, AnalyzerController, ConnectionState};
use crate::level::{does_reach, is_nan, later, rank, reaches};
use crate::model::{
    silent_level, AnalysisSnapshot, BinMetrics, ChannelRoute, SignalLevel, StereoFrame, FFT_SIZE,
    SILENCE_DBFS, SPECTRUM_BINS,
};
use crate::queue::{request_slots, requests_gone, requests_offered, requests_sent};
use crate::text::{decimal, decimal_text};
use crate::ui::state::{
    a_point_shows_its_result, the_meter_does_not_fall_too_early, AnalysisView, DisplayHold,
    HistoryBuffer, HistoryPoint, PeakHold, LOWEST_FREQUENCY,
};

pub mod state;
pub mod widgets;

verus! {

/// A bin of the plot, with its values.
#[derive(Clone, Copy, Debug, PartialEq, Eq, Structural)]
pub struct PlottedBin {
    pub bin: usize,
    pub metrics: BinMetrics,
}

/// The bins below `count` whose frequency is not too low to be shown. The constant part
/// of the signal is never shown.
pub open spec fn plotted_below(
    bins: Seq<BinMetrics>,
    sample_rate: u32,
    count: int,
) -> Seq<PlottedBin>
    decreases count,
{
    if count <= 1 {
        Seq::empty()
    } else {
        let bin = count - 1;
        let below = plotted_below(bins, sample_rate, bin);
        if bin * sample_rate >= LOWEST_FREQUENCY * FFT_SIZE {
            below.push(PlottedBin { bin: bin as usize, metrics: bins[bin] })
        } else {
            below
        }
    }
}

/// The bins that the plot shows.
pub fn plotted_bins(snapshot: &AnalysisSnapshot) -> (plotted: Vec<PlottedBin>)
    ensures
        plotted@ == plotted_below(snapshot.bins@, snapshot.sample_rate, SPECTRUM_BINS as int),
{
    let mut plotted: Vec<PlottedBin> = Vec::new();
    let rate: u64 = snapshot.sample_rate as u64;
    for bin in 1..SPECTRUM_BINS
        invariant
            rate == snapshot.sample_rate,
            plotted@ == plotted_below(snapshot.bins@, snapshot.sample_rate, bin as int),
    {
        assert(bin * rate <= 2048 * 0xffff_ffff) by (nonlinear_arith)
            requires
                bin <= 2048,
                rate <= 0xffff_ffff,
        ;
        if bin as u64 * rate >= LOWEST_FREQUENCY * FFT_SIZE as u64 {
            plotted.push(PlottedBin { bin, metrics: snapshot.bins[bin] });
        }
    }
    plotted
}

/// What a meter needs to know besides the peak: until when a new peak would be held, and
/// what the level on the meter would have fallen to.
#[derive(Clone, Copy, Debug, PartialEq, Eq, Structural)]
pub struct MeterFall {
    pub deadline: u64,
    pub released: u32,
}

/// What the display shows of the input.
pub struct DisplayState {
    pub display_connection: ConnectionState,
    pub route: ChannelRoute,
    pub route_error: Option<String>,
    pub plotted: Vec<PlottedBin>,
    pub plotted_rate: u32,
    pub scope_points: Vec<StereoFrame>,
    pub measurement_level: SignalLevel,
    pub reference_level: Option<SignalLevel>,
    pub phase_correlation: Option<u32>,
    pub measurement_peak_hold: PeakHold,
    pub reference_peak_hold: PeakHold,
    pub measurement_held_dbfs: u32,
    pub reference_held_dbfs: u32,
    pub history: HistoryBuffer,
    pub display_hold: DisplayHold,
    pub latest_sequence: Option<u64>,
    pub latest_window_start: u64,
    pub has_reference: bool,
    pub last_snapshot_time: Option<u64>,
}

impl DisplayState {
    pub open spec fn wf(&self) -> bool {
        self.history.wf()
    }

    /// Nothing is shown of any input yet, and the route is `route`.
    pub open spec fn is_blank(&self, route: ChannelRoute) -> bool {
        &&& self.route == route
        &&& self.route_error is None
        &&& self.plotted@ == Seq::<PlottedBin>::empty()
        &&& self.plotted_rate == 0
        &&& self.scope_points@ == Seq::<StereoFrame>::empty()
        &&& self.measurement_level == silent_level()
        &&& self.reference_level is None
        &&& self.phase_correlation is None
        &&& self.measurement_peak_hold.is_fresh()
        &&& self.reference_peak_hold.is_fresh()
        &&& self.measurement_held_dbfs == SILENCE_DBFS
        &&& self.reference_held_dbfs == SILENCE_DBFS
        &&& self.history.spec_points() == Seq::<HistoryPoint>::empty()
        &&& self.history.spec_discontinuities() == 0
        &&& !self.display_hold.spec_active()
        &&& self.latest_sequence is None
        &&& self.latest_window_start == 0
        &&& self.has_reference == route.reference is Some
        &&& self.last_snapshot_time is None
    }

    /// The display without an input. `initial_route` is what an input proposes, if there
    /// is one already.
    pub fn new(initial_route: Option<ChannelRoute>) -> (display: DisplayState)
        ensures
            display.wf(),
            display.is_blank(route_or_default(initial_route)),
            display.display_connection is Stopped,
    {
        let route = match initial_route {
            Some(route) => route,
            None => ChannelRoute::default_for_channels(1),
        };
        DisplayState {
            display_connection: ConnectionState::Stopped,
            route,
            route_error: None,
            plotted: Vec::new(),
            plotted_rate: 0,
            scope_points: Vec::new(),
            measurement_level: SignalLevel::default(),
            reference_level: None,
            phase_correlation: None,
            measurement_peak_hold: PeakHold::default(),
            reference_peak_hold: PeakHold::default(),
            measurement_held_dbfs: SILENCE_DBFS,
            reference_held_dbfs: SILENCE_DBFS,
            history: HistoryBuffer::default(),
            display_hold: DisplayHold::default(),
            latest_sequence: None,
            latest_window_start: 0,
            has_reference: route.reference.is_some(),
            last_snapshot_time: None,
        }
    }

    /// What a result makes of the display. The levels and the history always follow it;
    /// the plot does so unless it is frozen.
    pub open spec fn follows(
        self,
        snapshot: AnalysisSnapshot,
        now: u64,
        measurement_fall: MeterFall,
        reference_fall: MeterFall,
        plan: Seq<usize>,
        discontinuities: u64,
        after: DisplayState,
    ) -> bool {
        &&& after.display_connection == self.display_connection
        &&& after.route == self.route
        &&& after.route_error == self.route_error
        &&& after.display_hold == self.display_hold
        &&& after.last_snapshot_time == Some(now)
        &&& after.latest_sequence == Some(snapshot.sequence)
        &&& after.latest_window_start == snapshot.window_start_frame
        &&& after.measurement_level == snapshot.measurement_level
        &&& after.reference_level == snapshot.reference_level
        &&& after.phase_correlation == snapshot.phase_correlation
        &&& self.measurement_peak_hold.updates(
            snapshot.measurement_level.peak_dbfs,
            now,
            measurement_fall.deadline,
            measurement_fall.released,
            after.measurement_peak_hold,
        )
        &&& after.measurement_held_dbfs == after.measurement_peak_hold.spec_held()
        &&& match snapshot.reference_level {
            Some(level) => {
                &&& self.reference_peak_hold.updates(
                    level.peak_dbfs,
                    now,
                    reference_fall.deadline,
                    reference_fall.released,
                    after.reference_peak_hold,
                )
                &&& after.reference_held_dbfs == after.reference_peak_hold.spec_held()
            },
            None => {
                &&& after.reference_peak_hold == self.reference_peak_hold
                &&& after.reference_held_dbfs == SILENCE_DBFS
            },
        }
        &&& after.scope_points@ == snapshot.scope_points@.take(snapshot.scope_len as int)
        &&& if self.display_hold.spec_active() {
            &&& after.has_reference == self.has_reference
            &&& after.plotted == self.plotted
            &&& after.plotted_rate == self.plotted_rate
        } else {
            &&& after.has_reference == snapshot.has_reference
            &&& after.plotted_rate == snapshot.sample_rate
            &&& after.plotted@ == plotted_below(
                snapshot.bins@,
                snapshot.sample_rate,
                SPECTRUM_BINS as int,
            )
        }
        &&& if self.history.accepts(snapshot) {
            self.history.grows(snapshot, plan, discontinuities, after.history)
        } else {
            after.history == self.history
        }
    }

    /// Takes a result in, and says whether the history has grown. `plan` gives the band
    /// of the history that each bin belongs to.
    pub fn update_snapshot(
        &mut self,
        snapshot: &AnalysisSnapshot,
        now: u64,
        measurement_fall: MeterFall,
        reference_fall: MeterFall,
        plan: &[usize; SPECTRUM_BINS],
        discontinuities: u64,
    ) -> (grown: bool)
        requires
            old(self).wf(),
            snapshot.wf(),
        ensures
            final(self).wf(),
            old(self).follows(
                *snapshot,
                now,
                measurement_fall,
                reference_fall,
                plan@,
                discontinuities,
                *final(self),
            ),
            grown == old(self).history.accepts(*snapshot),
    {
        self.last_snapshot_time = Some(now);
        let grown: bool = self.history.push(snapshot, plan, discontinuities);
        self.measurement_level = snapshot.measurement_level;
        self.reference_level = snapshot.reference_level;
        self.phase_correlation = snapshot.phase_correlation;
        self.measurement_held_dbfs =
        self.measurement_peak_hold.update(
            snapshot.measurement_level.peak_dbfs,
            now,
            measurement_fall.deadline,
            measurement_fall.released,
        );
        self.reference_held_dbfs =
        match snapshot.reference_level {
            Some(level) => self.reference_peak_hold.update(
                level.peak_dbfs,
                now,
                reference_fall.deadline,
                reference_fall.released,
            ),
            None => SILENCE_DBFS,
        };
        self.scope_points = scope_of(snapshot);
        if self.display_hold.accepts_plot_update() {
            self.has_reference = snapshot.has_reference;
            self.plotted_rate = snapshot.sample_rate;
            self.plotted = plotted_bins(snapshot);
        }
        self.latest_sequence = Some(snapshot.sequence);
        self.latest_window_start = snapshot.window_start_frame;
        grown
    }

    /// Forgets everything that was shown of the input.
    pub fn reset_display(&mut self, route: ChannelRoute)
        ensures
            final(self).wf(),
            final(self).is_blank(route),
            final(self).display_connection == old(self).display_connection,
    {
        self.route = route;
        self.route_error = None;
        self.history.clear();
        self.scope_points = Vec::new();
        self.plotted = Vec::new();
        self.plotted_rate = 0;
        self.measurement_level = SignalLevel::default();
        self.reference_level = None;
        self.phase_correlation = None;
        self.measurement_peak_hold = PeakHold::default();
        self.reference_peak_hold = PeakHold::default();
        self.measurement_held_dbfs = SILENCE_DBFS;
        self.reference_held_dbfs = SILENCE_DBFS;
        self.latest_sequence = None;
        self.latest_window_start = 0;
        self.last_snapshot_time = None;
        self.has_reference = route.reference.is_some();
        self.display_hold = DisplayHold::default();
    }

    /// Compares the state of the connection with the one shown. If it has changed, the
    /// display starts anew, with the route that the input proposes.
    pub fn follow_connection(
        &mut self,
        state: &ConnectionState,
        initial_route: Option<ChannelRoute>,
    ) -> (changed: bool)
        requires
            old(self).wf(),
        ensures
            final(self).wf(),
            changed == !state.same_as(old(self).display_connection),
            !changed ==> *final(self) == *old(self),
            changed ==> {
                &&& final(self).display_connection.same_as(*state)
                &&& final(self).is_blank(route_or_default(initial_route))
            },
    {
        if *state == self.display_connection {
            return false;
        }
        self.display_connection = state.clone();
        let route = match initial_route {
            Some(route) => route,
            None => ChannelRoute::default_for_channels(1),
        };
        self.reset_display(route);
        true
    }

    /// Lets the controller take its events in, and follows the state of the connection.
    pub fn poll_connection(
        &mut self,
        controller: &mut AnalyzerController,
        worker_exited: bool,
    ) -> (changed: bool)
        requires
            old(self).wf(),
        ensures
            final(self).wf(),
            AnalyzerController::polls(*old(controller), worker_exited, *final(controller)),
            old(controller).connection().wf() ==> final(controller).connection().wf(),
            ({
                let connection = final(controller).connection();
                &&& changed == !connection.state.same_as(old(self).display_connection)
                &&& !changed ==> *final(self) == *old(self)
                &&& changed ==> {
                    &&& final(self).display_connection.same_as(connection.state)
                    &&& final(self).is_blank(
                        route_or_default(
                            match connection.session {
                                Some(session) => Some(session.info.initial_route),
                                None => None,
                            },
                        ),
                    )
                }
            }),
    {
        controller.poll(worker_exited);
        let initial_route = match controller.info() {
            Some(info) => Some(info.initial_route),
            None => None,
        };
        self.follow_connection(controller.state(), initial_route)
    }

    /// Takes up the answer to a request for another route: the display starts anew with
    /// it, or keeps its route and shows why.
    pub fn route_answered(&mut self, route: ChannelRoute, answer: Result<(), String>)
        requires
            old(self).wf(),
        ensures
            final(self).wf(),
            final(self).display_connection == old(self).display_connection,
            match answer {
                Ok(_) => final(self).is_blank(route),
                Err(message) => *final(self) == (DisplayState {
                    route_error: Some(message),
                    ..*old(self)
                }),
            },
    {
        match answer {
            Ok(_) => self.reset_display(route),
            Err(message) => {
                self.route_error = Some(message);
            },
        }
    }

    /// Asks for another route, and says whether it was put in force. A request for the
    /// route in force does nothing.
    pub fn choose_route(
        &mut self,
        controller: &mut AnalyzerController,
        route: ChannelRoute,
    ) -> (changed: bool)
        requires
            old(self).wf(),
        ensures
            final(self).wf(),
            route == old(self).route ==> {
                &&& !changed
                &&& *final(self) == *old(self)
                &&& *final(controller) == *old(controller)
            },
            route != old(self).route ==> exists|answer: Result<(), String>|
                {
                    &&& #[trigger] old(controller).asks(*final(controller), route, answer)
                    &&& changed == answer is Ok
                },
            changed ==> {
                &&& final(self).is_blank(route)
                &&& final(self).display_connection == old(self).display_connection
            },
            !changed && route != old(self).route ==> {
                &&& *final(self) == (DisplayState {
                    route_error: final(self).route_error,
                    ..*old(self)
                })
                &&& final(self).route_error matches Some(message) && message@ == old(
                    controller,
                ).route_rejection(route)
            },
    {
        if route == self.route {
            return false;
        }
        let answer = controller.set_route(route);
        assert(old(controller).asks(*controller, route, answer));
        let changed: bool = answer.is_ok();
        self.route_answered(route, answer);
        changed
    }

    /// Asks for an input, where that is possible, and shows why if it is refused.
    pub fn request_start(&mut self, controller: &mut AnalyzerController)
        requires
            old(self).wf(),
        ensures
            final(self).wf(),
            !old(controller).connection().state.startable() ==> {
                &&& *final(self) == *old(self)
                &&& *final(controller) == *old(controller)
            },
            old(controller).connection().state.startable() ==> {
                let starts = old(controller).starts();
                let starts_after = final(controller).starts();
                let sent = requests_sent(starts) < request_slots(starts) + requests_gone(
                    starts_after,
                );
                &&& final(controller).told() == old(controller).told().push(false)
                &&& final(controller).events() == old(controller).events()
                &&& final(controller).asked() == old(controller).asked()
                &&& requests_offered(starts_after) == requests_offered(starts) + 1
                &&& requests_sent(starts_after) == requests_sent(starts) + (if sent {
                    1nat
                } else {
                    0nat
                })
                &&& final(controller).connection().state is Starting <==> sent
                &&& if sent {
                    *final(self) == *old(self)
                } else {
                    &&& final(controller).connection() == old(controller).connection()
                    &&& final(self).route_error matches Some(message) && message@
                        == start_pending()
                    &&& *final(self) == (DisplayState {
                        route_error: final(self).route_error,
                        ..*old(self)
                    })
                }
            },
    {
        if controller.state().can_start() {
            if let Err(message) = controller.start() {
                self.route_error = Some(message);
            }
        }
    }

    /// Gives the input up, where that is possible, and forgets what was shown of it. The
    /// result says whether it was.
    pub fn request_stop(&mut self, controller: &mut AnalyzerController) -> (stopped: bool)
        requires
            old(self).wf(),
        ensures
            final(self).wf(),
            stopped == old(controller).connection().state.stoppable(),
            !stopped ==> *final(self) == *old(self) && *final(controller) == *old(controller),
            stopped ==> {
                &&& final(controller).told() == old(controller).told().push(true)
                &&& final(controller).starts() == old(controller).starts()
                &&& final(controller).events() == old(controller).events()
                &&& final(controller).asked() == old(controller).asked()
                &&& final(controller).connection().state is Stopping
                &&& final(controller).connection().session is None
                &&& final(self).is_blank(ChannelRoute::spec_default_for_channels(1))
                &&& final(self).display_connection == old(self).display_connection
            },
    {
        if !controller.state().can_stop() {
            return false;
        }
        controller.stop();
        self.reset_display(ChannelRoute::default_for_channels(1));
        true
    }
}

/// The route that an input proposes, or the one for a single channel.
pub open spec fn route_or_default(route: Option<ChannelRoute>) -> ChannelRoute {
    match route {
        Some(route) => route,
        None => ChannelRoute::spec_default_for_channels(1),
    }
}

/// The points of the scope.
fn scope_of(snapshot: &AnalysisSnapshot) -> (points: Vec<StereoFrame>)
    requires
        snapshot.wf(),
    ensures
        points@ == snapshot.scope_points@.take(snapshot.scope_len as int),
{
    let mut points: Vec<StereoFrame> = Vec::new();
    for index in 0..snapshot.scope_len
        invariant
            snapshot.wf(),
            points@ == snapshot.scope_points@.take(index as int),
    {
        points.push(snapshot.scope_points[index]);
        assert(points@ =~= snapshot.scope_points@.take(index + 1));
    }
    points
}

/// A frozen plot stays as it is, whatever result arrives, while the levels and the
/// history go on.
pub proof fn a_frozen_plot_does_not_change(
    before: DisplayState,
    snapshot: AnalysisSnapshot,
    now: u64,
    measurement_fall: MeterFall,
    reference_fall: MeterFall,
    plan: Seq<usize>,
    discontinuities: u64,
    after: DisplayState,
)
    requires
        before.follows(
            snapshot,
            now,
            measurement_fall,
            reference_fall,
            plan,
            discontinuities,
            after,
        ),
        before.display_hold.spec_active(),
    ensures
        after.plotted == before.plotted,
        after.plotted_rate == before.plotted_rate,
        after.has_reference == before.has_reference,
        after.measurement_level == snapshot.measurement_level,
        before.history.accepts(snapshot) ==> after.history.spec_points().len() > 0
            && after.history.spec_points().last().frame == snapshot.window_start_frame,
{
}

/// What the status line says of the stream.
#[derive(Clone, Copy, Debug, PartialEq, Eq, Structural)]
pub enum StreamStatus {
    Fault,
    Healthy,
    Idle,
}

/// A stream that ever reported an error is faulty; one without is healthy as long as
/// results arrive.
pub fn stream_status(stream_errors: u64, receiving: bool) -> (status: StreamStatus)
    ensures
        status is Fault <==> stream_errors != 0,
        status is Healthy <==> stream_errors == 0 && receiving,
        status is Idle <==> stream_errors == 0 && !receiving,
{
    if stream_errors != 0 {
        StreamStatus::Fault
    } else if receiving {
        StreamStatus::Healthy
    } else {
        StreamStatus::Idle
    }
}

impl StreamStatus {
    pub fn label(self) -> (label: &'static str)
        ensures
            label@ == (match self {
                StreamStatus::Fault => "● ストリーム異常"@,
                StreamStatus::Healthy => "● システム正常"@,
                StreamStatus::Idle => "● 入力待機 / 停止"@,
            }),
    {
        match self {
            StreamStatus::Fault => "● ストリーム異常",
            StreamStatus::Healthy => "● システム正常",
            StreamStatus::Idle => "● 入力待機 / 停止",
        }
    }
}

/// The range and the unit of the vertical axis of a plot.
#[derive(Clone, Copy, Debug)]
pub struct PlotAxis {
    pub low: i32,
    pub high: i32,
    pub unit: &'static str,
}

impl AnalysisView {
    pub fn axis(self) -> (axis: PlotAxis)
        ensures
            match self {
                AnalysisView::Spectrum => axis.low == -120 && axis.high == 6 && axis.unit@
                    == "dBFS"@,
                AnalysisView::Transfer => axis.low == -60 && axis.high == 20 && axis.unit@
                    == "dB"@,
                AnalysisView::Phase => axis.low == -180 && axis.high == 180 && axis.unit@
                    == "deg"@,
                AnalysisView::Coherence => axis.low == 0 && axis.high == 1 && axis.unit@ == ""@,
            },
    {
        match self {
            AnalysisView::Spectrum => PlotAxis { low: -120, high: 6, unit: "dBFS" },
            AnalysisView::Transfer => PlotAxis { low: -60, high: 20, unit: "dB" },
            AnalysisView::Phase => PlotAxis { low: -180, high: 180, unit: "deg" },
            AnalysisView::Coherence => PlotAxis { low: 0, high: 1, unit: "" },
        }
    }

    /// All views but the spectrum need a channel to compare with.
    pub fn available(self, has_reference: bool) -> (available: bool)
        ensures
            available == (has_reference || self == AnalysisView::Spectrum),
    {
        has_reference || self == AnalysisView::Spectrum
    }
}

/// What a view plots of a bin, as a bit pattern.
pub fn plotted_value(view: AnalysisView, bin: &PlottedBin) -> (value: u32)
    ensures
        value == (match view {
            AnalysisView::Spectrum => bin.metrics.measurement_dbfs,
            AnalysisView::Transfer => bin.metrics.transfer_db,
            AnalysisView::Phase => bin.metrics.phase_degrees,
            AnalysisView::Coherence => bin.metrics.coherence,
        }),
{
    match view {
        AnalysisView::Spectrum => bin.metrics.measurement_dbfs,
        AnalysisView::Transfer => bin.metrics.transfer_db,
        AnalysisView::Phase => bin.metrics.phase_degrees,
        AnalysisView::Coherence => bin.metrics.coherence,
    }
}

/// The contents of some texts.
pub open spec fn texts(names: Seq<String>) -> Seq<Seq<char>> {
    names.map_values(|name: String| name@)
}

/// The names of the fonts for bold or regular text, in the order in which they are tried.
/// The one for Japanese text is named if it was found.
pub fn font_order(bold: bool, japanese: bool) -> (names: Vec<String>)
    ensures
        texts(names@) == (if japanese {
            seq![
                if bold {
                    "jetbrains-bold"@
                } else {
                    "jetbrains-regular"@
                },
                "japanese-system"@,
            ]
        } else {
            seq![
                if bold {
                    "jetbrains-bold"@
                } else {
                    "jetbrains-regular"@
                },
            ]
        }),
{
    let mut names: Vec<String> = Vec::new();
    if bold {
        names.push("jetbrains-bold".to_owned());
    } else {
        names.push("jetbrains-regular".to_owned());
    }
    if japanese {
        names.push("japanese-system".to_owned());
    }
    names
}

/// How the cards above the plot are arranged.
#[derive(Clone, Copy, Debug, PartialEq, Eq, Structural)]
pub enum CardLayout {
    ThreeColumns,
    TwoColumns,
    OneColumn,
}

/// The width 1050, as a bit pattern.
pub const WIDE: u32 = 0x4483_4000;

/// The width 700, as a bit pattern.
pub const MEDIUM: u32 = 0x442f_0000;

/// The cards stand side by side as far as there is room.
pub fn card_layout(width: u32) -> (layout: CardLayout)
    ensures
        layout == (if reaches(width, WIDE) {
            CardLayout::ThreeColumns
        } else if reaches(width, MEDIUM) {
            CardLayout::TwoColumns
        } else {
            CardLayout::OneColumn
        }),
        !is_nan(width) ==> (layout is ThreeColumns <==> rank(width) >= 0x4483_4000),
        !is_nan(width) ==> (layout is OneColumn <==> rank(width) < 0x442f_0000),
{
    if does_reach(width, WIDE) {
        CardLayout::ThreeColumns
    } else if does_reach(width, MEDIUM) {
        CardLayout::TwoColumns
    } else {
        CardLayout::OneColumn
    }
}

/// What the connection line says.
pub open spec fn connection_message(state: ConnectionState) -> Seq<char> {
    match state {
        ConnectionState::Stopped => "入力未接続"@,
        ConnectionState::Starting => "入力デバイスに接続中…"@,
        ConnectionState::Running => "入力接続済み"@,
        ConnectionState::Stopping => "入力を停止中…"@,
        ConnectionState::Failed(message) => "入力接続に失敗: "@ + message@,
    }
}

pub fn connection_text(state: &ConnectionState) -> (text: String)
    ensures
        text@ == connection_message(*state),
{
    match state {
        ConnectionState::Stopped => "入力未接続".to_owned(),
        ConnectionState::Starting => "入力デバイスに接続中…".to_owned(),
        ConnectionState::Running => "入力接続済み".to_owned(),
        ConnectionState::Stopping => "入力を停止中…".to_owned(),
        ConnectionState::Failed(message) => {
            let mut text = "入力接続に失敗: ".to_owned();
            text.append(message.as_str());
            text
        },
    }
}

/// The name of an input channel, counted from one.
pub fn channel_text(channel: Option<usize>) -> (text: String)
    ensures
        text@ == (match channel {
            Some(channel) => "入力 "@ + decimal((channel + 1) as nat),
            None => "無効"@,
        }),
{
    match channel {
        Some(channel) => {
            let mut text = "入力 ".to_owned();
            let number = decimal_text(channel as u128 + 1);
            text.append(number.as_str());
            text
        },
        None => "無効".to_owned(),
    }
}

/// The plot shows exactly the bins from 20 Hz on, but never the constant part, in the order of
/// their frequencies, and each with its own values.
pub proof fn the_plot_shows_every_bin_from_twenty_hertz_on(
    bins: Seq<BinMetrics>,
    sample_rate: u32,
    bin: int,
)
    requires
        0 <= bin < 1025,
    ensures
        ({
            let plotted = plotted_below(bins, sample_rate, 1025);
            &&& (exists|i: int| 0 <= i < plotted.len() && (#[trigger] plotted[i]).bin == bin) <==> {
                &&& bin >= 1
                &&& bin * sample_rate >= 20 * 2048
            }
            &&& forall|i: int|
                0 <= i < plotted.len() ==> (#[trigger] plotted[i]).bin < 1025 && plotted[i].metrics
                    == bins[plotted[i].bin as int]
            &&& forall|i: int, j: int|
                0 <= i < j < plotted.len() ==> plotted[i].bin < plotted[j].bin
        }),
{
    assert(LOWEST_FREQUENCY * FFT_SIZE == 20 * 2048);
    bins_are_plotted_in_order(bins, sample_rate, 1025);
    a_bin_is_plotted_if_it_is_high_enough(bins, sample_rate, 1025, bin);
}

proof fn bins_are_plotted_in_order(bins: Seq<BinMetrics>, sample_rate: u32, count: int)
    requires
        count <= 1025,
    ensures
        ({
            let plotted = plotted_below(bins, sample_rate, count);
            &&& forall|i: int|
                0 <= i < plotted.len() ==> 1 <= (#[trigger] plotted[i]).bin < count
                    && plotted[i].metrics == bins[plotted[i].bin as int] && plotted[i].bin
                    * sample_rate >= LOWEST_FREQUENCY * FFT_SIZE
            &&& forall|i: int, j: int|
                0 <= i < j < plotted.len() ==> plotted[i].bin < plotted[j].bin
        }),
    decreases count,
{
    if count > 1 {
        bins_are_plotted_in_order(bins, sample_rate, count - 1);
        let below = plotted_below(bins, sample_rate, count - 1);
        let plotted = plotted_below(bins, sample_rate, count);
        assert forall|i: int| 0 <= i < plotted.len() implies 1 <= (#[trigger] plotted[i]).bin
            < count && plotted[i].metrics == bins[plotted[i].bin as int] && plotted[i].bin
            * sample_rate >= LOWEST_FREQUENCY * FFT_SIZE by {
            if i < below.len() {
                assert(plotted[i] == below[i]);
            }
        }
        assert forall|i: int, j: int| 0 <= i < j < plotted.len() implies plotted[i].bin
            < plotted[j].bin by {
            assert(plotted[i] == below[i]);
            if j < below.len() {
                assert(plotted[j] == below[j]);
            }
        }
    }
}

proof fn a_bin_is_plotted_if_it_is_high_enough(
    bins: Seq<BinMetrics>,
    sample_rate: u32,
    count: int,
    bin: int,
)
    requires
        count <= 1025,
    ensures
        1 <= bin < count && bin * sample_rate >= LOWEST_FREQUENCY * FFT_SIZE ==> exists|i: int|
            0 <= i < plotted_below(bins, sample_rate, count).len() && (#[trigger] plotted_below(
                bins,
                sample_rate,
                count,
            )[i]).bin == bin,
    decreases count,
{
    if 1 <= bin < count && bin * sample_rate >= LOWEST_FREQUENCY * FFT_SIZE {
        let below = plotted_below(bins, sample_rate, count - 1);
        let plotted = plotted_below(bins, sample_rate, count);
        if bin == count - 1 {
            assert(plotted[below.len() as int].bin == bin);
        } else {
            a_bin_is_plotted_if_it_is_high_enough(bins, sample_rate, count - 1, bin);
            let i = choose|i: int| 0 <= i < below.len() && (#[trigger] below[i]).bin == bin;
            assert(plotted[i].bin == bin);
        }
    }
}

/// A result is shown as it stands: the levels of each channel as its own, the meter of each
/// fed by its own peak, the scope with as many points as there are. Without a reference its
/// meter is empty and keeps what it held. The route and what is said of the connection stay.
pub proof fn a_result_is_shown_as_it_stands(
    before: DisplayState,
    snapshot: AnalysisSnapshot,
    now: u64,
    measurement_fall: MeterFall,
    reference_fall: MeterFall,
    plan: Seq<usize>,
    discontinuities: u64,
    after: DisplayState,
)
    requires
        before.wf(),
        snapshot.wf(),
        before.follows(
            snapshot,
            now,
            measurement_fall,
            reference_fall,
            plan,
            discontinuities,
            after,
        ),
        !is_nan(before.measurement_peak_hold.spec_held()),
        !is_nan(snapshot.measurement_level.peak_dbfs),
        !is_nan(before.reference_peak_hold.spec_held()),
        snapshot.reference_level matches Some(level) ==> !is_nan(level.peak_dbfs),
    ensures
        after.measurement_level.peak_dbfs == snapshot.measurement_level.peak_dbfs,
        after.measurement_level.rms_dbfs == snapshot.measurement_level.rms_dbfs,
        after.reference_level == snapshot.reference_level,
        after.phase_correlation == snapshot.phase_correlation,
        after.latest_sequence == Some(snapshot.sequence),
        after.latest_window_start == snapshot.window_start_frame,
        after.last_snapshot_time == Some(now),
        after.route == before.route,
        after.route_error == before.route_error,
        after.display_connection == before.display_connection,
        after.display_hold == before.display_hold,
        after.measurement_held_dbfs == after.measurement_peak_hold.spec_held(),
        rank(after.measurement_held_dbfs) >= rank(snapshot.measurement_level.peak_dbfs),
        rank(snapshot.measurement_level.peak_dbfs) >= rank(
            before.measurement_peak_hold.spec_held(),
        ) ==> {
            &&& after.measurement_held_dbfs == snapshot.measurement_level.peak_dbfs
            &&& after.measurement_peak_hold.spec_hold_until() == measurement_fall.deadline
        },
        snapshot.reference_level matches Some(level) ==> {
            &&& after.reference_held_dbfs == after.reference_peak_hold.spec_held()
            &&& rank(after.reference_held_dbfs) >= rank(level.peak_dbfs)
            &&& rank(level.peak_dbfs) >= rank(before.reference_peak_hold.spec_held()) ==> {
                &&& after.reference_held_dbfs == level.peak_dbfs
                &&& after.reference_peak_hold.spec_hold_until() == reference_fall.deadline
            }
        },
        snapshot.reference_level is None ==> {
            &&& after.reference_held_dbfs == 0xc2f0_0000
            &&& after.reference_peak_hold == before.reference_peak_hold
        },
        rank(snapshot.measurement_level.peak_dbfs) < rank(before.measurement_peak_hold.spec_held())
            && later(now, before.measurement_peak_hold.spec_hold_until()) && !is_nan(
            measurement_fall.released,
        ) ==> {
            &&& rank(after.measurement_held_dbfs) >= rank(measurement_fall.released)
            &&& after.measurement_held_dbfs == measurement_fall.released
                || after.measurement_held_dbfs == snapshot.measurement_level.peak_dbfs
        },
        snapshot.reference_level matches Some(level) ==> (rank(level.peak_dbfs) < rank(
            before.reference_peak_hold.spec_held(),
        ) && later(now, before.reference_peak_hold.spec_hold_until()) && !is_nan(
            reference_fall.released,
        ) ==> {
            &&& rank(after.reference_held_dbfs) >= rank(reference_fall.released)
            &&& after.reference_held_dbfs == reference_fall.released || after.reference_held_dbfs
                == level.peak_dbfs
        }),
        after.scope_points@.len() == snapshot.scope_len,
        forall|i: int|
            0 <= i < snapshot.scope_len ==> #[trigger] after.scope_points@[i]
                == snapshot.scope_points@[i],
{
    the_meter_does_not_fall_too_early(
        before.measurement_peak_hold,
        snapshot.measurement_level.peak_dbfs,
        now,
        measurement_fall.deadline,
        measurement_fall.released,
        after.measurement_peak_hold,
    );
    if let Some(level) = snapshot.reference_level {
        the_meter_does_not_fall_too_early(
            before.reference_peak_hold,
            level.peak_dbfs,
            now,
            reference_fall.deadline,
            reference_fall.released,
            after.reference_peak_hold,
        );
    }
}

/// A plot that is not frozen shows the bins of the newest result, at its sample rate, and
/// whether it has a reference. The history gets a point exactly if the result becomes one,
/// frozen or not, and it shows the root mean square of each channel.
pub proof fn what_a_result_draws(
    before: DisplayState,
    snapshot: AnalysisSnapshot,
    now: u64,
    measurement_fall: MeterFall,
    reference_fall: MeterFall,
    plan: Seq<usize>,
    discontinuities: u64,
    after: DisplayState,
    bin: int,
)
    requires
        before.wf(),
        before.follows(
            snapshot,
            now,
            measurement_fall,
            reference_fall,
            plan,
            discontinuities,
            after,
        ),
        0 <= bin < 1025,
    ensures
        !before.display_hold.spec_active() ==> {
            &&& after.has_reference == snapshot.has_reference
            &&& after.plotted_rate == snapshot.sample_rate
            &&& (exists|i: int|
                0 <= i < after.plotted@.len() && (#[trigger] after.plotted@[i]).bin == bin
                    && after.plotted@[i].metrics == snapshot.bins@[bin]) <==> bin >= 1 && bin
                * snapshot.sample_rate >= 20 * 2048
        },
        before.history.spec_points().len() == 0 && snapshot.sample_rate != 0 ==> {
            let points = after.history.spec_points();
            &&& points.len() == 1
            &&& points[0].frame == snapshot.window_start_frame
            &&& points[0].measurement_rms == snapshot.measurement_level.rms_dbfs
        },
        snapshot.sample_rate == 0 ==> after.history == before.history,
{
    the_plot_shows_every_bin_from_twenty_hertz_on(snapshot.bins@, snapshot.sample_rate, bin);
    if !before.display_hold.spec_active() && bin >= 1 && bin * snapshot.sample_rate >= 20 * 2048 {
        let i = choose|i: int|
            0 <= i < after.plotted@.len() && (#[trigger] after.plotted@[i]).bin == bin;
        assert(after.plotted@[i].metrics == snapshot.bins@[bin]);
    }
    if before.history.accepts(snapshot) {
        a_point_shows_its_result(
            before.history,
            snapshot,
            plan,
            discontinuities,
            after.history,
        );
    }
}

/// A blank display shows nothing of any input: no bin, no point, silent meters, no number of
/// a result, and an unfrozen plot. It says that there is a reference exactly if its route
/// names one.
pub proof fn a_blank_display_shows_nothing(display: DisplayState, route: ChannelRoute)
    requires
        display.is_blank(route),
    ensures
        display.route.measurement == route.measurement,
        display.route.reference == route.reference,
        display.route_error is None,
        display.plotted@.len() == 0,
        display.plotted_rate == 0,
        display.scope_points@.len() == 0,
        display.measurement_level.peak_dbfs == 0xc2f0_0000,
        display.measurement_level.rms_dbfs == 0xc2f0_0000,
        display.reference_level is None,
        display.phase_correlation is None,
        display.measurement_held_dbfs == 0xc2f0_0000,
        display.reference_held_dbfs == 0xc2f0_0000,
        display.measurement_peak_hold.spec_held() == 0xc2f0_0000,
        display.reference_peak_hold.spec_held() == 0xc2f0_0000,
        display.measurement_peak_hold.spec_hold_until() == 0,
        display.reference_peak_hold.spec_hold_until() == 0,
        display.measurement_peak_hold.spec_last_time() == 0,
        display.reference_peak_hold.spec_last_time() == 0,
        display.history.spec_points().len() == 0,
        display.history.spec_discontinuities() == 0,
        !display.display_hold.spec_active(),
        display.latest_sequence is None,
        display.latest_window_start == 0,
        display.has_reference <==> route.reference is Some,
        display.last_snapshot_time is None,
{
}

/// The route of an input that proposes one is shown; without one the first channel is
/// measured, with no reference.
pub proof fn the_proposed_route_is_shown(proposed: ChannelRoute)
    ensures
        route_or_default(Some(proposed)) == proposed,
        route_or_default(None).measurement == 0,
        route_or_default(None).reference is None,
{
}

/// A failure is told with its reason behind, and no two states are told alike but for two
/// failures with the same reason.
pub proof fn each_state_is_told_apart(a: ConnectionState, b: ConnectionState)
    ensures
        a matches ConnectionState::Failed(message) ==> {
            let told = connection_message(a);
            &&& told.len() == 9 + message@.len()
            &&& told.subrange(9, told.len() as int) == message@
        },
        !(a is Failed) && !(b is Failed) && connection_message(a) == connection_message(b) ==> a
            == b,
        a is Failed && b is Failed && connection_message(a) == connection_message(b)
            ==> a.same_as(b),
        connection_message(ConnectionState::Running) == "入力接続済み"@,
        connection_message(ConnectionState::Stopped) == "入力未接続"@,
        connection_message(ConnectionState::Starting) == "入力デバイスに接続中…"@,
        connection_message(ConnectionState::Stopping) == "入力を停止中…"@,
{
    reveal_strlit("入力未接続");
    reveal_strlit("入力デバイスに接続中…");
    reveal_strlit("入力接続済み");
    reveal_strlit("入力を停止中…");
    reveal_strlit("入力接続に失敗: ");
    let told_a = connection_message(a);
    let told_b = connection_message(b);
    assert(a is Stopped ==> told_a.len() == 5);
    assert(a is Running ==> told_a.len() == 6);
    assert(a is Stopping ==> told_a.len() == 7);
    assert(a is Starting ==> told_a.len() == 11);
    assert(b is Stopped ==> told_b.len() == 5);
    assert(b is Running ==> told_b.len() == 6);
    assert(b is Stopping ==> told_b.len() == 7);
    assert(b is Starting ==> told_b.len() == 11);
    if let ConnectionState::Failed(message) = a {
        let told = connection_message(a);
        assert(told.subrange(9, told.len() as int) =~= message@);
    }
    if let ConnectionState::Failed(message) = b {
        let told = connection_message(b);
        assert(told.subrange(9, told.len() as int) =~= message@);
    }
}

} // verus!
