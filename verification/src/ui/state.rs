//! What the display keeps between frames: the views, the peak hold and the history.
//!
//! Levels and times are the bit patterns of floating-point numbers.
use std::collections::VecDeque;

use vstd::prelude::*;

use crate::level::{
    does_reach, greater, greater_is_an_upper_bound, is_later, is_nan, later, rank, reaches,
    take_greater,
};
use crate::model::{AnalysisSnapshot, BinMetrics, FFT_SIZE, SILENCE_DBFS, SPECTRUM_BINS};

verus! {

/// Points of the history per second.
pub const HISTORY_HZ: u64 = 10;

/// Points that the history holds at most, which is five minutes.
pub const HISTORY_CAPACITY: usize = 3_000;

/// Bands of the frequency history.
pub const HISTORY_SPECTRUM_BANDS: usize = 96;

/// Lowest frequency shown, in Hz.
pub const LOWEST_FREQUENCY: u64 = 20;

#[derive(Clone, Copy, Debug, PartialEq, Eq, Structural)]
pub enum HistoryView {
    Level,
    Spectrum,
}

impl Default for HistoryView {
    fn default() -> (view: HistoryView)
        ensures
            view == HistoryView::Level,
    {
        HistoryView::Level
    }
}

impl HistoryView {
    pub const ALL: [HistoryView; 2] = [HistoryView::Level, HistoryView::Spectrum];

    pub fn label(self) -> (label: &'static str)
        ensures
            label@ == (match self {
                HistoryView::Level => "音量 / LEVEL"@,
                HistoryView::Spectrum => "周波数 / SPECTRUM"@,
            }),
    {
        match self {
            HistoryView::Level => "音量 / LEVEL",
            HistoryView::Spectrum => "周波数 / SPECTRUM",
        }
    }
}

#[derive(Clone, Copy, Debug, PartialEq, Eq, Structural)]
pub enum AnalysisView {
    Spectrum,
    Transfer,
    Phase,
    Coherence,
}

impl AnalysisView {
    pub const ALL: [AnalysisView; 4] = [
        AnalysisView::Spectrum,
        AnalysisView::Transfer,
        AnalysisView::Phase,
        AnalysisView::Coherence,
    ];

    pub fn label(self) -> (label: &'static str)
        ensures
            label@ == (match self {
                AnalysisView::Spectrum => "周波数"@,
                AnalysisView::Transfer => "伝達関数"@,
                AnalysisView::Phase => "位相"@,
                AnalysisView::Coherence => "コヒーレンス"@,
            }),
    {
        match self {
            AnalysisView::Spectrum => "周波数",
            AnalysisView::Transfer => "伝達関数",
            AnalysisView::Phase => "位相",
            AnalysisView::Coherence => "コヒーレンス",
        }
    }
}

/// Whether the plot is frozen.
#[derive(Clone, Copy, Debug, PartialEq, Eq, Structural)]
pub struct DisplayHold {
    active: bool,
}

impl Default for DisplayHold {
    fn default() -> (hold: DisplayHold)
        ensures
            !hold.spec_active(),
    {
        DisplayHold { active: false }
    }
}

impl DisplayHold {
    pub closed spec fn spec_active(self) -> bool {
        self.active
    }

    pub fn active(&self) -> (active: bool)
        ensures
            active == self.spec_active(),
    {
        self.active
    }

    pub fn toggle(&mut self)
        ensures
            final(self).spec_active() == !old(self).spec_active(),
    {
        self.active = !self.active;
    }

    /// Only a plot that is not frozen is redrawn.
    pub fn accepts_plot_update(&self) -> (accepts: bool)
        ensures
            accepts == !self.spec_active(),
    {
        !self.active
    }
}

/// A peak that stays on the meter for a while and then falls.
#[derive(Clone, Copy, Debug, PartialEq, Eq, Structural)]
pub struct PeakHold {
    held_dbfs: u32,
    hold_until: u64,
    last_time: u64,
}

impl Default for PeakHold {
    fn default() -> (hold: PeakHold)
        ensures
            hold.is_fresh(),
    {
        PeakHold { held_dbfs: SILENCE_DBFS, hold_until: 0, last_time: 0 }
    }
}

impl PeakHold {
    /// The level on the meter.
    pub closed spec fn spec_held(self) -> u32 {
        self.held_dbfs
    }

    /// When the level starts to fall.
    pub closed spec fn spec_hold_until(self) -> u64 {
        self.hold_until
    }

    /// When the meter was last updated.
    pub closed spec fn spec_last_time(self) -> u64 {
        self.last_time
    }

    /// Nothing was measured yet.
    pub open spec fn is_fresh(self) -> bool {
        self.spec_held() == SILENCE_DBFS && self.spec_hold_until() == 0 && self.spec_last_time()
            == 0
    }

    pub fn held_dbfs(&self) -> (held: u32)
        ensures
            held == self.spec_held(),
    {
        self.held_dbfs
    }

    pub fn hold_until(&self) -> (until: u64)
        ensures
            until == self.spec_hold_until(),
    {
        self.hold_until
    }

    pub fn last_time(&self) -> (time: u64)
        ensures
            time == self.spec_last_time(),
    {
        self.last_time
    }

    /// What a new peak does to the meter. A peak that reaches the level on the meter
    /// takes its place and is held until `deadline`. Otherwise, once the time of hold is
    /// over, the level falls to `released`, but not below the peak.
    pub open spec fn updates(
        self,
        peak_dbfs: u32,
        now: u64,
        deadline: u64,
        released: u32,
        after: PeakHold,
    ) -> bool {
        &&& after.spec_last_time() == now
        &&& if reaches(peak_dbfs, self.spec_held()) {
            after.spec_held() == peak_dbfs && after.spec_hold_until() == deadline
        } else if later(now, self.spec_hold_until()) {
            after.spec_held() == greater(released, peak_dbfs) && after.spec_hold_until()
                == self.spec_hold_until()
        } else {
            after.spec_held() == self.spec_held() && after.spec_hold_until()
                == self.spec_hold_until()
        }
    }

    /// Takes a new peak in at the time `now`, and gives the level on the meter.
    pub fn update(&mut self, peak_dbfs: u32, now: u64, deadline: u64, released: u32) -> (held: u32)
        ensures
            old(self).updates(peak_dbfs, now, deadline, released, *final(self)),
            held == final(self).spec_held(),
    {
        if does_reach(peak_dbfs, self.held_dbfs) {
            self.held_dbfs = peak_dbfs;
            self.hold_until = deadline;
        } else if is_later(now, self.hold_until) {
            self.held_dbfs = take_greater(released, peak_dbfs);
        }
        self.last_time = now;
        self.held_dbfs
    }
}

/// The meter never shows less than the peak that was just measured, and during the time
/// of hold never less than it showed before.
pub proof fn the_meter_does_not_fall_too_early(
    before: PeakHold,
    peak_dbfs: u32,
    now: u64,
    deadline: u64,
    released: u32,
    after: PeakHold,
)
    requires
        before.updates(peak_dbfs, now, deadline, released, after),
        !is_nan(before.spec_held()),
        !is_nan(peak_dbfs),
    ensures
        reaches(after.spec_held(), peak_dbfs),
        !later(now, before.spec_hold_until()) ==> reaches(after.spec_held(), before.spec_held()),
{
    greater_is_an_upper_bound(released, peak_dbfs);
}

/// One point of the history: the frame it belongs to, at how many frames a second, and
/// the levels then.
#[derive(Clone, Copy, Debug)]
pub struct HistoryPoint {
    pub frame: u64,
    pub sample_rate: u32,
    pub measurement_rms: u32,
    pub reference_rms: Option<u32>,
    pub spectrum_dbfs: [u32; HISTORY_SPECTRUM_BANDS],
    pub gap: bool,
}

/// The bin lies in the range that is shown: not below the lowest frequency, of an input
/// whose range is not empty.
pub open spec fn audible(bin: int, sample_rate: u32) -> bool {
    sample_rate > 2 * LOWEST_FREQUENCY && bin * sample_rate >= LOWEST_FREQUENCY * FFT_SIZE
}

/// The band that a bin is shown in, if `planned` was computed for it.
pub open spec fn band_of(planned: usize) -> int {
    if planned < HISTORY_SPECTRUM_BANDS {
        planned as int
    } else {
        HISTORY_SPECTRUM_BANDS - 1
    }
}

/// The highest level of the audible bins below `count` that are shown in `band`.
pub open spec fn band_peak(
    bins: Seq<BinMetrics>,
    sample_rate: u32,
    plan: Seq<usize>,
    band: int,
    count: int,
) -> u32
    decreases count,
{
    if count <= 1 {
        SILENCE_DBFS
    } else {
        let bin = count - 1;
        let below = band_peak(bins, sample_rate, plan, band, bin);
        if audible(bin, sample_rate) && band_of(plan[bin]) == band {
            greater(below, bins[bin].measurement_dbfs)
        } else {
            below
        }
    }
}

/// The levels of the bands, each the highest of its bins.
pub open spec fn shows_bands(
    levels: Seq<u32>,
    bins: Seq<BinMetrics>,
    sample_rate: u32,
    plan: Seq<usize>,
) -> bool {
    forall|band: int|
        0 <= band < HISTORY_SPECTRUM_BANDS ==> #[trigger] levels[band] == band_peak(
            bins,
            sample_rate,
            plan,
            band,
            SPECTRUM_BINS as int,
        )
}

/// The levels of the bands of one result. `plan` gives the band of each bin, which
/// depends on the sample rate only.
pub fn history_spectrum(snapshot: &AnalysisSnapshot, plan: &[usize; SPECTRUM_BINS]) -> (levels: [u32;
    HISTORY_SPECTRUM_BANDS])
    ensures
        shows_bands(levels@, snapshot.bins@, snapshot.sample_rate, plan@),
{
    let mut levels: [u32; HISTORY_SPECTRUM_BANDS] = [SILENCE_DBFS;HISTORY_SPECTRUM_BANDS];
    let rate: u64 = snapshot.sample_rate as u64;
    for bin in 1..SPECTRUM_BINS
        invariant
            rate == snapshot.sample_rate,
            forall|band: int|
                0 <= band < HISTORY_SPECTRUM_BANDS ==> #[trigger] levels@[band] == band_peak(
                    snapshot.bins@,
                    snapshot.sample_rate,
                    plan@,
                    band,
                    bin as int,
                ),
    {
        assert(bin * rate <= 2048 * 0xffff_ffff) by (nonlinear_arith)
            requires
                bin <= 2048,
                rate <= 0xffff_ffff,
        ;
        if rate > 2 * LOWEST_FREQUENCY && bin as u64 * rate >= LOWEST_FREQUENCY * FFT_SIZE as u64 {
            let planned: usize = plan[bin];
            let band: usize = if planned < HISTORY_SPECTRUM_BANDS {
                planned
            } else {
                HISTORY_SPECTRUM_BANDS - 1
            };
            levels[band] = take_greater(levels[band], snapshot.bins[bin].measurement_dbfs);
        }
    }
    levels
}

/// No peak is lost: the level of each audible bin is reached by the level of its band.
pub proof fn every_audible_bin_reaches_the_history(
    levels: Seq<u32>,
    bins: Seq<BinMetrics>,
    sample_rate: u32,
    plan: Seq<usize>,
    bin: int,
)
    requires
        shows_bands(levels, bins, sample_rate, plan),
        1 <= bin < SPECTRUM_BINS,
        audible(bin, sample_rate),
        !is_nan(bins[bin].measurement_dbfs),
    ensures
        reaches(levels[band_of(plan[bin])], bins[bin].measurement_dbfs),
{
    bins_below_reach_the_band(bins, sample_rate, plan, bin, SPECTRUM_BINS as int);
}

proof fn bins_below_reach_the_band(
    bins: Seq<BinMetrics>,
    sample_rate: u32,
    plan: Seq<usize>,
    bin: int,
    count: int,
)
    requires
        1 <= bin < count,
        audible(bin, sample_rate),
        !is_nan(bins[bin].measurement_dbfs),
    ensures
        reaches(
            band_peak(bins, sample_rate, plan, band_of(plan[bin]), count),
            bins[bin].measurement_dbfs,
        ),
    decreases count,
{
    let band = band_of(plan[bin]);
    let below = band_peak(bins, sample_rate, plan, band, count - 1);
    if bin < count - 1 {
        bins_below_reach_the_band(bins, sample_rate, plan, bin, count - 1);
    }
    greater_is_an_upper_bound(below, bins[count - 1].measurement_dbfs);
}

/// Frames between two points of the history.
pub open spec fn history_interval(sample_rate: u32) -> int {
    if sample_rate < HISTORY_HZ {
        1
    } else {
        sample_rate as int / HISTORY_HZ as int
    }
}

/// The second point comes late enough after the first.
pub open spec fn spaced(first: HistoryPoint, second: HistoryPoint) -> bool {
    first.frame + history_interval(second.sample_rate) <= second.frame
}

/// The levels of the last five minutes, ten times a second.
pub struct HistoryBuffer {
    points: VecDeque<HistoryPoint>,
    last_frame: Option<u64>,
    last_discontinuities: u64,
}

impl Default for HistoryBuffer {
    fn default() -> (history: HistoryBuffer)
        ensures
            history.wf(),
            history.spec_points() == Seq::<HistoryPoint>::empty(),
            history.spec_discontinuities() == 0,
    {
        HistoryBuffer { points: VecDeque::new(), last_frame: None, last_discontinuities: 0 }
    }
}

impl HistoryBuffer {
    /// The points, oldest first.
    pub closed spec fn spec_points(self) -> Seq<HistoryPoint> {
        self.points@
    }

    /// The number of discontinuities at the newest point.
    pub closed spec fn spec_discontinuities(self) -> u64 {
        self.last_discontinuities
    }

    /// The points are not too many, and no two are closer than the interval. The frame
    /// of the newest one is remembered.
    pub closed spec fn wf(self) -> bool {
        &&& self.points@.len() <= HISTORY_CAPACITY
        &&& forall|i: int, j: int|
            0 <= i < j < self.points@.len() ==> spaced(
                #[trigger] self.points@[i],
                #[trigger] self.points@[j],
            )
        &&& self.points@.len() == 0 ==> self.last_frame is None && self.last_discontinuities == 0
        &&& self.points@.len() > 0 ==> self.last_frame == Some(self.points@.last().frame)
    }

    /// The result goes back behind the newest point, so the input has started anew.
    pub open spec fn restarted_by(self, snapshot: AnalysisSnapshot) -> bool {
        self.spec_points().len() > 0 && snapshot.window_start_frame
            < self.spec_points().last().frame
    }

    /// The result becomes a point: it tells its sample rate, and the input has started
    /// anew or the interval is over.
    pub open spec fn accepts(self, snapshot: AnalysisSnapshot) -> bool {
        &&& snapshot.sample_rate != 0
        &&& {
            ||| self.spec_points().len() == 0
            ||| self.restarted_by(snapshot)
            ||| snapshot.window_start_frame - self.spec_points().last().frame >= history_interval(
                snapshot.sample_rate,
            )
        }
    }

    /// The point shows the result.
    pub open spec fn shows(
        point: HistoryPoint,
        snapshot: AnalysisSnapshot,
        plan: Seq<usize>,
        gap: bool,
    ) -> bool {
        &&& point.frame == snapshot.window_start_frame
        &&& point.sample_rate == snapshot.sample_rate
        &&& point.measurement_rms == snapshot.measurement_level.rms_dbfs
        &&& point.reference_rms == (match snapshot.reference_level {
            Some(level) => Some(level.rms_dbfs),
            None => None,
        })
        &&& shows_bands(point.spectrum_dbfs@, snapshot.bins@, snapshot.sample_rate, plan)
        &&& point.gap == gap
    }

    /// The points with one more, without the oldest if that is too many.
    pub open spec fn extended(points: Seq<HistoryPoint>, point: HistoryPoint) -> Seq<HistoryPoint> {
        if points.len() < HISTORY_CAPACITY {
            points.push(point)
        } else {
            points.push(point).drop_first()
        }
    }

    /// What a result that becomes a point makes of the history.
    pub open spec fn grows(
        self,
        snapshot: AnalysisSnapshot,
        plan: Seq<usize>,
        discontinuities: u64,
        after: HistoryBuffer,
    ) -> bool {
        let (kept, counted) = if self.restarted_by(snapshot) {
            (Seq::empty(), 0)
        } else {
            (self.spec_points(), self.spec_discontinuities())
        };
        &&& after.spec_discontinuities() == discontinuities
        &&& after.spec_points().len() > 0
        &&& after.spec_points() == HistoryBuffer::extended(kept, after.spec_points().last())
        &&& HistoryBuffer::shows(
            after.spec_points().last(),
            snapshot,
            plan,
            discontinuities != counted,
        )
    }

    /// Takes a result in, and says whether it became a point. If the discontinuities
    /// have been more since the last point, the new point is marked.
    pub fn push(
        &mut self,
        snapshot: &AnalysisSnapshot,
        plan: &[usize; SPECTRUM_BINS],
        discontinuities: u64,
    ) -> (pushed: bool)
        requires
            old(self).wf(),
        ensures
            final(self).wf(),
            pushed == old(self).accepts(*snapshot),
            !pushed ==> *final(self) == *old(self),
            pushed ==> old(self).grows(*snapshot, plan@, discontinuities, *final(self)),
            pushed ==> final(self).spec_points().last().measurement_rms
                == snapshot.measurement_level.rms_dbfs,
            pushed ==> (final(self).spec_points().last().reference_rms matches Some(level)
                ==> snapshot.reference_level is Some && level
                == (snapshot.reference_level->0).rms_dbfs),
    {
        if snapshot.sample_rate == 0 {
            return false;
        }
        if let Some(last) = self.last_frame {
            if snapshot.window_start_frame < last {
                self.clear();
            }
        }
        let tenth: u64 = snapshot.sample_rate as u64 / HISTORY_HZ;
        let interval: u64 = if tenth < 1 {
            1
        } else {
            tenth
        };
        if let Some(last) = self.last_frame {
            if snapshot.window_start_frame - last < interval {
                return false;
            }
        }
        let ghost kept = self.points@;
        let gap: bool = discontinuities != self.last_discontinuities;
        let point = HistoryPoint {
            frame: snapshot.window_start_frame,
            sample_rate: snapshot.sample_rate,
            measurement_rms: snapshot.measurement_level.rms_dbfs,
            reference_rms: match snapshot.reference_level {
                Some(level) => Some(level.rms_dbfs),
                None => None,
            },
            spectrum_dbfs: history_spectrum(snapshot, plan),
            gap,
        };
        self.points.push_back(point);
        self.last_frame = Some(snapshot.window_start_frame);
        self.last_discontinuities = discontinuities;
        proof {
            assert forall|i: int, j: int| 0 <= i < j < self.points@.len() implies spaced(
                #[trigger] self.points@[i],
                #[trigger] self.points@[j],
            ) by {
                if j == kept.len() && i < kept.len() - 1 {
                    assert(spaced(kept[i], kept.last()));
                }
            }
        }
        if self.points.len() > HISTORY_CAPACITY {
            self.points.pop_front();
            assert(self.points@ =~= kept.push(point).drop_first());
        }
        assert(self.points@.last() == point);
        true
    }

    pub fn clear(&mut self)
        ensures
            final(self).wf(),
            final(self).spec_points() == Seq::<HistoryPoint>::empty(),
            final(self).spec_discontinuities() == 0,
    {
        self.points.clear();
        self.last_frame = None;
        self.last_discontinuities = 0;
    }

    /// The points, oldest first.
    pub fn points(&self) -> (points: &VecDeque<HistoryPoint>)
        ensures
            points@ == self.spec_points(),
    {
        &self.points
    }
}

/// The history never holds more than its capacity, and no two of its points are closer
/// than the interval. Without a point it has counted no discontinuity.
pub proof fn history_is_bounded_and_spaced(history: HistoryBuffer)
    requires
        history.wf(),
    ensures
        history.spec_points().len() <= HISTORY_CAPACITY,
        history.spec_points().len() == 0 ==> history.spec_discontinuities() == 0,
        forall|i: int, j: int|
            0 <= i < j < history.spec_points().len() ==> spaced(
                #[trigger] history.spec_points()[i],
                #[trigger] history.spec_points()[j],
            ),
{
}

/// A point is the result as it stood: its first frame, its sample rate, the root mean square
/// of each channel, of the reference exactly if there is one, and a mark exactly if the
/// discontinuities are not as many as at the point before. It is the newest one, and the
/// others stay as they are, but that the input starting anew drops all of them, and a full
/// history the oldest.
pub proof fn a_point_shows_its_result(
    before: HistoryBuffer,
    snapshot: AnalysisSnapshot,
    plan: Seq<usize>,
    discontinuities: u64,
    after: HistoryBuffer,
)
    requires
        before.wf(),
        before.grows(snapshot, plan, discontinuities, after),
    ensures
        ({
            let points = before.spec_points();
            let anew = points.len() > 0 && snapshot.window_start_frame < points.last().frame;
            let point = after.spec_points().last();
            &&& point.frame == snapshot.window_start_frame
            &&& point.sample_rate == snapshot.sample_rate
            &&& point.measurement_rms == snapshot.measurement_level.rms_dbfs
            &&& point.reference_rms is Some <==> snapshot.reference_level is Some
            &&& snapshot.reference_level matches Some(level) ==> point.reference_rms == Some(
                level.rms_dbfs,
            )
            &&& anew ==> (point.gap <==> discontinuities != 0)
            &&& !anew ==> (point.gap <==> discontinuities != before.spec_discontinuities())
            &&& after.spec_discontinuities() == discontinuities
            &&& anew ==> after.spec_points().drop_last().len() == 0
            &&& !anew && points.len() < 3_000 ==> after.spec_points().drop_last() == points
            &&& !anew && points.len() == 3_000 ==> after.spec_points().drop_last()
                == points.subrange(1, 3_000)
        }),
{
    let points = before.spec_points();
    let newest = after.spec_points().last();
    if before.restarted_by(snapshot) {
        assert(Seq::<HistoryPoint>::empty().push(newest).drop_last().len() == 0);
    } else if points.len() < 3_000 {
        assert(points.push(newest).drop_last() =~= points);
    } else {
        assert(points.push(newest).drop_first().drop_last() =~= points.subrange(1, 3_000));
    }
}

/// A result becomes a point exactly if it tells its sample rate and is the first one, or goes
/// back behind the newest point, or comes a tenth of a second after it, rounded down to whole
/// frames, and at least one frame.
pub proof fn when_a_result_becomes_a_point(history: HistoryBuffer, snapshot: AnalysisSnapshot)
    ensures
        history.spec_points().len() == 0 ==> (history.accepts(snapshot) <==> snapshot.sample_rate
            != 0),
        history.spec_points().len() > 0 ==> ({
            let passed = snapshot.window_start_frame - history.spec_points().last().frame;
            history.accepts(snapshot) <==> snapshot.sample_rate != 0 && (passed < 0 || (passed >= 1
                && snapshot.sample_rate < 10 * (passed + 1)))
        }),
{
}

/// The level of a band is the level of silence or that of one of its audible bins. What is
/// below 20 Hz is not audible, nor is anything of an input that covers no more than that.
pub proof fn a_band_shows_one_of_its_bins(
    levels: Seq<u32>,
    bins: Seq<BinMetrics>,
    sample_rate: u32,
    plan: Seq<usize>,
    band: int,
)
    requires
        shows_bands(levels, bins, sample_rate, plan),
        0 <= band < 96,
    ensures
        levels[band] == 0xc2f0_0000 || exists|bin: int|
            1 <= bin < 1025 && sample_rate > 40 && bin * sample_rate >= 20 * 2048 && (plan[bin]
                == band || (band == 95 && plan[bin] >= 95)) && (#[trigger] bins[bin]).measurement_dbfs
                == levels[band],
{
    let bin = a_bin_gives_the_peak(bins, sample_rate, plan, band, SPECTRUM_BINS as int);
    if levels[band] != 0xc2f0_0000 {
        assert(bins[bin].measurement_dbfs == levels[band]);
        assert(LOWEST_FREQUENCY * FFT_SIZE == 20 * 2048);
    }
}

proof fn a_bin_gives_the_peak(
    bins: Seq<BinMetrics>,
    sample_rate: u32,
    plan: Seq<usize>,
    band: int,
    count: int,
) -> (bin: int)
    ensures
        band_peak(bins, sample_rate, plan, band, count) != SILENCE_DBFS ==> {
            &&& 1 <= bin < count
            &&& audible(bin, sample_rate)
            &&& band_of(plan[bin]) == band
            &&& bins[bin].measurement_dbfs == band_peak(bins, sample_rate, plan, band, count)
        },
    decreases count,
{
    if count <= 1 {
        0
    } else {
        let earlier = a_bin_gives_the_peak(bins, sample_rate, plan, band, count - 1);
        if band_peak(bins, sample_rate, plan, band, count) == band_peak(
            bins,
            sample_rate,
            plan,
            band,
            count - 1,
        ) {
            earlier
        } else {
            count - 1
        }
    }
}

/// Every bin from 20 Hz on is heard in its band, or in the highest one if its own lies beyond
/// it: the level of the band is not below that of the bin, nor below silence.
pub proof fn every_bin_from_twenty_hertz_on_is_heard(
    levels: Seq<u32>,
    bins: Seq<BinMetrics>,
    sample_rate: u32,
    plan: Seq<usize>,
    bin: int,
    band: int,
)
    requires
        shows_bands(levels, bins, sample_rate, plan),
        1 <= bin < 1025,
        0 <= band < 96,
    ensures
        rank(levels[band]) >= rank(0xc2f0_0000),
        sample_rate > 40 && bin * sample_rate >= 20 * 2048 && (plan[bin] == band || (band == 95
            && plan[bin] >= 95)) && !is_nan(bins[bin].measurement_dbfs) ==> rank(levels[band])
            >= rank(bins[bin].measurement_dbfs),
{
    assert(LOWEST_FREQUENCY * FFT_SIZE == 20 * 2048);
    silence_is_below_the_band(bins, sample_rate, plan, band, SPECTRUM_BINS as int);
    if audible(bin, sample_rate) && band_of(plan[bin]) == band && !is_nan(
        bins[bin].measurement_dbfs,
    ) {
        every_audible_bin_reaches_the_history(levels, bins, sample_rate, plan, bin);
    }
}

proof fn silence_is_below_the_band(
    bins: Seq<BinMetrics>,
    sample_rate: u32,
    plan: Seq<usize>,
    band: int,
    count: int,
)
    ensures
        reaches(band_peak(bins, sample_rate, plan, band, count), SILENCE_DBFS),
    decreases count,
{
    if count > 1 {
        silence_is_below_the_band(bins, sample_rate, plan, band, count - 1);
        greater_is_an_upper_bound(
            band_peak(bins, sample_rate, plan, band, count - 1),
            bins[count - 1].measurement_dbfs,
        );
    }
}

/// The bands do not mix: the level of one depends only on the bins that are shown in it. If
/// two results agree on those, they agree on the band.
pub proof fn a_band_depends_on_its_own_bins(
    levels: Seq<u32>,
    bins: Seq<BinMetrics>,
    other_levels: Seq<u32>,
    other_bins: Seq<BinMetrics>,
    sample_rate: u32,
    plan: Seq<usize>,
    band: int,
)
    requires
        shows_bands(levels, bins, sample_rate, plan),
        shows_bands(other_levels, other_bins, sample_rate, plan),
        0 <= band < 96,
        forall|bin: int|
            1 <= bin < 1025 && bin * sample_rate >= 20 * 2048 && (plan[bin] == band || (band == 95
                && plan[bin] >= 95)) ==> (#[trigger] bins[bin]).measurement_dbfs
                == other_bins[bin].measurement_dbfs,
    ensures
        levels[band] == other_levels[band],
{
    assert(LOWEST_FREQUENCY * FFT_SIZE == 20 * 2048);
    equal_bins_give_equal_peaks(bins, other_bins, sample_rate, plan, band, SPECTRUM_BINS as int);
}

proof fn equal_bins_give_equal_peaks(
    bins: Seq<BinMetrics>,
    other_bins: Seq<BinMetrics>,
    sample_rate: u32,
    plan: Seq<usize>,
    band: int,
    count: int,
)
    requires
        forall|bin: int|
            1 <= bin < count && audible(bin, sample_rate) && band_of(plan[bin]) == band ==> (
            #[trigger] bins[bin]).measurement_dbfs == other_bins[bin].measurement_dbfs,
    ensures
        band_peak(bins, sample_rate, plan, band, count) == band_peak(
            other_bins,
            sample_rate,
            plan,
            band,
            count,
        ),
    decreases count,
{
    if count > 1 {
        equal_bins_give_equal_peaks(bins, other_bins, sample_rate, plan, band, count - 1);
        assert(bins[count - 1] == bins[count - 1]);
    }
}

/// The meter shows the new peak, what it showed before, or that level as it has fallen,
/// whichever applies: the peak at once if it is as high as what was shown, and then until the
/// new deadline; otherwise what was shown before, until the deadline has passed; and from
/// then on the higher of the peak and the fallen level.
pub proof fn what_the_meter_shows(
    before: PeakHold,
    peak_dbfs: u32,
    now: u64,
    deadline: u64,
    released: u32,
    after: PeakHold,
)
    requires
        before.updates(peak_dbfs, now, deadline, released, after),
        !is_nan(before.spec_held()),
        !is_nan(peak_dbfs),
        !is_nan(released),
    ensures
        after.spec_last_time() == now,
        rank(peak_dbfs) >= rank(before.spec_held()) ==> after.spec_held() == peak_dbfs
            && after.spec_hold_until() == deadline,
        rank(peak_dbfs) < rank(before.spec_held()) ==> after.spec_hold_until()
            == before.spec_hold_until(),
        rank(peak_dbfs) < rank(before.spec_held()) && !later(now, before.spec_hold_until())
            ==> after.spec_held() == before.spec_held(),
        rank(peak_dbfs) < rank(before.spec_held()) && later(now, before.spec_hold_until()) ==> {
            &&& after.spec_held() == peak_dbfs || after.spec_held() == released
            &&& rank(after.spec_held()) >= rank(peak_dbfs)
            &&& rank(after.spec_held()) >= rank(released)
        },
{
}

} // verus!
