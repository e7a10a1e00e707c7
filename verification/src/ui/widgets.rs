//! What the widgets show: the cells of the spectrogram, the lines of the level history,
//! the marks on a frequency axis and the zones of a meter.
use std::collections::VecDeque;

use vstd::prelude::*;

use crate::level::{greater, greater_is_an_upper_bound, is_nan, rank, reaches, take_greater};
use crate::model::SILENCE_DBFS;
use crate::ui::state::{HistoryPoint, HISTORY_SPECTRUM_BANDS, LOWEST_FREQUENCY};

verus! {

/// The column that a point is drawn in, if it is drawn at all.
pub open spec fn column_of(planned: Option<usize>, width: usize) -> Option<int> {
    match planned {
        None => None,
        Some(column) => Some(
            if column < width {
                column as int
            } else {
                width - 1
            },
        ),
    }
}

/// A point in the column, among the first `count`, follows a discontinuity.
pub open spec fn has_gap(
    points: Seq<HistoryPoint>,
    columns: Seq<Option<usize>>,
    width: usize,
    column: int,
    count: int,
) -> bool {
    exists|i: int|
        {
            &&& 0 <= i < count
            &&& (#[trigger] points[i]).gap
            &&& column_of(columns[i], width) == Some(column)
        }
}

/// The highest level in one band of the points in the column, among the first `count`.
pub open spec fn cell_peak(
    points: Seq<HistoryPoint>,
    columns: Seq<Option<usize>>,
    width: usize,
    column: int,
    band: int,
    count: int,
) -> u32
    decreases count,
{
    if count <= 0 {
        SILENCE_DBFS
    } else {
        let earlier = cell_peak(points, columns, width, column, band, count - 1);
        if column_of(columns[count - 1], width) == Some(column) {
            greater(earlier, points[count - 1].spectrum_dbfs@[band])
        } else {
            earlier
        }
    }
}

/// What a cell of the spectrogram shows: nothing in a column with a discontinuity, else
/// the highest level of its points.
pub open spec fn cell_level(
    points: Seq<HistoryPoint>,
    columns: Seq<Option<usize>>,
    width: usize,
    column: int,
    band: int,
    count: int,
) -> u32 {
    if has_gap(points, columns, width, column, points.len() as int) {
        SILENCE_DBFS
    } else {
        cell_peak(points, columns, width, column, band, count)
    }
}

/// Where a cell stands: row by row, the highest band in the first row.
pub open spec fn cell_index(width: usize, column: int, band: int) -> int {
    (HISTORY_SPECTRUM_BANDS - 1 - band) * width + column
}

proof fn cell_is_inside(width: usize, column: int, band: int)
    requires
        0 <= column < width,
        0 <= band < HISTORY_SPECTRUM_BANDS,
    ensures
        0 <= (HISTORY_SPECTRUM_BANDS - 1 - band) * width,
        0 <= cell_index(width, column, band) < width * HISTORY_SPECTRUM_BANDS,
{
    let row = HISTORY_SPECTRUM_BANDS - 1 - band;
    assert(0 <= row * width <= 95 * width) by (nonlinear_arith)
        requires
            0 <= row <= 95,
            0 <= width,
    ;
}

proof fn cells_are_apart(width: usize, column: int, band: int, other_column: int, other_band: int)
    requires
        0 <= column < width,
        0 <= other_column < width,
        cell_index(width, column, band) == cell_index(width, other_column, other_band),
    ensures
        column == other_column,
        band == other_band,
{
    let row = HISTORY_SPECTRUM_BANDS - 1 - band;
    let other_row = HISTORY_SPECTRUM_BANDS - 1 - other_band;
    assert(row == other_row) by (nonlinear_arith)
        requires
            row * width + column == other_row * width + other_column,
            0 <= column < width,
            0 <= other_column < width,
    ;
}

/// The levels are those of the spectrogram after the first `count` points, of the last
/// of which only the bands below `bands` have been drawn.
spec fn drawn(
    levels: Seq<u32>,
    points: Seq<HistoryPoint>,
    columns: Seq<Option<usize>>,
    width: usize,
    count: int,
    bands: int,
) -> bool {
    forall|column: int, band: int|
        0 <= column < width && 0 <= band < HISTORY_SPECTRUM_BANDS ==> levels[
        #[trigger] cell_index(width, column, band)] == cell_level(
            points,
            columns,
            width,
            column,
            band,
            if band < bands {
                count
            } else {
                count - 1
            },
        )
}

/// The levels of the cells of a spectrogram `width` columns wide. `columns` tells for
/// each point which column it is drawn in, if it is recent enough to be drawn; what is
/// beyond the last column is drawn in the last one.
pub fn spectrogram_levels(
    points: &VecDeque<HistoryPoint>,
    columns: &Vec<Option<usize>>,
    width: usize,
) -> (levels: Vec<u32>)
    requires
        columns@.len() == points@.len(),
        width * HISTORY_SPECTRUM_BANDS <= usize::MAX,
    ensures
        levels@.len() == width * HISTORY_SPECTRUM_BANDS,
        forall|column: int, band: int|
            0 <= column < width && 0 <= band < HISTORY_SPECTRUM_BANDS ==> levels@[
            #[trigger] cell_index(width, column, band)] == cell_level(
                points@,
                columns@,
                width,
                column,
                band,
                points@.len() as int,
            ),
{
    let cells: usize = width * HISTORY_SPECTRUM_BANDS;
    let mut levels: Vec<u32> = vec![SILENCE_DBFS; cells];
    if width == 0 {
        return levels;
    }
    let count: usize = points.len();
    let gap_columns: Vec<bool> = mark_gaps(points, columns, width);
    proof {
        assert forall|column: int, band: int|
            0 <= column < width && 0 <= band < HISTORY_SPECTRUM_BANDS implies levels@[
        #[trigger] cell_index(width, column, band)] == cell_level(
            points@,
            columns@,
            width,
            column,
            band,
            0,
        ) by {
            cell_is_inside(width, column, band);
        }
    }
    for index in 0..count
        invariant
            count == points@.len(),
            columns@.len() == points@.len(),
            width > 0,
            cells == width * HISTORY_SPECTRUM_BANDS,
            levels@.len() == cells,
            gap_columns@.len() == width,
            forall|column: int|
                0 <= column < width ==> #[trigger] gap_columns@[column] == has_gap(
                    points@,
                    columns@,
                    width,
                    column,
                    count as int,
                ),
            drawn(levels@, points@, columns@, width, index + 1, 0),
    {
        let target: usize = match columns[index] {
            None => width,
            Some(column) => if column < width {
                column
            } else {
                width - 1
            },
        };
        if target < width && !gap_columns[target] {
            draw_point(&mut levels, points, columns, width, index, target);
        }
        proof {
            assert forall|column: int, band: int|
                0 <= column < width && 0 <= band < HISTORY_SPECTRUM_BANDS implies levels@[
            #[trigger] cell_index(width, column, band)] == cell_level(
                points@,
                columns@,
                width,
                column,
                band,
                index + 1,
            ) by {
            }
        }
    }
    levels
}

/// Marks the columns in which a point follows a discontinuity.
fn mark_gaps(points: &VecDeque<HistoryPoint>, columns: &Vec<Option<usize>>, width: usize) -> (gaps:
    Vec<bool>)
    requires
        columns@.len() == points@.len(),
        width > 0,
    ensures
        gaps@.len() == width,
        forall|column: int|
            0 <= column < width ==> #[trigger] gaps@[column] == has_gap(
                points@,
                columns@,
                width,
                column,
                points@.len() as int,
            ),
{
    let mut gaps: Vec<bool> = vec![false; width];
    let count: usize = points.len();
    for index in 0..count
        invariant
            count == points@.len(),
            columns@.len() == points@.len(),
            width > 0,
            gaps@.len() == width,
            forall|column: int|
                0 <= column < width ==> #[trigger] gaps@[column] == has_gap(
                    points@,
                    columns@,
                    width,
                    column,
                    index as int,
                ),
    {
        let ghost before = gaps@;
        let gap: bool = points[index].gap;
        if gap {
            if let Some(column) = columns[index] {
                let target: usize = if column < width {
                    column
                } else {
                    width - 1
                };
                gaps[target] = true;
            }
        }
        proof {
            assert forall|column: int| 0 <= column < width implies #[trigger] gaps@[column]
                == has_gap(points@, columns@, width, column, index + 1) by {
                assert(before[column] == has_gap(points@, columns@, width, column, index as int));
                if gap && column_of(columns@[index as int], width) == Some(column) {
                    assert(points@[index as int].gap);
                }
            }
        }
    }
    gaps
}

/// Draws one point into its column, which has no discontinuity.
fn draw_point(
    levels: &mut Vec<u32>,
    points: &VecDeque<HistoryPoint>,
    columns: &Vec<Option<usize>>,
    width: usize,
    index: usize,
    target: usize,
)
    requires
        old(levels)@.len() == width * HISTORY_SPECTRUM_BANDS,
        width * HISTORY_SPECTRUM_BANDS <= usize::MAX,
        columns@.len() == points@.len(),
        index < points@.len(),
        target < width,
        column_of(columns@[index as int], width) == Some(target as int),
        !has_gap(points@, columns@, width, target as int, points@.len() as int),
        drawn(old(levels)@, points@, columns@, width, index + 1, 0),
    ensures
        final(levels)@.len() == old(levels)@.len(),
        drawn(
            final(levels)@,
            points@,
            columns@,
            width,
            index + 1,
            HISTORY_SPECTRUM_BANDS as int,
        ),
{
    proof {
        assert forall|column: int, band: int|
            0 <= column < width && column != target && 0 <= band
                < HISTORY_SPECTRUM_BANDS implies levels@[
        #[trigger] cell_index(width, column, band)] == cell_level(
            points@,
            columns@,
            width,
            column,
            band,
            index + 1,
        ) by {
        }
    }
    for band in 0..HISTORY_SPECTRUM_BANDS
        invariant
            levels@.len() == width * HISTORY_SPECTRUM_BANDS,
            width * HISTORY_SPECTRUM_BANDS <= usize::MAX,
            columns@.len() == points@.len(),
            index < points@.len(),
            target < width,
            column_of(columns@[index as int], width) == Some(target as int),
            !has_gap(points@, columns@, width, target as int, points@.len() as int),
            drawn(levels@, points@, columns@, width, index + 1, band as int),
    {
        proof {
            cell_is_inside(width, target as int, band as int);
        }
        let row: usize = HISTORY_SPECTRUM_BANDS - 1 - band;
        let cell: usize = row * width + target;
        let ghost before = levels@;
        let level: u32 = points[index].spectrum_dbfs[band];
        assert(cell == cell_index(width, target as int, band as int));
        levels[cell] = take_greater(levels[cell], level);
        proof {
            assert forall|column: int, other: int|
                0 <= column < width && 0 <= other < HISTORY_SPECTRUM_BANDS implies levels@[
            #[trigger] cell_index(width, column, other)] == cell_level(
                points@,
                columns@,
                width,
                column,
                other,
                if other < band + 1 {
                    index + 1
                } else {
                    index as int
                },
            ) by {
                cell_is_inside(width, column, other);
                if cell_index(width, column, other) == cell {
                    cells_are_apart(width, column, other, target as int, band as int);
                } else {
                    assert(levels@[cell_index(width, column, other)] == before[cell_index(
                        width,
                        column,
                        other,
                    )]);
                }
            }
        }
    }
}

/// No peak is lost in the spectrogram: in a column without a discontinuity, each cell
/// reaches the level of every point that is drawn there.
pub proof fn every_drawn_point_reaches_its_cell(
    points: Seq<HistoryPoint>,
    columns: Seq<Option<usize>>,
    width: usize,
    column: int,
    band: int,
    point: int,
)
    requires
        0 <= point < points.len(),
        column_of(columns[point], width) == Some(column),
        !has_gap(points, columns, width, column, points.len() as int),
        !is_nan(points[point].spectrum_dbfs@[band]),
    ensures
        reaches(
            cell_level(points, columns, width, column, band, points.len() as int),
            points[point].spectrum_dbfs@[band],
        ),
{
    earlier_points_reach_the_cell(
        points,
        columns,
        width,
        column,
        band,
        point,
        points.len() as int,
    );
}

proof fn earlier_points_reach_the_cell(
    points: Seq<HistoryPoint>,
    columns: Seq<Option<usize>>,
    width: usize,
    column: int,
    band: int,
    point: int,
    count: int,
)
    requires
        0 <= point < count,
        column_of(columns[point], width) == Some(column),
        !is_nan(points[point].spectrum_dbfs@[band]),
    ensures
        reaches(
            cell_peak(points, columns, width, column, band, count),
            points[point].spectrum_dbfs@[band],
        ),
    decreases count,
{
    if point < count - 1 {
        earlier_points_reach_the_cell(points, columns, width, column, band, point, count - 1);
    }
    greater_is_an_upper_bound(
        cell_peak(points, columns, width, column, band, count - 1),
        points[count - 1].spectrum_dbfs@[band],
    );
}

/// The points that a point of the level history is joined to by a line: one for the
/// measured level, and one for the level it is compared with.
#[derive(Clone, Copy, Debug, PartialEq, Eq, Structural)]
pub struct HistoryLines {
    pub measurement_from: Option<usize>,
    pub reference_from: Option<usize>,
}

/// The last visible point before `index`.
pub open spec fn previous_visible(visible: Seq<bool>, index: int) -> Option<usize>
    decreases index,
{
    if index <= 0 {
        None
    } else if visible[index - 1] {
        Some((index - 1) as usize)
    } else {
        previous_visible(visible, index - 1)
    }
}

/// The lines that end at a point. A visible point is joined to the visible one before
/// it, unless it follows a discontinuity. For the level it is compared with, both need
/// to have one.
pub open spec fn lines_to(
    points: Seq<HistoryPoint>,
    visible: Seq<bool>,
    index: int,
) -> HistoryLines {
    if !visible[index] || points[index].gap {
        HistoryLines { measurement_from: None, reference_from: None }
    } else {
        let previous = previous_visible(visible, index);
        HistoryLines {
            measurement_from: previous,
            reference_from: match previous {
                Some(from) => if points[index].reference_rms is Some
                    && points[from as int].reference_rms is Some {
                    previous
                } else {
                    None
                },
                None => None,
            },
        }
    }
}

proof fn previous_is_before(visible: Seq<bool>, index: int)
    requires
        0 <= index <= usize::MAX,
    ensures
        previous_visible(visible, index) matches Some(from) ==> from < index && visible[from as int],
    decreases index,
{
    if index > 0 && !visible[index - 1] {
        previous_is_before(visible, index - 1);
    }
}

/// The lines of the level history. `visible` tells which points are recent enough to be
/// drawn.
pub fn history_lines(points: &VecDeque<HistoryPoint>, visible: &Vec<bool>) -> (lines: Vec<
    HistoryLines,
>)
    requires
        visible@.len() == points@.len(),
    ensures
        lines@.len() == points@.len(),
        forall|index: int|
            0 <= index < points@.len() ==> #[trigger] lines@[index] == lines_to(
                points@,
                visible@,
                index,
            ),
{
    let mut lines: Vec<HistoryLines> = Vec::new();
    let mut previous: Option<usize> = None;
    let count: usize = points.len();
    for index in 0..count
        invariant
            count == points@.len(),
            visible@.len() == points@.len(),
            lines@.len() == index,
            previous == previous_visible(visible@, index as int),
            forall|i: int|
                0 <= i < index ==> #[trigger] lines@[i] == lines_to(points@, visible@, i),
    {
        proof {
            previous_is_before(visible@, index as int);
        }
        let mut line = HistoryLines { measurement_from: None, reference_from: None };
        if visible[index] {
            if !points[index].gap {
                line.measurement_from = previous;
                if let Some(from) = previous {
                    if points[index].reference_rms.is_some() && points[from].reference_rms.is_some() {
                        line.reference_from = previous;
                    }
                }
            }
            previous = Some(index);
        }
        lines.push(line);
    }
    lines
}

/// No line of the level history crosses a discontinuity: whatever lies between its two
/// ends is not drawn, and its end follows none.
pub proof fn no_line_crosses_a_discontinuity(
    points: Seq<HistoryPoint>,
    visible: Seq<bool>,
    index: int,
)
    requires
        0 <= index < points.len() <= usize::MAX,
        visible.len() == points.len(),
    ensures
        lines_to(points, visible, index).measurement_from matches Some(from) ==> {
            &&& from < index
            &&& visible[from as int] && visible[index]
            &&& forall|i: int| from < i <= index && #[trigger] visible[i] ==> !points[i].gap
        },
{
    previous_is_before(visible, index);
    nothing_visible_between(visible, index);
}

proof fn nothing_visible_between(visible: Seq<bool>, index: int)
    requires
        0 <= index <= usize::MAX,
    ensures
        previous_visible(visible, index) matches Some(from) ==> forall|i: int|
            from < i < index ==> !#[trigger] visible[i],
    decreases index,
{
    if index > 0 && !visible[index - 1] {
        nothing_visible_between(visible, index - 1);
    }
}

/// The first `count` of `frequencies`, in Hz, that an input of this sample rate covers.
/// They are given in half Hz, as are all marks.
pub open spec fn covered(frequencies: Seq<u64>, sample_rate: u32, count: int) -> Seq<u64>
    decreases count,
{
    if count <= 0 {
        Seq::empty()
    } else {
        let earlier = covered(frequencies, sample_rate, count - 1);
        if 2 * frequencies[count - 1] <= sample_rate {
            earlier.push((2 * frequencies[count - 1]) as u64)
        } else {
            earlier
        }
    }
}

/// The marks: the frequencies that are covered, and the upper limit, unless the last
/// mark is within a thousandth of it.
pub open spec fn marks(frequencies: Seq<u64>, sample_rate: u32) -> Seq<u64> {
    let inside = covered(frequencies, sample_rate, frequencies.len() as int);
    if inside.len() > 0 && 1000 * (sample_rate - inside.last()) <= sample_rate {
        inside
    } else {
        inside.push(sample_rate as u64)
    }
}

/// The frequencies marked on the spectrogram.
pub open spec fn history_marks() -> Seq<u64> {
    seq![20, 100, 1_000, 10_000, 20_000, 50_000, 100_000]
}

/// The frequencies marked on the plot.
pub open spec fn plot_marks() -> Seq<u64> {
    seq![20, 50, 100, 200, 500, 1_000, 2_000, 5_000, 10_000, 20_000, 50_000, 100_000, 200_000]
}

proof fn covered_marks_fit(frequencies: Seq<u64>, sample_rate: u32, count: int)
    ensures
        forall|i: int|
            0 <= i < covered(frequencies, sample_rate, count).len() ==> #[trigger] covered(
                frequencies,
                sample_rate,
                count,
            )[i] <= sample_rate,
    decreases count,
{
    if count > 0 {
        covered_marks_fit(frequencies, sample_rate, count - 1);
        let earlier = covered(frequencies, sample_rate, count - 1);
        let all = covered(frequencies, sample_rate, count);
        assert forall|i: int| 0 <= i < all.len() implies #[trigger] all[i] <= sample_rate by {
            if i < earlier.len() {
                assert(all[i] == earlier[i]);
            }
        }
    }
}

fn mark_frequencies(frequencies: &[u64], sample_rate: u32) -> (result: Vec<u64>)
    requires
        forall|i: int| 0 <= i < frequencies@.len() ==> #[trigger] frequencies@[i] <= 0xffff_ffff,
    ensures
        result@ == marks(frequencies@, sample_rate),
{
    let mut result: Vec<u64> = Vec::new();
    let limit: u64 = sample_rate as u64;
    let count: usize = frequencies.len();
    for index in 0..count
        invariant
            count == frequencies@.len(),
            limit == sample_rate,
            forall|i: int| 0 <= i < count ==> #[trigger] frequencies@[i] <= 0xffff_ffff,
            result@ == covered(frequencies@, sample_rate, index as int),
    {
        let mark: u64 = 2 * frequencies[index];
        if mark <= limit {
            result.push(mark);
        }
    }
    proof {
        covered_marks_fit(frequencies@, sample_rate, count as int);
    }
    let near: bool = if result.len() == 0 {
        false
    } else {
        1000 * (limit - result[result.len() - 1]) <= limit
    };
    if !near {
        result.push(limit);
    }
    result
}

/// The marks on the frequency axis of the spectrogram, of which there are none if no
/// frequency is shown.
pub fn history_frequency_ticks(sample_rate: u32) -> (ticks: Vec<u64>)
    ensures
        ticks@ == (if sample_rate <= 2 * LOWEST_FREQUENCY {
            Seq::<u64>::empty()
        } else {
            marks(history_marks(), sample_rate)
        }),
{
    if sample_rate as u64 <= 2 * LOWEST_FREQUENCY {
        return Vec::new();
    }
    let frequencies: [u64; 7] = [20, 100, 1_000, 10_000, 20_000, 50_000, 100_000];
    assert(frequencies@ =~= history_marks());
    mark_frequencies(&frequencies, sample_rate)
}

/// The marks on the frequency axis of the plot.
pub fn frequency_grid_marks(sample_rate: u32) -> (grid: Vec<u64>)
    ensures
        grid@ == marks(plot_marks(), sample_rate),
{
    let frequencies: [u64; 13] = [
        20,
        50,
        100,
        200,
        500,
        1_000,
        2_000,
        5_000,
        10_000,
        20_000,
        50_000,
        100_000,
        200_000,
    ];
    assert(frequencies@ =~= plot_marks());
    mark_frequencies(&frequencies, sample_rate)
}

/// No mark lies beyond the upper limit, and the last one is within a thousandth of it.
pub proof fn marks_reach_the_upper_limit(frequencies: Seq<u64>, sample_rate: u32)
    ensures
        marks(frequencies, sample_rate).len() > 0,
        1000 * (sample_rate - marks(frequencies, sample_rate).last()) <= sample_rate,
        forall|i: int|
            0 <= i < marks(frequencies, sample_rate).len() ==> #[trigger] marks(
                frequencies,
                sample_rate,
            )[i] <= sample_rate,
{
    covered_marks_fit(frequencies, sample_rate, frequencies.len() as int);
}

/// Segments of a level meter.
pub const METER_SEGMENTS: usize = 24;

/// How a segment of a meter is coloured.
#[derive(Clone, Copy, Debug, PartialEq, Eq, Structural)]
pub enum MeterZone {
    Normal,
    High,
    Clip,
}

/// The zone of a segment: the last one warns of clipping, the others above nine tenths
/// of the scale of a high level.
pub fn meter_zone(segment: usize) -> (zone: MeterZone)
    requires
        segment < METER_SEGMENTS,
    ensures
        zone == (if segment == METER_SEGMENTS - 1 {
            MeterZone::Clip
        } else if 10 * segment > 9 * METER_SEGMENTS {
            MeterZone::High
        } else {
            MeterZone::Normal
        }),
        zone is Clip <==> segment == 23,
        zone is High <==> segment == 22,
{
    if segment == METER_SEGMENTS - 1 {
        MeterZone::Clip
    } else if 10 * segment > 9 * METER_SEGMENTS {
        MeterZone::High
    } else {
        MeterZone::Normal
    }
}

/// A cell shows what is drawn in its column, and what is drawn elsewhere does not matter: if
/// no point of the column follows a discontinuity, it shows the highest level that they have
/// in its band, whatever gaps there are in other columns. If one does, it shows silence. A
/// point is drawn in the column that was planned for it, or in the last one if that lies
/// beyond it.
pub proof fn a_cell_shows_the_points_of_its_column(
    points: Seq<HistoryPoint>,
    columns: Seq<Option<usize>>,
    width: usize,
    column: int,
    band: int,
)
    requires
        columns.len() == points.len(),
        0 <= column < width,
    ensures
        ({
            let shown = cell_level(points, columns, width, column, band, points.len() as int);
            let broken = exists|i: int|
                0 <= i < points.len() && (#[trigger] points[i]).gap && drawn_in(
                    columns[i],
                    width,
                    column,
                );
            &&& broken ==> shown == 0xc2f0_0000
            &&& !broken ==> rank(shown) >= rank(0xc2f0_0000) && !is_nan(shown)
            &&& !broken ==> forall|i: int|
                0 <= i < points.len() && drawn_in(columns[i], width, column) && !is_nan(
                    (#[trigger] points[i]).spectrum_dbfs@[band],
                ) ==> rank(shown) >= rank(points[i].spectrum_dbfs@[band])
            &&& shown == 0xc2f0_0000 || exists|i: int|
                0 <= i < points.len() && drawn_in(columns[i], width, column) && (
                #[trigger] points[i]).spectrum_dbfs@[band] == shown
        }),
{
    let count = points.len() as int;
    let shown = cell_level(points, columns, width, column, band, count);
    assert forall|i: int| 0 <= i < points.len() implies (drawn_in(columns[i], width, column)
        <==> column_of((#[trigger] columns[i]), width) == Some(column)) by {}
    let broken = exists|i: int|
        0 <= i < points.len() && (#[trigger] points[i]).gap && drawn_in(columns[i], width, column);
    assert(broken <==> has_gap(points, columns, width, column, count)) by {
        if broken {
            let i = choose|i: int|
                0 <= i < points.len() && (#[trigger] points[i]).gap && drawn_in(
                    columns[i],
                    width,
                    column,
                );
            assert(points[i].gap && column_of(columns[i], width) == Some(column));
        }
        if has_gap(points, columns, width, column, count) {
            let i = choose|i: int|
                0 <= i < count && (#[trigger] points[i]).gap && column_of(columns[i], width)
                    == Some(column);
            assert(points[i].gap && drawn_in(columns[i], width, column));
        }
    }
    silence_is_below_the_cell(points, columns, width, column, band, count);
    if !broken {
        assert forall|i: int|
            0 <= i < points.len() && drawn_in(columns[i], width, column) && !is_nan(
                (#[trigger] points[i]).spectrum_dbfs@[band],
            ) implies rank(shown) >= rank(points[i].spectrum_dbfs@[band]) by {
            earlier_points_reach_the_cell(points, columns, width, column, band, i, count);
        }
        let at = a_point_gives_the_cell(points, columns, width, column, band, count);
        if shown != 0xc2f0_0000 {
            assert(points[at].spectrum_dbfs@[band] == shown && drawn_in(
                columns[at],
                width,
                column,
            ));
        }
    }
}

/// A point for which this column was planned is drawn in the column.
pub open spec fn drawn_in(planned: Option<usize>, width: usize, column: int) -> bool {
    planned matches Some(target) && (target == column || (target >= width && column == width - 1))
}

proof fn silence_is_below_the_cell(
    points: Seq<HistoryPoint>,
    columns: Seq<Option<usize>>,
    width: usize,
    column: int,
    band: int,
    count: int,
)
    ensures
        reaches(cell_peak(points, columns, width, column, band, count), SILENCE_DBFS),
    decreases count,
{
    if count > 0 {
        silence_is_below_the_cell(points, columns, width, column, band, count - 1);
        greater_is_an_upper_bound(
            cell_peak(points, columns, width, column, band, count - 1),
            points[count - 1].spectrum_dbfs@[band],
        );
    }
}

proof fn a_point_gives_the_cell(
    points: Seq<HistoryPoint>,
    columns: Seq<Option<usize>>,
    width: usize,
    column: int,
    band: int,
    count: int,
) -> (at: int)
    ensures
        cell_peak(points, columns, width, column, band, count) != SILENCE_DBFS ==> {
            &&& 0 <= at < count
            &&& column_of(columns[at], width) == Some(column)
            &&& points[at].spectrum_dbfs@[band] == cell_peak(
                points,
                columns,
                width,
                column,
                band,
                count,
            )
        },
    decreases count,
{
    if count <= 0 {
        0
    } else {
        let earlier = a_point_gives_the_cell(points, columns, width, column, band, count - 1);
        if cell_peak(points, columns, width, column, band, count) == cell_peak(
            points,
            columns,
            width,
            column,
            band,
            count - 1,
        ) {
            earlier
        } else {
            count - 1
        }
    }
}

/// A column depends only on its own points: two histories drawn at the same places that agree
/// on the points of one column show the same there, however they differ elsewhere.
pub proof fn columns_do_not_mix(
    points: Seq<HistoryPoint>,
    others: Seq<HistoryPoint>,
    columns: Seq<Option<usize>>,
    width: usize,
    column: int,
    band: int,
)
    requires
        columns.len() == points.len(),
        others.len() == points.len(),
        0 <= column < width,
        forall|i: int|
            0 <= i < points.len() && drawn_in(columns[i], width, column) ==> #[trigger] points[i]
                == others[i],
    ensures
        cell_level(points, columns, width, column, band, points.len() as int) == cell_level(
            others,
            columns,
            width,
            column,
            band,
            points.len() as int,
        ),
{
    let count = points.len() as int;
    if has_gap(points, columns, width, column, count) {
        let i = choose|i: int|
            0 <= i < count && (#[trigger] points[i]).gap && column_of(columns[i], width) == Some(
                column,
            );
        assert(drawn_in(columns[i], width, column));
        assert(others[i].gap);
    }
    if has_gap(others, columns, width, column, count) {
        let i = choose|i: int|
            0 <= i < count && (#[trigger] others[i]).gap && column_of(columns[i], width) == Some(
                column,
            );
        assert(drawn_in(columns[i], width, column));
        assert(points[i].gap);
    }
    equal_points_give_equal_cells(points, others, columns, width, column, band, count);
}

proof fn equal_points_give_equal_cells(
    points: Seq<HistoryPoint>,
    others: Seq<HistoryPoint>,
    columns: Seq<Option<usize>>,
    width: usize,
    column: int,
    band: int,
    count: int,
)
    requires
        0 <= count <= points.len(),
        0 <= column < width,
        forall|i: int|
            0 <= i < points.len() && drawn_in(columns[i], width, column) ==> #[trigger] points[i]
                == others[i],
    ensures
        cell_peak(points, columns, width, column, band, count) == cell_peak(
            others,
            columns,
            width,
            column,
            band,
            count,
        ),
    decreases count,
{
    if count > 0 {
        equal_points_give_equal_cells(points, others, columns, width, column, band, count - 1);
        if column_of(columns[count - 1], width) == Some(column) {
            assert(drawn_in(columns[count - 1], width, column));
            assert(points[count - 1] == others[count - 1]);
        }
    }
}

/// The cells fill the picture: each cell has a place of its own, one to the right for the next
/// column, and one row higher up for the next band, from the lowest band in the last row to
/// the highest one in the first.
pub proof fn each_cell_has_its_place(width: usize, column: int, band: int)
    requires
        0 <= column < width,
        0 <= band < 96,
    ensures
        0 <= cell_index(width, column, band) < width * 96,
        cell_index(width, column, band) % width as int == column,
        cell_index(width, column + 1, band) == cell_index(width, column, band) + 1,
        cell_index(width, column, band + 1) == cell_index(width, column, band) - width,
        band == 95 ==> cell_index(width, column, band) == column,
{
    cell_is_inside(width, column, band);
    let row = 95 - band;
    assert((row * width + column) % (width as int) == column) by (nonlinear_arith)
        requires
            0 <= column < width,
            0 <= row,
    ;
    assert((row - 1) * width == row * width - width) by (nonlinear_arith);
    if band == 95 {
        assert(row * width == 0) by (nonlinear_arith)
            requires
                row == 0,
        ;
    }
}

/// A line of the measured level ends at a point exactly if it is visible, follows no
/// discontinuity, and some earlier point is visible; it starts at the nearest of these. One
/// of the compared level goes along with it exactly if both ends have such a level.
pub proof fn which_points_are_joined(
    points: Seq<HistoryPoint>,
    visible: Seq<bool>,
    index: int,
    from: int,
)
    requires
        0 <= from < index < points.len() <= usize::MAX,
        visible.len() == points.len(),
    ensures
        ({
            let lines = lines_to(points, visible, index);
            &&& lines.measurement_from == Some(from as usize) <==> {
                &&& visible[index]
                &&& !points[index].gap
                &&& visible[from]
                &&& forall|i: int| from < i < index ==> !#[trigger] visible[i]
            }
            &&& lines.reference_from == Some(from as usize) <==> {
                &&& lines.measurement_from == Some(from as usize)
                &&& points[index].reference_rms is Some
                &&& points[from].reference_rms is Some
            }
            &&& lines.measurement_from is None <==> {
                ||| !visible[index]
                ||| points[index].gap
                ||| forall|i: int| 0 <= i < index ==> !#[trigger] visible[i]
            }
        }),
{
    previous_is_before(visible, index);
    nothing_visible_between(visible, index);
    a_visible_point_is_found(visible, index);
    if visible[from] && forall|i: int| from < i < index ==> !#[trigger] visible[i] {
        let found = previous_visible(visible, index)->0 as int;
        assert(visible[found]);
        assert(found == from);
    }
}

proof fn a_visible_point_is_found(visible: Seq<bool>, index: int)
    requires
        0 <= index <= usize::MAX,
    ensures
        previous_visible(visible, index) is None ==> forall|i: int|
            0 <= i < index ==> !#[trigger] visible[i],
    decreases index,
{
    if index > 0 && !visible[index - 1] {
        a_visible_point_is_found(visible, index - 1);
    }
}

/// A frequency of the list is marked exactly if it is not above half of the sample rate, and
/// nothing else is marked but that half itself. They are marked in the order of the list.
pub proof fn which_frequencies_are_marked(frequencies: Seq<u64>, sample_rate: u32, mark: u64)
    requires
        forall|i: int| 0 <= i < frequencies.len() ==> #[trigger] frequencies[i] <= 0xffff_ffff,
        mark != sample_rate,
    ensures
        marks(frequencies, sample_rate).contains(mark) <==> mark <= sample_rate && exists|i: int|
            0 <= i < frequencies.len() && 2 * #[trigger] frequencies[i] == mark,
        (forall|i: int, j: int|
            0 <= i < j < frequencies.len() ==> frequencies[i] < frequencies[j]) ==> forall|
            i: int,
            j: int,
        |
            0 <= i < j < marks(frequencies, sample_rate).len() ==> marks(
                frequencies,
                sample_rate,
            )[i] <= marks(frequencies, sample_rate)[j],
{
    let count = frequencies.len() as int;
    let inside = covered(frequencies, sample_rate, count);
    let all = marks(frequencies, sample_rate);
    what_is_covered(frequencies, sample_rate, count, mark);
    covered_marks_fit(frequencies, sample_rate, count);
    if inside.contains(mark) {
        let i = choose|i: int| 0 <= i < inside.len() && inside[i] == mark;
        assert(all[i] == mark);
    }
    if all.contains(mark) {
        let i = choose|i: int| 0 <= i < all.len() && all[i] == mark;
        assert(i < inside.len());
        assert(inside[i] == mark);
    }
    if forall|i: int, j: int|
        0 <= i < j < frequencies.len() ==> frequencies[i] < frequencies[j] {
        covered_marks_ascend(frequencies, sample_rate, count);
        assert forall|i: int, j: int| 0 <= i < j < all.len() implies all[i] <= all[j] by {
            assert(all[i] == inside[i]);
            if j < inside.len() {
                assert(all[j] == inside[j]);
            }
        }
    }
}

proof fn what_is_covered(frequencies: Seq<u64>, sample_rate: u32, count: int, mark: u64)
    requires
        0 <= count <= frequencies.len(),
        forall|i: int| 0 <= i < frequencies.len() ==> #[trigger] frequencies[i] <= 0xffff_ffff,
    ensures
        covered(frequencies, sample_rate, count).contains(mark) <==> mark <= sample_rate && exists|
            i: int,
        |
            0 <= i < count && 2 * #[trigger] frequencies[i] == mark,
    decreases count,
{
    if count > 0 {
        what_is_covered(frequencies, sample_rate, count - 1, mark);
        let earlier = covered(frequencies, sample_rate, count - 1);
        let all = covered(frequencies, sample_rate, count);
        let newest = frequencies[count - 1];
        if earlier.contains(mark) {
            let i = choose|i: int| 0 <= i < earlier.len() && earlier[i] == mark;
            assert(all[i] == mark);
        }
        if all.contains(mark) && !earlier.contains(mark) {
            let i = choose|i: int| 0 <= i < all.len() && all[i] == mark;
            if i < earlier.len() {
                assert(earlier[i] == mark);
            }
            assert(2 * frequencies[count - 1] == mark);
        }
        if 2 * newest == mark && mark <= sample_rate {
            assert(all[all.len() - 1] == mark);
        }
        if exists|i: int| 0 <= i < count && 2 * #[trigger] frequencies[i] == mark {
            let i = choose|i: int| 0 <= i < count && 2 * #[trigger] frequencies[i] == mark;
            if i < count - 1 {
                assert(2 * frequencies[i] == mark);
            }
        }
    }
}

proof fn covered_marks_ascend(frequencies: Seq<u64>, sample_rate: u32, count: int)
    requires
        0 <= count <= frequencies.len(),
        forall|i: int| 0 <= i < frequencies.len() ==> #[trigger] frequencies[i] <= 0xffff_ffff,
        forall|i: int, j: int|
            0 <= i < j < frequencies.len() ==> frequencies[i] < frequencies[j],
    ensures
        forall|i: int, j: int|
            0 <= i < j < covered(frequencies, sample_rate, count).len() ==> covered(
                frequencies,
                sample_rate,
                count,
            )[i] < covered(frequencies, sample_rate, count)[j],
        forall|i: int|
            0 <= i < covered(frequencies, sample_rate, count).len() ==> count > 0
                && #[trigger] covered(frequencies, sample_rate, count)[i] <= 2 * frequencies[count
                - 1],
    decreases count,
{
    if count > 0 {
        covered_marks_ascend(frequencies, sample_rate, count - 1);
        let earlier = covered(frequencies, sample_rate, count - 1);
        let all = covered(frequencies, sample_rate, count);
        assert forall|i: int| 0 <= i < all.len() implies #[trigger] all[i] <= 2 * frequencies[count
            - 1] by {
            if i < earlier.len() {
                assert(all[i] == earlier[i]);
                assert(frequencies[count - 2] < frequencies[count - 1]);
            }
        }
        assert forall|i: int, j: int| 0 <= i < j < all.len() implies all[i] < all[j] by {
            assert(all[i] == earlier[i]);
            if j < earlier.len() {
                assert(all[j] == earlier[j]);
            } else {
                assert(frequencies[count - 2] < frequencies[count - 1]);
            }
        }
    }
}

/// The upper limit is marked, unless a frequency within a thousandth below it already is.
pub proof fn when_the_upper_limit_is_marked(frequencies: Seq<u64>, sample_rate: u32)
    requires
        forall|i: int| 0 <= i < frequencies.len() ==> #[trigger] frequencies[i] <= 0xffff_ffff,
        forall|i: int, j: int|
            0 <= i < j < frequencies.len() ==> frequencies[i] < frequencies[j],
    ensures
        marks(frequencies, sample_rate).last() == sample_rate <==> forall|i: int|
            0 <= i < frequencies.len() && 2 * frequencies[i] < sample_rate ==> 1000 * (sample_rate
                - 2 * #[trigger] frequencies[i]) > sample_rate || exists|j: int|
                0 <= j < frequencies.len() && 2 * #[trigger] frequencies[j] == sample_rate,
{
    let count = frequencies.len() as int;
    let inside = covered(frequencies, sample_rate, count);
    covered_marks_fit(frequencies, sample_rate, count);
    covered_marks_ascend(frequencies, sample_rate, count);
    let limit = sample_rate as u64;
    what_is_covered(frequencies, sample_rate, count, limit);
    if inside.len() > 0 {
        let top = inside.last();
        assert(inside.contains(top));
        what_is_covered(frequencies, sample_rate, count, top);
        if inside.contains(limit) {
            let i = choose|i: int| 0 <= i < inside.len() && inside[i] == limit;
            assert(inside[i] <= top);
        } else {
            let at = choose|i: int| 0 <= i < count && 2 * #[trigger] frequencies[i] == top;
            assert(2 * frequencies[at] == top);
        }
    }
    assert forall|i: int| 0 <= i < count && 2 * frequencies[i] < sample_rate implies inside.len()
        > 0 && 2 * #[trigger] frequencies[i] <= inside.last() by {
        let mark = (2 * frequencies[i]) as u64;
        what_is_covered(frequencies, sample_rate, count, mark);
        assert(inside.contains(mark));
        let at = choose|at: int| 0 <= at < inside.len() && inside[at] == mark;
        if at < inside.len() - 1 {
            assert(inside[at] < inside[inside.len() - 1]);
        }
    }
}

/// The frequencies on the plot are 1, 2 and 5 times the powers of ten, from 20 Hz to 200 kHz:
/// each is that of three places before, times ten. Those on the spectrogram are among them.
pub proof fn the_marked_frequencies_go_by_decades()
    ensures
        plot_marks().len() == 13,
        plot_marks()[0] == 20 && plot_marks()[1] == 50 && plot_marks()[2] == 100,
        forall|i: int| 3 <= i < 13 ==> #[trigger] plot_marks()[i] == 10 * plot_marks()[i - 3],
        forall|i: int|
            0 <= i < history_marks().len() ==> plot_marks().contains(#[trigger] history_marks()[i]),
        forall|i: int, j: int|
            0 <= i < j < history_marks().len() ==> history_marks()[i] < history_marks()[j],
        forall|frequency: u64|
            history_marks().contains(frequency) <==> frequency == 20 || frequency == 50_000
                || frequency == 20_000 || (frequency == 100 || frequency == 1_000 || frequency
                == 10_000 || frequency == 100_000),
{
    let plot = plot_marks();
    let history = history_marks();
    assert(plot[0] == 20 && plot[2] == 100 && plot[5] == 1_000 && plot[8] == 10_000 && plot[9]
        == 20_000 && plot[10] == 50_000 && plot[11] == 100_000);
    assert(history[0] == 20 && history[1] == 100 && history[2] == 1_000 && history[3] == 10_000
        && history[4] == 20_000 && history[5] == 50_000 && history[6] == 100_000);
}

} // verus!
