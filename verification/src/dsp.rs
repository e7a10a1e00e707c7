//! From blocks to overlapping analysis windows, and from the numbers computed for a
//! window to the snapshot that is shown.
//!
//! The spectra themselves are computed elsewhere, in floating point. What is decided
//! here is which frames form a window, how windows follow each other, and which of
//! the computed numbers are reported.
use vstd::prelude::*;

use crate::capture::{counted_on, counts_add_up, wrapping_add_counts_on};
use crate::level::{above, greater, is_above, magnitude, take_greater, take_magnitude};
use crate::model::{
    AnalysisSnapshot, AudioBlock, BinMetrics, SignalLevel, StereoFrame, FFT_SIZE, HOP_SIZE,
    SILENCE_DBFS, SPECTRUM_BINS, VECTOR_SCOPE_POINTS,
};

verus! {

/// Bit pattern of 1.0e-20, the power that counts as none.
pub const POWER_EPSILON: u32 = 0x1e3c_e508;

/// What is known of a window before its spectra are computed.
#[derive(Clone, Copy, Debug, PartialEq, Eq, Structural)]
pub struct AnalysisWindow {
    pub sequence: u64,
    pub window_start_frame: u64,
    pub sample_rate: u32,
    pub route_generation: u64,
    pub has_reference: bool,
    /// No average reaches into this window: its powers replace those of earlier
    /// windows instead of being blended with them.
    pub restarts_average: bool,
}

/// Cuts the captured frames into windows that overlap by half.
#[derive(Debug)]
pub struct SpectrumAnalyzer {
    sample_rate: u32,
    samples: Vec<StereoFrame>,
    window: Vec<StereoFrame>,
    averaging_initialized: bool,
    expected_input_frame: Option<u64>,
    window_start_frame: u64,
    route_generation: Option<u64>,
    sequence: u64,
}

impl SpectrumAnalyzer {
    /// Fewer frames are held than a window takes, they are the ones right before the
    /// next expected frame, and after a window they begin with its second half.
    pub closed spec fn wf(self) -> bool {
        &&& self.samples@.len() < FFT_SIZE
        &&& self.samples@.len() > 0 ==> self.expected_input_frame == Some(
            counted_on(self.window_start_frame, self.samples@.len() as int),
        )
        &&& self.averaging_initialized ==> {
            &&& self.window@.len() == FFT_SIZE
            &&& self.samples@.len() >= HOP_SIZE
            &&& self.samples@.take(HOP_SIZE as int) == self.window@.skip(HOP_SIZE as int)
        }
    }

    pub closed spec fn sample_rate(self) -> u32 {
        self.sample_rate
    }

    /// The frames held for the next window.
    pub closed spec fn samples(self) -> Seq<StereoFrame> {
        self.samples@
    }

    /// The frames of the last complete window.
    pub closed spec fn window(self) -> Seq<StereoFrame> {
        self.window@
    }

    /// A window was completed since the history was last dropped.
    pub closed spec fn averages(self) -> bool {
        self.averaging_initialized
    }

    /// Number of the frame that continues the input.
    pub closed spec fn expected_frame(self) -> Option<u64> {
        self.expected_input_frame
    }

    /// Generation of the route of the last block.
    pub closed spec fn generation(self) -> Option<u64> {
        self.route_generation
    }

    /// Number that the next window gets.
    pub closed spec fn sequence(self) -> u64 {
        self.sequence
    }

    /// The block does not continue the frames held: frames are missing before it, or
    /// it was captured under another route.
    pub open spec fn interrupted_by(self, block: AudioBlock) -> bool {
        ||| self.expected_frame() matches Some(expected) && expected != block.start_frame
        ||| self.generation() matches Some(generation) && generation != block.route_generation
    }

    /// The frames held that `block` continues.
    pub open spec fn carried(self, block: AudioBlock) -> Seq<StereoFrame> {
        if self.interrupted_by(block) {
            Seq::empty()
        } else {
            self.samples()
        }
    }

    /// Number of the first frame held.
    pub closed spec fn held_from(self) -> u64 {
        self.window_start_frame
    }

    /// What taking `block` in leaves and gives.
    pub open spec fn processes(
        self,
        block: AudioBlock,
        after: SpectrumAnalyzer,
        newest: Option<AnalysisWindow>,
    ) -> bool {
        let carried = self.carried(block);
        let stream = carried + block.content();
        &&& after.wf()
        &&& after.sample_rate() == self.sample_rate()
        &&& after.generation() == Some(block.route_generation)
        &&& after.expected_frame() == Some(
            counted_on(block.start_frame, block.valid_frames as int),
        )
        &&& newest is Some <==> stream.len() >= FFT_SIZE
        &&& newest is None ==> {
            &&& after.samples() == stream
            &&& after.window() == self.window()
            &&& after.sequence() == self.sequence()
            &&& after.averages() == (self.averages() && !self.interrupted_by(block))
            &&& stream.len() > 0 ==> after.held_from() == counted_on(
                block.start_frame,
                -carried.len(),
            )
        }
        &&& newest matches Some(window) ==> {
            &&& window == (AnalysisWindow {
                sequence: self.sequence(),
                window_start_frame: counted_on(block.start_frame, -carried.len()),
                sample_rate: self.sample_rate(),
                route_generation: block.route_generation,
                has_reference: block.has_reference,
                restarts_average: !self.averages() || self.interrupted_by(block),
            })
            &&& after.window() == stream.take(FFT_SIZE as int)
            &&& after.samples() == stream.skip(HOP_SIZE as int)
            &&& after.sequence() == counted_on(self.sequence(), 1)
            &&& after.averages()
            &&& after.held_from() == counted_on(window.window_start_frame, HOP_SIZE as int)
        }
    }

    /// No frame was seen yet.
    pub open spec fn is_fresh(self, sample_rate: u32) -> bool {
        &&& self.wf()
        &&& self.sample_rate() == sample_rate
        &&& self.samples() == Seq::<StereoFrame>::empty()
        &&& self.window() == Seq::<StereoFrame>::empty()
        &&& !self.averages()
        &&& self.expected_frame() is None
        &&& self.generation() is None
        &&& self.sequence() == 0
    }

    /// An analyzer for input at `sample_rate` that has seen no frame.
    pub fn new(sample_rate: u32) -> (analyzer: SpectrumAnalyzer)
        ensures
            analyzer.is_fresh(sample_rate),
    {
        SpectrumAnalyzer {
            sample_rate,
            samples: Vec::with_capacity(FFT_SIZE),
            window: Vec::with_capacity(FFT_SIZE),
            averaging_initialized: false,
            expected_input_frame: None,
            window_start_frame: 0,
            route_generation: None,
            sequence: 0,
        }
    }

    /// How many frames are held for the next window.
    pub fn held_frames(&self) -> (count: usize)
        requires
            self.wf(),
        ensures
            count == self.samples().len(),
            count < FFT_SIZE,
    {
        self.samples.len()
    }

    /// The frames of the last complete window, empty before the first one.
    pub fn last_window(&self) -> (frames: &Vec<StereoFrame>)
        ensures
            frames@ == self.window(),
    {
        &self.window
    }

    /// Forgets the frames held and the average over earlier windows.
    pub fn reset_history(&mut self)
        ensures
            final(self).wf(),
            final(self).sample_rate() == old(self).sample_rate(),
            final(self).samples() == Seq::<StereoFrame>::empty(),
            final(self).window() == old(self).window(),
            !final(self).averages(),
            final(self).expected_frame() is None,
            final(self).generation() == old(self).generation(),
            final(self).sequence() == old(self).sequence(),
            forall|new: SpectrumAnalyzer| #[trigger]
                new.is_fresh(old(self).sample_rate()) ==> alike(*final(self), new),
    {
        self.samples.clear();
        self.averaging_initialized = false;
        self.expected_input_frame = None;
    }

    /// Sets the full window aside, and keeps its second half for the next one.
    fn complete_window(&mut self)
        requires
            old(self).samples@.len() == FFT_SIZE,
        ensures
            final(self).window@ == old(self).samples@,
            final(self).samples@ == old(self).samples@.skip(HOP_SIZE as int),
            final(self).sample_rate == old(self).sample_rate,
            final(self).averaging_initialized,
            final(self).expected_input_frame == old(self).expected_input_frame,
            final(self).window_start_frame == counted_on(
                old(self).window_start_frame,
                HOP_SIZE as int,
            ),
            final(self).route_generation == old(self).route_generation,
            final(self).sequence == counted_on(old(self).sequence, 1),
    {
        let ghost full = self.samples@;
        self.window.clear();
        for index in 0..FFT_SIZE
            invariant
                full == old(self).samples@,
                full.len() == FFT_SIZE,
                self.samples@ == full,
                self.window@ == full.take(index as int),
                self.sample_rate == old(self).sample_rate,
                self.expected_input_frame == old(self).expected_input_frame,
                self.window_start_frame == old(self).window_start_frame,
                self.route_generation == old(self).route_generation,
                self.sequence == old(self).sequence,
        {
            let frame = self.samples[index];
            self.window.push(frame);
            assert(full.take(index as int).push(full[index as int]) =~= full.take(index + 1));
        }
        assert(full.take(FFT_SIZE as int) =~= full);
        for index in 0..HOP_SIZE
            invariant
                full == old(self).samples@,
                full.len() == FFT_SIZE,
                self.window@ == full,
                self.samples@.len() == FFT_SIZE,
                forall|i: int| 0 <= i < index ==> self.samples@[i] == full[i + HOP_SIZE],
                forall|i: int| index <= i < FFT_SIZE ==> self.samples@[i] == full[i],
                self.sample_rate == old(self).sample_rate,
                self.expected_input_frame == old(self).expected_input_frame,
                self.window_start_frame == old(self).window_start_frame,
                self.route_generation == old(self).route_generation,
                self.sequence == old(self).sequence,
        {
            let frame = self.samples[index + HOP_SIZE];
            self.samples.set(index, frame);
        }
        self.samples.truncate(FFT_SIZE - HOP_SIZE);
        assert(self.samples@ =~= full.skip(HOP_SIZE as int));
        self.averaging_initialized = true;
        self.window_start_frame = self.window_start_frame.wrapping_add(HOP_SIZE as u64);
        self.sequence = self.sequence.wrapping_add(1);
        proof {
            reveal(counted_on);
        }
    }

    /// Whether `block` does not continue the frames held.
    pub fn is_interrupted_by(&self, block: &AudioBlock) -> (interrupted: bool)
        ensures
            interrupted == self.interrupted_by(*block),
    {
        let discontinuity: bool = match self.expected_input_frame {
            Some(expected) => expected != block.start_frame,
            None => false,
        };
        let route_changed: bool = match self.route_generation {
            Some(generation) => generation != block.route_generation,
            None => false,
        };
        discontinuity || route_changed
    }

    /// Takes one block in. A block that does not continue the input has the frames
    /// held and the average dropped first. If the frames then suffice, one window is
    /// complete, and the frames from its middle on are held for the next.
    pub fn process_block(&mut self, block: &AudioBlock) -> (newest: Option<AnalysisWindow>)
        requires
            old(self).wf(),
            block.wf(),
        ensures
            old(self).processes(*block, *final(self), newest),
    {
        if self.is_interrupted_by(block) {
            self.reset_history();
        }
        let ghost before = *self;
        let ghost carried = old(self).carried(*block);
        let ghost frames = block.content();
        assert(self.samples@ =~= carried);
        self.route_generation = Some(block.route_generation);
        self.expected_input_frame = Some(block.start_frame.wrapping_add(block.valid_frames as u64));
        let ghost stream = carried + frames;
        let mut newest: Option<AnalysisWindow> = None;
        assert(stream.take(carried.len() as int) =~= carried);
        proof {
            wrapping_add_counts_on(block.start_frame, block.valid_frames as u64);
            counts_add_up(block.start_frame, 0, 0);
        }
        for offset in 0..block.valid_frames
            invariant
                block.wf(),
                before.wf(),
                carried == before.samples@,
                carried.len() < FFT_SIZE,
                carried.len() > 0 ==> before.expected_input_frame == Some(block.start_frame),
                frames == block.content(),
                frames.len() == block.valid_frames,
                stream == carried + frames,
                self.sample_rate == before.sample_rate,
                self.route_generation == Some(block.route_generation),
                self.expected_input_frame == Some(
                    counted_on(block.start_frame, block.valid_frames as int),
                ),
                self.samples@.len() > 0 ==> counted_on(
                    self.window_start_frame,
                    self.samples@.len() as int,
                ) == counted_on(block.start_frame, offset as int),
                newest is Some <==> carried.len() + offset >= FFT_SIZE,
                newest is None ==> {
                    &&& self.samples@ == stream.take(carried.len() + offset)
                    &&& self.window@ == before.window@
                    &&& self.sequence == before.sequence
                    &&& self.averaging_initialized == before.averaging_initialized
                },
                newest matches Some(window) ==> {
                    &&& window == (AnalysisWindow {
                        sequence: before.sequence,
                        window_start_frame: counted_on(block.start_frame, -carried.len()),
                        sample_rate: before.sample_rate,
                        route_generation: block.route_generation,
                        has_reference: block.has_reference,
                        restarts_average: !before.averaging_initialized,
                    })
                    &&& self.window@ == stream.take(FFT_SIZE as int)
                    &&& self.samples@ == stream.take(carried.len() + offset).skip(HOP_SIZE as int)
                    &&& self.sequence == counted_on(before.sequence, 1)
                    &&& self.averaging_initialized
                    &&& self.window_start_frame == counted_on(
                        window.window_start_frame,
                        HOP_SIZE as int,
                    )
                },
        {
            if self.samples.len() == 0 {
                self.window_start_frame = block.start_frame.wrapping_add(offset as u64);
            }
            let frame = block.frames[offset];
            self.samples.push(frame);
            proof {
                let taken = carried.len() + offset;
                assert(stream[taken] == frames[offset as int]);
                assert(stream.take(taken).push(frame) =~= stream.take(taken + 1));
                if newest is Some {
                    assert(stream.take(taken).skip(HOP_SIZE as int).push(frame) =~= stream.take(
                        taken + 1,
                    ).skip(HOP_SIZE as int));
                }
                wrapping_add_counts_on(block.start_frame, offset as u64);
                counts_add_up(self.window_start_frame, self.samples@.len() - 1, 1);
                counts_add_up(block.start_frame, offset as int, 1);
                if self.samples@.len() == FFT_SIZE {
                    let size = FFT_SIZE as int;
                    counts_add_up(self.window_start_frame, size, -size);
                    counts_add_up(block.start_frame, offset + 1, -size);
                    counts_add_up(self.window_start_frame, HOP_SIZE as int, HOP_SIZE as int);
                }
            }
            if self.samples.len() == FFT_SIZE {
                newest =
                Some(
                    AnalysisWindow {
                        sequence: self.sequence,
                        window_start_frame: self.window_start_frame,
                        sample_rate: self.sample_rate,
                        route_generation: block.route_generation,
                        has_reference: block.has_reference,
                        restarts_average: !self.averaging_initialized,
                    },
                );
                self.complete_window();
            }
        }
        proof {
            assert(stream.take(stream.len() as int) =~= stream);
            if newest is Some {
                assert(self.samples@.take(HOP_SIZE as int) =~= self.window@.skip(HOP_SIZE as int));
            } else {
                assert(self.samples@.take(HOP_SIZE as int) =~= carried.take(HOP_SIZE as int)
                    || carried.len() < HOP_SIZE);
                let len = stream.len() as int;
                counts_add_up(self.window_start_frame, len, -len);
                counts_add_up(block.start_frame, frames.len() as int, -len);
            }
        }
        newest
    }
}

/// The frames held are right before the frame that is expected next.
proof fn held_frames_are_the_latest(analyzer: SpectrumAnalyzer)
    requires
        analyzer.wf(),
        analyzer.samples().len() > 0,
    ensures
        analyzer.expected_frame() is Some,
        counted_on(analyzer.expected_frame()->0, -analyzer.samples().len()) == analyzer.held_from(),
{
    let len = analyzer.samples().len() as int;
    counts_add_up(analyzer.held_from(), len, -len);
}

/// The blocks are taken in one after the other.
pub open spec fn is_run(
    analyzers: Seq<SpectrumAnalyzer>,
    blocks: Seq<AudioBlock>,
    results: Seq<Option<AnalysisWindow>>,
) -> bool {
    &&& analyzers.len() == blocks.len() + 1
    &&& results.len() == blocks.len()
    &&& analyzers[0].wf()
    &&& forall|i: int| 0 <= i < blocks.len() ==> #[trigger] is_step(analyzers, blocks, results, i)
}

/// `analyzers[i]` takes `blocks[i]` in, gives `results[i]` and becomes
/// `analyzers[i + 1]`.
pub open spec fn is_step(
    analyzers: Seq<SpectrumAnalyzer>,
    blocks: Seq<AudioBlock>,
    results: Seq<Option<AnalysisWindow>>,
    i: int,
) -> bool {
    analyzers[i].processes(blocks[i], analyzers[i + 1], results[i])
}

/// Between two windows of an unbroken input, the frames held go on beginning with the
/// second half of the first window.
proof fn second_half_stays_first(
    analyzers: Seq<SpectrumAnalyzer>,
    blocks: Seq<AudioBlock>,
    results: Seq<Option<AnalysisWindow>>,
    i: int,
)
    requires
        is_run(analyzers, blocks, results),
        1 <= i <= blocks.len(),
        results[0] is Some,
        forall|j: int| 1 <= j < i ==> #[trigger] results[j] is None,
        forall|j: int| 1 <= j < i ==> !(#[trigger] analyzers[j]).interrupted_by(blocks[j]),
    ensures
        analyzers[i].wf(),
        analyzers[i].samples().len() >= HOP_SIZE,
        analyzers[i].samples().take(HOP_SIZE as int) == analyzers[1].window().skip(HOP_SIZE as int),
        analyzers[i].held_from() == counted_on(
            results[0]->0.window_start_frame,
            HOP_SIZE as int,
        ),
        analyzers[i].sequence() == counted_on(results[0]->0.sequence, 1),
        analyzers[i].averages(),
    decreases i,
{
    if i == 1 {
        assert(is_step(analyzers, blocks, results, 0));
        let stream = analyzers[0].carried(blocks[0]) + blocks[0].content();
        assert(stream.skip(HOP_SIZE as int).take(HOP_SIZE as int) =~= stream.take(
            FFT_SIZE as int,
        ).skip(HOP_SIZE as int));
    } else {
        second_half_stays_first(analyzers, blocks, results, i - 1);
        assert(results[i - 1] is None);
        assert(!analyzers[i - 1].interrupted_by(blocks[i - 1]));
        assert(is_step(analyzers, blocks, results, i - 1));
        assert(analyzers[i].samples().take(HOP_SIZE as int) =~= analyzers[i - 1].samples().take(
            HOP_SIZE as int,
        ));
        held_frames_are_the_latest(analyzers[i - 1]);
    }
}

/// Windows overlap by half: while the input is unbroken, each window starts half a
/// window after the one before, begins with the second half of its frames, has the
/// next number, and is averaged with it.
pub proof fn windows_overlap_by_half(
    analyzers: Seq<SpectrumAnalyzer>,
    blocks: Seq<AudioBlock>,
    results: Seq<Option<AnalysisWindow>>,
)
    requires
        is_run(analyzers, blocks, results),
        blocks.len() >= 2,
        results[0] is Some,
        results.last() is Some,
        forall|j: int| 1 <= j < blocks.len() - 1 ==> #[trigger] results[j] is None,
        forall|j: int| 1 <= j < blocks.len() ==> !(#[trigger] analyzers[j]).interrupted_by(blocks[j]),
    ensures
        results.last()->0.window_start_frame == counted_on(
            results[0]->0.window_start_frame,
            HOP_SIZE as int,
        ),
        results.last()->0.sequence == counted_on(results[0]->0.sequence, 1),
        !results.last()->0.restarts_average,
        analyzers.last().window().take(HOP_SIZE as int) == analyzers[1].window().skip(
            HOP_SIZE as int,
        ),
{
    let n = blocks.len() - 1;
    second_half_stays_first(analyzers, blocks, results, n);
    assert(!analyzers[n].interrupted_by(blocks[n]));
    assert(is_step(analyzers, blocks, results, n));
    held_frames_are_the_latest(analyzers[n]);
    assert(analyzers[n + 1].window().take(HOP_SIZE as int) =~= analyzers[n].samples().take(
        HOP_SIZE as int,
    ));
}

/// How many frames the first `count` blocks hold.
pub open spec fn frames_in(blocks: Seq<AudioBlock>, count: int) -> int
    decreases count,
{
    if count <= 0 {
        0
    } else {
        frames_in(blocks, count - 1) + blocks[count - 1].valid_frames
    }
}

/// How many windows so many frames in a row give: one for the first full window, and one
/// more for each half window after that.
pub open spec fn windows_in(frames: int) -> int {
    if frames < FFT_SIZE {
        0
    } else {
        (frames - FFT_SIZE) / HOP_SIZE as int + 1
    }
}

/// How many windows a run gives, and where each starts: an unbroken input gives as many
/// windows as fit into its frames, overlapping by half. The window number `k` starts `k`
/// half windows after the first frame and has the number `k` more than the first.
pub proof fn an_unbroken_run_gives_every_window(
    analyzers: Seq<SpectrumAnalyzer>,
    blocks: Seq<AudioBlock>,
    results: Seq<Option<AnalysisWindow>>,
    count: int,
)
    requires
        is_run(analyzers, blocks, results),
        analyzers[0].samples().len() == 0,
        forall|j: int| 0 <= j < blocks.len() ==> (#[trigger] blocks[j]).wf(),
        forall|j: int| 1 <= j < blocks.len() ==> !(#[trigger] analyzers[j]).interrupted_by(blocks[j]),
        0 <= count <= blocks.len(),
    ensures
        ({
            let frames = frames_in(blocks, count);
            let first = blocks[0].start_frame;
            &&& analyzers[count].wf()
            &&& analyzers[count].samples().len() == frames - HOP_SIZE * windows_in(frames)
            &&& analyzers[count].sequence() == counted_on(
                analyzers[0].sequence(),
                windows_in(frames),
            )
            &&& count > 0 ==> analyzers[count].expected_frame() == Some(counted_on(first, frames))
            &&& count > 0 ==> {
                let made = windows_in(frames_in(blocks, count - 1));
                &&& windows_in(frames) == made + (if results[count - 1] is Some {
                    1int
                } else {
                    0int
                })
                &&& results[count - 1] matches Some(window) ==> {
                    &&& window.window_start_frame == counted_on(first, made * HOP_SIZE)
                    &&& window.sequence == counted_on(analyzers[0].sequence(), made)
                }
            }
        }),
    decreases count,
{
    let first = blocks[0].start_frame;
    let sequence = analyzers[0].sequence();
    counts_add_up(sequence, 0, 0);
    counts_add_up(first, 0, 0);
    if count > 0 {
        let i = count - 1;
        an_unbroken_run_gives_every_window(analyzers, blocks, results, i);
        assert(is_step(analyzers, blocks, results, i));
        let block = blocks[i];
        let before = frames_in(blocks, i);
        let made = windows_in(before);
        assert(block.wf());
        if i > 0 {
            assert(!analyzers[i].interrupted_by(blocks[i]));
        }
        assert(analyzers[i].carried(block) =~= analyzers[i].samples());
        assert(block.start_frame == counted_on(first, before));
        counts_add_up(first, before, block.valid_frames as int);
        counts_add_up(first, before, -analyzers[i].samples().len());
        counts_add_up(sequence, made, 1);
    }
}

/// Two analyzers that go on alike: they hold the same frames and expect the same, or hold
/// none and have no average, so that it does not matter what they expect.
pub open spec fn alike(a: SpectrumAnalyzer, b: SpectrumAnalyzer) -> bool {
    &&& a.sample_rate() == b.sample_rate()
    &&& a.samples() == b.samples()
    &&& a.averages() == b.averages()
    &&& {
        ||| a.expected_frame() == b.expected_frame() && a.generation() == b.generation()
        ||| a.samples().len() == 0 && !a.averages()
    }
}

/// An analyzer that forgot its history goes on like a new one, since the two are alike: each
/// block completes a window in both or in neither, with the same frames and the same data
/// but for its number, and leaves them alike.
pub proof fn a_reset_analyzer_goes_on_like_a_new_one(
    reset: SpectrumAnalyzer,
    new: SpectrumAnalyzer,
    block: AudioBlock,
    after: SpectrumAnalyzer,
    newest: Option<AnalysisWindow>,
    new_after: SpectrumAnalyzer,
    new_newest: Option<AnalysisWindow>,
)
    requires
        alike(reset, new),
        reset.processes(block, after, newest),
        new.processes(block, new_after, new_newest),
    ensures
        alike(after, new_after),
        newest is Some <==> new_newest is Some,
        newest matches Some(window) ==> {
            &&& new_newest == Some(AnalysisWindow { sequence: new.sequence(), ..window })
            &&& window.sequence == reset.sequence()
            &&& after.window() == new_after.window()
        },
{
    assert(reset.carried(block) =~= new.carried(block));
}

/// An interruption drops the history: whatever was held before, no window or average
/// mixes frames from before a gap or a change of route with later ones.
pub proof fn an_interruption_drops_the_history(
    before: SpectrumAnalyzer,
    block: AudioBlock,
    after: SpectrumAnalyzer,
    newest: Option<AnalysisWindow>,
)
    requires
        before.wf(),
        block.wf(),
        before.interrupted_by(block),
        before.processes(block, after, newest),
    ensures
        newest is None,
        after.samples() == block.content(),
        !after.averages(),
{
    assert(Seq::<StereoFrame>::empty() + block.content() =~= block.content());
}

/// Numbers computed for one frequency bin.
#[derive(Clone, Copy, Debug, PartialEq, Eq, Structural)]
pub struct BinNumbers {
    pub reference_dbfs: u32,
    pub measurement_dbfs: u32,
    /// Averaged power of the reference.
    pub reference_power: u32,
    /// Product of the averaged powers of both channels.
    pub power_product: u32,
    pub transfer_db: u32,
    pub phase_degrees: u32,
    pub coherence: u32,
}

/// Numbers computed for one window.
#[derive(Debug)]
pub struct WindowNumbers {
    pub measurement_level: SignalLevel,
    pub reference_level: SignalLevel,
    pub phase_correlation: u32,
    pub bins: [BinNumbers; SPECTRUM_BINS],
}

/// What is reported of a bin: the transfer function only where there is a reference
/// with some power, and its coherence only where both channels have some.
pub open spec fn reported_bin(has_reference: bool, numbers: BinNumbers) -> BinMetrics {
    let known = has_reference && above(numbers.reference_power, POWER_EPSILON);
    BinMetrics {
        reference_dbfs: numbers.reference_dbfs,
        measurement_dbfs: numbers.measurement_dbfs,
        transfer_db: if known {
            numbers.transfer_db
        } else {
            SILENCE_DBFS
        },
        phase_degrees: if known {
            numbers.phase_degrees
        } else {
            0
        },
        coherence: if known && above(numbers.power_product, POWER_EPSILON) {
            numbers.coherence
        } else {
            0
        },
    }
}

pub fn bin_metrics(has_reference: bool, numbers: BinNumbers) -> (metrics: BinMetrics)
    ensures
        metrics == reported_bin(has_reference, numbers),
        metrics.reference_dbfs == numbers.reference_dbfs,
        metrics.measurement_dbfs == numbers.measurement_dbfs,
{
    let mut metrics = BinMetrics {
        reference_dbfs: numbers.reference_dbfs,
        measurement_dbfs: numbers.measurement_dbfs,
        transfer_db: SILENCE_DBFS,
        phase_degrees: 0,
        coherence: 0,
    };
    if has_reference && is_above(numbers.reference_power, POWER_EPSILON) {
        metrics.transfer_db = numbers.transfer_db;
        metrics.phase_degrees = numbers.phase_degrees;
        if is_above(numbers.power_product, POWER_EPSILON) {
            metrics.coherence = numbers.coherence;
        }
    }
    metrics
}

/// How often the amplitude of a bin counts: twice if the bin stands for a positive and
/// a negative frequency, else once.
pub fn one_sided_factor(bin: usize) -> (factor: u32)
    ensures
        factor == (if bin == 0 || bin == FFT_SIZE / 2 {
            1u32
        } else {
            2u32
        }),
        bin <= FFT_SIZE / 2 ==> (factor == 1 <==> bin == (FFT_SIZE - bin) % FFT_SIZE as int),
{
    if bin == 0 || bin == FFT_SIZE / 2 {
        1
    } else {
        2
    }
}

/// The greatest magnitude among `samples`, zero if there is none.
pub open spec fn peak_of(samples: Seq<u32>) -> u32
    decreases samples.len(),
{
    if samples.len() == 0 {
        0
    } else {
        greater(peak_of(samples.drop_last()), magnitude(samples.last()))
    }
}

pub open spec fn reference_samples(frames: Seq<StereoFrame>) -> Seq<u32> {
    frames.map_values(|frame: StereoFrame| frame.reference)
}

pub open spec fn measurement_samples(frames: Seq<StereoFrame>) -> Seq<u32> {
    frames.map_values(|frame: StereoFrame| frame.measurement)
}

/// Peak magnitude of both channels over `frames`.
pub fn channel_peaks(frames: &Vec<StereoFrame>) -> (peaks: StereoFrame)
    ensures
        peaks.reference == peak_of(reference_samples(frames@)),
        peaks.measurement == peak_of(measurement_samples(frames@)),
{
    let mut peaks = StereoFrame { reference: 0, measurement: 0 };
    assert(reference_samples(frames@.take(0)).len() == 0);
    assert(measurement_samples(frames@.take(0)).len() == 0);
    for index in 0..frames.len()
        invariant
            peaks.reference == peak_of(reference_samples(frames@.take(index as int))),
            peaks.measurement == peak_of(measurement_samples(frames@.take(index as int))),
    {
        let frame = frames[index];
        peaks.reference = take_greater(peaks.reference, take_magnitude(frame.reference));
        peaks.measurement = take_greater(peaks.measurement, take_magnitude(frame.measurement));
        proof {
            let longer = frames@.take(index + 1);
            assert(reference_samples(longer).drop_last() =~= reference_samples(
                frames@.take(index as int),
            ));
            assert(measurement_samples(longer).drop_last() =~= measurement_samples(
                frames@.take(index as int),
            ));
        }
    }
    assert(frames@.take(frames@.len() as int) =~= frames@);
    peaks
}

/// No sample is louder than the peak.
pub proof fn no_sample_exceeds_the_peak(samples: Seq<u32>, i: int)
    requires
        0 <= i < samples.len(),
    ensures
        !above(magnitude(samples[i]), peak_of(samples)),
    decreases samples.len(),
{
    let shorter = samples.drop_last();
    if i < shorter.len() {
        no_sample_exceeds_the_peak(shorter, i);
        assert(shorter[i] == samples[i]);
    }
    peak_is_a_number(shorter);
}

proof fn peak_is_a_number(samples: Seq<u32>)
    ensures
        !crate::level::is_nan(peak_of(samples)),
    decreases samples.len(),
{
    if samples.len() > 0 {
        peak_is_a_number(samples.drop_last());
    }
}

/// `snapshot` reports `numbers` for the window with the frames `frames`: everything
/// that compares the two channels is left out if there is no reference.
pub open spec fn reports(
    snapshot: AnalysisSnapshot,
    window: AnalysisWindow,
    frames: Seq<StereoFrame>,
    numbers: WindowNumbers,
) -> bool {
    let stride = FFT_SIZE / VECTOR_SCOPE_POINTS;
    &&& snapshot.sequence == window.sequence
    &&& snapshot.window_start_frame == window.window_start_frame
    &&& snapshot.sample_rate == window.sample_rate
    &&& snapshot.route_generation == window.route_generation
    &&& snapshot.has_reference == window.has_reference
    &&& snapshot.measurement_level == numbers.measurement_level
    &&& snapshot.reference_level == (if window.has_reference {
        Some(numbers.reference_level)
    } else {
        None
    })
    &&& snapshot.phase_correlation == (if window.has_reference {
        Some(numbers.phase_correlation)
    } else {
        None
    })
    &&& snapshot.scope_len == (if window.has_reference {
        VECTOR_SCOPE_POINTS
    } else {
        0
    })
    &&& forall|i: int|
        0 <= i < snapshot.scope_len ==> #[trigger] snapshot.scope_points@[i] == frames[i * stride]
    &&& forall|bin: int|
        0 <= bin < SPECTRUM_BINS ==> #[trigger] snapshot.bins@[bin] == reported_bin(
            window.has_reference,
            numbers.bins@[bin],
        )
}

/// The snapshot of a window, once its numbers are computed.
pub fn snapshot_of(
    window: AnalysisWindow,
    frames: &Vec<StereoFrame>,
    numbers: &WindowNumbers,
) -> (snapshot: AnalysisSnapshot)
    requires
        frames@.len() == FFT_SIZE,
    ensures
        snapshot.wf(),
        reports(snapshot, window, frames@, *numbers),
{
    let mut snapshot = AnalysisSnapshot::default();
    snapshot.sequence = window.sequence;
    snapshot.window_start_frame = window.window_start_frame;
    snapshot.sample_rate = window.sample_rate;
    snapshot.route_generation = window.route_generation;
    snapshot.has_reference = window.has_reference;
    snapshot.measurement_level = numbers.measurement_level;
    if window.has_reference {
        snapshot.reference_level = Some(numbers.reference_level);
        snapshot.phase_correlation = Some(numbers.phase_correlation);
        let stride: usize = FFT_SIZE / VECTOR_SCOPE_POINTS;
        assert(FFT_SIZE / VECTOR_SCOPE_POINTS == 8);
        let ghost header = snapshot;
        for index in 0..VECTOR_SCOPE_POINTS
            invariant
                frames@.len() == FFT_SIZE,
                stride == 8,
                snapshot == (AnalysisSnapshot {
                    scope_points: snapshot.scope_points,
                    scope_len: snapshot.scope_len,
                    ..header
                }),
                snapshot.scope_len == index,
                forall|i: int|
                    0 <= i < index ==> #[trigger] snapshot.scope_points@[i] == frames@[i * stride],
        {
            snapshot.scope_points[index] = frames[index * stride];
            snapshot.scope_len = index + 1;
        }
    }
    let ghost header = snapshot;
    for bin in 0..SPECTRUM_BINS
        invariant
            snapshot == (AnalysisSnapshot { bins: snapshot.bins, ..header }),
            forall|i: int|
                0 <= i < bin ==> #[trigger] snapshot.bins@[i] == reported_bin(
                    window.has_reference,
                    numbers.bins@[i],
                ),
    {
        snapshot.bins[bin] = bin_metrics(window.has_reference, numbers.bins[bin]);
    }
    snapshot
}

/// The valid frames of the first `count` blocks, one after the other.
pub open spec fn joined_frames(blocks: Seq<AudioBlock>, count: int) -> Seq<StereoFrame>
    decreases count,
{
    if count <= 0 {
        Seq::empty()
    } else {
        let block = blocks[count - 1];
        joined_frames(blocks, count - 1) + block.frames@.subrange(0, block.valid_frames as int)
    }
}

proof fn joined_frames_are_counted(blocks: Seq<AudioBlock>, count: int)
    requires
        0 <= count <= blocks.len(),
        forall|j: int| 0 <= j < blocks.len() ==> (#[trigger] blocks[j]).wf(),
    ensures
        joined_frames(blocks, count).len() == frames_in(blocks, count),
    decreases count,
{
    if count > 0 {
        joined_frames_are_counted(blocks, count - 1);
        assert(blocks[count - 1].wf());
    }
}

/// Each window is a piece of the input: the window number `k` of an unbroken input, counted
/// from zero, holds the 2048 frames from the frame number 1024 * `k` on, as they arrived. It
/// bears the sample rate of the analyzer, and the route and the reference of the block that
/// completed it. Only the first one starts the average anew.
pub proof fn each_window_is_a_piece_of_the_input(
    analyzers: Seq<SpectrumAnalyzer>,
    blocks: Seq<AudioBlock>,
    results: Seq<Option<AnalysisWindow>>,
    count: int,
    k: int,
)
    requires
        is_run(analyzers, blocks, results),
        analyzers[0].samples().len() == 0,
        !analyzers[0].averages(),
        forall|j: int| 0 <= j < blocks.len() ==> (#[trigger] blocks[j]).wf(),
        forall|j: int| 1 <= j < blocks.len() ==> !(#[trigger] analyzers[j]).interrupted_by(blocks[j]),
        1 <= count <= blocks.len(),
        results[count - 1] is Some,
        k == windows_in(frames_in(blocks, count - 1)),
    ensures
        ({
            let window = results[count - 1]->0;
            let frames = joined_frames(blocks, count);
            &&& 0 <= k * 1024 && k * 1024 + 2048 <= frames.len()
            &&& frames.len() < k * 1024 + 3072
            &&& analyzers[count].window() == frames.subrange(k * 1024, k * 1024 + 2048)
            &&& window.window_start_frame == (blocks[0].start_frame + k * 1024)
                % 0x1_0000_0000_0000_0000
            &&& window.sequence == (analyzers[0].sequence() + k) % 0x1_0000_0000_0000_0000
            &&& window.sample_rate == analyzers[0].sample_rate()
            &&& window.route_generation == blocks[count - 1].route_generation
            &&& window.has_reference == blocks[count - 1].has_reference
            &&& window.restarts_average <==> k == 0
        }),
{
    let i = count - 1;
    an_unbroken_run_gives_every_window(analyzers, blocks, results, i);
    an_unbroken_run_gives_every_window(analyzers, blocks, results, count);
    joined_frames_are_counted(blocks, i);
    joined_frames_are_counted(blocks, count);
    what_is_held_is_the_end_of_the_input(analyzers, blocks, results, i);
    assert(is_step(analyzers, blocks, results, i));
    let block = blocks[i];
    assert(block.wf());
    if i > 0 {
        assert(!analyzers[i].interrupted_by(blocks[i]));
    }
    assert(analyzers[i].carried(block) =~= analyzers[i].samples());
    assert(block.content() =~= block.frames@.subrange(0, block.valid_frames as int));
    let stream = analyzers[i].samples() + block.content();
    let frames = joined_frames(blocks, count);
    assert(stream =~= frames.skip(k * 1024));
    assert(stream.take(FFT_SIZE as int) =~= frames.subrange(k * 1024, k * 1024 + 2048));
    reveal(counted_on);
}

proof fn what_is_held_is_the_end_of_the_input(
    analyzers: Seq<SpectrumAnalyzer>,
    blocks: Seq<AudioBlock>,
    results: Seq<Option<AnalysisWindow>>,
    count: int,
)
    requires
        is_run(analyzers, blocks, results),
        analyzers[0].samples().len() == 0,
        !analyzers[0].averages(),
        forall|j: int| 0 <= j < blocks.len() ==> (#[trigger] blocks[j]).wf(),
        forall|j: int| 1 <= j < blocks.len() ==> !(#[trigger] analyzers[j]).interrupted_by(blocks[j]),
        0 <= count <= blocks.len(),
    ensures
        analyzers[count].samples() == joined_frames(blocks, count).skip(
            windows_in(frames_in(blocks, count)) * 1024,
        ),
        analyzers[count].averages() <==> windows_in(frames_in(blocks, count)) > 0,
        analyzers[count].sample_rate() == analyzers[0].sample_rate(),
    decreases count,
{
    an_unbroken_run_gives_every_window(analyzers, blocks, results, count);
    joined_frames_are_counted(blocks, count);
    if count > 0 {
        let i = count - 1;
        what_is_held_is_the_end_of_the_input(analyzers, blocks, results, i);
        an_unbroken_run_gives_every_window(analyzers, blocks, results, i);
        joined_frames_are_counted(blocks, i);
        assert(is_step(analyzers, blocks, results, i));
        let block = blocks[i];
        assert(block.wf());
        if i > 0 {
            assert(!analyzers[i].interrupted_by(blocks[i]));
        }
        assert(analyzers[i].carried(block) =~= analyzers[i].samples());
        assert(block.content() =~= block.frames@.subrange(0, block.valid_frames as int));
        let made = windows_in(frames_in(blocks, i));
        let before = joined_frames(blocks, i);
        let frames = joined_frames(blocks, count);
        let stream = analyzers[i].samples() + block.content();
        assert(stream =~= frames.skip(made * 1024));
        if results[i] is Some {
            assert(stream.skip(HOP_SIZE as int) =~= frames.skip((made + 1) * 1024));
        }
    } else {
        assert(analyzers[0].samples() =~= joined_frames(blocks, 0).skip(0));
    }
}

/// A block interrupts the input exactly if it does not start where the last one ended, or
/// was captured under another route than it: nothing before it is held any more after it.
pub proof fn what_interrupts_the_input(
    before: SpectrumAnalyzer,
    last: AudioBlock,
    mid: SpectrumAnalyzer,
    newest: Option<AnalysisWindow>,
    block: AudioBlock,
)
    requires
        before.processes(last, mid, newest),
        last.start_frame + last.valid_frames <= u64::MAX,
    ensures
        mid.interrupted_by(block) <==> {
            ||| block.start_frame != last.start_frame + last.valid_frames
            ||| block.route_generation != last.route_generation
        },
        mid.interrupted_by(block) ==> mid.carried(block).len() == 0,
        !mid.interrupted_by(block) ==> mid.carried(block) == mid.samples(),
{
    reveal(counted_on);
}

/// A bin is reported with the level of each channel as it was computed for that channel,
/// whether or not there is a reference, and with the transfer function as it was computed or
/// not at all.
pub proof fn a_bin_reports_each_channel_as_itself(has_reference: bool, numbers: BinNumbers)
    ensures
        ({
            let bin = reported_bin(has_reference, numbers);
            &&& bin.reference_dbfs == numbers.reference_dbfs
            &&& bin.measurement_dbfs == numbers.measurement_dbfs
            &&& if has_reference && above(numbers.reference_power, 0x1e3c_e508) {
                &&& bin.transfer_db == numbers.transfer_db
                &&& bin.phase_degrees == numbers.phase_degrees
                &&& bin.coherence == (if above(numbers.power_product, 0x1e3c_e508) {
                    numbers.coherence
                } else {
                    0
                })
            } else {
                bin.transfer_db == 0xc2f0_0000 && bin.phase_degrees == 0 && bin.coherence == 0
            }
        }),
{
}

/// The level of one channel in a bin does not depend on anything but what was computed for
/// that channel: two bins in which it is the same report the same.
pub proof fn the_levels_of_a_bin_do_not_mix(
    has_reference: bool,
    numbers: BinNumbers,
    other_has_reference: bool,
    other: BinNumbers,
)
    ensures
        numbers.reference_dbfs == other.reference_dbfs <==> reported_bin(
            has_reference,
            numbers,
        ).reference_dbfs == reported_bin(other_has_reference, other).reference_dbfs,
        numbers.measurement_dbfs == other.measurement_dbfs <==> reported_bin(
            has_reference,
            numbers,
        ).measurement_dbfs == reported_bin(other_has_reference, other).measurement_dbfs,
{
}

/// A result bears the number, the first frame, the sample rate and the route of its window,
/// the measured channel's level as the measured level, and everything about the reference
/// exactly if there is one. Its scope shows every eighth frame.
pub proof fn a_result_reports_its_window(
    snapshot: AnalysisSnapshot,
    window: AnalysisWindow,
    frames: Seq<StereoFrame>,
    numbers: WindowNumbers,
)
    requires
        reports(snapshot, window, frames, numbers),
        frames.len() == 2048,
    ensures
        snapshot.sequence == window.sequence,
        snapshot.window_start_frame == window.window_start_frame,
        snapshot.sample_rate == window.sample_rate,
        snapshot.route_generation == window.route_generation,
        snapshot.has_reference == window.has_reference,
        snapshot.measurement_level.peak_dbfs == numbers.measurement_level.peak_dbfs,
        snapshot.measurement_level.rms_dbfs == numbers.measurement_level.rms_dbfs,
        snapshot.reference_level is Some <==> window.has_reference,
        snapshot.reference_level matches Some(level) ==> {
            &&& level.peak_dbfs == numbers.reference_level.peak_dbfs
            &&& level.rms_dbfs == numbers.reference_level.rms_dbfs
        },
        snapshot.phase_correlation is Some <==> window.has_reference,
        snapshot.phase_correlation matches Some(value) ==> value == numbers.phase_correlation,
        window.has_reference ==> snapshot.scope_len == 256,
        !window.has_reference ==> snapshot.scope_len == 0,
        forall|i: int|
            window.has_reference && 0 <= i < 256 ==> #[trigger] snapshot.scope_points@[i]
                == frames[8 * i],
{
    assert(FFT_SIZE / VECTOR_SCOPE_POINTS == 8);
}

/// Each bin of a result is reported from the numbers of the same bin, each channel as
/// itself. Without a reference there is no transfer function in any of them.
pub proof fn a_result_reports_its_bins(
    snapshot: AnalysisSnapshot,
    window: AnalysisWindow,
    frames: Seq<StereoFrame>,
    numbers: WindowNumbers,
    bin: int,
)
    requires
        reports(snapshot, window, frames, numbers),
        0 <= bin < 1025,
    ensures
        snapshot.bins@[bin].reference_dbfs == numbers.bins@[bin].reference_dbfs,
        snapshot.bins@[bin].measurement_dbfs == numbers.bins@[bin].measurement_dbfs,
        snapshot.bins@[bin].transfer_db == numbers.bins@[bin].transfer_db
            || snapshot.bins@[bin].transfer_db == 0xc2f0_0000,
        window.has_reference && above(numbers.bins@[bin].reference_power, 0x1e3c_e508) ==> {
            &&& snapshot.bins@[bin].transfer_db == numbers.bins@[bin].transfer_db
            &&& snapshot.bins@[bin].phase_degrees == numbers.bins@[bin].phase_degrees
        },
        window.has_reference && above(numbers.bins@[bin].reference_power, 0x1e3c_e508) && above(
            numbers.bins@[bin].power_product,
            0x1e3c_e508,
        ) ==> snapshot.bins@[bin].coherence == numbers.bins@[bin].coherence,
        !window.has_reference ==> {
            &&& snapshot.bins@[bin].transfer_db == 0xc2f0_0000
            &&& snapshot.bins@[bin].phase_degrees == 0
            &&& snapshot.bins@[bin].coherence == 0
        },
{
    assert(snapshot.bins@[bin] == reported_bin(window.has_reference, numbers.bins@[bin]));
}

/// What a result says of the measured channel does not depend on the reference: two windows
/// in which the measured channel's numbers are the same report the same of it, whatever the
/// reference was and whether there was one.
pub proof fn the_measured_channel_stands_alone(
    snapshot: AnalysisSnapshot,
    window: AnalysisWindow,
    frames: Seq<StereoFrame>,
    numbers: WindowNumbers,
    other: AnalysisSnapshot,
    other_window: AnalysisWindow,
    other_frames: Seq<StereoFrame>,
    other_numbers: WindowNumbers,
    bin: int,
)
    requires
        reports(snapshot, window, frames, numbers),
        reports(other, other_window, other_frames, other_numbers),
        0 <= bin < 1025,
    ensures
        numbers.measurement_level == other_numbers.measurement_level
            <==> snapshot.measurement_level == other.measurement_level,
        numbers.bins@[bin].measurement_dbfs == other_numbers.bins@[bin].measurement_dbfs
            <==> snapshot.bins@[bin].measurement_dbfs == other.bins@[bin].measurement_dbfs,
{
    a_result_reports_its_bins(snapshot, window, frames, numbers, bin);
    a_result_reports_its_bins(other, other_window, other_frames, other_numbers, bin);
}

/// The peak of a channel is the magnitude of one of its samples, or zero if it has none that
/// is a number, and no sample of that channel is louder. The other channel plays no part.
pub proof fn each_peak_is_of_its_own_channel(frames: Seq<StereoFrame>, i: int)
    requires
        0 <= i < frames.len(),
    ensures
        !above(
            (frames[i].measurement % 0x8000_0000) as u32,
            peak_of(measurement_samples(frames)),
        ),
        !above((frames[i].reference % 0x8000_0000) as u32, peak_of(reference_samples(frames))),
        peak_of(measurement_samples(frames)) == 0 || exists|at: int|
            0 <= at < frames.len() && (#[trigger] frames[at]).measurement % 0x8000_0000 == peak_of(
                measurement_samples(frames),
            ),
        peak_of(reference_samples(frames)) == 0 || exists|at: int|
            0 <= at < frames.len() && (#[trigger] frames[at]).reference % 0x8000_0000 == peak_of(
                reference_samples(frames),
            ),
{
    let measured = measurement_samples(frames);
    let compared = reference_samples(frames);
    assert(measured[i] == frames[i].measurement);
    assert(compared[i] == frames[i].reference);
    no_sample_exceeds_the_peak(measured, i);
    no_sample_exceeds_the_peak(compared, i);
    let at = a_sample_is_the_peak(measured);
    if peak_of(measured) != 0 {
        assert(measured[at] == frames[at].measurement);
        assert(frames[at].measurement % 0x8000_0000 == peak_of(measured));
    }
    let other_at = a_sample_is_the_peak(compared);
    if peak_of(compared) != 0 {
        assert(compared[other_at] == frames[other_at].reference);
        assert(frames[other_at].reference % 0x8000_0000 == peak_of(compared));
    }
}

proof fn a_sample_is_the_peak(samples: Seq<u32>) -> (at: int)
    ensures
        peak_of(samples) != 0 ==> 0 <= at < samples.len() && samples[at] % 0x8000_0000 == peak_of(
            samples,
        ),
    decreases samples.len(),
{
    if samples.len() == 0 {
        0
    } else {
        let shorter = samples.drop_last();
        let at = a_sample_is_the_peak(shorter);
        if peak_of(samples) == peak_of(shorter) {
            at
        } else {
            samples.len() - 1
        }
    }
}

/// A new analyzer holds nothing, expects nothing, and gives its first window the number zero:
/// whatever block comes first, it is taken as it is.
pub proof fn a_new_analyzer_takes_any_block(
    analyzer: SpectrumAnalyzer,
    sample_rate: u32,
    block: AudioBlock,
    after: SpectrumAnalyzer,
    newest: Option<AnalysisWindow>,
)
    requires
        analyzer.is_fresh(sample_rate),
        block.wf(),
        analyzer.processes(block, after, newest),
    ensures
        !analyzer.interrupted_by(block),
        analyzer.sequence() == 0,
        newest is None,
        after.samples() == block.frames@.subrange(0, block.valid_frames as int),
        after.sample_rate() == sample_rate,
        after.sequence() == 0,
        after.generation() == Some(block.route_generation),
        after.expected_frame() == Some(
            ((block.start_frame + block.valid_frames) % 0x1_0000_0000_0000_0000) as u64,
        ),
        !after.averages(),
{
    reveal(counted_on);
    assert(after.samples() =~= block.frames@.subrange(0, block.valid_frames as int));
}

} // verus!
