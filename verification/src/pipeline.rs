//! One session: an opened input, the analysis of its blocks, and the way of the
//! results to the reader.
use std::sync::Arc;

use vstd::prelude::*;

use crate::capture::{
    blocks_follow_one_another, counted_on, counts_add_up, fewer_frames_wait_than_fill_a_block,
    CaptureWriter, CapturedBlocks,
};
use crate::dsp::{reports, snapshot_of, AnalysisWindow, SpectrumAnalyzer, WindowNumbers};
use crate::model::{
    next_generation, no_stats, AnalysisCounts, AnalysisSnapshot, AudioBlock, ChannelRoute,
    RouteControl, RuntimeStats, SharedStats, StatsView, StereoFrame, AUDIO_BLOCK_FRAMES, FFT_SIZE,
};
use crate::queue::{
    count_snapshots, receive_snapshot, send_snapshot, snapshot_counts, snapshot_queue,
    snapshot_slots, snapshot_source, snapshot_stream, snapshots_gone, snapshots_offered,
    snapshots_ready, snapshots_received, snapshots_sent, Receiver, Sender, MAX_SLOTS,
};
use crate::shared::{
    a_counter_holds_the_sum, amounts_added, counter_adds, generation_at, is_counter_step,
    route_at, sum_of, FlagWatch, SharedRoute,
};
use crate::source::{AudioInfo, InputSource, OpenedSource};

verus! {

pub const RESULT_QUEUE_CAPACITY: usize = 3;

/// The last of `batch` that belongs to the route of `generation`.
pub open spec fn latest_of(batch: Seq<AnalysisSnapshot>, generation: u64) -> Option<
    AnalysisSnapshot,
>
    decreases batch.len(),
{
    if batch.len() == 0 {
        None
    } else if batch.last().route_generation == generation {
        Some(batch.last())
    } else {
        latest_of(batch.drop_last(), generation)
    }
}

/// Of the results taken out, the newest one of the route in force is shown: none of
/// that route follows it, none of another route is ever shown, and nothing is shown
/// only if none of that route was there.
pub proof fn only_the_newest_result_of_the_route_is_shown(
    batch: Seq<AnalysisSnapshot>,
    generation: u64,
)
    ensures
        latest_of(batch, generation) is None <==> (forall|i: int|
            0 <= i < batch.len() ==> (#[trigger] batch[i]).route_generation != generation),
        latest_of(batch, generation) matches Some(shown) ==> {
            &&& shown.route_generation == generation
            &&& exists|at: int|
                {
                    &&& 0 <= at < batch.len() && #[trigger] batch[at] == shown
                    &&& forall|i: int|
                        at < i < batch.len() ==> (#[trigger] batch[i]).route_generation
                            != generation
                }
        },
    decreases batch.len(),
{
    if batch.len() > 0 {
        let earlier = batch.drop_last();
        only_the_newest_result_of_the_route_is_shown(earlier, generation);
        if batch.last().route_generation == generation {
            assert(batch[batch.len() - 1] == batch.last());
        } else {
            assert(forall|i: int| 0 <= i < earlier.len() ==> batch[i] == #[trigger] earlier[i]);
            if let Some(shown) = latest_of(earlier, generation) {
                let at = choose|at: int|
                    {
                        &&& 0 <= at < earlier.len() && #[trigger] earlier[at] == shown
                        &&& forall|i: int|
                            at < i < earlier.len() ==> (#[trigger] earlier[i]).route_generation
                                != generation
                    };
                assert(batch[at] == shown);
                assert forall|i: int| at < i < batch.len() implies (
                #[trigger] batch[i]).route_generation != generation by {
                    if i < earlier.len() {
                        assert(earlier[i] == batch[i]);
                    }
                }
            } else {
                assert forall|i: int| 0 <= i < batch.len() implies (
                #[trigger] batch[i]).route_generation != generation by {
                    if i < earlier.len() {
                        assert(earlier[i] == batch[i]);
                    }
                }
            }
        }
    }
}

/// Taking out the `count` results that were counted gives the last one that belongs to
/// the route of `generation`.
pub open spec fn takes_counted(
    before: Receiver<AnalysisSnapshot>,
    after: Receiver<AnalysisSnapshot>,
    count: int,
    generation: u64,
    latest: Option<AnalysisSnapshot>,
) -> bool {
    &&& snapshot_source(after) == snapshot_source(before)
    &&& snapshots_received(before).is_prefix_of(snapshot_source(before))
        ==> snapshots_received(after).is_prefix_of(snapshot_source(after))
    &&& snapshots_ready(after) == 0
    &&& exists|batch: Seq<AnalysisSnapshot>|
        {
            &&& snapshots_received(after) == #[trigger] (snapshots_received(before) + batch)
            &&& batch.len() == count
            &&& latest == latest_of(batch, generation)
        }
}

/// Taking all the results that wait gives the last one that belongs to the route of
/// `generation`. As many are taken out as are counted first.
pub open spec fn takes_latest(
    before: Receiver<AnalysisSnapshot>,
    after: Receiver<AnalysisSnapshot>,
    generation: u64,
    latest: Option<AnalysisSnapshot>,
) -> bool {
    exists|count: usize|
        {
            &&& snapshot_counts(after) == #[trigger] snapshot_counts(before).push(count)
            &&& count >= snapshots_ready(before)
            &&& takes_counted(before, after, count as int, generation, latest)
        }
}

/// Takes out the `count` results that were counted to wait, and gives the last one that
/// belongs to the route of `generation`.
pub fn take_counted(
    consumer: &mut Receiver<AnalysisSnapshot>,
    count: usize,
    generation: u64,
) -> (latest: Option<AnalysisSnapshot>)
    requires
        snapshots_ready(*old(consumer)) == count,
    ensures
        takes_counted(*old(consumer), *final(consumer), count as int, generation, latest),
        snapshot_counts(*final(consumer)) == snapshot_counts(*old(consumer)),
{
    let mut latest: Option<AnalysisSnapshot> = None;
    let ghost received = snapshots_received(*old(consumer));
    let ghost mut batch: Seq<AnalysisSnapshot> = Seq::empty();
    assert(received + batch =~= received);
    for taken in 0..count
        invariant
            batch.len() == taken,
            snapshots_ready(*consumer) == count - taken,
            snapshots_received(*consumer) == received + batch,
            snapshot_counts(*consumer) == snapshot_counts(*old(consumer)),
            snapshot_source(*consumer) == snapshot_source(*old(consumer)),
            received.is_prefix_of(snapshot_source(*old(consumer)))
                ==> snapshots_received(*consumer).is_prefix_of(snapshot_source(*consumer)),
            latest == latest_of(batch, generation),
    {
        if let Some(snapshot) = receive_snapshot(consumer) {
            proof {
                let longer = batch.push(snapshot);
                assert(received + longer =~= (received + batch).push(snapshot));
                assert(longer.drop_last() =~= batch);
                batch = longer;
            }
            if snapshot.route_generation == generation {
                latest = Some(snapshot);
            }
        }
    }
    assert(snapshots_received(*consumer) == received + batch);
    latest
}

/// Takes out the results that wait when it is called, and gives the last one that
/// belongs to the route of `generation`. Results that arrive meanwhile are left for the
/// next time.
pub fn take_latest_matching(
    consumer: &mut Receiver<AnalysisSnapshot>,
    generation: u64,
) -> (latest: Option<AnalysisSnapshot>)
    ensures
        takes_latest(*old(consumer), *final(consumer), generation, latest),
{
    let count: usize = count_snapshots(consumer);
    let latest = take_counted(consumer, count, generation);
    assert(snapshot_counts(*consumer) == snapshot_counts(*old(consumer)).push(count));
    latest
}

/// What trying to hand the pending result on does: it is offered to the queue, once, and
/// stays pending exactly if the queue is full, which is when as many results as it has slots
/// were not taken out yet.
pub open spec fn hands_on(
    pending: Option<AnalysisSnapshot>,
    queue: Sender<AnalysisSnapshot>,
    pending_after: Option<AnalysisSnapshot>,
    queue_after: Sender<AnalysisSnapshot>,
) -> bool {
    &&& snapshot_slots(queue_after) == snapshot_slots(queue)
    &&& snapshot_stream(queue_after) == snapshot_stream(queue)
    &&& snapshots_sent(queue).is_prefix_of(snapshot_stream(queue))
        ==> snapshots_sent(queue_after).is_prefix_of(snapshot_stream(queue_after))
    &&& snapshots_gone(queue) <= snapshots_gone(queue_after)
    &&& pending matches Some(snapshot) ==> snapshots_offered(queue_after) == snapshots_offered(
        queue,
    ).push(snapshot)
    &&& match pending {
        None => pending_after is None && queue_after == queue,
        Some(snapshot) => if snapshots_sent(queue).len() < snapshot_slots(queue) + snapshots_gone(
            queue_after,
        ) {
            &&& pending_after is None
            &&& snapshots_sent(queue_after) == snapshots_sent(queue).push(snapshot)
        } else {
            &&& pending_after == pending
            &&& snapshots_sent(queue_after) == snapshots_sent(queue)
        },
    }
}

/// Tries to hand the pending result on. If the queue is full it stays pending, so that
/// the newest result gets through as soon as there is room.
pub fn publish_pending(
    producer: &mut Sender<AnalysisSnapshot>,
    pending: &mut Option<AnalysisSnapshot>,
)
    ensures
        hands_on(*old(pending), *old(producer), *final(pending), *final(producer)),
{
    if let Some(snapshot) = pending.take() {
        *pending =
        match send_snapshot(producer, snapshot) {
            Ok(_) => None,
            Err(rejected) => Some(rejected),
        };
    }
}

/// The two ends of an empty queue for `slots` results.
pub fn result_queue(slots: usize) -> (ends: (
    Sender<AnalysisSnapshot>,
    Receiver<AnalysisSnapshot>,
))
    requires
        0 < slots <= MAX_SLOTS,
    ensures
        snapshots_sent(ends.0) == Seq::<AnalysisSnapshot>::empty(),
        snapshot_slots(ends.0) == slots,
        snapshots_received(ends.1) == Seq::<AnalysisSnapshot>::empty(),
        snapshot_source(ends.1) == snapshot_stream(ends.0),
        snapshots_ready(ends.1) == 0,
        snapshots_gone(ends.0) == 0,
        snapshots_offered(ends.0) == Seq::<AnalysisSnapshot>::empty(),
{
    snapshot_queue(slots)
}

/// Results are read as they were published: each result that is taken out of the queue
/// is the one that went in at that place.
pub proof fn results_are_read_as_they_were_published(
    results: Sender<AnalysisSnapshot>,
    reader: Receiver<AnalysisSnapshot>,
    place: int,
)
    requires
        snapshot_source(reader) == snapshot_stream(results),
        snapshots_sent(results).is_prefix_of(snapshot_stream(results)),
        snapshots_received(reader).is_prefix_of(snapshot_source(reader)),
        0 <= place < snapshots_sent(results).len(),
        place < snapshots_received(reader).len(),
    ensures
        snapshots_received(reader)[place] == snapshots_sent(results)[place],
{
    assert(snapshots_sent(results)[place] == snapshot_stream(results)[place]);
    assert(snapshots_received(reader)[place] == snapshot_source(reader)[place]);
}

/// The end of the result queue that the display holds. It does not depend on the
/// thread that owns the input.
pub struct AnalysisReader {
    result_consumer: Receiver<AnalysisSnapshot>,
    route_control: SharedRoute,
}

impl AnalysisReader {
    pub closed spec fn results(self) -> Receiver<AnalysisSnapshot> {
        self.result_consumer
    }

    /// Where the route in force is looked up and replaced.
    pub closed spec fn control(self) -> SharedRoute {
        self.route_control
    }

    /// Number of channels of the input.
    pub open spec fn channels(self) -> usize {
        self.control().spec_channels()
    }

    /// Nothing was taken through it yet, and the route is replaced through `control`.
    pub open spec fn is_fresh(self, control: SharedRoute) -> bool {
        &&& self.control() == control
        &&& snapshots_received(self.results()) == Seq::<AnalysisSnapshot>::empty()
    }

    /// Taking the newest result gives `latest`: the last one taken out that belongs to
    /// the route that is found in force.
    pub open spec fn takes_latest(
        self,
        after: AnalysisReader,
        latest: Option<AnalysisSnapshot>,
    ) -> bool {
        exists|control: RouteControl|
            {
                &&& #[trigger] self.control().finds(after.control(), control)
                &&& takes_latest(self.results(), after.results(), control.generation(), latest)
            }
    }

    /// The newest result that waits, unless it belongs to a route that was replaced.
    pub fn take_latest(&mut self) -> (latest: Option<AnalysisSnapshot>)
        ensures
            old(self).takes_latest(*final(self), latest),
    {
        let control = self.route_control.load();
        let (_, generation) = control.load();
        let latest = take_latest_matching(&mut self.result_consumer, generation);
        assert(old(self).control().finds(self.control(), control));
        latest
    }

    /// The route is put in force, and nothing else is done.
    pub open spec fn grants(self, after: AnalysisReader, route: ChannelRoute) -> bool {
        &&& self.control().puts(after.control(), route)
        &&& after.results() == self.results()
    }

    /// Replaces the route, if the input has its channels.
    pub fn set_route(&mut self, route: ChannelRoute) -> (result: Result<(), String>)
        ensures
            result is Ok <==> route.fits(old(self).channels()),
            result is Ok ==> old(self).grants(*final(self), route),
            result matches Err(message) ==> {
                &&& message@ == route.rejection(old(self).channels())
                &&& *final(self) == *old(self)
            },
    {
        match route.validate(self.route_control.channels()) {
            Ok(route) => {
                self.route_control.store(route);
                Ok(())
            },
            Err(message) => Err(message),
        }
    }
}

/// A granted route bears the next generation, where nobody else replaces the route.
pub proof fn a_granted_route_bears_the_next_generation(
    before: AnalysisReader,
    after: AnalysisReader,
    route: ChannelRoute,
)
    requires
        before.grants(after, route),
        before.control().sole(),
    ensures
        after.control().sole(),
        route_at(after.control().routes(), after.control().place()) == route,
        generation_at(after.control().place()) == next_generation(
            generation_at(before.control().place()),
        ),
{
}

/// After a switch no earlier result is shown: whatever waits, what a reader shows after it
/// put a route in force was made under that route or a later one. (Generations repeat after
/// 2 to the 32 switches.)
pub proof fn no_result_of_a_replaced_route_is_shown(
    before: AnalysisReader,
    mid: AnalysisReader,
    route: ChannelRoute,
    after: AnalysisReader,
    latest: Option<AnalysisSnapshot>,
)
    requires
        before.grants(mid, route),
        mid.takes_latest(after, latest),
        before.control().routes().len() <= 0x1_0000_0000,
    ensures
        latest matches Some(shown) ==> {
            &&& shown.route_generation >= mid.control().place()
            &&& mid.control().place() > before.control().place()
            &&& route_at(before.control().routes(), mid.control().place()) == route
        },
{
    let control = choose|control: RouteControl|
        {
            &&& #[trigger] mid.control().finds(after.control(), control)
            &&& takes_latest(mid.results(), after.results(), control.generation(), latest)
        };
    let count = choose|count: usize|
        {
            &&& snapshot_counts(after.results()) == #[trigger] snapshot_counts(
                mid.results(),
            ).push(count)
            &&& count >= snapshots_ready(mid.results())
            &&& takes_counted(
                mid.results(),
                after.results(),
                count as int,
                control.generation(),
                latest,
            )
        };
    let batch = choose|batch: Seq<AnalysisSnapshot>|
        {
            &&& snapshots_received(after.results()) == #[trigger] (snapshots_received(
                mid.results(),
            ) + batch)
            &&& batch.len() == count
            &&& latest == latest_of(batch, control.generation())
        };
    only_the_newest_result_of_the_route_is_shown(batch, control.generation());
}

/// The state of the thread that analyses blocks: the frames held for the next window,
/// and the newest result if it could not be handed on yet.
#[derive(Debug)]
pub struct DspWorker {
    analyzer: SpectrumAnalyzer,
    pending: Option<AnalysisSnapshot>,
}

impl DspWorker {
    pub closed spec fn wf(self) -> bool {
        self.analyzer.wf()
    }

    pub closed spec fn analyzer(self) -> SpectrumAnalyzer {
        self.analyzer
    }

    pub closed spec fn pending(self) -> Option<AnalysisSnapshot> {
        self.pending
    }

    /// No block was taken in yet.
    pub open spec fn is_fresh(self, sample_rate: u32) -> bool {
        &&& self.wf()
        &&& self.analyzer().is_fresh(sample_rate)
        &&& self.pending() is None
    }

    pub fn new(sample_rate: u32) -> (worker: DspWorker)
        ensures
            worker.is_fresh(sample_rate),
    {
        DspWorker { analyzer: SpectrumAnalyzer::new(sample_rate), pending: None }
    }

    /// What taking `block` in does: a discontinuity is counted exactly if the history
    /// is dropped.
    pub open spec fn accepts(
        self,
        block: AudioBlock,
        after: DspWorker,
        window: Option<AnalysisWindow>,
        step: RuntimeStats,
    ) -> bool {
        &&& self.analyzer().processes(block, after.analyzer(), window)
        &&& after.pending() == self.pending()
        &&& step == (RuntimeStats {
            discontinuities: if self.analyzer().interrupted_by(block) {
                1
            } else {
                0
            },
            ..no_stats()
        })
    }

    /// Takes one block in. The result is the window that it completes, if any, and what
    /// it adds to the totals.
    pub fn accept(&mut self, block: &AudioBlock) -> (outcome: (
        Option<AnalysisWindow>,
        RuntimeStats,
    ))
        requires
            old(self).wf(),
            block.wf(),
        ensures
            final(self).wf(),
            old(self).accepts(*block, *final(self), outcome.0, outcome.1),
    {
        let mut step = RuntimeStats::default();
        if self.analyzer.is_interrupted_by(block) {
            step.discontinuities = 1;
        }
        let window = self.analyzer.process_block(block);
        (window, step)
    }

    /// What taking a block off the queue does: a block that claims more frames than it
    /// has room for is passed over.
    pub open spec fn takes(
        self,
        block: AudioBlock,
        after: DspWorker,
        window: Option<AnalysisWindow>,
        step: RuntimeStats,
    ) -> bool {
        if block.wf() {
            self.accepts(block, after, window, step)
        } else {
            after == self && window is None && step == no_stats()
        }
    }

    /// What is counted for what the queue gave: a block that interrupts the input is one
    /// discontinuity.
    pub open spec fn counted(self, block: Option<AudioBlock>) -> RuntimeStats {
        match block {
            Some(block) => if block.wf() && self.analyzer().interrupted_by(block) {
                RuntimeStats { discontinuities: 1, ..no_stats() }
            } else {
                no_stats()
            },
            None => no_stats(),
        }
    }

    /// What looking for a block on the queue leads to: without one nothing happens.
    pub open spec fn takes_next(
        self,
        block: Option<AudioBlock>,
        after: DspWorker,
        taken: bool,
        window: Option<AnalysisWindow>,
        step: RuntimeStats,
    ) -> bool {
        &&& taken == block is Some
        &&& match block {
            Some(block) => self.takes(block, after, window, step),
            None => after == self && window is None && step == no_stats(),
        }
    }

    /// Takes in what the queue gave, if it gave a block, and says whether it did.
    pub fn accept_received(&mut self, block: Option<AudioBlock>) -> (outcome: (
        bool,
        Option<AnalysisWindow>,
        RuntimeStats,
    ))
        requires
            old(self).wf(),
        ensures
            final(self).wf(),
            old(self).takes_next(block, *final(self), outcome.0, outcome.1, outcome.2),
    {
        match block {
            None => (false, None, RuntimeStats::default()),
            Some(block) => {
                if block.valid_frames > AUDIO_BLOCK_FRAMES {
                    return (true, None, RuntimeStats::default());
                }
                let (window, step) = self.accept(&block);
                (true, window, step)
            },
        }
    }

    /// Takes the next block of the input in, if it is there already, and says whether it
    /// was. That depends on the capture side alone.
    pub fn accept_next(&mut self, input: &mut CapturedBlocks) -> (outcome: (
        bool,
        Option<AnalysisWindow>,
        RuntimeStats,
    ))
        requires
            old(self).wf(),
        ensures
            final(self).wf(),
            old(input).receives(*final(input), outcome.0),
            old(self).takes_next(
                old(input).given(outcome.0),
                *final(self),
                outcome.0,
                outcome.1,
                outcome.2,
            ),
    {
        let block = input.receive();
        self.accept_received(block)
    }

    /// The frames of the window completed last, which its numbers are computed from.
    pub fn last_window(&self) -> (frames: &Vec<StereoFrame>)
        ensures
            frames@ == self.analyzer().window(),
    {
        self.analyzer.last_window()
    }

    /// What is counted for a new result: one that is still pending is dropped for it.
    pub open spec fn replaces_pending(self) -> RuntimeStats {
        RuntimeStats {
            dropped_results: if self.pending() is Some {
                1
            } else {
                0
            },
            ..no_stats()
        }
    }

    /// Makes the result of the window completed last from its numbers. It takes the
    /// place of a result that is still pending, which counts as dropped.
    pub fn complete(&mut self, window: AnalysisWindow, numbers: &WindowNumbers) -> (step:
        RuntimeStats)
        requires
            old(self).wf(),
            old(self).analyzer().window().len() == FFT_SIZE,
        ensures
            final(self).wf(),
            final(self).analyzer() == old(self).analyzer(),
            final(self).pending() matches Some(snapshot) && snapshot.wf() && reports(
                snapshot,
                window,
                old(self).analyzer().window(),
                *numbers,
            ),
            step == old(self).replaces_pending(),
    {
        let snapshot = snapshot_of(window, self.analyzer.last_window(), numbers);
        let mut step = RuntimeStats::default();
        if self.pending.is_some() {
            step.dropped_results = 1;
        }
        self.pending = Some(snapshot);
        step
    }

    /// Tries to hand the pending result on.
    pub fn publish(&mut self, results: &mut Sender<AnalysisSnapshot>)
        requires
            old(self).wf(),
        ensures
            final(self).wf(),
            final(self).analyzer() == old(self).analyzer(),
            hands_on(old(self).pending(), *old(results), final(self).pending(), *final(results)),
    {
        publish_pending(results, &mut self.pending);
    }
}

/// What the thread that analyses a session's blocks works on.
pub struct AnalysisTask {
    worker: DspWorker,
    input: CapturedBlocks,
    results: Sender<AnalysisSnapshot>,
    counts: AnalysisCounts,
}

impl AnalysisTask {
    pub closed spec fn wf(self) -> bool {
        self.worker.wf()
    }

    pub closed spec fn worker(self) -> DspWorker {
        self.worker
    }

    pub closed spec fn input(self) -> CapturedBlocks {
        self.input
    }

    pub closed spec fn results(self) -> Sender<AnalysisSnapshot> {
        self.results
    }

    /// What was counted.
    pub closed spec fn counts(self) -> AnalysisCounts {
        self.counts
    }

    /// No block of `source` was taken in yet.
    pub open spec fn is_fresh(self, source: OpenedSource) -> bool {
        &&& self.wf()
        &&& self.worker().is_fresh(source.spec_info().sample_rate)
        &&& source.input() matches Some(input) && self.input() == input.blocks()
        &&& self.counts().is_fresh()
        &&& snapshots_sent(self.results()) == Seq::<AnalysisSnapshot>::empty()
        &&& snapshot_slots(self.results()) == RESULT_QUEUE_CAPACITY
    }

    /// Takes the next block of the input in, if it is there already, counts what it adds
    /// to the totals, and gives the window that it completes. The first part of the
    /// result says whether the block was there, which depends on the capture side alone.
    pub fn take_block(&mut self) -> (outcome: (bool, Option<AnalysisWindow>))
        requires
            old(self).wf(),
        ensures
            final(self).wf(),
            final(self).results() == old(self).results(),
            old(self).input().receives(final(self).input(), outcome.0),
            ({
                let block = old(self).input().given(outcome.0);
                old(self).worker().takes_next(
                    block,
                    final(self).worker(),
                    outcome.0,
                    outcome.1,
                    old(self).worker().counted(block),
                )
            }),
            if outcome.0 {
                old(self).counts().adds(
                    final(self).counts(),
                    old(self).worker().counted(Some(old(self).input().next_block())),
                )
            } else {
                final(self).counts() == old(self).counts()
            },
    {
        let (taken, window, step) = self.worker.accept_next(&mut self.input);
        if taken {
            self.counts.add(&step);
        }
        (taken, window)
    }

    /// The frames of the window completed last.
    pub fn last_window(&self) -> (frames: &Vec<StereoFrame>)
        ensures
            frames@ == self.worker().analyzer().window(),
    {
        self.worker.last_window()
    }

    /// Makes the result of the window completed last from its numbers, to be handed on.
    pub fn complete(&mut self, window: AnalysisWindow, numbers: &WindowNumbers)
        requires
            old(self).wf(),
            old(self).worker().analyzer().window().len() == FFT_SIZE,
        ensures
            final(self).wf(),
            final(self).input() == old(self).input(),
            final(self).results() == old(self).results(),
            final(self).worker().analyzer() == old(self).worker().analyzer(),
            final(self).worker().pending() matches Some(snapshot) && snapshot.wf() && reports(
                snapshot,
                window,
                old(self).worker().analyzer().window(),
                *numbers,
            ),
            old(self).counts().adds(
                final(self).counts(),
                old(self).worker().replaces_pending(),
            ),
    {
        let step = self.worker.complete(window, numbers);
        self.counts.add(&step);
    }

    /// Tries to hand the pending result on.
    pub fn publish(&mut self)
        requires
            old(self).wf(),
        ensures
            final(self).wf(),
            final(self).input() == old(self).input(),
            final(self).counts() == old(self).counts(),
            final(self).worker().analyzer() == old(self).worker().analyzer(),
            hands_on(
                old(self).worker().pending(),
                old(self).results(),
                final(self).worker().pending(),
                final(self).results(),
            ),
    {
        self.worker.publish(&mut self.results);
    }
}

/// Message for a start that was called off.
pub open spec fn start_cancelled() -> Seq<char> {
    "input start cancelled"@
}

/// Message for a source whose captured input was taken before.
pub open spec fn input_missing() -> Seq<char> {
    "a new source owns its input"@
}

/// Message for a route that is asked for where the results are not read any more.
pub open spec fn route_elsewhere() -> Seq<char> {
    "the route is set where the results are read"@
}

/// A session that did not come about: why, and the input, if one was opened, which was
/// told to stop.
pub struct RefusedSession {
    pub message: String,
    pub source: Option<OpenedSource>,
}

/// A session: an opened input and the reader of its results.
pub struct AnalyzerRuntime {
    audio: OpenedSource,
    reader: Option<AnalysisReader>,
    stats: Arc<SharedStats>,
    view: StatsView,
}

impl AnalyzerRuntime {
    pub closed spec fn audio(self) -> OpenedSource {
        self.audio
    }

    /// Where the session is counted.
    pub closed spec fn counters(self) -> SharedStats {
        *self.stats
    }

    /// The totals as this side reads them.
    pub closed spec fn view(self) -> StatsView {
        self.view
    }

    /// The reader of the results, unless it was taken.
    pub closed spec fn reader(self) -> Option<AnalysisReader> {
        self.reader
    }

    /// What becomes of an opened input: the error is passed on, and an input that
    /// cannot be analysed or was called off meanwhile is told to stop.
    pub open spec fn starts(
        opened: Result<OpenedSource, String>,
        cancelled: bool,
        stats: SharedStats,
        result: Result<(AnalyzerRuntime, AnalysisTask), RefusedSession>,
    ) -> bool {
        match opened {
            Err(error) => result matches Err(refused) && refused.message == error
                && refused.source is None,
            Ok(source) => if source.spec_info().valid() && !cancelled && source.input() is Some {
                result matches Ok((runtime, task)) && {
                    &&& runtime.audio().spec_info() == source.spec_info()
                    &&& runtime.audio().running() == source.running()
                    &&& runtime.audio().stream() == source.stream()
                    &&& runtime.counters() == stats
                    &&& runtime.view().reads(stats)
                    &&& runtime.reader() matches Some(reader) && reader.is_fresh(
                        (source.input()->0).control(),
                    )
                    &&& task.is_fresh(source)
                    &&& task.counts().counts_in(stats)
                    &&& snapshot_source((runtime.reader()->0).results()) == snapshot_stream(
                        task.results(),
                    )
                }
            } else {
                result matches Err(refused) && {
                    &&& refused.source matches Some(ended) && source.ends(ended)
                    &&& refused.message@ == (if !source.spec_info().valid() {
                        source.spec_info().rejection()
                    } else if cancelled {
                        start_cancelled()
                    } else {
                        input_missing()
                    })
                }
            },
        }
    }

    /// Builds the session around an opened input.
    pub fn from_opened(
        opened: Result<OpenedSource, String>,
        cancelled: bool,
        stats: Arc<SharedStats>,
    ) -> (result: Result<(AnalyzerRuntime, AnalysisTask), RefusedSession>)
        ensures
            AnalyzerRuntime::starts(opened, cancelled, *stats, result),
    {
        let mut audio = match opened {
            Ok(audio) => audio,
            Err(error) => return Err(RefusedSession { message: error, source: None }),
        };
        if let Err(message) = audio.info().validate() {
            audio.stop();
            return Err(RefusedSession { message, source: Some(audio) });
        }
        if cancelled {
            audio.stop();
            let message = "input start cancelled".to_owned();
            return Err(RefusedSession { message, source: Some(audio) });
        }
        let input = match audio.take_input() {
            Some(input) => input,
            None => {
                audio.stop();
                let message = "a new source owns its input".to_owned();
                return Err(RefusedSession { message, source: Some(audio) });
            },
        };
        let (blocks, route_control) = input.into_parts();
        let (results, result_consumer) = result_queue(RESULT_QUEUE_CAPACITY);
        let task = AnalysisTask {
            worker: DspWorker::new(audio.info().sample_rate),
            input: blocks,
            results,
            counts: stats.analysis_end(),
        };
        let reader = AnalysisReader { result_consumer, route_control };
        let view = stats.view();
        Ok((AnalyzerRuntime { audio, reader: Some(reader), stats, view }, task))
    }

    /// What a start comes to that was called off before or not: a start that was called off
    /// leaves the source alone. Otherwise the source opens an input, once, whose frames are
    /// counted from zero by the counters of the session, and the flag is looked up after
    /// that.
    pub open spec fn begins<S: InputSource>(
        before: S,
        after: S,
        called_off: bool,
        cancelled: FlagWatch,
        cancelled_after: FlagWatch,
        result: Result<(AnalyzerRuntime, AnalysisTask), RefusedSession>,
    ) -> bool {
        if called_off {
            &&& after == before
            &&& cancelled_after == cancelled
            &&& result matches Err(refused) && refused.message@ == start_cancelled()
                && refused.source is None
        } else {
            exists|
                opened: Result<OpenedSource, String>,
                opened_cancelled: FlagWatch,
                late: bool,
                stats: SharedStats,
            |
                {
                    &&& #[trigger] before.opens(stats, cancelled, opened, opened_cancelled, &after)
                    &&& stats.starts_at_zero()
                    &&& opened_cancelled.values() == cancelled.values()
                    &&& cancelled.place() <= opened_cancelled.place()
                    &&& opened_cancelled.finds(cancelled_after, late)
                    &&& #[trigger] AnalyzerRuntime::starts(opened, late, stats, result)
                }
        }
    }

    /// Opens an input and builds the session around it, unless it was called off before.
    pub fn start_unless<S: InputSource>(
        source: &mut S,
        called_off: bool,
        cancelled: &mut FlagWatch,
    ) -> (result: Result<(AnalyzerRuntime, AnalysisTask), RefusedSession>)
        ensures
            AnalyzerRuntime::begins(
                *old(source),
                *final(source),
                called_off,
                *old(cancelled),
                *final(cancelled),
                result,
            ),
    {
        if called_off {
            let message = "input start cancelled".to_owned();
            return Err(RefusedSession { message, source: None });
        }
        let stats = Arc::new(SharedStats::default());
        let opened = source.open(Arc::clone(&stats), cancelled);
        let ghost opened_cancelled = *cancelled;
        assert(old(source).opens(*stats, *old(cancelled), opened, opened_cancelled, &*source));
        let late: bool = cancelled.is_set();
        let result = AnalyzerRuntime::from_opened(opened, late, stats);
        assert(AnalyzerRuntime::starts(opened, late, *stats, result));
        result
    }

    /// Of a start that came to nothing, only why.
    pub open spec fn reports(
        outcome: Result<(AnalyzerRuntime, AnalysisTask), RefusedSession>,
        result: Result<(AnalyzerRuntime, AnalysisTask), String>,
    ) -> bool {
        match outcome {
            Ok(started) => result == Ok::<(AnalyzerRuntime, AnalysisTask), String>(started),
            Err(refused) => result == Err::<(AnalyzerRuntime, AnalysisTask), String>(
                refused.message,
            ),
        }
    }

    /// What a start comes to, with the flag as it is found.
    pub open spec fn starts_with<S: InputSource>(
        before: S,
        after: S,
        cancelled: FlagWatch,
        cancelled_after: FlagWatch,
        result: Result<(AnalyzerRuntime, AnalysisTask), String>,
    ) -> bool {
        exists|
            called_off: bool,
            looked_up: FlagWatch,
            outcome: Result<(AnalyzerRuntime, AnalysisTask), RefusedSession>,
        |
            {
                &&& #[trigger] cancelled.finds(looked_up, called_off)
                &&& #[trigger] AnalyzerRuntime::begins(
                    before,
                    after,
                    called_off,
                    looked_up,
                    cancelled_after,
                    outcome,
                )
                &&& AnalyzerRuntime::reports(outcome, result)
            }
    }

    /// Opens an input and builds the session around it, unless it is called off. What
    /// is to run on the analysis thread comes with the session.
    pub fn start_with<S: InputSource>(source: &mut S, cancelled: &mut FlagWatch) -> (result: Result<
        (AnalyzerRuntime, AnalysisTask),
        String,
    >)
        ensures
            AnalyzerRuntime::starts_with(
                *old(source),
                *final(source),
                *old(cancelled),
                *final(cancelled),
                result,
            ),
    {
        let called_off: bool = cancelled.is_set();
        let ghost looked_up = *cancelled;
        let outcome = AnalyzerRuntime::start_unless(source, called_off, cancelled);
        assert(old(cancelled).finds(looked_up, called_off));
        assert(AnalyzerRuntime::begins(
            *old(source),
            *source,
            called_off,
            looked_up,
            *cancelled,
            outcome,
        ));
        match outcome {
            Ok(started) => Ok(started),
            Err(refused) => Err(refused.message),
        }
    }

    pub fn info(&self) -> (info: &AudioInfo)
        ensures
            *info == self.audio().spec_info(),
    {
        self.audio.info()
    }

    /// The totals of the session as they stand now.
    pub fn stats(&mut self) -> (totals: RuntimeStats)
        ensures
            old(self).view().shows(final(self).view(), totals),
            final(self).audio() == old(self).audio(),
            final(self).reader() == old(self).reader(),
            final(self).counters() == old(self).counters(),
    {
        self.view.totals()
    }

    /// Replaces the route, if the input has its channels. Once the reader of the results was
    /// given away, the route is replaced through that.
    pub fn set_route(&mut self, route: ChannelRoute) -> (result: Result<(), String>)
        ensures
            final(self).audio() == old(self).audio(),
            final(self).counters() == old(self).counters(),
            final(self).view() == old(self).view(),
            match old(self).reader() {
                Some(reader) => {
                    &&& final(self).reader() is Some
                    &&& result is Ok <==> route.fits(reader.channels())
                    &&& match result {
                        Ok(_) => reader.grants(final(self).reader()->0, route),
                        Err(message) => {
                            &&& message@ == route.rejection(reader.channels())
                            &&& final(self).reader() == old(self).reader()
                        },
                    }
                },
                None => {
                    &&& result matches Err(message) && message@ == route_elsewhere()
                    &&& final(self).reader() is None
                },
            },
    {
        match self.reader.as_mut() {
            Some(reader) => reader.set_route(route),
            None => Err("the route is set where the results are read".to_owned()),
        }
    }

    /// The newest result that waits, unless it belongs to a route that was replaced.
    pub fn take_latest(&mut self) -> (latest: Option<AnalysisSnapshot>)
        ensures
            final(self).audio() == old(self).audio(),
            final(self).counters() == old(self).counters(),
            final(self).view() == old(self).view(),
            old(self).reader() is None ==> latest is None && final(self).reader() is None,
            old(self).reader() matches Some(before) ==> final(self).reader() matches Some(after)
                && before.takes_latest(after, latest),
    {
        match self.reader.as_mut() {
            Some(reader) => reader.take_latest(),
            None => None,
        }
    }

    /// Gives the reader away, the first time.
    pub(crate) fn take_reader(&mut self) -> (reader: Option<AnalysisReader>)
        ensures
            reader == old(self).reader(),
            final(self).reader() is None,
            final(self).audio() == old(self).audio(),
            final(self).counters() == old(self).counters(),
            final(self).view() == old(self).view(),
    {
        self.reader.take()
    }

    /// The counters of the session, for another thread to read.
    pub(crate) fn shared_stats(&self) -> (view: StatsView)
        ensures
            view.reads(self.counters()),
    {
        self.stats.view()
    }

    /// What becomes of a session that is told to stop: its input is.
    pub open spec fn ends(self, after: AnalyzerRuntime) -> bool {
        &&& self.audio().ends(after.audio())
        &&& after.reader() == self.reader()
        &&& after.counters() == self.counters()
        &&& after.view() == self.view()
    }

    /// Stops the input. The analysis thread is to be ended after that, when no more
    /// blocks arrive.
    pub fn stop(&mut self)
        ensures
            old(self).ends(*final(self)),
    {
        self.audio.stop();
    }
}

/// Whatever was lost before a block, the analysis notices: a block that starts later
/// than expected does not continue the frames held.
proof fn later_start_interrupts(
    analyzer: SpectrumAnalyzer,
    expected: u64,
    lost: int,
    block: AudioBlock,
)
    requires
        analyzer.expected_frame() == Some(expected),
        0 < lost <= u64::MAX,
        block.start_frame == counted_on(expected, lost),
    ensures
        analyzer.interrupted_by(block),
{
    reveal(counted_on);
}

/// A malformed callback never joins the frames before it to those after it: an analysis
/// that waits for the frames which the callback dropped is interrupted by the next
/// block.
pub proof fn malformed_input_interrupts_the_analysis(
    before: CaptureWriter,
    frames: int,
    step: RuntimeStats,
    after: CaptureWriter,
    analyzer: SpectrumAnalyzer,
    block: AudioBlock,
)
    requires
        before.wf(),
        before.rejects(after, frames, step),
        0 <= frames < u64::MAX - AUDIO_BLOCK_FRAMES,
        analyzer.expected_frame() == Some(before.assembler().start_frame()),
        block.start_frame == after.assembler().start_frame(),
    ensures
        analyzer.interrupted_by(block),
{
    let next = before.assembler().next_frame();
    let pending = before.assembler().pending().len() as int;
    fewer_frames_wait_than_fill_a_block(before);
    counts_add_up(next, -pending, pending + frames + 1);
    counts_add_up(after.assembler().next_frame(), 0, 0);
    counts_add_up(next, frames + 1, 0);
    later_start_interrupts(
        analyzer,
        before.assembler().start_frame(),
        pending + frames + 1,
        block,
    );
}

/// A block that the queue refused leaves a gap that the analysis sees: an analysis that
/// waits for its frames is interrupted by every later block of the callback.
pub proof fn a_dropped_block_interrupts_the_analysis(
    before: CaptureWriter,
    after: CaptureWriter,
    pairs: Seq<StereoFrame>,
    route: ChannelRoute,
    generation: u64,
    offered: Seq<AudioBlock>,
    accepted: Seq<bool>,
    step: RuntimeStats,
    dropped: int,
    later: int,
    analyzer: SpectrumAnalyzer,
)
    requires
        before.wf(),
        before.writes(after, pairs, route, generation, offered, accepted, step),
        0 <= dropped < later < offered.len(),
        offered.len() * AUDIO_BLOCK_FRAMES <= u64::MAX,
        !accepted[dropped],
        analyzer.expected_frame() == Some(offered[dropped].start_frame),
    ensures
        analyzer.interrupted_by(offered[later]),
{
    let start = offered[dropped].start_frame;
    let lost = (later - dropped) * AUDIO_BLOCK_FRAMES;
    blocks_follow_one_another(
        before,
        after,
        pairs,
        route,
        generation,
        offered,
        accepted,
        step,
        dropped,
        later,
    );
    assert(0 < lost <= u64::MAX);
    later_start_interrupts(analyzer, start, lost, offered[later]);
}

/// How many results are pending, which is one at most.
pub open spec fn results_pending(worker: DspWorker) -> int {
    if worker.pending() is Some {
        1
    } else {
        0
    }
}

/// How many of the first `count` blocks do not start where the block before ended, or were
/// captured under another route than it.
pub open spec fn breaks_between(blocks: Seq<AudioBlock>, count: int) -> int
    decreases count,
{
    if count <= 1 {
        0
    } else {
        breaks_between(blocks, count - 1) + (if follows(blocks[count - 2], blocks[count - 1]) {
            0int
        } else {
            1int
        })
    }
}

/// The second block starts where the first one ends, and was captured under the same route.
pub open spec fn follows(first: AudioBlock, second: AudioBlock) -> bool {
    &&& second.start_frame == counted_on(first.start_frame, first.valid_frames as int)
    &&& second.route_generation == first.route_generation
}

proof fn breaks_with_one_more(blocks: Seq<AudioBlock>, block: AudioBlock, count: int)
    requires
        0 <= count <= blocks.len(),
    ensures
        breaks_between(blocks.push(block), count) == breaks_between(blocks, count),
    decreases count,
{
    if count > 1 {
        breaks_with_one_more(blocks, block, count - 1);
    }
}

/// What the analysis thread has at a time: its task, and the window whose numbers it
/// computes, if any.
pub struct WorkState {
    pub task: AnalysisTask,
    pub open: Option<AnalysisWindow>,
}

/// The analysis thread takes a block in.
pub open spec fn takes_in(before: WorkState, after: WorkState) -> bool {
    let block = before.task.input().next_block();
    let step = before.task.worker().counted(Some(block));
    &&& block.wf()
    &&& before.task.input().receives(after.task.input(), true)
    &&& after.task.results() == before.task.results()
    &&& before.task.worker().takes_next(Some(block), after.task.worker(), true, after.open, step)
    &&& before.task.counts().adds(after.task.counts(), step)
}

/// It looks for a block and finds none.
pub open spec fn looks_in_vain(before: WorkState, after: WorkState) -> bool {
    &&& before.task.input().receives(after.task.input(), false)
    &&& after.task.results() == before.task.results()
    &&& after.task.worker() == before.task.worker()
    &&& after.task.counts() == before.task.counts()
    &&& after.open == before.open
}

/// It makes the result of the window that was completed.
pub open spec fn makes_result(before: WorkState, after: WorkState) -> bool {
    &&& before.open is Some
    &&& after.open is None
    &&& after.task.input() == before.task.input()
    &&& after.task.results() == before.task.results()
    &&& after.task.worker().analyzer() == before.task.worker().analyzer()
    &&& after.task.worker().pending() matches Some(made) && made.sequence
        == (before.open->0).sequence
    &&& before.task.counts().adds(
        after.task.counts(),
        before.task.worker().replaces_pending(),
    )
}

/// It tries to hand a result on.
pub open spec fn tries_to_publish(before: WorkState, after: WorkState) -> bool {
    &&& after.open == before.open
    &&& after.task.input() == before.task.input()
    &&& after.task.counts() == before.task.counts()
    &&& after.task.worker().analyzer() == before.task.worker().analyzer()
    &&& hands_on(
        before.task.worker().pending(),
        before.task.results(),
        after.task.worker().pending(),
        after.task.results(),
    )
}

/// The analysis thread's work over time, one thing after the other.
pub open spec fn is_work_run(states: Seq<WorkState>) -> bool {
    &&& states.len() > 0
    &&& forall|i: int| 0 <= i < states.len() - 1 ==> #[trigger] is_work_step(states, i)
}

pub open spec fn is_work_step(states: Seq<WorkState>, i: int) -> bool {
    ||| takes_in(states[i], states[i + 1])
    ||| looks_in_vain(states[i], states[i + 1])
    ||| makes_result(states[i], states[i + 1])
    ||| tries_to_publish(states[i], states[i + 1])
}

/// Nothing was done yet.
pub open spec fn is_work_start(state: WorkState) -> bool {
    &&& state.open is None
    &&& state.task.worker().pending() is None
    &&& state.task.worker().analyzer().sequence() == 0
    &&& state.task.worker().analyzer().expected_frame() is None
    &&& state.task.worker().analyzer().generation() is None
    &&& state.task.input().received().len() == 0
    &&& state.task.counts().is_fresh()
    &&& snapshots_sent(state.task.results()).len() == 0
}

/// How many results were made in the first `count` steps.
pub open spec fn results_made(states: Seq<WorkState>, count: int) -> int
    decreases count,
{
    if count <= 0 {
        0
    } else {
        results_made(states, count - 1) + (if makes_result(states[count - 1], states[count]) {
            1int
        } else {
            0int
        })
    }
}

/// The sum of all the amounts.
pub open spec fn sum(amounts: Seq<u64>) -> int {
    sum_of(amounts, amounts.len() as int)
}

proof fn sum_with_one_more(amounts: Seq<u64>, amount: u64, count: int)
    requires
        0 <= count <= amounts.len(),
    ensures
        sum_of(amounts.push(amount), count) == sum_of(amounts, count),
    decreases count,
{
    if count > 0 {
        sum_with_one_more(amounts, amount, count - 1);
    }
}

/// Nothing that the analysis thread does goes uncounted. The discontinuities counted are the
/// breaks between the blocks taken in, one for each block that does not follow the one
/// before or comes from another route. The results made were handed on, counted as dropped,
/// or the last one is still pending.
pub proof fn the_work_is_counted(states: Seq<WorkState>, count: int)
    requires
        is_work_run(states),
        is_work_start(states[0]),
        0 <= count < states.len(),
    ensures
        ({
            let task = states[count].task;
            let blocks = task.input().received();
            &&& sum(amounts_added(task.counts().discontinuities())) == breaks_between(
                blocks,
                blocks.len() as int,
            )
            &&& results_made(states, count) == snapshots_sent(task.results()).len() + sum(
                amounts_added(task.counts().dropped()),
            ) + results_pending(task.worker())
            &&& if blocks.len() == 0 {
                &&& task.worker().analyzer().expected_frame() is None
                &&& task.worker().analyzer().generation() is None
            } else {
                let last = blocks.last();
                &&& task.worker().analyzer().expected_frame() == Some(
                    counted_on(last.start_frame, last.valid_frames as int),
                )
                &&& task.worker().analyzer().generation() == Some(last.route_generation)
            }
        }),
    decreases count,
{
    if count > 0 {
        let i = count - 1;
        the_work_is_counted(states, i);
        assert(is_work_step(states, i));
        let before = states[i];
        let after = states[count];
        let counts = before.task.counts();
        let breaks = amounts_added(counts.discontinuities());
        let dropped = amounts_added(counts.dropped());
        let blocks = before.task.input().received();
        if takes_in(before, after) {
            let block = before.task.input().next_block();
            let step = before.task.worker().counted(Some(block));
            sum_with_one_more(breaks, step.discontinuities, breaks.len() as int);
            sum_with_one_more(dropped, step.dropped_results, dropped.len() as int);
            breaks_with_one_more(blocks, block, blocks.len() as int);
            assert(after.task.input().received().len() == blocks.len() + 1);
        } else if makes_result(before, after) {
            let step = before.task.worker().replaces_pending();
            sum_with_one_more(breaks, step.discontinuities, breaks.len() as int);
            sum_with_one_more(dropped, step.dropped_results, dropped.len() as int);
        }
    }
}

/// The totals that the display reads say the same: if nobody else counts discontinuities or
/// dropped results, the last total of the first is the number of breaks between the blocks
/// taken in, and the results made were handed on, are in the last total of the second, or
/// the last one is still pending.
pub proof fn the_totals_account_for_the_work(states: Seq<WorkState>, stats: SharedStats)
    requires
        is_work_run(states),
        is_work_start(states[0]),
        states.len() <= u64::MAX,
        states[0].task.counts().counts_in(stats),
        stats.starts_at_zero(),
        stats.discontinuity_values().len() == amounts_added(
            states.last().task.counts().discontinuities(),
        ).len() + 1,
        stats.dropped_result_values().len() == amounts_added(
            states.last().task.counts().dropped(),
        ).len() + 1,
    ensures
        ({
            let task = states.last().task;
            let blocks = task.input().received();
            &&& stats.discontinuity_values().last() == breaks_between(blocks, blocks.len() as int)
            &&& results_made(states, states.len() - 1) == snapshots_sent(task.results()).len()
                + stats.dropped_result_values().last() + results_pending(task.worker())
        }),
{
    let last = states.len() - 1;
    let breaks = Seq::new(states.len(), |i: int| states[i].task.counts().discontinuities());
    let dropped = Seq::new(states.len(), |i: int| states[i].task.counts().dropped());
    assert forall|i: int| 0 <= i < last implies #[trigger] is_counter_step(breaks, i) by {
        assert(is_work_step(states, i));
        one_step_counts_once(states[i], states[i + 1]);
    }
    assert forall|i: int| 0 <= i < last implies #[trigger] is_counter_step(dropped, i) by {
        assert(is_work_step(states, i));
        one_step_counts_once(states[i], states[i + 1]);
    }
    a_counter_holds_the_sum(breaks, last);
    a_counter_holds_the_sum(dropped, last);
    the_work_is_counted(states, last);
    the_sums_are_small(states, last);
}

proof fn one_step_counts_once(before: WorkState, after: WorkState)
    requires
        takes_in(before, after) || looks_in_vain(before, after) || makes_result(before, after)
            || tries_to_publish(before, after),
    ensures
        ({
            let first = before.task.counts().discontinuities();
            let second = after.task.counts().discontinuities();
            second == first || exists|amount: u64| #[trigger] counter_adds(first, second, amount)
        }),
        ({
            let first = before.task.counts().dropped();
            let second = after.task.counts().dropped();
            second == first || exists|amount: u64| #[trigger] counter_adds(first, second, amount)
        }),
{
    let block = before.task.input().next_block();
    let step = if takes_in(before, after) {
        before.task.worker().counted(Some(block))
    } else {
        before.task.worker().replaces_pending()
    };
    if takes_in(before, after) || makes_result(before, after) {
        assert(before.task.counts().adds(after.task.counts(), step));
    }
}

proof fn the_sums_are_small(states: Seq<WorkState>, count: int)
    requires
        is_work_run(states),
        is_work_start(states[0]),
        0 <= count < states.len(),
    ensures
        0 <= sum(amounts_added(states[count].task.counts().discontinuities())) <= count,
        0 <= sum(amounts_added(states[count].task.counts().dropped())) <= count,
    decreases count,
{
    if count > 0 {
        let i = count - 1;
        the_sums_are_small(states, i);
        assert(is_work_step(states, i));
        let before = states[i];
        let after = states[count];
        let breaks = amounts_added(before.task.counts().discontinuities());
        let dropped = amounts_added(before.task.counts().dropped());
        if takes_in(before, after) {
            let step = before.task.worker().counted(Some(before.task.input().next_block()));
            sum_with_one_more(breaks, step.discontinuities, breaks.len() as int);
            sum_with_one_more(dropped, step.dropped_results, dropped.len() as int);
        } else if makes_result(before, after) {
            let step = before.task.worker().replaces_pending();
            sum_with_one_more(breaks, step.discontinuities, breaks.len() as int);
            sum_with_one_more(dropped, step.dropped_results, dropped.len() as int);
        }
    }
}

/// The numbers of the results grow from each to the next, and all are below `limit`.
pub open spec fn numbered_below(results: Seq<AnalysisSnapshot>, limit: int) -> bool {
    &&& forall|i: int| 0 <= i < results.len() ==> (#[trigger] results[i]).sequence < limit
    &&& forall|i: int, j: int|
        0 <= i < j < results.len() ==> (#[trigger] results[i]).sequence < (
        #[trigger] results[j]).sequence
}

/// The results that went into the queue, with the one that is pending.
pub open spec fn results_with_pending(state: WorkState) -> Seq<AnalysisSnapshot> {
    match state.task.worker().pending() {
        Some(snapshot) => snapshots_sent(state.task.results()).push(snapshot),
        None => snapshots_sent(state.task.results()),
    }
}

/// Results are handed on in the order of their windows: the numbers of those that went into
/// the queue grow strictly. (Numbers wrap around after 2 to the 64 windows.)
pub proof fn the_numbers_of_results_grow(states: Seq<WorkState>, count: int)
    requires
        is_work_run(states),
        is_work_start(states[0]),
        states.len() <= u64::MAX,
        0 <= count < states.len(),
    ensures
        numbered_below(
            snapshots_sent(states[count].task.results()),
            states[count].task.worker().analyzer().sequence() as int,
        ),
        numbered_below(
            results_with_pending(states[count]),
            states[count].task.worker().analyzer().sequence() - (if states[count].open is Some {
                1int
            } else {
                0int
            }),
        ),
        states[count].open matches Some(window) ==> window.sequence + 1
            == states[count].task.worker().analyzer().sequence(),
        states[count].task.worker().analyzer().sequence() <= count,
    decreases count,
{
    if count > 0 {
        let i = count - 1;
        the_numbers_of_results_grow(states, i);
        assert(is_work_step(states, i));
        let before = states[i];
        let after = states[count];
        let all = results_with_pending(before);
        let sent = snapshots_sent(before.task.results());
        assert(forall|k: int| 0 <= k < sent.len() ==> all[k] == #[trigger] sent[k]);
        reveal(counted_on);
        if !takes_in(before, after) {
            let now = results_with_pending(after);
            let sent_now = snapshots_sent(after.task.results());
            assert(forall|k: int| 0 <= k < sent_now.len() ==> now[k] == #[trigger] sent_now[k]);
            if !makes_result(before, after) {
                assert(now =~= all);
            }
        }
    }
}

/// A result is never lost on its way: what went into the queue, with the one that is pending
/// behind it, is the same before and after each try to hand it on. If there is room it does
/// not stay pending.
pub proof fn trying_to_hand_on_loses_nothing(
    pending: Option<AnalysisSnapshot>,
    queue: Sender<AnalysisSnapshot>,
    pending_after: Option<AnalysisSnapshot>,
    queue_after: Sender<AnalysisSnapshot>,
)
    requires
        hands_on(pending, queue, pending_after, queue_after),
    ensures
        (match pending {
            Some(snapshot) => snapshots_sent(queue).push(snapshot),
            None => snapshots_sent(queue),
        }) == (match pending_after {
            Some(snapshot) => snapshots_sent(queue_after).push(snapshot),
            None => snapshots_sent(queue_after),
        }),
        pending_after is Some <==> pending is Some && snapshots_sent(queue).len()
            >= snapshot_slots(queue) + snapshots_gone(queue_after),
{
}

/// A session comes about exactly if an input was opened that is valid, still has its queue
/// and was not called off. It holds that input with its stream untouched, and its reader
/// replaces the route where the capture side looks it up.
pub proof fn when_a_session_comes_about(
    opened: Result<OpenedSource, String>,
    cancelled: bool,
    stats: SharedStats,
    result: Result<(AnalyzerRuntime, AnalysisTask), RefusedSession>,
)
    requires
        AnalyzerRuntime::starts(opened, cancelled, stats, result),
    ensures
        result is Ok <==> opened is Ok && !cancelled && (opened->Ok_0).spec_info().valid() && (
        opened->Ok_0).input() is Some,
        result matches Ok((runtime, task)) ==> {
            let source = opened->Ok_0;
            let input = source.input()->0;
            &&& runtime.audio().spec_info() == source.spec_info()
            &&& runtime.audio().stream() == source.stream()
            &&& runtime.audio().running() == source.running()
            &&& runtime.counters() == stats
            &&& (runtime.reader()->0).control() == input.control()
            &&& task.input() == input.blocks()
            &&& task.worker().analyzer().sample_rate() == source.spec_info().sample_rate
            &&& snapshot_source((runtime.reader()->0).results()) == snapshot_stream(task.results())
            &&& snapshot_slots(task.results()) == 3
        },
        opened matches Err(error) ==> result matches Err(refused) && refused.message == error,
        opened matches Ok(source) ==> (result matches Err(refused) ==> refused.source matches Some(
            ended,
        ) && source.ends(ended)),
{
}

/// A block counts one discontinuity exactly if it interrupts the input, and nothing else. A
/// new result counts one dropped result exactly if one was still pending.
pub proof fn what_each_step_counts(worker: DspWorker, block: AudioBlock)
    requires
        block.wf(),
    ensures
        worker.counted(Some(block)).discontinuities == (if worker.analyzer().interrupted_by(
            block,
        ) {
            1int
        } else {
            0int
        }),
        worker.counted(Some(block)).dropped_results == 0,
        worker.counted(Some(block)).received_audio_frames == 0,
        worker.counted(Some(block)).dropped_audio_frames == 0,
        worker.counted(Some(block)).stream_errors == 0,
        worker.replaces_pending().dropped_results == (if worker.pending() is Some {
            1int
        } else {
            0int
        }),
        worker.replaces_pending().discontinuities == 0,
{
}

/// A reader shows the newest result of the route that it finds in force: all the results that
/// waited are taken out, of those that bear the generation of that route the last one is
/// shown, and nothing is shown exactly if there is none.
pub proof fn what_a_reader_shows(
    before: AnalysisReader,
    after: AnalysisReader,
    latest: Option<AnalysisSnapshot>,
) -> (batch: Seq<AnalysisSnapshot>)
    requires
        before.takes_latest(after, latest),
    ensures
        snapshots_received(after.results()) == snapshots_received(before.results()) + batch,
        snapshots_ready(before.results()) <= batch.len(),
        snapshots_ready(after.results()) == 0,
        before.control().place() <= after.control().place() < before.control().routes().len(),
        ({
            let generation = after.control().place() % 0x1_0000_0000;
            &&& latest is None <==> forall|i: int|
                0 <= i < batch.len() ==> (#[trigger] batch[i]).route_generation != generation
            &&& latest matches Some(shown) ==> shown.route_generation == generation && exists|
                at: int,
            |
                0 <= at < batch.len() && #[trigger] batch[at] == shown && forall|i: int|
                    at < i < batch.len() ==> (#[trigger] batch[i]).route_generation != generation
        }),
{
    let control = choose|control: RouteControl|
        {
            &&& #[trigger] before.control().finds(after.control(), control)
            &&& takes_latest(before.results(), after.results(), control.generation(), latest)
        };
    let count = choose|count: usize|
        {
            &&& snapshot_counts(after.results()) == #[trigger] snapshot_counts(
                before.results(),
            ).push(count)
            &&& count >= snapshots_ready(before.results())
            &&& takes_counted(
                before.results(),
                after.results(),
                count as int,
                control.generation(),
                latest,
            )
        };
    let batch = choose|batch: Seq<AnalysisSnapshot>|
        {
            &&& snapshots_received(after.results()) == #[trigger] (snapshots_received(
                before.results(),
            ) + batch)
            &&& batch.len() == count
            &&& latest == latest_of(batch, control.generation())
        };
    only_the_newest_result_of_the_route_is_shown(batch, control.generation());
    batch
}

/// What looking for a block comes to: without one nothing happens, nor with one that claims
/// more than 256 frames. Any other is taken in, counts as a discontinuity exactly if it does
/// not start where the last one ended or bears another route, and leaves the pending result
/// alone.
pub proof fn what_looking_for_a_block_comes_to(
    before: DspWorker,
    block: Option<AudioBlock>,
    after: DspWorker,
    taken: bool,
    window: Option<AnalysisWindow>,
    step: RuntimeStats,
)
    requires
        before.takes_next(block, after, taken, window, step),
    ensures
        taken <==> block is Some,
        after.pending() == before.pending(),
        step.received_audio_frames == 0 && step.dropped_audio_frames == 0 && step.stream_errors == 0
            && step.dropped_results == 0,
        block is None ==> after == before && window is None && step.discontinuities == 0,
        block matches Some(block) ==> (block.valid_frames > 256 ==> after == before && window
            is None && step.discontinuities == 0),
        block matches Some(block) ==> (block.valid_frames <= 256 ==> {
            &&& before.analyzer().processes(block, after.analyzer(), window)
            &&& step.discontinuities == 1 || step.discontinuities == 0
            &&& step.discontinuities == 0 <==> {
                &&& before.analyzer().expected_frame() matches Some(expected) ==> expected
                    == block.start_frame
                &&& before.analyzer().generation() matches Some(generation) ==> generation
                    == block.route_generation
            }
        }),
{
}

/// A start that was called off before leaves the source alone and says so. Otherwise the
/// source opens an input, and the session counts what that input counts.
pub proof fn a_start_that_was_called_off_opens_nothing<S: InputSource>(
    before: S,
    after: S,
    called_off: bool,
    cancelled: FlagWatch,
    cancelled_after: FlagWatch,
    result: Result<(AnalyzerRuntime, AnalysisTask), RefusedSession>,
)
    requires
        AnalyzerRuntime::begins(before, after, called_off, cancelled, cancelled_after, result),
    ensures
        called_off ==> {
            &&& after == before
            &&& cancelled_after == cancelled
            &&& result matches Err(refused) && refused.message@ == "input start cancelled"@
                && refused.source is None
        },
        !called_off ==> exists|
            opened: Result<OpenedSource, String>,
            stats: SharedStats,
            watch: FlagWatch,
        |
            {
                &&& #[trigger] before.opens(stats, cancelled, opened, watch, &after)
                &&& stats.starts_at_zero()
                &&& cancelled.place() <= watch.place() <= cancelled_after.place()
                &&& result is Ok ==> opened is Ok
                &&& result matches Ok((runtime, task)) ==> runtime.counters() == stats
                    && !cancelled_after.values()[cancelled_after.place() as int]
                &&& opened matches Err(error) ==> result matches Err(refused) && refused.message
                    == error
            },
{
    if !called_off {
        let (opened, watch, late, stats) = choose|
            opened: Result<OpenedSource, String>,
            opened_cancelled: FlagWatch,
            late: bool,
            stats: SharedStats,
        |
            {
                &&& #[trigger] before.opens(stats, cancelled, opened, opened_cancelled, &after)
                &&& stats.starts_at_zero()
                &&& opened_cancelled.values() == cancelled.values()
                &&& cancelled.place() <= opened_cancelled.place()
                &&& opened_cancelled.finds(cancelled_after, late)
                &&& #[trigger] AnalyzerRuntime::starts(opened, late, stats, result)
            };
        assert(before.opens(stats, cancelled, opened, watch, &after));
    }
}

/// Why a session did not come about: what is wrong with the input comes first, then that it
/// was called off, and then that its queue is missing.
pub proof fn why_a_session_does_not_come_about(
    source: OpenedSource,
    cancelled: bool,
    stats: SharedStats,
    result: Result<(AnalyzerRuntime, AnalysisTask), RefusedSession>,
)
    requires
        AnalyzerRuntime::starts(Ok(source), cancelled, stats, result),
    ensures
        result matches Err(refused) ==> {
            &&& !source.spec_info().valid() ==> refused.message@ == source.spec_info().rejection()
            &&& source.spec_info().valid() && cancelled ==> refused.message@
                == "input start cancelled"@
            &&& source.spec_info().valid() && !cancelled ==> refused.message@
                == "a new source owns its input"@
        },
        result matches Ok((runtime, task)) ==> {
            &&& runtime.view().reads(stats)
            &&& task.counts().counts_in(stats)
            &&& snapshots_sent(task.results()).len() == 0
            &&& task.worker().pending() is None
            &&& task.worker().analyzer().samples().len() == 0
        },
{
}

/// Only why a start came to nothing is told, and a session is handed on as it came about.
pub proof fn a_start_is_told_as_it_came_out(
    outcome: Result<(AnalyzerRuntime, AnalysisTask), RefusedSession>,
    result: Result<(AnalyzerRuntime, AnalysisTask), String>,
)
    requires
        AnalyzerRuntime::reports(outcome, result),
    ensures
        result is Ok <==> outcome is Ok,
        outcome matches Ok(started) ==> result->Ok_0 == started,
        outcome matches Err(refused) ==> result->Err_0 == refused.message,
{
}

/// To stop a session is to stop its input, and nothing else.
pub proof fn to_stop_a_session_is_to_stop_its_input(
    before: AnalyzerRuntime,
    after: AnalyzerRuntime,
)
    requires
        before.ends(after),
    ensures
        !after.audio().running(),
        before.audio().running() ==> after.audio().stream().state()
            == before.audio().stream().stopped_state(),
        !before.audio().running() ==> after.audio().stream() == before.audio().stream(),
        after.audio().spec_info() == before.audio().spec_info(),
        after.reader() == before.reader(),
        after.counters() == before.counters(),
{
}

} // verus!
