//! Device-independent ingress: interleaved samples in, blocks of frame pairs out.
use std::sync::Arc;

use vstd::prelude::*;

use crate::model::{
    no_stats, AudioBlock, CaptureCounts, ChannelRoute, RouteControl, RuntimeStats, SharedStats,
    StereoFrame, AUDIO_BLOCK_FRAMES,
};
use crate::queue::{
    block_looks, block_queue, block_slots, block_source, block_stream, blocks_known_gone,
    blocks_offered, blocks_received, blocks_sent, last_known, receive_block, send_block, Receiver,
    Sender,
};
use crate::shared::{
    a_counter_holds_the_sum, amounts_added, counter_adds, is_counter_step, sum_of, RouteWatch,
    SharedRoute,
};

verus! {

pub const AUDIO_QUEUE_BLOCKS: usize = 64;

/// `from`, counted on by `count`. Frame numbers and totals wrap around at 64 bits.
#[verifier::opaque]
pub open spec fn counted_on(from: u64, count: int) -> u64 {
    ((from + count) % 0x1_0000_0000_0000_0000) as u64
}

/// The stream begins with these blocks.
#[verifier::opaque]
pub open spec fn begins(stream: Seq<AudioBlock>, blocks: Seq<AudioBlock>) -> bool {
    blocks.is_prefix_of(stream)
}

/// Counting on twice is counting on once by both counts.
pub proof fn counts_add_up(from: u64, first: int, second: int)
    ensures
        counted_on(counted_on(from, first), second) == counted_on(from, first + second),
        counted_on(from, 0) == from,
{
    reveal(counted_on);
}

/// `wrapping_add` counts on.
pub proof fn wrapping_add_counts_on(from: u64, count: u64)
    ensures
        from.wrapping_add(count) == counted_on(from, count as int),
{
    reveal(counted_on);
}

/// Gathers frames into blocks of a fixed length.
#[derive(Debug)]
pub struct BlockAssembler {
    block: AudioBlock,
    next_frame: u64,
    route_generation: Option<u64>,
}

impl BlockAssembler {
    /// A block is handed on as soon as it is full, and the frames gathered so far
    /// are the ones right before the next frame.
    pub closed spec fn wf(self) -> bool {
        &&& self.block.valid_frames < AUDIO_BLOCK_FRAMES
        &&& self.block.valid_frames > 0 ==> counted_on(
            self.block.start_frame,
            self.block.valid_frames as int,
        ) == self.next_frame
    }

    /// The frames gathered since the last full block.
    pub closed spec fn pending(self) -> Seq<StereoFrame> {
        self.block.content()
    }

    /// Number of the next frame to arrive.
    pub closed spec fn next_frame(self) -> u64 {
        self.next_frame
    }

    /// Generation of the route that the last callback used, if there was one.
    pub closed spec fn generation(self) -> Option<u64> {
        self.route_generation
    }

    /// Generation that the next full block carries.
    pub closed spec fn block_generation(self) -> u64 {
        self.block.route_generation
    }

    /// Whether the next full block says that its frames have a reference.
    pub closed spec fn has_reference(self) -> bool {
        self.block.has_reference
    }

    /// Number of the first frame of the next full block.
    pub open spec fn start_frame(self) -> u64 {
        counted_on(self.next_frame(), -self.pending().len())
    }

    /// The route of `generation` is not the one of the last callback.
    pub open spec fn route_changed(self, generation: u64) -> bool {
        self.generation() matches Some(previous) && previous != generation
    }

    /// How many frames wait for their block to fill up.
    pub fn pending_frames(&self) -> (count: usize)
        requires
            self.wf(),
        ensures
            count == self.pending().len(),
            count < AUDIO_BLOCK_FRAMES,
    {
        self.block.valid_frames
    }

    /// Prepares for the frames of one callback. A block never mixes two routes: if
    /// the route has changed, the frames gathered so far are dropped, and their
    /// number is the result.
    pub fn begin_callback(&mut self, route: ChannelRoute, generation: u64) -> (discarded: usize)
        requires
            old(self).wf(),
        ensures
            final(self).wf(),
            final(self).next_frame() == old(self).next_frame(),
            final(self).generation() == Some(generation),
            final(self).block_generation() == generation,
            final(self).has_reference() == (route.reference is Some),
            old(self).route_changed(generation) ==> {
                &&& final(self).pending() == Seq::<StereoFrame>::empty()
                &&& discarded == old(self).pending().len()
            },
            !old(self).route_changed(generation) ==> {
                &&& final(self).pending() == old(self).pending()
                &&& discarded == 0
            },
    {
        let mut discarded: usize = 0;
        if let Some(previous) = self.route_generation {
            if previous != generation {
                discarded = self.block.valid_frames;
                self.block.clear();
            }
        }
        self.route_generation = Some(generation);
        self.block.route_generation = generation;
        self.block.has_reference = route.reference.is_some();
        discarded
    }

    /// Adds one frame, and gives the block away if that fills it.
    pub fn push(&mut self, frame: StereoFrame) -> (full: Option<AudioBlock>)
        requires
            old(self).wf(),
        ensures
            final(self).wf(),
            final(self).next_frame() == counted_on(old(self).next_frame(), 1),
            final(self).generation() == old(self).generation(),
            final(self).block_generation() == old(self).block_generation(),
            final(self).has_reference() == old(self).has_reference(),
            full is Some <==> old(self).pending().len() + 1 == AUDIO_BLOCK_FRAMES,
            full is None ==> final(self).pending() == old(self).pending().push(frame),
            full matches Some(block) ==> {
                &&& final(self).pending() == Seq::<StereoFrame>::empty()
                &&& block.frames@ == old(self).pending().push(frame)
                &&& block.valid_frames == AUDIO_BLOCK_FRAMES
                &&& block.start_frame == old(self).start_frame()
                &&& block.route_generation == old(self).block_generation()
                &&& block.has_reference == old(self).has_reference()
            },
    {
        let ghost before = *self;
        if self.block.valid_frames == 0 {
            self.block.start_frame = self.next_frame;
        }
        let place: usize = self.block.valid_frames;
        self.block.frames[place] = frame;
        self.block.valid_frames = place + 1;
        self.next_frame = self.next_frame.wrapping_add(1);
        assert(self.block.content() =~= before.pending().push(frame));
        proof {
            reveal(counted_on);
        }
        if self.block.valid_frames == AUDIO_BLOCK_FRAMES {
            let mut full = AudioBlock::blank();
            full.route_generation = self.block.route_generation;
            full.has_reference = self.block.has_reference;
            std::mem::swap(&mut self.block, &mut full);
            assert(full.content() =~= full.frames@);
            assert(self.block.content() =~= Seq::<StereoFrame>::empty());
            Some(full)
        } else {
            None
        }
    }

    /// Takes an emptied block back for the frames to come.
    pub fn reuse(&mut self, block: AudioBlock)
        requires
            old(self).wf(),
            block.valid_frames == 0,
        ensures
            final(self).wf(),
            final(self).pending() == Seq::<StereoFrame>::empty(),
            final(self).next_frame() == old(self).next_frame(),
            final(self).generation() == old(self).generation(),
            final(self).block_generation() == (match old(self).generation() {
                Some(generation) => generation,
                None => 0,
            }),
            final(self).has_reference() == block.has_reference,
    {
        self.block = block;
        self.block.route_generation = match self.route_generation {
            Some(generation) => generation,
            None => 0,
        };
        assert(self.block.content() =~= Seq::<StereoFrame>::empty());
    }

    /// Drops the frames gathered so far and leaves `frames` frames out of the
    /// count, so that what follows does not look continuous.
    pub fn skip(&mut self, frames: u64) -> (discarded: usize)
        requires
            old(self).wf(),
        ensures
            final(self).wf(),
            final(self).pending() == Seq::<StereoFrame>::empty(),
            final(self).next_frame() == counted_on(old(self).next_frame(), frames as int),
            final(self).generation() == old(self).generation(),
            final(self).block_generation() == old(self).block_generation(),
            final(self).has_reference() == old(self).has_reference(),
            discarded == old(self).pending().len(),
    {
        let discarded: usize = self.block.valid_frames;
        self.block.clear();
        self.next_frame = self.next_frame.wrapping_add(frames);
        proof {
            reveal(counted_on);
        }
        discarded
    }

    /// An assembler that has seen no frame.
    pub fn new() -> (assembler: BlockAssembler)
        ensures
            assembler.wf(),
            assembler.pending() == Seq::<StereoFrame>::empty(),
            assembler.next_frame() == 0,
            assembler.generation() is None,
            assembler.block_generation() == 0,
            !assembler.has_reference(),
    {
        let assembler = BlockAssembler {
            block: AudioBlock::blank(),
            next_frame: 0,
            route_generation: None,
        };
        assert(assembler.block.content() =~= Seq::<StereoFrame>::empty());
        assembler
    }
}

/// `pair` holds what `convert` makes of the samples that `route` picks out of frame
/// number `index` of the interleaved `data`; without a reference its place is zero.
pub open spec fn pair_of<T, F: Fn(T) -> u32>(
    data: Seq<T>,
    channels: int,
    route: ChannelRoute,
    convert: F,
    index: int,
    pair: StereoFrame,
) -> bool {
    &&& call_ensures(convert, (data[index * channels + route.measurement],), pair.measurement)
    &&& match route.reference {
        Some(channel) => call_ensures(
            convert,
            (data[index * channels + channel],),
            pair.reference,
        ),
        None => pair.reference == 0,
    }
}

/// `pairs` are the frames of the interleaved `data` under `route`, one for one.
pub open spec fn pairs_of<T, F: Fn(T) -> u32>(
    data: Seq<T>,
    channels: int,
    route: ChannelRoute,
    convert: F,
    pairs: Seq<StereoFrame>,
) -> bool {
    &&& pairs.len() == data.len() as int / channels
    &&& forall|i: int|
        0 <= i < pairs.len() ==> #[trigger] pair_of(data, channels, route, convert, i, pairs[i])
}

/// `block` is full of `frames`, which start at frame `start` and were captured under
/// one route.
pub open spec fn filled(
    block: AudioBlock,
    frames: Seq<StereoFrame>,
    start: u64,
    generation: u64,
    has_reference: bool,
) -> bool {
    &&& block.valid_frames == AUDIO_BLOCK_FRAMES
    &&& block.frames@ == frames
    &&& block.start_frame == start
    &&& block.route_generation == generation
    &&& block.has_reference == has_reference
}

/// The items of `offered` that were accepted, in order.
pub open spec fn kept<A>(offered: Seq<A>, accepted: Seq<bool>) -> Seq<A>
    decreases offered.len(),
{
    if offered.len() == 0 {
        Seq::empty()
    } else {
        let before = kept(offered.drop_last(), accepted.drop_last());
        if accepted.last() {
            before.push(offered.last())
        } else {
            before
        }
    }
}

/// How many offers were refused.
pub open spec fn refused(accepted: Seq<bool>) -> nat
    decreases accepted.len(),
{
    if accepted.len() == 0 {
        0
    } else {
        refused(accepted.drop_last()) + if accepted.last() {
            0nat
        } else {
            1nat
        }
    }
}

/// The frames of `stream` are cut into the blocks `offered`, of which the first starts
/// `continued` frames before the frame `first`.
#[verifier::opaque]
pub open spec fn cut(
    stream: Seq<StereoFrame>,
    offered: Seq<AudioBlock>,
    first: u64,
    continued: int,
    generation: u64,
    has_reference: bool,
) -> bool {
    forall|k: int|
        0 <= k < offered.len() ==> filled(
            #[trigger] offered[k],
            stream.subrange(k * AUDIO_BLOCK_FRAMES, (k + 1) * AUDIO_BLOCK_FRAMES),
            counted_on(first, k * AUDIO_BLOCK_FRAMES - continued),
            generation,
            has_reference,
        )
}

/// How a queue that had taken `sent` blocks answered the offers: each was accepted exactly
/// if there was room, that is if fewer than `slots` blocks were in the queue besides those
/// that were known to have been taken out once it was tried. What is known of the blocks
/// taken out never shrinks.
#[verifier::opaque]
pub open spec fn answered(
    known: Seq<nat>,
    known_after: Seq<nat>,
    sent: nat,
    slots: nat,
    offered: Seq<AudioBlock>,
    accepted: Seq<bool>,
) -> bool {
    &&& known_after.len() == known.len() + offered.len()
    &&& known_after.take(known.len() as int) == known
    &&& forall|k: int|
        0 <= k < offered.len() ==> #[trigger] accepted[k] == has_room(
            sent,
            slots,
            offered,
            accepted,
            known_after[known.len() + k],
            k,
        )
    &&& forall|k: int|
        0 <= k < offered.len() ==> last_known(known) <= #[trigger] known_after[known.len() + k]
            <= last_known(known_after)
}

/// There was room for the offer number `k`, with `gone` blocks known to have been taken out.
pub open spec fn has_room(
    sent: nat,
    slots: nat,
    offered: Seq<AudioBlock>,
    accepted: Seq<bool>,
    gone: nat,
    k: int,
) -> bool {
    sent + kept(offered.take(k), accepted.take(k)).len() < slots + gone
}

/// The capture side of the block queue. Exactly one input callback owns it.
pub struct CaptureWriter {
    channels: usize,
    producer: Sender<AudioBlock>,
    route_watch: RouteWatch,
    counts: CaptureCounts,
    assembler: BlockAssembler,
}

impl CaptureWriter {
    pub closed spec fn wf(self) -> bool {
        &&& self.channels > 0
        &&& self.channels == self.route_watch.spec_channels()
        &&& self.assembler.wf()
        &&& begins(block_stream(self.producer), blocks_sent(self.producer))
        &&& self.gone() <= self.sent().len() <= self.slots() + self.gone()
    }

    /// All the blocks that ever go into the queue.
    pub closed spec fn stream(self) -> Seq<AudioBlock> {
        block_stream(self.producer)
    }

    /// Where the route in force is looked up.
    pub closed spec fn watch(self) -> RouteWatch {
        self.route_watch
    }

    /// What was counted.
    pub closed spec fn counts(self) -> CaptureCounts {
        self.counts
    }

    /// The blocks that were offered to the queue.
    pub closed spec fn tried(self) -> Seq<AudioBlock> {
        blocks_offered(self.producer)
    }

    /// How many of the blocks handed on were known to have been taken out, after each offer.
    pub closed spec fn known(self) -> Seq<nat> {
        blocks_known_gone(self.producer)
    }

    /// How many of the blocks handed on are known to have been taken out.
    pub open spec fn gone(self) -> nat {
        last_known(self.known())
    }

    /// Number of channels in one interleaved frame.
    pub closed spec fn channels(self) -> usize {
        self.channels
    }

    /// The blocks handed on so far.
    pub closed spec fn sent(self) -> Seq<AudioBlock> {
        blocks_sent(self.producer)
    }

    /// How many blocks can wait to be analysed.
    pub closed spec fn slots(self) -> nat {
        block_slots(self.producer)
    }

    pub closed spec fn assembler(self) -> BlockAssembler {
        self.assembler
    }

    /// The frames that a callback under the route of `generation` continues.
    pub open spec fn continued(self, generation: u64) -> Seq<StereoFrame> {
        if self.assembler().route_changed(generation) {
            Seq::empty()
        } else {
            self.assembler().pending()
        }
    }

    /// What a callback with the frames `pairs` does: the frames that were waiting
    /// and the new ones are cut into blocks, every full block is offered to the
    /// queue and dropped whole if the queue is full, and the rest keeps waiting.
    pub open spec fn writes(
        self,
        after: CaptureWriter,
        pairs: Seq<StereoFrame>,
        route: ChannelRoute,
        generation: u64,
        offered: Seq<AudioBlock>,
        accepted: Seq<bool>,
        step: RuntimeStats,
    ) -> bool {
        let continued = self.continued(generation);
        let stream = continued + pairs;
        let first = self.assembler().next_frame();
        let discarded = self.assembler().pending().len() - continued.len();
        &&& after.wf()
        &&& after.channels() == self.channels()
        &&& after.slots() == self.slots()
        &&& after.stream() == self.stream()
        &&& after.watch().routes() == self.watch().routes()
        &&& self.gone() <= after.gone()
        &&& offered.len() == stream.len() / (AUDIO_BLOCK_FRAMES as nat)
        &&& accepted.len() == offered.len()
        &&& cut(
            stream,
            offered,
            first,
            continued.len() as int,
            generation,
            route.reference is Some,
        )
        &&& after.sent() == self.sent() + kept(offered, accepted)
        &&& after.tried() == self.tried() + offered
        &&& answered(
            self.known(),
            after.known(),
            self.sent().len(),
            self.slots(),
            offered,
            accepted,
        )
        &&& after.assembler().pending() == stream.skip(offered.len() * AUDIO_BLOCK_FRAMES)
        &&& after.assembler().next_frame() == counted_on(
            self.assembler().next_frame(),
            pairs.len() as int,
        )
        &&& after.assembler().generation() == Some(generation)
        &&& after.assembler().block_generation() == generation
        &&& after.assembler().has_reference() == (route.reference is Some)
        &&& step == (RuntimeStats {
            received_audio_frames: pairs.len() as u64,
            dropped_audio_frames: counted_on(
                0,
                discarded + refused(accepted) * AUDIO_BLOCK_FRAMES,
            ),
            ..no_stats()
        })
    }

    /// What a callback with whole frames does under `route`.
    pub open spec fn captures<T, F: Fn(T) -> u32>(
        self,
        after: CaptureWriter,
        data: Seq<T>,
        convert: F,
        route: ChannelRoute,
        generation: u64,
        step: RuntimeStats,
    ) -> bool {
        exists|pairs: Seq<StereoFrame>, offered: Seq<AudioBlock>, accepted: Seq<bool>|
            pairs_of(data, self.channels() as int, route, convert, pairs) && #[trigger] self.writes(
                after,
                pairs,
                route,
                generation,
                offered,
                accepted,
                step,
            )
    }

    /// What a callback with whole frames does when `control` is in force as it
    /// arrives.
    pub open spec fn captures_under<T, F: Fn(T) -> u32>(
        self,
        after: CaptureWriter,
        data: Seq<T>,
        convert: F,
        control: RouteControl,
        step: RuntimeStats,
    ) -> bool {
        &&& self.watch().finds(after.watch(), control)
        &&& control.route().fits(self.channels())
        &&& self.captures(after, data, convert, control.route(), control.generation(), step)
    }

    /// What a callback does whose samples do not form whole frames: everything it
    /// brought is dropped with the frames that were waiting, and the count of frames
    /// moves on past it.
    pub open spec fn rejects(self, after: CaptureWriter, frames: int, step: RuntimeStats) -> bool {
        &&& after.wf()
        &&& after.channels() == self.channels()
        &&& after.slots() == self.slots()
        &&& after.stream() == self.stream()
        &&& after.watch() == self.watch()
        &&& after.tried() == self.tried()
        &&& after.known() == self.known()
        &&& after.sent() == self.sent()
        &&& after.assembler().pending() == Seq::<StereoFrame>::empty()
        &&& after.assembler().next_frame() == counted_on(self.assembler().next_frame(), frames + 1)
        &&& after.assembler().generation() == self.assembler().generation()
        &&& after.assembler().block_generation() == self.assembler().block_generation()
        &&& after.assembler().has_reference() == self.assembler().has_reference()
        &&& step == (RuntimeStats {
            dropped_audio_frames: (self.assembler().pending().len() + frames + 1) as u64,
            stream_errors: 1,
            ..no_stats()
        })
    }

    /// What adding one frame leaves alone, whether or not it fills a block.
    spec fn advances(self, after: CaptureWriter) -> bool {
        &&& after.wf()
        &&& after.channels() == self.channels()
        &&& after.slots() == self.slots()
        &&& after.stream() == self.stream()
        &&& after.watch().routes() == self.watch().routes()
        &&& self.gone() <= after.gone()
        &&& after.assembler().next_frame() == counted_on(self.assembler().next_frame(), 1)
        &&& after.assembler().generation() == self.assembler().generation()
        &&& after.assembler().block_generation() == self.assembler().block_generation()
        &&& after.assembler().has_reference() == self.assembler().has_reference()
    }

    /// `block` is the block that adding `pair` fills.
    spec fn fills(self, pair: StereoFrame, block: AudioBlock) -> bool {
        &&& self.assembler().pending().len() + 1 == AUDIO_BLOCK_FRAMES
        &&& filled(
            block,
            self.assembler().pending().push(pair),
            self.assembler().start_frame(),
            self.assembler().block_generation(),
            self.assembler().has_reference(),
        )
    }

    /// What becomes of the block that was filled.
    spec fn hands_on(self, after: CaptureWriter, block: AudioBlock, accepted: bool) -> bool {
        &&& after.assembler().pending() == Seq::<StereoFrame>::empty()
        &&& accepted ==> after.sent() == self.sent().push(block)
        &&& !accepted ==> after.sent() == self.sent()
        &&& accepted == (self.sent().len() < self.slots() + after.gone())
        &&& after.tried() == self.tried().push(block)
        &&& after.known().len() > 0
        &&& after.known().drop_last() == self.known()
    }

    /// Adds one frame. Says whether the queue took the block that it filled, if it
    /// filled one.
    fn write_pair(&mut self, pair: StereoFrame) -> (outcome: Option<bool>)
        requires
            old(self).wf(),
            old(self).assembler().generation() == Some(old(self).assembler().block_generation()),
        ensures
            old(self).advances(*final(self)),
            final(self).watch() == old(self).watch(),
            final(self).counts() == old(self).counts(),
            outcome is None ==> {
                &&& old(self).assembler().pending().len() + 1 < AUDIO_BLOCK_FRAMES
                &&& final(self).sent() == old(self).sent()
                &&& final(self).tried() == old(self).tried()
                &&& final(self).known() == old(self).known()
                &&& final(self).assembler().pending() == old(self).assembler().pending().push(pair)
            },
            outcome matches Some(accepted) ==> exists|block: AudioBlock| #[trigger]
                old(self).fills(pair, block) && old(self).hands_on(*final(self), block, accepted),
    {
        match self.assembler.push(pair) {
            None => None,
            Some(block) => {
                assert(old(self).fills(pair, block));
                let sent = send_block(&mut self.producer, block);
                proof {
                    reveal(begins);
                }
                match sent {
                    Ok(_) => Some(true),
                    Err(mut rejected) => {
                        rejected.clear();
                        self.assembler.reuse(rejected);
                        Some(false)
                    },
                }
            },
        }
    }

    /// A frame that fills no block waits behind the others.
    proof fn writes_one_waiting(
        self,
        mid: CaptureWriter,
        after: CaptureWriter,
        pairs: Seq<StereoFrame>,
        pair: StereoFrame,
        route: ChannelRoute,
        generation: u64,
        offered: Seq<AudioBlock>,
        accepted: Seq<bool>,
        step: RuntimeStats,
    )
        requires
            self.writes(mid, pairs, route, generation, offered, accepted, step),
            mid.advances(after),
            mid.assembler().pending().len() + 1 < AUDIO_BLOCK_FRAMES,
            after.sent() == mid.sent(),
            after.tried() == mid.tried(),
            after.known() == mid.known(),
            after.assembler().pending() == mid.assembler().pending().push(pair),
        ensures
            self.writes(
                after,
                pairs.push(pair),
                route,
                generation,
                offered,
                accepted,
                RuntimeStats { received_audio_frames: (pairs.len() + 1) as u64, ..step },
            ),
    {
        let continued = self.continued(generation);
        let stream = continued + pairs;
        let longer = continued + pairs.push(pair);
        assert(longer =~= stream.push(pair));
        let size = AUDIO_BLOCK_FRAMES as int;
        counts_add_up(self.assembler().next_frame(), pairs.len() as int, 1);
        assert(longer.skip(offered.len() * size) =~= stream.skip(offered.len() * size).push(pair));
        reveal(cut);
        assert forall|k: int| 0 <= k < offered.len() implies stream.subrange(
            k * size,
            (k + 1) * size,
        ) == #[trigger] longer.subrange(k * size, (k + 1) * size) by {
            assert(longer.subrange(k * size, (k + 1) * size) =~= stream.subrange(
                k * size,
                (k + 1) * size,
            ));
        }
    }

    /// A frame that fills a block has it offered to the queue.
    proof fn writes_one_block(
        self,
        mid: CaptureWriter,
        after: CaptureWriter,
        pairs: Seq<StereoFrame>,
        pair: StereoFrame,
        route: ChannelRoute,
        generation: u64,
        offered: Seq<AudioBlock>,
        accepted: Seq<bool>,
        step: RuntimeStats,
        block: AudioBlock,
        taken: bool,
    )
        requires
            self.writes(mid, pairs, route, generation, offered, accepted, step),
            mid.advances(after),
            mid.fills(pair, block),
            mid.hands_on(after, block, taken),
        ensures
            self.writes(
                after,
                pairs.push(pair),
                route,
                generation,
                offered.push(block),
                accepted.push(taken),
                RuntimeStats {
                    received_audio_frames: (pairs.len() + 1) as u64,
                    dropped_audio_frames: if taken {
                        step.dropped_audio_frames
                    } else {
                        counted_on(step.dropped_audio_frames, AUDIO_BLOCK_FRAMES as int)
                    },
                    ..step
                },
            ),
    {
        let continued = self.continued(generation);
        let stream = continued + pairs;
        let longer = continued + pairs.push(pair);
        let first = self.assembler().next_frame();
        let size = AUDIO_BLOCK_FRAMES as int;
        let offers = offered.push(block);
        let answers = accepted.push(taken);
        counts_add_up(first, pairs.len() as int, 1);
        counts_add_up(first, pairs.len() as int, -mid.assembler().pending().len());
        assert(offered.len() * size + mid.assembler().pending().len() == stream.len());
        counts_add_up(
            0,
            self.assembler().pending().len() - continued.len() + refused(accepted) * size,
            size,
        );
        assert(longer =~= stream.push(pair));
        assert(offers.drop_last() =~= offered);
        assert(answers.drop_last() =~= accepted);
        assert(longer.skip(offers.len() * size) =~= Seq::<StereoFrame>::empty());
        assert(longer.subrange(offered.len() * size, (offered.len() + 1) * size) =~= stream.skip(
            offered.len() * size,
        ).push(pair));
        one_more_block_is_cut(
            stream,
            pair,
            offered,
            block,
            first,
            continued.len() as int,
            generation,
            route.reference is Some,
        );
        one_more_answer_is_given(
            self.known(),
            mid.known(),
            after.known(),
            self.sent().len(),
            self.slots(),
            offered,
            accepted,
            block,
            taken,
        );
        assert(after.tried() =~= self.tried() + offers);
        assert(after.sent() =~= self.sent() + kept(offers, answers));
    }

    /// Writes a callback whose samples form whole frames, under a route that the
    /// input has the channels for. The result counts what it received and dropped.
    pub fn write_routed<T: Copy, F: Fn(T) -> u32>(
        &mut self,
        data: &[T],
        route: ChannelRoute,
        generation: u64,
        convert: F,
    ) -> (step: RuntimeStats)
        requires
            old(self).wf(),
            data@.len() as int % old(self).channels() as int == 0,
            data@.len() > 0 ==> route.fits(old(self).channels()),
            forall|sample: T| call_requires(convert, (sample,)),
        ensures
            old(self).captures(*final(self), data@, convert, route, generation, step),
            final(self).watch() == old(self).watch(),
            final(self).counts() == old(self).counts(),
    {
        let len: usize = data.len();
        let frames: usize = len / self.channels;
        let discarded: usize = self.assembler.begin_callback(route, generation);
        let mut step = RuntimeStats::default();
        step.dropped_audio_frames = discarded as u64;
        let ghost before = *old(self);
        let ghost mut pairs: Seq<StereoFrame> = Seq::empty();
        let ghost mut offered: Seq<AudioBlock> = Seq::empty();
        let ghost mut accepted: Seq<bool> = Seq::empty();
        proof {
            let continued = before.continued(generation);
            assert(continued + pairs =~= continued);
            assert(continued.skip(0) =~= continued);
            assert(before.sent() + kept(offered, accepted) =~= before.sent());
            reveal(counted_on);
            reveal(cut);
            assert(before.tried() + offered =~= before.tried());
            nothing_is_answered_yet(before.known(), before.sent().len(), before.slots());
        }
        for index in 0..frames
            invariant
                before.channels() > 0,
                self.channels == before.channels(),
                len == data@.len(),
                frames == len as int / before.channels() as int,
                data@.len() > 0 ==> route.fits(before.channels()),
                forall|sample: T| call_requires(convert, (sample,)),
                pairs.len() == index,
                forall|i: int|
                    0 <= i < pairs.len() ==> #[trigger] pair_of(
                        data@,
                        before.channels() as int,
                        route,
                        convert,
                        i,
                        pairs[i],
                    ),
                step.received_audio_frames == index,
                before.writes(*self, pairs, route, generation, offered, accepted, step),
                self.watch() == before.watch(),
                self.counts() == before.counts(),
        {
            proof {
                frame_is_inside(len as int, self.channels as int, index as int);
            }
            let origin: usize = index * self.channels;
            let measurement: u32 = convert(data[origin + route.measurement]);
            let reference: u32 = match route.reference {
                Some(channel) => convert(data[origin + channel]),
                None => 0,
            };
            let pair = StereoFrame { reference, measurement };
            let ghost mid = *self;
            let ghost counted = step;
            let outcome = self.write_pair(pair);
            step.received_audio_frames = index as u64 + 1;
            if let Some(false) = outcome {
                step.dropped_audio_frames =
                step.dropped_audio_frames.wrapping_add(AUDIO_BLOCK_FRAMES as u64);
            }
            proof {
                assert(pair_of(data@, before.channels() as int, route, convert, index as int, pair));
                match outcome {
                    None => {
                        before.writes_one_waiting(
                            mid,
                            *self,
                            pairs,
                            pair,
                            route,
                            generation,
                            offered,
                            accepted,
                            counted,
                        );
                    },
                    Some(taken) => {
                        reveal(counted_on);
                        let block = choose|block: AudioBlock| #[trigger]
                            mid.fills(pair, block) && mid.hands_on(*self, block, taken);
                        before.writes_one_block(
                            mid,
                            *self,
                            pairs,
                            pair,
                            route,
                            generation,
                            offered,
                            accepted,
                            counted,
                            block,
                            taken,
                        );
                        offered = offered.push(block);
                        accepted = accepted.push(taken);
                    },
                }
                pairs = pairs.push(pair);
            }
        }
        assert(pairs_of(data@, old(self).channels() as int, route, convert, pairs));
        assert(old(self).writes(*self, pairs, route, generation, offered, accepted, step));
        step
    }

    /// Drops a callback whose samples do not form whole frames; `frames` is how many
    /// whole frames it held.
    fn reject(&mut self, frames: usize) -> (step: RuntimeStats)
        requires
            old(self).wf(),
            frames <= usize::MAX / 2,
        ensures
            old(self).rejects(*final(self), frames as int, step),
            final(self).watch() == old(self).watch(),
            final(self).counts() == old(self).counts(),
    {
        let discarded: usize = self.assembler.skip(frames as u64 + 1);
        let mut step = RuntimeStats::default();
        step.dropped_audio_frames = (discarded + frames + 1) as u64;
        step.stream_errors = 1;
        step
    }

    /// Takes one callback in. `data` holds interleaved frames, and `convert` gives the
    /// bit pattern of a sample; it must not allocate, lock or wait. A callback that
    /// does not hold whole frames is dropped as a whole, and leaves a gap in the count
    /// of frames. The totals of the session grow by what is returned.
    ///
    /// The route is the one in force when the callback arrives.
    pub fn write_interleaved<T: Copy, F: Fn(T) -> u32>(
        &mut self,
        data: &[T],
        convert: F,
    ) -> (step: RuntimeStats)
        requires
            old(self).wf(),
            forall|sample: T| call_requires(convert, (sample,)),
        ensures
            data@.len() as int % old(self).channels() as int != 0 ==> old(self).rejects(
                *final(self),
                data@.len() as int / old(self).channels() as int,
                step,
            ),
            data@.len() as int % old(self).channels() as int == 0 ==> exists|control: RouteControl|
                #[trigger] old(self).captures_under(*final(self), data@, convert, control, step),
            old(self).counts().adds(final(self).counts(), step),
    {
        let len: usize = data.len();
        let frames: usize = len / self.channels;
        if len % self.channels != 0 {
            proof {
                malformed_data_is_short(len as int, self.channels as int);
            }
            let step = self.reject(frames);
            self.counts.add(&step);
            return step;
        }
        let control = self.route_watch.load();
        let (route, generation) = control.load();
        let ghost looked_up = *self;
        let step = self.write_routed(data, route, generation, convert);
        let ghost written = *self;
        self.counts.add(&step);
        proof {
            let channels = old(self).channels() as int;
            let (pairs, offered, accepted) = choose|
                pairs: Seq<StereoFrame>,
                offered: Seq<AudioBlock>,
                accepted: Seq<bool>,
            |
                pairs_of(data@, channels, route, convert, pairs) && #[trigger] looked_up.writes(
                    written,
                    pairs,
                    route,
                    generation,
                    offered,
                    accepted,
                    step,
                );
            assert(old(self).continued(generation) == looked_up.continued(generation));
            assert(old(self).writes(*self, pairs, route, generation, offered, accepted, step));
            assert(old(self).captures_under(*self, data@, convert, control, step));
        }
        step
    }
}

proof fn one_more_block_is_cut(
    stream: Seq<StereoFrame>,
    pair: StereoFrame,
    offered: Seq<AudioBlock>,
    block: AudioBlock,
    first: u64,
    continued: int,
    generation: u64,
    has_reference: bool,
)
    requires
        stream.len() + 1 == (offered.len() + 1) * AUDIO_BLOCK_FRAMES,
        cut(stream, offered, first, continued, generation, has_reference),
        filled(
            block,
            stream.push(pair).subrange(
                offered.len() * AUDIO_BLOCK_FRAMES,
                (offered.len() + 1) * AUDIO_BLOCK_FRAMES,
            ),
            counted_on(first, offered.len() * AUDIO_BLOCK_FRAMES - continued),
            generation,
            has_reference,
        ),
    ensures
        cut(stream.push(pair), offered.push(block), first, continued, generation, has_reference),
{
    reveal(cut);
    let size = AUDIO_BLOCK_FRAMES as int;
    let longer = stream.push(pair);
    let offers = offered.push(block);
    assert forall|k: int| 0 <= k < offers.len() implies filled(
        #[trigger] offers[k],
        longer.subrange(k * size, (k + 1) * size),
        counted_on(first, k * size - continued),
        generation,
        has_reference,
    ) by {
        if k < offered.len() {
            assert(offers[k] == offered[k]);
            assert(longer.subrange(k * size, (k + 1) * size) =~= stream.subrange(
                k * size,
                (k + 1) * size,
            ));
        }
    }
}

proof fn nothing_is_answered_yet(known: Seq<nat>, sent: nat, slots: nat)
    ensures
        answered(known, known, sent, slots, Seq::empty(), Seq::empty()),
{
    reveal(answered);
    assert(known.take(known.len() as int) =~= known);
}

/// What the answer to one offer says.
proof fn answer_at(
    known: Seq<nat>,
    known_after: Seq<nat>,
    sent: nat,
    slots: nat,
    offered: Seq<AudioBlock>,
    accepted: Seq<bool>,
    k: int,
)
    requires
        answered(known, known_after, sent, slots, offered, accepted),
        0 <= k < offered.len(),
    ensures
        accepted[k] == has_room(
            sent,
            slots,
            offered,
            accepted,
            known_after[known.len() + k],
            k,
        ),
        last_known(known) <= known_after[known.len() + k] <= last_known(known_after),
{
    reveal(answered);
    let gone = known_after[known.len() + k];
    assert(accepted[k] == has_room(sent, slots, offered, accepted, gone, k));
}

proof fn answers_so_far(
    known: Seq<nat>,
    known_after: Seq<nat>,
    sent: nat,
    slots: nat,
    offered: Seq<AudioBlock>,
    accepted: Seq<bool>,
)
    requires
        answered(known, known_after, sent, slots, offered, accepted),
    ensures
        known_after.len() == known.len() + offered.len(),
        known_after.take(known.len() as int) == known,
        last_known(known) <= last_known(known_after),
{
    reveal(answered);
    if offered.len() > 0 {
        answer_at(known, known_after, sent, slots, offered, accepted, offered.len() - 1);
    } else {
        assert(known_after =~= known);
    }
}

/// Offers answered one by one are answered in all.
proof fn answered_in_all(
    known: Seq<nat>,
    known_after: Seq<nat>,
    sent: nat,
    slots: nat,
    offered: Seq<AudioBlock>,
    accepted: Seq<bool>,
)
    requires
        known_after.len() == known.len() + offered.len(),
        known_after.take(known.len() as int) == known,
        forall|k: int|
            0 <= k < offered.len() ==> #[trigger] is_answered_at(
                known,
                known_after,
                sent,
                slots,
                offered,
                accepted,
                k,
            ),
    ensures
        answered(known, known_after, sent, slots, offered, accepted),
{
    reveal(answered);
    assert forall|k: int| 0 <= k < offered.len() implies #[trigger] accepted[k] == has_room(
        sent,
        slots,
        offered,
        accepted,
        known_after[known.len() + k],
        k,
    ) by {
        assert(is_answered_at(known, known_after, sent, slots, offered, accepted, k));
    }
    assert forall|k: int| 0 <= k < offered.len() implies last_known(known)
        <= #[trigger] known_after[known.len() + k] <= last_known(known_after) by {
        assert(is_answered_at(known, known_after, sent, slots, offered, accepted, k));
    }
}

spec fn is_answered_at(
    known: Seq<nat>,
    known_after: Seq<nat>,
    sent: nat,
    slots: nat,
    offered: Seq<AudioBlock>,
    accepted: Seq<bool>,
    k: int,
) -> bool {
    let gone = known_after[known.len() + k];
    &&& accepted[k] == has_room(sent, slots, offered, accepted, gone, k)
    &&& last_known(known) <= gone <= last_known(known_after)
}

proof fn one_more_answer_is_given(
    known: Seq<nat>,
    known_mid: Seq<nat>,
    known_after: Seq<nat>,
    sent: nat,
    slots: nat,
    offered: Seq<AudioBlock>,
    accepted: Seq<bool>,
    block: AudioBlock,
    taken: bool,
)
    requires
        accepted.len() == offered.len(),
        answered(known, known_mid, sent, slots, offered, accepted),
        known_after.len() > 0,
        known_after.drop_last() == known_mid,
        last_known(known_mid) <= last_known(known_after),
        taken == (sent + kept(offered, accepted).len() < slots + last_known(known_after)),
    ensures
        answered(known, known_after, sent, slots, offered.push(block), accepted.push(taken)),
{
    let offers = offered.push(block);
    let answers = accepted.push(taken);
    answers_so_far(known, known_mid, sent, slots, offered, accepted);
    assert(known_after.take(known.len() as int) =~= known_mid.take(known.len() as int));
    assert forall|k: int| 0 <= k < offers.len() implies #[trigger] is_answered_at(
        known,
        known_after,
        sent,
        slots,
        offers,
        answers,
        k,
    ) by {
        assert(offers.take(k) =~= offered.take(k));
        assert(answers.take(k) =~= accepted.take(k));
        if k < offered.len() {
            answer_at(known, known_mid, sent, slots, offered, accepted, k);
            assert(known_after[known.len() + k] == known_mid[known.len() + k]);
        } else {
            assert(offered.take(k) =~= offered);
            assert(accepted.take(k) =~= accepted);
        }
    }
    answered_in_all(known, known_after, sent, slots, offers, answers);
}

/// The analysis side of the block queue.
pub struct CapturedBlocks {
    consumer: Receiver<AudioBlock>,
}

impl CapturedBlocks {
    /// The blocks taken so far are the first ones that went into the queue.
    pub closed spec fn wf(self) -> bool {
        blocks_received(self.consumer).is_prefix_of(block_source(self.consumer))
    }

    /// All the blocks that ever go into the queue.
    pub closed spec fn stream(self) -> Seq<AudioBlock> {
        block_source(self.consumer)
    }

    /// The blocks taken so far.
    pub closed spec fn received(self) -> Seq<AudioBlock> {
        blocks_received(self.consumer)
    }

    /// How many times a block was looked for.
    pub closed spec fn looks(self) -> nat {
        block_looks(self.consumer)
    }

    /// The block that comes out next, once it is there.
    pub open spec fn next_block(self) -> AudioBlock {
        self.stream()[self.received().len() as int]
    }

    /// What comes out of the queue, depending on whether the next block is there.
    pub open spec fn given(self, there: bool) -> Option<AudioBlock> {
        if there {
            Some(self.next_block())
        } else {
            None
        }
    }

    /// What looking for a block does: the next one of the stream is taken out, or there
    /// is none yet. Whether there is one depends on the capture side.
    pub open spec fn receives(self, after: CapturedBlocks, taken: bool) -> bool {
        &&& after.wf()
        &&& after.stream() == self.stream()
        &&& after.looks() == self.looks() + 1
        &&& if taken {
            &&& self.received().len() < self.stream().len()
            &&& after.received() == self.received().push(self.next_block())
        } else {
            after.received() == self.received()
        }
    }

    /// Takes the oldest block, if one is waiting.
    pub fn receive(&mut self) -> (block: Option<AudioBlock>)
        ensures
            old(self).receives(*final(self), block is Some),
            block == old(self).given(block is Some),
    {
        let block = receive_block(&mut self.consumer);
        proof {
            if block is Some {
                assert(self.received()[old(self).received().len() as int] == block->0);
            }
        }
        block
    }
}

/// The analysis side of the block queue, with the route that it shares with the
/// capture side.
pub struct CapturedInput {
    blocks: CapturedBlocks,
    route_control: SharedRoute,
}

impl CapturedInput {
    pub closed spec fn blocks(self) -> CapturedBlocks {
        self.blocks
    }

    /// Where the route in force is looked up and replaced.
    pub closed spec fn control(self) -> SharedRoute {
        self.route_control
    }

    /// Number of channels of the input.
    pub open spec fn spec_channels(self) -> usize {
        self.control().spec_channels()
    }

    /// Number of channels of the input.
    pub fn channels(&self) -> (channels: usize)
        ensures
            channels == self.spec_channels(),
    {
        self.route_control.channels()
    }

    /// The route in force, to be looked up and replaced.
    pub fn route_control(&mut self) -> (control: &mut SharedRoute)
        ensures
            *control == old(self).control(),
            final(self).control() == *final(control),
            final(self).blocks() == old(self).blocks(),
    {
        &mut self.route_control
    }

    /// Takes the oldest block, if one is waiting.
    pub fn receive(&mut self) -> (block: Option<AudioBlock>)
        ensures
            old(self).blocks().receives(final(self).blocks(), block is Some),
            block == old(self).blocks().given(block is Some),
            final(self).control() == old(self).control(),
    {
        self.blocks.receive()
    }

    /// The queue, and the route.
    pub fn into_parts(self) -> (parts: (CapturedBlocks, SharedRoute))
        ensures
            parts.0 == self.blocks(),
            parts.1 == self.control(),
    {
        (self.blocks, self.route_control)
    }
}

/// Message for an input whose number of channels cannot be handled.
pub open spec fn channel_count_rejection() -> Seq<char> {
    "input must have 1..=65535 channels"@
}

/// Makes the two sides of the block queue for an input with `channels` channels, of
/// which `route` is analysed first.
pub fn channel(channels: usize, route: ChannelRoute, stats: Arc<SharedStats>) -> (result: Result<
    (CaptureWriter, CapturedInput),
    String,
>)
    ensures
        result is Ok <==> 1 <= channels <= 0xffff && route.fits(channels),
        result matches Err(message) ==> message@ == (if 1 <= channels <= 0xffff {
            route.rejection(channels)
        } else {
            channel_count_rejection()
        }),
        result matches Ok((writer, input)) ==> {
            &&& writer.wf()
            &&& writer.channels() == channels
            &&& writer.slots() == AUDIO_QUEUE_BLOCKS
            &&& writer.slots() == 64
            &&& writer.sent() == Seq::<AudioBlock>::empty()
            &&& writer.assembler().pending() == Seq::<StereoFrame>::empty()
            &&& writer.assembler().next_frame() == 0
            &&& writer.assembler().generation() is None
            &&& input.blocks().wf()
            &&& input.blocks().stream() == writer.stream()
            &&& input.blocks().looks() == 0
            &&& input.control().starts_with(route)
            &&& writer.watch().routes() == input.control().routes()
            &&& writer.watch().place() == 0
            &&& writer.watch().looks() == 0
            &&& writer.counts().counts_in(*stats)
            &&& writer.counts().is_fresh()
            &&& writer.tried() == Seq::<AudioBlock>::empty()
            &&& writer.known() == Seq::<nat>::empty()
            &&& writer.assembler().block_generation() == 0
            &&& !writer.assembler().has_reference()
            &&& input.spec_channels() == channels
            &&& input.blocks().received() == Seq::<AudioBlock>::empty()
        },
{
    if channels == 0 || channels > 0xffff {
        return Err("input must have 1..=65535 channels".to_owned());
    }
    match route.validate(channels) {
        Err(message) => Err(message),
        Ok(route) => {
            let route_control = SharedRoute::new(RouteControl::new(route), channels);
            let (producer, consumer) = block_queue(AUDIO_QUEUE_BLOCKS);
            proof {
                reveal(begins);
            }
            let writer = CaptureWriter {
                channels,
                producer,
                route_watch: route_control.watch(),
                counts: stats.capture_end(),
                assembler: BlockAssembler::new(),
            };
            Ok((writer, CapturedInput { blocks: CapturedBlocks { consumer }, route_control }))
        },
    }
}

/// Samples that do not form whole frames come from an input with several channels.
proof fn malformed_data_is_short(len: int, channels: int)
    requires
        0 < channels,
        0 <= len,
        len % channels != 0,
    ensures
        len / channels <= len / 2,
{
    if channels == 1 {
        assert(len % 1 == 0);
    } else {
        assert(len / channels <= len / 2) by (nonlinear_arith)
            requires
                2 <= channels,
                0 <= len,
        ;
    }
}

/// A frame of interleaved data lies inside of it.
proof fn frame_is_inside(len: int, channels: int, index: int)
    requires
        0 < channels,
        0 <= index < len / channels,
    ensures
        0 <= index * channels,
        index * channels + channels <= len,
{
    assert(index * channels + channels <= len) by (nonlinear_arith)
        requires
            0 < channels,
            0 <= index < len / channels,
    ;
    assert(0 <= index * channels) by (nonlinear_arith)
        requires
            0 < channels,
            0 <= index,
    ;
}

proof fn kept_and_refused_add_up<A>(offered: Seq<A>, accepted: Seq<bool>)
    requires
        offered.len() == accepted.len(),
    ensures
        kept(offered, accepted).len() + refused(accepted) == offered.len(),
        forall|i: int|
            0 <= i < kept(offered, accepted).len() ==> offered.contains(
                #[trigger] kept(offered, accepted)[i],
            ),
    decreases offered.len(),
{
    if offered.len() > 0 {
        let shorter = offered.drop_last();
        kept_and_refused_add_up(shorter, accepted.drop_last());
        let before = kept(shorter, accepted.drop_last());
        assert forall|i: int| 0 <= i < kept(offered, accepted).len() implies offered.contains(
            #[trigger] kept(offered, accepted)[i],
        ) by {
            if i < before.len() {
                assert(shorter.contains(before[i]));
                let j = choose|j: int| 0 <= j < shorter.len() && shorter[j] == before[i];
                assert(offered[j] == before[i]);
            } else {
                assert(offered[offered.len() - 1] == offered.last());
            }
        }
    }
}

/// A block is handed on or dropped as soon as it is full, so the frames that wait never
/// fill one.
pub proof fn fewer_frames_wait_than_fill_a_block(writer: CaptureWriter)
    requires
        writer.wf(),
    ensures
        writer.assembler().pending().len() < AUDIO_BLOCK_FRAMES,
{
}

/// Blocks arrive as they were handed on: each block that the analysis side takes is the
/// one that the capture side handed on at that place, whole and unchanged.
pub proof fn blocks_arrive_as_they_were_handed_on(
    writer: CaptureWriter,
    input: CapturedBlocks,
    place: int,
)
    requires
        writer.wf(),
        input.wf(),
        input.stream() == writer.stream(),
        0 <= place < writer.sent().len(),
        place < input.received().len(),
    ensures
        input.received()[place] == writer.sent()[place],
{
    reveal(begins);
    assert(writer.sent()[place] == writer.stream()[place]);
    assert(input.received()[place] == input.stream()[place]);
}

/// Nothing gets lost uncounted: the frames that were waiting and those that a
/// callback brings are in the blocks handed on, still waiting, or counted as
/// dropped.
pub proof fn every_frame_is_accounted_for(
    before: CaptureWriter,
    after: CaptureWriter,
    pairs: Seq<StereoFrame>,
    route: ChannelRoute,
    generation: u64,
    offered: Seq<AudioBlock>,
    accepted: Seq<bool>,
    step: RuntimeStats,
)
    requires
        before.wf(),
        before.writes(after, pairs, route, generation, offered, accepted, step),
    ensures
        ({
            let handed_on = (after.sent().len() - before.sent().len()) * AUDIO_BLOCK_FRAMES;
            let dropped = before.assembler().pending().len() + pairs.len() - handed_on
                - after.assembler().pending().len();
            &&& handed_on >= 0
            &&& dropped >= 0
            &&& step.dropped_audio_frames == counted_on(0, dropped)
        }),
{
    kept_and_refused_add_up(offered, accepted);
}

/// As long as the queue has room for every block that a callback fills, it takes
/// them all, and only a change of route has frames dropped.
pub proof fn no_block_is_dropped_while_there_is_room(
    before: CaptureWriter,
    after: CaptureWriter,
    pairs: Seq<StereoFrame>,
    route: ChannelRoute,
    generation: u64,
    offered: Seq<AudioBlock>,
    accepted: Seq<bool>,
    step: RuntimeStats,
)
    requires
        before.wf(),
        before.writes(after, pairs, route, generation, offered, accepted, step),
        before.sent().len() + offered.len() <= before.slots() + before.gone(),
    ensures
        after.sent() == before.sent() + offered,
        !before.assembler().route_changed(generation) ==> step.dropped_audio_frames == 0,
{
    assert forall|k: int| 0 <= k < accepted.len() implies #[trigger] accepted[k] by {
        answer_at(
            before.known(),
            after.known(),
            before.sent().len(),
            before.slots(),
            offered,
            accepted,
            k,
        );
        kept_and_refused_add_up(offered.take(k), accepted.take(k));
    }
    nothing_refused(offered, accepted);
    reveal(counted_on);
}

/// A full queue takes a block again once others were taken out: an offer goes in exactly if
/// fewer blocks than it has slots are in the queue, as far as the offer itself learns.
pub proof fn a_block_goes_in_whenever_there_is_room(
    before: CaptureWriter,
    after: CaptureWriter,
    pairs: Seq<StereoFrame>,
    route: ChannelRoute,
    generation: u64,
    offered: Seq<AudioBlock>,
    accepted: Seq<bool>,
    step: RuntimeStats,
)
    requires
        before.wf(),
        before.writes(after, pairs, route, generation, offered, accepted, step),
        offered.len() == 1,
    ensures
        after.tried() == before.tried().push(offered[0]),
        after.sent() == (if before.sent().len() < before.slots() + after.gone() {
            before.sent().push(offered[0])
        } else {
            before.sent()
        }),
{
    answers_so_far(
        before.known(),
        after.known(),
        before.sent().len(),
        before.slots(),
        offered,
        accepted,
    );
    answer_at(
        before.known(),
        after.known(),
        before.sent().len(),
        before.slots(),
        offered,
        accepted,
        0,
    );
    assert(after.tried() =~= before.tried().push(offered[0]));
    assert(kept(offered.take(0), accepted.take(0)).len() == 0);
    assert(offered.drop_last().len() == 0);
    assert(kept(offered.drop_last(), accepted.drop_last()) =~= Seq::<AudioBlock>::empty());
    assert(after.sent() =~= (if accepted[0] {
        before.sent().push(offered[0])
    } else {
        before.sent()
    }));
}

/// The blocks that a queue takes of those offered while nobody empties it.
pub open spec fn taken_while_full(before: CaptureWriter, offered: nat) -> int {
    let room = before.slots() + before.gone() - before.sent().len();
    if offered <= room {
        offered as int
    } else {
        room
    }
}

/// A queue that nobody empties takes as many blocks as it has slots, and the others are
/// dropped whole.
pub proof fn a_queue_that_nobody_empties_fills_up(
    before: CaptureWriter,
    after: CaptureWriter,
    pairs: Seq<StereoFrame>,
    route: ChannelRoute,
    generation: u64,
    offered: Seq<AudioBlock>,
    accepted: Seq<bool>,
    step: RuntimeStats,
)
    requires
        before.wf(),
        before.writes(after, pairs, route, generation, offered, accepted, step),
        after.gone() == before.gone(),
    ensures
        ({
            let taken = taken_while_full(before, offered.len());
            let discarded = before.assembler().pending().len() - before.continued(generation).len();
            &&& 0 <= taken <= offered.len()
            &&& after.sent() == before.sent() + offered.take(taken)
            &&& step.dropped_audio_frames == counted_on(
                0,
                discarded + (offered.len() - taken) * AUDIO_BLOCK_FRAMES,
            )
        }),
{
    let taken = taken_while_full(before, offered.len());
    kept_and_refused_add_up(offered, accepted);
    assert forall|k: int| 0 <= k < taken implies #[trigger] accepted[k] by {
        answer_at(
            before.known(),
            after.known(),
            before.sent().len(),
            before.slots(),
            offered,
            accepted,
            k,
        );
        kept_and_refused_add_up(offered.take(k), accepted.take(k));
    }
    nothing_refused(offered.take(taken), accepted.take(taken));
    assert(offered =~= offered.take(taken) + offered.skip(taken));
    assert(accepted =~= accepted.take(taken) + accepted.skip(taken));
    kept_of_both(
        offered.take(taken),
        accepted.take(taken),
        offered.skip(taken),
        accepted.skip(taken),
    );
    kept_and_refused_add_up(offered.skip(taken), accepted.skip(taken));
    assert(kept(offered, accepted) =~= offered.take(taken));
}

proof fn nothing_refused<A>(offered: Seq<A>, accepted: Seq<bool>)
    requires
        offered.len() == accepted.len(),
        forall|k: int| 0 <= k < accepted.len() ==> #[trigger] accepted[k],
    ensures
        kept(offered, accepted) == offered,
        refused(accepted) == 0,
    decreases offered.len(),
{
    if offered.len() > 0 {
        nothing_refused(offered.drop_last(), accepted.drop_last());
        assert(offered.drop_last().push(offered.last()) =~= offered);
    } else {
        assert(kept(offered, accepted) =~= offered);
    }
}

/// Only whole blocks are handed on, and no block mixes two routes: each one that a
/// callback hands on is full and carries the route under which it was captured.
pub proof fn only_whole_blocks_of_one_route_are_handed_on(
    before: CaptureWriter,
    after: CaptureWriter,
    pairs: Seq<StereoFrame>,
    route: ChannelRoute,
    generation: u64,
    offered: Seq<AudioBlock>,
    accepted: Seq<bool>,
    step: RuntimeStats,
)
    requires
        before.wf(),
        before.writes(after, pairs, route, generation, offered, accepted, step),
    ensures
        before.sent().is_prefix_of(after.sent()),
        forall|i: int|
            before.sent().len() <= i < after.sent().len() ==> {
                let block = #[trigger] after.sent()[i];
                &&& block.valid_frames == AUDIO_BLOCK_FRAMES
                &&& block.route_generation == generation
                &&& block.has_reference == (route.reference is Some)
            },
{
    reveal(cut);
    kept_and_refused_add_up(offered, accepted);
    let added = kept(offered, accepted);
    assert forall|i: int| before.sent().len() <= i < after.sent().len() implies ({
        let block = #[trigger] after.sent()[i];
        &&& block.valid_frames == AUDIO_BLOCK_FRAMES
        &&& block.route_generation == generation
        &&& block.has_reference == (route.reference is Some)
    }) by {
        let block = added[i - before.sent().len()];
        assert(offered.contains(block));
    }
}

/// The blocks that a callback fills are numbered by their first frames, whether or not
/// the queue took them: dropping a block does not shift the frames that follow.
pub proof fn blocks_follow_one_another(
    before: CaptureWriter,
    after: CaptureWriter,
    pairs: Seq<StereoFrame>,
    route: ChannelRoute,
    generation: u64,
    offered: Seq<AudioBlock>,
    accepted: Seq<bool>,
    step: RuntimeStats,
    first: int,
    second: int,
)
    requires
        before.wf(),
        before.writes(after, pairs, route, generation, offered, accepted, step),
        0 <= first <= second < offered.len(),
    ensures
        offered[second].start_frame == counted_on(
            offered[first].start_frame,
            (second - first) * AUDIO_BLOCK_FRAMES,
        ),
        after.assembler().start_frame() == counted_on(
            offered[second].start_frame,
            (offered.len() - second) * AUDIO_BLOCK_FRAMES,
        ),
{
    reveal(cut);
    let next = before.assembler().next_frame();
    let continued = before.continued(generation).len() as int;
    let size = AUDIO_BLOCK_FRAMES as int;
    let first_start = offered[first].start_frame;
    let second_start = offered[second].start_frame;
    assert(first_start == counted_on(next, first * size - continued));
    assert(second_start == counted_on(next, second * size - continued));
    counts_add_up(next, first * size - continued, (second - first) * size);
    counts_add_up(next, second * size - continued, (offered.len() - second) * size);
    counts_add_up(next, pairs.len() as int, -after.assembler().pending().len());
}

/// Offers made one after the other are kept one after the other.
proof fn kept_of_both(
    offered: Seq<AudioBlock>,
    accepted: Seq<bool>,
    more: Seq<AudioBlock>,
    answers: Seq<bool>,
)
    requires
        accepted.len() == offered.len(),
        answers.len() == more.len(),
    ensures
        kept(offered + more, accepted + answers) == kept(offered, accepted) + kept(more, answers),
        refused(accepted + answers) == refused(accepted) + refused(answers),
    decreases more.len(),
{
    if more.len() == 0 {
        assert(offered + more =~= offered);
        assert(accepted + answers =~= accepted);
        assert(kept(offered, accepted) + kept(more, answers) =~= kept(offered, accepted));
    } else {
        kept_of_both(offered, accepted, more.drop_last(), answers.drop_last());
        assert((offered + more).drop_last() =~= offered + more.drop_last());
        assert((accepted + answers).drop_last() =~= accepted + answers.drop_last());
        assert(kept(offered + more, accepted + answers) =~= kept(offered, accepted) + kept(
            more,
            answers,
        ));
    }
}

/// Cutting goes on where it was left.
proof fn cut_of_both(
    stream: Seq<StereoFrame>,
    pairs: Seq<StereoFrame>,
    offered: Seq<AudioBlock>,
    more: Seq<AudioBlock>,
    first: u64,
    continued: int,
    next: u64,
    generation: u64,
    has_reference: bool,
)
    requires
        offered.len() * AUDIO_BLOCK_FRAMES <= stream.len(),
        more.len() * AUDIO_BLOCK_FRAMES <= stream.len() - offered.len() * AUDIO_BLOCK_FRAMES
            + pairs.len(),
        cut(stream, offered, first, continued, generation, has_reference),
        next == counted_on(first, stream.len() - continued),
        cut(
            stream.skip(offered.len() * AUDIO_BLOCK_FRAMES) + pairs,
            more,
            next,
            stream.len() - offered.len() * AUDIO_BLOCK_FRAMES,
            generation,
            has_reference,
        ),
    ensures
        cut(stream + pairs, offered + more, first, continued, generation, has_reference),
{
    reveal(cut);
    let size = AUDIO_BLOCK_FRAMES as int;
    let rest = stream.skip(offered.len() * size) + pairs;
    let all = stream + pairs;
    let offers = offered + more;
    assert forall|k: int| 0 <= k < offers.len() implies filled(
        #[trigger] offers[k],
        all.subrange(k * size, (k + 1) * size),
        counted_on(first, k * size - continued),
        generation,
        has_reference,
    ) by {
        if k < offered.len() {
            assert(offers[k] == offered[k]);
            assert(all.subrange(k * size, (k + 1) * size) =~= stream.subrange(
                k * size,
                (k + 1) * size,
            ));
        } else {
            let j = k - offered.len();
            assert(offers[k] == more[j]);
            assert(all.subrange(k * size, (k + 1) * size) =~= rest.subrange(
                j * size,
                (j + 1) * size,
            ));
            counts_add_up(
                first,
                stream.len() - continued,
                j * size - (stream.len() - offered.len() * size),
            );
        }
    }
}

proof fn one_answer_of_both(
    known: Seq<nat>,
    known_mid: Seq<nat>,
    known_after: Seq<nat>,
    sent: nat,
    slots: nat,
    offered: Seq<AudioBlock>,
    accepted: Seq<bool>,
    more: Seq<AudioBlock>,
    answers: Seq<bool>,
    k: int,
)
    requires
        accepted.len() == offered.len(),
        answers.len() == more.len(),
        answered(known, known_mid, sent, slots, offered, accepted),
        answered(
            known_mid,
            known_after,
            sent + kept(offered, accepted).len(),
            slots,
            more,
            answers,
        ),
        0 <= k < offered.len() + more.len(),
    ensures
        is_answered_at(
            known,
            known_after,
            sent,
            slots,
            offered + more,
            accepted + answers,
            k,
        ),
{
    answers_so_far(known, known_mid, sent, slots, offered, accepted);
    let later = sent + kept(offered, accepted).len();
    answers_so_far(known_mid, known_after, later, slots, more, answers);
    if k < offered.len() {
        answer_at(known, known_mid, sent, slots, offered, accepted, k);
        assert((offered + more).take(k) =~= offered.take(k));
        assert((accepted + answers).take(k) =~= accepted.take(k));
        assert(known_after[known.len() + k] == known_after.take(known_mid.len() as int)[known.len()
            + k]);
    } else {
        let j = k - offered.len();
        answer_at(known_mid, known_after, later, slots, more, answers, j);
        assert((offered + more).take(k) =~= offered + more.take(j));
        assert((accepted + answers).take(k) =~= accepted + answers.take(j));
        kept_of_both(offered, accepted, more.take(j), answers.take(j));
    }
}

/// The queue's answers go on where they were left.
proof fn answers_of_both(
    known: Seq<nat>,
    known_mid: Seq<nat>,
    known_after: Seq<nat>,
    sent: nat,
    slots: nat,
    offered: Seq<AudioBlock>,
    accepted: Seq<bool>,
    more: Seq<AudioBlock>,
    answers: Seq<bool>,
)
    requires
        accepted.len() == offered.len(),
        answers.len() == more.len(),
        answered(known, known_mid, sent, slots, offered, accepted),
        answered(
            known_mid,
            known_after,
            sent + kept(offered, accepted).len(),
            slots,
            more,
            answers,
        ),
    ensures
        answered(known, known_after, sent, slots, offered + more, accepted + answers),
{
    let offers = offered + more;
    let all = accepted + answers;
    answers_so_far(known, known_mid, sent, slots, offered, accepted);
    answers_so_far(
        known_mid,
        known_after,
        sent + kept(offered, accepted).len(),
        slots,
        more,
        answers,
    );
    assert(known_after.take(known.len() as int) =~= known_mid.take(known.len() as int)) by {
        assert(known_mid =~= known_after.take(known_mid.len() as int));
    }
    assert forall|k: int| 0 <= k < offers.len() implies #[trigger] is_answered_at(
        known,
        known_after,
        sent,
        slots,
        offers,
        all,
        k,
    ) by {
        one_answer_of_both(
            known,
            known_mid,
            known_after,
            sent,
            slots,
            offered,
            accepted,
            more,
            answers,
            k,
        );
    }
    answered_in_all(known, known_after, sent, slots, offers, all);
}

/// How the input cuts its frames into callbacks changes nothing: two callbacks under one
/// route do what one with the frames of both does, if the queue answers alike.
pub proof fn cutting_a_callback_in_two_changes_nothing(
    before: CaptureWriter,
    mid: CaptureWriter,
    after: CaptureWriter,
    first: Seq<StereoFrame>,
    second: Seq<StereoFrame>,
    route: ChannelRoute,
    generation: u64,
    offered: Seq<AudioBlock>,
    accepted: Seq<bool>,
    more: Seq<AudioBlock>,
    answers: Seq<bool>,
    step: RuntimeStats,
    next_step: RuntimeStats,
)
    requires
        before.wf(),
        before.writes(mid, first, route, generation, offered, accepted, step),
        mid.writes(after, second, route, generation, more, answers, next_step),
    ensures
        before.writes(
            after,
            first + second,
            route,
            generation,
            offered + more,
            accepted + answers,
            RuntimeStats {
                received_audio_frames: (first.len() + second.len()) as u64,
                dropped_audio_frames: counted_on(
                    step.dropped_audio_frames,
                    next_step.dropped_audio_frames as int,
                ),
                ..no_stats()
            },
        ),
{
    let size = AUDIO_BLOCK_FRAMES as int;
    let continued = before.continued(generation);
    let stream = continued + first;
    let start = before.assembler().next_frame();
    let discarded = before.assembler().pending().len() - continued.len();
    assert(mid.continued(generation) == mid.assembler().pending());
    assert(continued + (first + second) =~= stream + second);
    counts_add_up(start, first.len() as int, second.len() as int);
    cut_of_both(
        stream,
        second,
        offered,
        more,
        start,
        continued.len() as int,
        mid.assembler().next_frame(),
        generation,
        route.reference is Some,
    );
    kept_of_both(offered, accepted, more, answers);
    assert(after.tried() =~= before.tried() + (offered + more));
    answers_of_both(
        before.known(),
        mid.known(),
        after.known(),
        before.sent().len(),
        before.slots(),
        offered,
        accepted,
        more,
        answers,
    );
    assert(after.sent() =~= before.sent() + kept(offered + more, accepted + answers));
    assert((stream + second).skip((offered + more).len() * size) =~= (stream.skip(
        offered.len() * size,
    ) + second).skip(more.len() * size));
    dropped_counts_add_up(discarded + refused(accepted) * size, refused(answers) * size);
}

proof fn dropped_counts_add_up(first: int, second: int)
    ensures
        counted_on(counted_on(0, first), counted_on(0, second) as int) == counted_on(
            0,
            first + second,
        ),
{
    reveal(counted_on);
}

/// The same blocks, frame by frame.
proof fn cut_is_determined(
    stream: Seq<StereoFrame>,
    offered: Seq<AudioBlock>,
    others: Seq<AudioBlock>,
    first: u64,
    continued: int,
    generation: u64,
    has_reference: bool,
)
    requires
        offered.len() == others.len(),
        cut(stream, offered, first, continued, generation, has_reference),
        cut(stream, others, first, continued, generation, has_reference),
    ensures
        offered == others,
{
    reveal(cut);
    assert forall|k: int| 0 <= k < offered.len() implies offered[k] == others[k] by {
        assert(offered[k].frames@ == others[k].frames@);
        assert(offered[k].frames =~= others[k].frames);
    }
    assert(offered =~= others);
}

/// How the driver cuts its callbacks does not matter: while nobody empties the queue, one
/// callback with the frames of two, under one route, hands the same blocks on as the two
/// do, counts the same and leaves the same frames waiting.
pub proof fn one_callback_does_what_two_do(
    before: CaptureWriter,
    first: Seq<StereoFrame>,
    second: Seq<StereoFrame>,
    route: ChannelRoute,
    generation: u64,
    whole: CaptureWriter,
    whole_offered: Seq<AudioBlock>,
    whole_accepted: Seq<bool>,
    whole_step: RuntimeStats,
    mid: CaptureWriter,
    offered: Seq<AudioBlock>,
    accepted: Seq<bool>,
    step: RuntimeStats,
    after: CaptureWriter,
    more: Seq<AudioBlock>,
    answers: Seq<bool>,
    next_step: RuntimeStats,
)
    requires
        before.wf(),
        before.writes(
            whole,
            first + second,
            route,
            generation,
            whole_offered,
            whole_accepted,
            whole_step,
        ),
        before.writes(mid, first, route, generation, offered, accepted, step),
        mid.writes(after, second, route, generation, more, answers, next_step),
        whole.gone() == before.gone(),
        after.gone() == before.gone(),
    ensures
        whole.sent() == after.sent(),
        whole.tried() == after.tried(),
        whole.assembler().pending() == after.assembler().pending(),
        whole.assembler().next_frame() == after.assembler().next_frame(),
        whole_step.received_audio_frames == (first.len() + second.len()) as u64,
        whole_step.dropped_audio_frames == counted_on(
            step.dropped_audio_frames,
            next_step.dropped_audio_frames as int,
        ),
{
    cutting_a_callback_in_two_changes_nothing(
        before,
        mid,
        after,
        first,
        second,
        route,
        generation,
        offered,
        accepted,
        more,
        answers,
        step,
        next_step,
    );
    let joined = RuntimeStats {
        received_audio_frames: (first.len() + second.len()) as u64,
        dropped_audio_frames: counted_on(
            step.dropped_audio_frames,
            next_step.dropped_audio_frames as int,
        ),
        ..no_stats()
    };
    let stream = before.continued(generation) + (first + second);
    cut_is_determined(
        stream,
        whole_offered,
        offered + more,
        before.assembler().next_frame(),
        before.continued(generation).len() as int,
        generation,
        route.reference is Some,
    );
    a_queue_that_nobody_empties_fills_up(
        before,
        whole,
        first + second,
        route,
        generation,
        whole_offered,
        whole_accepted,
        whole_step,
    );
    a_queue_that_nobody_empties_fills_up(
        before,
        after,
        first + second,
        route,
        generation,
        offered + more,
        accepted + answers,
        joined,
    );
}

/// One callback: `frames` frames arrived, in whole frames or not. One that was not whole
/// counts as a frame.
pub open spec fn is_callback(
    before: CaptureWriter,
    after: CaptureWriter,
    frames: nat,
    malformed: bool,
    step: RuntimeStats,
) -> bool {
    if malformed {
        frames > 0 && before.rejects(after, frames - 1, step)
    } else {
        exists|
            pairs: Seq<StereoFrame>,
            route: ChannelRoute,
            generation: u64,
            offered: Seq<AudioBlock>,
            accepted: Seq<bool>,
        |
            pairs.len() == frames && #[trigger] before.writes(
                after,
                pairs,
                route,
                generation,
                offered,
                accepted,
                step,
            )
    }
}

/// What `write_interleaved` does with whole frames is such a callback, and so is what it
/// does with others.
pub proof fn what_is_written_is_a_callback<T, F: Fn(T) -> u32>(
    before: CaptureWriter,
    after: CaptureWriter,
    data: Seq<T>,
    convert: F,
    control: RouteControl,
    step: RuntimeStats,
)
    requires
        before.wf(),
    ensures
        before.captures_under(after, data, convert, control, step) ==> is_callback(
            before,
            after,
            (data.len() as int / before.channels() as int) as nat,
            false,
            step,
        ),
        before.rejects(after, data.len() as int / before.channels() as int, step) ==> is_callback(
            before,
            after,
            (data.len() as int / before.channels() as int + 1) as nat,
            true,
            step,
        ),
{
    let frames = data.len() as int / before.channels() as int;
    assert(frames >= 0) by (nonlinear_arith)
        requires
            frames == data.len() as int / before.channels() as int,
            before.channels() > 0,
    ;
}

/// The callbacks of a session, one after the other: `writers[i]` takes the callback number
/// `i` and becomes `writers[i + 1]`.
pub open spec fn is_session(
    writers: Seq<CaptureWriter>,
    frames: Seq<nat>,
    malformed: Seq<bool>,
    steps: Seq<RuntimeStats>,
) -> bool {
    &&& writers.len() == frames.len() + 1
    &&& malformed.len() == frames.len()
    &&& steps.len() == frames.len()
    &&& writers[0].wf()
    &&& forall|i: int|
        0 <= i < frames.len() ==> #[trigger] is_session_step(writers, frames, malformed, steps, i)
}

pub open spec fn is_session_step(
    writers: Seq<CaptureWriter>,
    frames: Seq<nat>,
    malformed: Seq<bool>,
    steps: Seq<RuntimeStats>,
    i: int,
) -> bool {
    is_callback(writers[i], writers[i + 1], frames[i], malformed[i], steps[i])
}

/// How many frames the first `count` callbacks brought.
pub open spec fn frames_brought(frames: Seq<nat>, count: int) -> int
    decreases count,
{
    if count <= 0 {
        0
    } else {
        frames_brought(frames, count - 1) + frames[count - 1]
    }
}

/// How many frames were dropped in the first `count` steps.
pub open spec fn frames_dropped(steps: Seq<RuntimeStats>, count: int) -> int
    decreases count,
{
    if count <= 0 {
        0
    } else {
        frames_dropped(steps, count - 1) + steps[count - 1].dropped_audio_frames
    }
}

/// How many errors were counted in the first `count` steps.
pub open spec fn errors_counted(steps: Seq<RuntimeStats>, count: int) -> int
    decreases count,
{
    if count <= 0 {
        0
    } else {
        errors_counted(steps, count - 1) + steps[count - 1].stream_errors
    }
}

/// How many of the first `count` callbacks were malformed.
pub open spec fn malformed_calls(malformed: Seq<bool>, count: int) -> int
    decreases count,
{
    if count <= 0 {
        0
    } else {
        malformed_calls(malformed, count - 1) + (if malformed[count - 1] {
            1int
        } else {
            0int
        })
    }
}

proof fn one_callback_is_accounted_for(
    before: CaptureWriter,
    after: CaptureWriter,
    frames: nat,
    malformed: bool,
    step: RuntimeStats,
)
    requires
        before.wf(),
        is_callback(before, after, frames, malformed, step),
        frames + before.assembler().pending().len() <= u64::MAX,
    ensures
        after.wf(),
        before.sent().len() <= after.sent().len(),
        frames + before.assembler().pending().len() == (after.sent().len() - before.sent().len())
            * AUDIO_BLOCK_FRAMES + step.dropped_audio_frames + after.assembler().pending().len(),
        step.stream_errors == (if malformed {
            1int
        } else {
            0int
        }),
{
    fewer_frames_wait_than_fill_a_block(before);
    if !malformed {
        let (pairs, route, generation, offered, accepted) = choose|
            pairs: Seq<StereoFrame>,
            route: ChannelRoute,
            generation: u64,
            offered: Seq<AudioBlock>,
            accepted: Seq<bool>,
        |
            pairs.len() == frames && #[trigger] before.writes(
                after,
                pairs,
                route,
                generation,
                offered,
                accepted,
                step,
            );
        every_frame_is_accounted_for(
            before,
            after,
            pairs,
            route,
            generation,
            offered,
            accepted,
            step,
        );
        reveal(counted_on);
    }
}

/// No frame of a session is lost uncounted: the frames that the callbacks brought are in
/// the blocks handed on, counted as dropped, or still waiting for their block to fill up.
/// The errors counted are the malformed callbacks.
pub proof fn every_frame_of_a_session_is_accounted_for(
    writers: Seq<CaptureWriter>,
    frames: Seq<nat>,
    malformed: Seq<bool>,
    steps: Seq<RuntimeStats>,
    count: int,
)
    requires
        is_session(writers, frames, malformed, steps),
        frames_brought(frames, frames.len() as int) + writers[0].assembler().pending().len()
            <= u64::MAX,
        0 <= count <= frames.len(),
    ensures
        writers[count].wf(),
        writers[0].sent().len() <= writers[count].sent().len(),
        0 <= frames_dropped(steps, count),
        frames_brought(frames, count) + writers[0].assembler().pending().len() == (
        writers[count].sent().len() - writers[0].sent().len()) * AUDIO_BLOCK_FRAMES
            + frames_dropped(steps, count) + writers[count].assembler().pending().len(),
        writers[count].assembler().pending().len() < AUDIO_BLOCK_FRAMES,
        errors_counted(steps, count) == malformed_calls(malformed, count),
    decreases count,
{
    if count > 0 {
        let i = count - 1;
        every_frame_of_a_session_is_accounted_for(writers, frames, malformed, steps, i);
        assert(is_session_step(writers, frames, malformed, steps, i));
        fewer_frames_are_brought_before(frames, count, frames.len() as int);
        one_callback_is_accounted_for(
            writers[i],
            writers[count],
            frames[i],
            malformed[i],
            steps[i],
        );
    }
    fewer_frames_wait_than_fill_a_block(writers[count]);
}

/// The blocks are full, each starts after the end of those before, and none ends after
/// the frame `end`.
pub open spec fn in_order(blocks: Seq<AudioBlock>, end: int) -> bool {
    &&& forall|i: int|
        0 <= i < blocks.len() ==> (#[trigger] blocks[i]).valid_frames == AUDIO_BLOCK_FRAMES
            && blocks[i].start_frame + AUDIO_BLOCK_FRAMES <= end
    &&& forall|i: int, j: int|
        0 <= i < j < blocks.len() ==> (#[trigger] blocks[i]).start_frame + AUDIO_BLOCK_FRAMES <= (
        #[trigger] blocks[j]).start_frame
}

/// What is kept of blocks that follow one another from the frame `start` on is in order.
proof fn kept_blocks_are_in_order(
    before: Seq<AudioBlock>,
    offered: Seq<AudioBlock>,
    accepted: Seq<bool>,
    start: int,
)
    requires
        accepted.len() == offered.len(),
        in_order(before, start),
        forall|k: int|
            0 <= k < offered.len() ==> (#[trigger] offered[k]).valid_frames == AUDIO_BLOCK_FRAMES
                && offered[k].start_frame == start + k * AUDIO_BLOCK_FRAMES,
    ensures
        in_order(before + kept(offered, accepted), start + offered.len() * AUDIO_BLOCK_FRAMES),
    decreases offered.len(),
{
    if offered.len() == 0 {
        assert(before + kept(offered, accepted) =~= before);
    } else {
        let shorter = offered.drop_last();
        let last = offered.last();
        assert(offered[offered.len() - 1] == last);
        assert forall|k: int| 0 <= k < shorter.len() implies (#[trigger] shorter[k]).valid_frames
            == AUDIO_BLOCK_FRAMES && shorter[k].start_frame == start + k * AUDIO_BLOCK_FRAMES by {
            assert(shorter[k] == offered[k]);
        }
        kept_blocks_are_in_order(before, shorter, accepted.drop_last(), start);
        let earlier = before + kept(shorter, accepted.drop_last());
        if accepted.last() {
            assert(before + kept(offered, accepted) =~= earlier.push(last));
        } else {
            assert(before + kept(offered, accepted) =~= earlier);
        }
    }
}

proof fn one_callback_keeps_the_order(
    before: CaptureWriter,
    after: CaptureWriter,
    frames: nat,
    malformed: bool,
    step: RuntimeStats,
)
    requires
        before.wf(),
        is_callback(before, after, frames, malformed, step),
        before.assembler().next_frame() + frames <= u64::MAX,
        before.assembler().pending().len() <= before.assembler().next_frame(),
        in_order(
            before.sent(),
            before.assembler().next_frame() - before.assembler().pending().len(),
        ),
    ensures
        after.assembler().next_frame() == before.assembler().next_frame() + frames,
        after.assembler().pending().len() <= after.assembler().next_frame(),
        in_order(
            after.sent(),
            after.assembler().next_frame() - after.assembler().pending().len(),
        ),
{
    reveal(counted_on);
    if !malformed {
        let (pairs, route, generation, offered, accepted) = choose|
            pairs: Seq<StereoFrame>,
            route: ChannelRoute,
            generation: u64,
            offered: Seq<AudioBlock>,
            accepted: Seq<bool>,
        |
            pairs.len() == frames && #[trigger] before.writes(
                after,
                pairs,
                route,
                generation,
                offered,
                accepted,
                step,
            );
        let size = AUDIO_BLOCK_FRAMES as int;
        let continued = before.continued(generation).len() as int;
        let start = before.assembler().next_frame() - continued;
        assert forall|k: int| 0 <= k < offered.len() implies (#[trigger] offered[k]).valid_frames
            == AUDIO_BLOCK_FRAMES && offered[k].start_frame == start + k * AUDIO_BLOCK_FRAMES by {
            reveal(cut);
            assert(offered[k].start_frame == counted_on(
                before.assembler().next_frame(),
                k * size - continued,
            ));
        }
        kept_blocks_are_in_order(before.sent(), offered, accepted, start);
    }
}

/// The blocks of a session are in order: those handed on are full, no two overlap, each
/// starts after the end of those before, and none reaches beyond the frames that the
/// callbacks brought.
pub proof fn the_blocks_of_a_session_are_in_order(
    writers: Seq<CaptureWriter>,
    frames: Seq<nat>,
    malformed: Seq<bool>,
    steps: Seq<RuntimeStats>,
    count: int,
)
    requires
        is_session(writers, frames, malformed, steps),
        writers[0].assembler().next_frame() == 0,
        writers[0].assembler().pending().len() == 0,
        writers[0].sent().len() == 0,
        frames_brought(frames, frames.len() as int) <= u64::MAX,
        0 <= count <= frames.len(),
    ensures
        writers[count].assembler().next_frame() == frames_brought(frames, count),
        writers[count].assembler().pending().len() <= frames_brought(frames, count),
        in_order(
            writers[count].sent(),
            frames_brought(frames, count) - writers[count].assembler().pending().len(),
        ),
    decreases count,
{
    if count > 0 {
        let i = count - 1;
        the_blocks_of_a_session_are_in_order(writers, frames, malformed, steps, i);
        fewer_frames_are_brought_before(frames, count, frames.len() as int);
        fewer_frames_are_brought_before(frames, 0, i);
        assert(is_session_step(writers, frames, malformed, steps, i));
        every_frame_of_a_session_is_accounted_for(writers, frames, malformed, steps, i);
        one_callback_keeps_the_order(
            writers[i],
            writers[count],
            frames[i],
            malformed[i],
            steps[i],
        );
    }
}

proof fn fewer_frames_are_brought_before(frames: Seq<nat>, first: int, second: int)
    requires
        0 <= first <= second,
    ensures
        frames_brought(frames, first) <= frames_brought(frames, second),
    decreases second,
{
    if first < second {
        fewer_frames_are_brought_before(frames, first, second - 1);
    }
}

/// What each callback of the session counted was added to the totals.
pub open spec fn is_counted(writers: Seq<CaptureWriter>, steps: Seq<RuntimeStats>) -> bool {
    forall|i: int| 0 <= i < steps.len() ==> #[trigger] is_counted_step(writers, steps, i)
}

pub open spec fn is_counted_step(
    writers: Seq<CaptureWriter>,
    steps: Seq<RuntimeStats>,
    i: int,
) -> bool {
    writers[i].counts().adds(writers[i + 1].counts(), steps[i])
}

proof fn each_malformed_call_counts_as_a_frame(
    writers: Seq<CaptureWriter>,
    frames: Seq<nat>,
    malformed: Seq<bool>,
    steps: Seq<RuntimeStats>,
    count: int,
)
    requires
        is_session(writers, frames, malformed, steps),
        0 <= count <= frames.len(),
    ensures
        0 <= malformed_calls(malformed, count) <= frames_brought(frames, count),
        0 <= frames_dropped(steps, count),
    decreases count,
{
    if count > 0 {
        each_malformed_call_counts_as_a_frame(writers, frames, malformed, steps, count - 1);
        assert(is_session_step(writers, frames, malformed, steps, count - 1));
    }
}

/// The totals that the display reads account for every frame of a session: if nobody else
/// counts dropped frames or errors, the frames that the callbacks brought are in the blocks
/// handed on, in the last total of dropped frames, or wait for their block to fill up, and
/// the last total of errors is the number of malformed callbacks.
pub proof fn the_totals_account_for_every_frame(
    writers: Seq<CaptureWriter>,
    frames: Seq<nat>,
    malformed: Seq<bool>,
    steps: Seq<RuntimeStats>,
    stats: SharedStats,
)
    requires
        is_session(writers, frames, malformed, steps),
        is_counted(writers, steps),
        writers[0].sent().len() == 0,
        writers[0].assembler().pending().len() == 0,
        writers[0].counts().counts_in(stats),
        writers[0].counts().is_fresh(),
        stats.starts_at_zero(),
        stats.dropped_values().len() == steps.len() + 1,
        stats.error_values().len() == steps.len() + 1,
        frames_brought(frames, frames.len() as int) <= u64::MAX,
    ensures
        ({
            let after = writers[frames.len() as int];
            &&& frames_brought(frames, frames.len() as int) == after.sent().len()
                * AUDIO_BLOCK_FRAMES + stats.dropped_values().last()
                + after.assembler().pending().len()
            &&& after.assembler().pending().len() < AUDIO_BLOCK_FRAMES
            &&& stats.error_values().last() == malformed_calls(malformed, frames.len() as int)
        }),
{
    let n = steps.len() as int;
    every_frame_of_a_session_is_accounted_for(writers, frames, malformed, steps, n);
    each_malformed_call_counts_as_a_frame(writers, frames, malformed, steps, n);
    let dropped_ends = Seq::new(steps.len() + 1, |i: int| writers[i].counts().dropped());
    let error_ends = Seq::new(steps.len() + 1, |i: int| writers[i].counts().errors());
    assert forall|i: int| 0 <= i < n implies #[trigger] is_counter_step(dropped_ends, i) by {
        assert(is_counted_step(writers, steps, i));
        assert(counter_adds(
            dropped_ends[i],
            dropped_ends[i + 1],
            steps[i].dropped_audio_frames,
        ));
    }
    assert forall|i: int| 0 <= i < n implies #[trigger] is_counter_step(error_ends, i) by {
        assert(is_counted_step(writers, steps, i));
        assert(counter_adds(error_ends[i], error_ends[i + 1], steps[i].stream_errors));
    }
    sums_of_steps(writers, steps, n);
    a_counter_holds_the_sum(dropped_ends, n);
    a_counter_holds_the_sum(error_ends, n);
}

proof fn sum_with_one_more(amounts: Seq<u64>, amount: u64, count: int)
    requires
        0 <= count <= amounts.len(),
    ensures
        sum_of(amounts.push(amount), count) == sum_of(amounts, count),
    decreases count,
{
    if count > 0 {
        sum_with_one_more(amounts, amount, count - 1);
    }
}

proof fn sums_of_steps(writers: Seq<CaptureWriter>, steps: Seq<RuntimeStats>, count: int)
    requires
        is_counted(writers, steps),
        writers[0].counts().is_fresh(),
        0 <= count <= steps.len(),
    ensures
        ({
            let dropped = amounts_added(writers[count].counts().dropped());
            let errors = amounts_added(writers[count].counts().errors());
            &&& dropped.len() == count
            &&& errors.len() == count
            &&& sum_of(dropped, count) == frames_dropped(steps, count)
            &&& sum_of(errors, count) == errors_counted(steps, count)
        }),
    decreases count,
{
    if count > 0 {
        let i = count - 1;
        sums_of_steps(writers, steps, i);
        assert(is_counted_step(writers, steps, i));
        let step = steps[i];
        let before = writers[i].counts();
        sum_with_one_more(amounts_added(before.dropped()), step.dropped_audio_frames, i);
        sum_with_one_more(amounts_added(before.errors()), step.stream_errors, i);
    }
}

/// The samples are those of `frames`, one frame after the other, each with `channels`
/// channels.
pub open spec fn is_interleaved<T>(data: Seq<T>, frames: Seq<Seq<T>>, channels: int) -> bool {
    &&& data.len() == frames.len() * channels
    &&& forall|i: int| 0 <= i < frames.len() ==> (#[trigger] frames[i]).len() == channels
    &&& forall|i: int, c: int|
        0 <= i < frames.len() && 0 <= c < channels ==> #[trigger] frames[i][c] == data[i * channels
            + c]
}

/// `captured` is what a route with these channels picks out of `frame`.
pub open spec fn picked<T, F: Fn(T) -> u32>(
    frame: Seq<T>,
    reference: Option<usize>,
    measurement: usize,
    convert: F,
    captured: StereoFrame,
) -> bool {
    &&& convert.ensures((frame[measurement as int],), captured.measurement)
    &&& reference matches Some(channel) ==> convert.ensures(
        (frame[channel as int],),
        captured.reference,
    )
    &&& reference is None ==> captured.reference == 0
}

proof fn pair_is_picked<T, F: Fn(T) -> u32>(
    data: Seq<T>,
    frames: Seq<Seq<T>>,
    channels: int,
    route: ChannelRoute,
    convert: F,
    pairs: Seq<StereoFrame>,
    n: int,
)
    requires
        0 < channels,
        is_interleaved(data, frames, channels),
        route.measurement < channels,
        route.reference matches Some(channel) ==> channel < channels,
        pairs_of(data, channels, route, convert, pairs),
        0 <= n < frames.len(),
    ensures
        pairs.len() == frames.len(),
        picked(frames[n], route.reference, route.measurement, convert, pairs[n]),
{
    assert(data.len() as int / channels == frames.len()) by (nonlinear_arith)
        requires
            data.len() == frames.len() * channels,
            0 < channels,
    ;
    assert(pair_of(data, channels, route, convert, n, pairs[n]));
    assert(frames[n][route.measurement as int] == data[n * channels + route.measurement]);
    if let Some(channel) = route.reference {
        assert(frames[n][channel as int] == data[n * channels + channel]);
    }
}

/// Each block that a callback hands on holds what the route picks out of the frames whose
/// numbers it bears. Its frame number `j` comes `distance + j` frames after the first one
/// of the callback: from this callback the channels that the route names, each converted,
/// or before it a frame that was waiting. Without a reference the other sample is zero.
pub proof fn a_block_holds_what_the_route_names<T, F: Fn(T) -> u32>(
    before: CaptureWriter,
    after: CaptureWriter,
    data: Seq<T>,
    frames: Seq<Seq<T>>,
    convert: F,
    control: RouteControl,
    step: RuntimeStats,
    place: int,
) -> (distance: int)
    requires
        before.wf(),
        before.captures_under(after, data, convert, control, step),
        is_interleaved(data, frames, before.channels() as int),
        before.sent().len() <= place < after.sent().len(),
    ensures
        ({
            let block = after.sent()[place];
            let waiting = before.assembler().pending();
            &&& block.route_generation == control.generation()
            &&& block.has_reference == control.route().reference is Some
            &&& block.valid_frames == 256
            &&& block.frames@.len() == 256
            &&& -waiting.len() <= distance <= frames.len() - 256
            &&& block.start_frame == (before.assembler().next_frame() + distance)
                % 0x1_0000_0000_0000_0000
            &&& forall|j: int|
                0 <= j < 256 ==> {
                    let captured = #[trigger] block.frames@[j];
                    if distance + j < 0 {
                        captured == waiting[waiting.len() + distance + j]
                    } else {
                        picked(
                            frames[distance + j],
                            control.route().reference,
                            control.route().measurement,
                            convert,
                            captured,
                        )
                    }
                }
        }),
{
    let route = control.route();
    let generation = control.generation();
    let channels = before.channels() as int;
    let (pairs, offered, accepted) = choose|
        pairs: Seq<StereoFrame>,
        offered: Seq<AudioBlock>,
        accepted: Seq<bool>,
    |
        pairs_of(data, channels, route, convert, pairs) && #[trigger] before.writes(
            after,
            pairs,
            route,
            generation,
            offered,
            accepted,
            step,
        );
    let size = AUDIO_BLOCK_FRAMES as int;
    let continued = before.continued(generation);
    let stream = continued + pairs;
    let waiting = before.assembler().pending();
    let block = after.sent()[place];
    kept_and_refused_add_up(offered, accepted);
    assert(block == kept(offered, accepted)[place - before.sent().len()]);
    assert(offered.contains(block));
    let k = choose|k: int| 0 <= k < offered.len() && offered[k] == block;
    reveal(cut);
    reveal(counted_on);
    let distance = k * size - continued.len();
    assert(filled(
        offered[k],
        stream.subrange(k * size, (k + 1) * size),
        counted_on(before.assembler().next_frame(), distance),
        generation,
        route.reference is Some,
    ));
    assert(data.len() as int / channels == frames.len()) by (nonlinear_arith)
        requires
            data.len() == frames.len() * channels,
            0 < channels,
    ;
    assert forall|j: int| 0 <= j < 256 implies {
        let captured = #[trigger] block.frames@[j];
        if distance + j < 0 {
            captured == waiting[waiting.len() + distance + j]
        } else {
            picked(frames[distance + j], route.reference, route.measurement, convert, captured)
        }
    } by {
        assert(block.frames@[j] == stream[k * size + j]);
        if distance + j >= 0 {
            pair_is_picked(data, frames, channels, route, convert, pairs, distance + j);
        }
    }
    distance
}

/// The frames that wait after a callback are its last ones, as the route picks them, behind
/// those that waited before as far as there is room. None that waited under another route is
/// among them.
pub proof fn what_waits_is_what_the_route_names<T, F: Fn(T) -> u32>(
    before: CaptureWriter,
    after: CaptureWriter,
    data: Seq<T>,
    frames: Seq<Seq<T>>,
    convert: F,
    control: RouteControl,
    step: RuntimeStats,
    j: int,
)
    requires
        before.wf(),
        before.captures_under(after, data, convert, control, step),
        is_interleaved(data, frames, before.channels() as int),
        0 <= j < after.assembler().pending().len(),
    ensures
        ({
            let waiting = before.assembler().pending();
            let waits = after.assembler().pending();
            let n = frames.len() - waits.len() + j;
            if n < 0 {
                &&& waits[j] == waiting[waiting.len() + n]
                &&& before.assembler().generation() matches Some(previous) ==> previous
                    == control.generation()
            } else {
                picked(
                    frames[n],
                    control.route().reference,
                    control.route().measurement,
                    convert,
                    waits[j],
                )
            }
        }),
{
    let route = control.route();
    let generation = control.generation();
    let channels = before.channels() as int;
    let (pairs, offered, accepted) = choose|
        pairs: Seq<StereoFrame>,
        offered: Seq<AudioBlock>,
        accepted: Seq<bool>,
    |
        pairs_of(data, channels, route, convert, pairs) && #[trigger] before.writes(
            after,
            pairs,
            route,
            generation,
            offered,
            accepted,
            step,
        );
    let continued = before.continued(generation);
    let stream = continued + pairs;
    let waits = after.assembler().pending();
    let n = frames.len() - waits.len() + j;
    assert(data.len() as int / channels == frames.len()) by (nonlinear_arith)
        requires
            data.len() == frames.len() * channels,
            0 < channels,
    ;
    assert(waits[j] == stream[stream.len() - waits.len() + j]);
    if n >= 0 {
        pair_is_picked(data, frames, channels, route, convert, pairs, n);
    }
}

/// A callback with whole frames counts its frames as received and no error. The frames are
/// numbered on by as many as it brought.
pub proof fn a_callback_counts_its_frames<T, F: Fn(T) -> u32>(
    before: CaptureWriter,
    after: CaptureWriter,
    data: Seq<T>,
    frames: Seq<Seq<T>>,
    convert: F,
    control: RouteControl,
    step: RuntimeStats,
)
    requires
        before.wf(),
        before.captures_under(after, data, convert, control, step),
        is_interleaved(data, frames, before.channels() as int),
        frames.len() <= u64::MAX,
    ensures
        step.received_audio_frames == frames.len(),
        step.stream_errors == 0,
        step.discontinuities == 0,
        step.dropped_results == 0,
        after.assembler().next_frame() == (before.assembler().next_frame() + frames.len())
            % 0x1_0000_0000_0000_0000,
        after.assembler().pending().len() < 256,
{
    let channels = before.channels() as int;
    assert(data.len() as int / channels == frames.len()) by (nonlinear_arith)
        requires
            data.len() == frames.len() * channels,
            0 < channels,
    ;
    reveal(counted_on);
}

/// A malformed callback is dropped whole: nothing is handed on or waits after it, it counts
/// one error and one frame more than it held whole ones, with those that waited, and what
/// follows is numbered on past it.
pub proof fn a_malformed_callback_is_dropped_whole(
    before: CaptureWriter,
    after: CaptureWriter,
    frames: int,
    step: RuntimeStats,
)
    requires
        before.wf(),
        before.rejects(after, frames, step),
        0 <= frames < u64::MAX - 256,
    ensures
        after.sent() == before.sent(),
        after.assembler().pending().len() == 0,
        step.dropped_audio_frames == before.assembler().pending().len() + frames + 1,
        step.stream_errors == 1,
        step.received_audio_frames == 0,
        after.assembler().next_frame() == (before.assembler().next_frame() + frames + 1)
            % 0x1_0000_0000_0000_0000,
{
    fewer_frames_wait_than_fill_a_block(before);
    reveal(counted_on);
}

/// A block that goes in is the one that was offered, at its place: what was handed on before
/// stays, and the blocks handed on follow one another as they were filled.
pub proof fn blocks_go_in_as_they_were_filled(
    before: CaptureWriter,
    after: CaptureWriter,
    pairs: Seq<StereoFrame>,
    route: ChannelRoute,
    generation: u64,
    offered: Seq<AudioBlock>,
    accepted: Seq<bool>,
    step: RuntimeStats,
    place: int,
)
    requires
        before.wf(),
        before.writes(after, pairs, route, generation, offered, accepted, step),
        0 <= place < before.sent().len(),
    ensures
        after.sent()[place] == before.sent()[place],
        after.sent().len() <= before.sent().len() + offered.len(),
        after.tried().len() == before.tried().len() + offered.len(),
{
    kept_and_refused_add_up(offered, accepted);
}

/// Blocks come out of the queue in the order in which they went in, each once: looking for
/// one gives the block behind those that came out before, if it gives one, and takes nothing
/// out otherwise.
pub proof fn blocks_come_out_in_order(
    before: CapturedBlocks,
    after: CapturedBlocks,
    taken: bool,
)
    requires
        before.receives(after, taken),
    ensures
        before.given(taken) is Some <==> taken,
        taken ==> {
            let place = before.received().len() as int;
            &&& place < before.stream().len()
            &&& before.given(taken) == Some(before.stream()[place])
            &&& after.received().len() == place + 1
            &&& after.received()[place] == before.stream()[place]
            &&& forall|i: int|
                0 <= i < place ==> #[trigger] after.received()[i] == before.received()[i]
        },
        !taken ==> after.received() == before.received(),
        after.stream() == before.stream(),
{
}

/// A callback fills as many blocks of 256 frames as it can, of the frames that waited, if
/// they were captured under its route, and of its own; the others wait.
pub proof fn how_many_blocks_a_callback_fills<T, F: Fn(T) -> u32>(
    before: CaptureWriter,
    after: CaptureWriter,
    data: Seq<T>,
    frames: Seq<Seq<T>>,
    convert: F,
    control: RouteControl,
    step: RuntimeStats,
)
    requires
        before.wf(),
        before.captures_under(after, data, convert, control, step),
        is_interleaved(data, frames, before.channels() as int),
    ensures
        ({
            let waited = before.assembler().pending().len();
            let waits = after.assembler().pending().len();
            let blocks = after.tried().len() - before.tried().len();
            let same = before.assembler().generation() matches Some(previous) ==> previous
                == control.generation();
            &&& waits < 256
            &&& same ==> waited + frames.len() == 256 * blocks + waits
            &&& !same ==> frames.len() == 256 * blocks + waits
        }),
{
    let route = control.route();
    let generation = control.generation();
    let channels = before.channels() as int;
    let (pairs, offered, accepted) = choose|
        pairs: Seq<StereoFrame>,
        offered: Seq<AudioBlock>,
        accepted: Seq<bool>,
    |
        pairs_of(data, channels, route, convert, pairs) && #[trigger] before.writes(
            after,
            pairs,
            route,
            generation,
            offered,
            accepted,
            step,
        );
    assert(data.len() as int / channels == frames.len()) by (nonlinear_arith)
        requires
            data.len() == frames.len() * channels,
            0 < channels,
    ;
}

} // verus!
