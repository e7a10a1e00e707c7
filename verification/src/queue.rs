//! The bounded queues that carry blocks, results, requests and events from one
//! thread to another.
//!
//! Each queue is a ring of the `ringbuf` crate, split into its two ends. One end
//! sees the other only through what it is given, so each end is described by its
//! own past: what it has sent, or what it has received. What ties the two ends of a
//! queue together is the stream of items that pass through it: each end has seen the
//! beginning of the same stream.
use ringbuf::traits::{Consumer, Observer, Producer, Split};
use ringbuf::{HeapCons, HeapProd, HeapRb};

use vstd::prelude::*;

use crate::controller::Event;
use crate::model::{AnalysisSnapshot, AudioBlock};

verus! {

/// The end of a queue that takes items in.
#[verifier::external_body]
#[verifier::reject_recursive_types(T)]
pub struct Sender<T> {
    ring: HeapProd<T>,
}

/// The end of a queue that gives items out.
#[verifier::external_body]
#[verifier::reject_recursive_types(T)]
pub struct Receiver<T> {
    ring: HeapCons<T>,
}

/// The most items that a queue is made for.
pub const MAX_SLOTS: usize = 4096;

/// The blocks that went into the queue through this end, in order.
pub uninterp spec fn blocks_sent(sender: Sender<AudioBlock>) -> Seq<AudioBlock>;

/// How many blocks the queue holds at most.
pub uninterp spec fn block_slots(sender: Sender<AudioBlock>) -> nat;

/// The blocks that came out of the queue through this end, in order.
pub uninterp spec fn blocks_received(receiver: Receiver<AudioBlock>) -> Seq<AudioBlock>;

/// The blocks that this end tried to put into the queue, in order, whether or not they went
/// in.
pub uninterp spec fn blocks_offered(sender: Sender<AudioBlock>) -> Seq<AudioBlock>;

/// How many of the blocks that went in this end knew to have been taken out, after each
/// time that it tried to put one in.
pub uninterp spec fn blocks_known_gone(sender: Sender<AudioBlock>) -> Seq<nat>;

/// The last of what was known.
pub open spec fn last_known(known: Seq<nat>) -> nat {
    if known.len() == 0 {
        0
    } else {
        known.last()
    }
}

/// How many times this end looked for a block.
pub uninterp spec fn block_looks(receiver: Receiver<AudioBlock>) -> nat;

/// All the blocks that ever go into the queue of this end, in order: those that went in
/// so far, and those that will.
pub uninterp spec fn block_stream(sender: Sender<AudioBlock>) -> Seq<AudioBlock>;

/// The same of the end that gives them out.
pub uninterp spec fn block_source(receiver: Receiver<AudioBlock>) -> Seq<AudioBlock>;

/// `HeapRb::new` and `Split::split`: the two ends of an empty queue for `slots`
/// blocks. A queue for no block at all is refused by a panic, as is one that memory
/// cannot hold.
#[verifier::external_body]
pub(crate) fn block_queue(slots: usize) -> (ends: (Sender<AudioBlock>, Receiver<AudioBlock>))
    requires
        0 < slots <= MAX_SLOTS,
    ensures
        blocks_offered(ends.0) == Seq::<AudioBlock>::empty(),
        blocks_known_gone(ends.0) == Seq::<nat>::empty(),
        blocks_sent(ends.0) == Seq::<AudioBlock>::empty(),
        block_slots(ends.0) == slots,
        blocks_received(ends.1) == Seq::<AudioBlock>::empty(),
        block_looks(ends.1) == 0,
        block_source(ends.1) == block_stream(ends.0),
{
    let (sender, receiver) = HeapRb::new(slots).split();
    (Sender { ring: sender }, Receiver { ring: receiver })
}

/// `Producer::try_push`: a block either goes in or is handed back. It is handed back
/// exactly if the queue is full: as many blocks as it has slots were not taken out yet.
#[verifier::external_body]
pub(crate) fn send_block(sender: &mut Sender<AudioBlock>, block: AudioBlock) -> (result: Result<
    (),
    AudioBlock,
>)
    ensures
        blocks_offered(*final(sender)) == blocks_offered(*old(sender)).push(block),
        blocks_known_gone(*final(sender)).len() > 0,
        blocks_known_gone(*final(sender)).drop_last() == blocks_known_gone(*old(sender)),
        last_known(blocks_known_gone(*old(sender))) <= last_known(blocks_known_gone(*final(sender))),
        last_known(blocks_known_gone(*final(sender))) <= blocks_sent(*old(sender)).len(),
        result is Ok <==> blocks_sent(*old(sender)).len() < block_slots(*old(sender))
            + last_known(blocks_known_gone(*final(sender))),
        block_slots(*final(sender)) == block_slots(*old(sender)),
        block_stream(*final(sender)) == block_stream(*old(sender)),
        blocks_sent(*final(sender)).is_prefix_of(block_stream(*final(sender))),
        result is Ok ==> blocks_sent(*final(sender)) == blocks_sent(*old(sender)).push(block),
        result matches Err(rejected) ==> {
            &&& rejected == block
            &&& blocks_sent(*final(sender)) == blocks_sent(*old(sender))
        },
{
    sender.ring.try_push(block)
}

/// `Consumer::try_pop`: takes the oldest block out, if there is one, so
/// that blocks come out in the order in which they went in.
#[verifier::external_body]
pub(crate) fn receive_block(receiver: &mut Receiver<AudioBlock>) -> (block: Option<AudioBlock>)
    ensures
        block_looks(*final(receiver)) == block_looks(*old(receiver)) + 1,
        block_source(*final(receiver)) == block_source(*old(receiver)),
        blocks_received(*final(receiver)).is_prefix_of(block_source(*final(receiver))),
        block matches Some(block) ==> blocks_received(*final(receiver)) == blocks_received(
            *old(receiver),
        ).push(block),
        block is None ==> blocks_received(*final(receiver)) == blocks_received(*old(receiver)),
{
    receiver.ring.try_pop()
}

/// The results that went into the queue through this end, in order.
pub uninterp spec fn snapshots_sent(sender: Sender<AnalysisSnapshot>) -> Seq<AnalysisSnapshot>;

/// How many results the queue holds at most.
pub uninterp spec fn snapshot_slots(sender: Sender<AnalysisSnapshot>) -> nat;

/// The results that came out of the queue through this end, in order.
pub uninterp spec fn snapshots_received(receiver: Receiver<AnalysisSnapshot>) -> Seq<
    AnalysisSnapshot,
>;

/// How many of the results that this end last counted it has not taken out yet. No
/// other end takes results out, so these are certainly there.
pub uninterp spec fn snapshots_ready(receiver: Receiver<AnalysisSnapshot>) -> nat;

/// The results that this end tried to put into the queue, in order, whether or not they went
/// in.
pub uninterp spec fn snapshots_offered(sender: Sender<AnalysisSnapshot>) -> Seq<AnalysisSnapshot>;

/// How many of the results that went in this end knows to have been taken out. No more than
/// the queue has slots are there besides.
pub uninterp spec fn snapshots_gone(sender: Sender<AnalysisSnapshot>) -> nat;

/// All the results that ever go into the queue of this end, in order: those that went in
/// so far, and those that will.
pub uninterp spec fn snapshot_stream(sender: Sender<AnalysisSnapshot>) -> Seq<AnalysisSnapshot>;

/// The same of the end that gives them out.
pub uninterp spec fn snapshot_source(receiver: Receiver<AnalysisSnapshot>) -> Seq<AnalysisSnapshot>;

/// `HeapRb::new` and `Split::split`: the two ends of an empty queue for `slots`
/// results. A queue for no result at all is refused by a panic, as is one that memory
/// cannot hold.
#[verifier::external_body]
pub(crate) fn snapshot_queue(slots: usize) -> (ends: (
    Sender<AnalysisSnapshot>,
    Receiver<AnalysisSnapshot>,
))
    requires
        0 < slots <= MAX_SLOTS,
    ensures
        snapshot_counts(ends.1) == Seq::<usize>::empty(),
        snapshots_offered(ends.0) == Seq::<AnalysisSnapshot>::empty(),
        snapshots_gone(ends.0) == 0,
        snapshots_sent(ends.0) == Seq::<AnalysisSnapshot>::empty(),
        snapshot_slots(ends.0) == slots,
        snapshots_received(ends.1) == Seq::<AnalysisSnapshot>::empty(),
        snapshot_source(ends.1) == snapshot_stream(ends.0),
        snapshots_ready(ends.1) == 0,
{
    let (sender, receiver) = HeapRb::new(slots).split();
    (Sender { ring: sender }, Receiver { ring: receiver })
}

/// `Producer::try_push`: a result either goes in or is handed back. It is handed back
/// exactly if the queue is full: as many results as it has slots were not taken out yet.
#[verifier::external_body]
pub(crate) fn send_snapshot(
    sender: &mut Sender<AnalysisSnapshot>,
    snapshot: AnalysisSnapshot,
) -> (result: Result<(), AnalysisSnapshot>)
    ensures
        snapshots_offered(*final(sender)) == snapshots_offered(*old(sender)).push(snapshot),
        snapshots_gone(*old(sender)) <= snapshots_gone(*final(sender)),
        result is Ok <==> snapshots_sent(*old(sender)).len() < snapshot_slots(*old(sender))
            + snapshots_gone(*final(sender)),
        snapshots_gone(*final(sender)) <= snapshots_sent(*old(sender)).len(),
        snapshot_slots(*final(sender)) == snapshot_slots(*old(sender)),
        snapshot_stream(*final(sender)) == snapshot_stream(*old(sender)),
        snapshots_sent(*final(sender)).is_prefix_of(snapshot_stream(*final(sender))),
        result is Ok ==> snapshots_sent(*final(sender)) == snapshots_sent(*old(sender)).push(
            snapshot,
        ),
        result matches Err(rejected) ==> {
            &&& rejected == snapshot
            &&& snapshots_sent(*final(sender)) == snapshots_sent(*old(sender))
        },
{
    sender.ring.try_push(snapshot)
}

/// `Consumer::try_pop`: takes the oldest result out, if there is one, as there is
/// while results that were counted have not all been taken out. So results come out in
/// the order in which they went in.
#[verifier::external_body]
pub(crate) fn receive_snapshot(receiver: &mut Receiver<AnalysisSnapshot>) -> (snapshot: Option<
    AnalysisSnapshot,
>)
    ensures
        snapshot_counts(*final(receiver)) == snapshot_counts(*old(receiver)),
        snapshot_source(*final(receiver)) == snapshot_source(*old(receiver)),
        snapshots_received(*final(receiver)).is_prefix_of(snapshot_source(*final(receiver))),
        snapshot matches Some(snapshot) ==> {
            &&& snapshots_received(*final(receiver)) == snapshots_received(*old(receiver)).push(
                snapshot,
            )
            &&& snapshots_ready(*old(receiver)) > 0 ==> snapshots_ready(*final(receiver))
                == snapshots_ready(*old(receiver)) - 1
        },
        snapshot is None ==> {
            &&& snapshots_received(*final(receiver)) == snapshots_received(*old(receiver))
            &&& snapshots_ready(*old(receiver)) == 0
        },
{
    receiver.ring.try_pop()
}

/// What this end counted, each time that it did.
pub uninterp spec fn snapshot_counts(receiver: Receiver<AnalysisSnapshot>) -> Seq<usize>;

/// `Observer::occupied_len`: counts the results that are waiting. None that was
/// counted before and not taken out since can be missing.
#[verifier::external_body]
pub(crate) fn count_snapshots(receiver: &mut Receiver<AnalysisSnapshot>) -> (count: usize)
    ensures
        snapshot_counts(*final(receiver)) == snapshot_counts(*old(receiver)).push(count),
        snapshot_source(*final(receiver)) == snapshot_source(*old(receiver)),
        snapshots_received(*final(receiver)) == snapshots_received(*old(receiver)),
        snapshots_ready(*final(receiver)) == count,
        count >= snapshots_ready(*old(receiver)),
{
    receiver.ring.occupied_len()
}

/// How many requests went into the queue through this end.
pub uninterp spec fn requests_sent(sender: Sender<()>) -> nat;

/// How many requests the queue holds at most.
pub uninterp spec fn request_slots(sender: Sender<()>) -> nat;

/// How many requests came out of the queue through this end.
pub uninterp spec fn requests_received(receiver: Receiver<()>) -> nat;

/// How many times this end tried to put a request into the queue.
pub uninterp spec fn requests_offered(sender: Sender<()>) -> nat;

/// How many of the requests that went in this end knows to have been taken out. No more
/// than the queue has slots are there besides.
pub uninterp spec fn requests_gone(sender: Sender<()>) -> nat;

/// How many times this end looked for a request.
pub uninterp spec fn request_looks(receiver: Receiver<()>) -> nat;

/// How many requests ever go into the queue of this end.
pub uninterp spec fn request_stream(sender: Sender<()>) -> nat;

/// The same of the end that gives them out.
pub uninterp spec fn request_source(receiver: Receiver<()>) -> nat;

/// `HeapRb::new` and `Split::split`: the two ends of an empty queue for `slots`
/// requests. A queue for no request at all is refused by a panic.
#[verifier::external_body]
pub(crate) fn request_queue(slots: usize) -> (ends: (Sender<()>, Receiver<()>))
    requires
        0 < slots <= MAX_SLOTS,
    ensures
        requests_offered(ends.0) == 0,
        requests_gone(ends.0) == 0,
        requests_sent(ends.0) == 0,
        request_slots(ends.0) == slots,
        requests_received(ends.1) == 0,
        request_looks(ends.1) == 0,
        request_source(ends.1) == request_stream(ends.0),
{
    let (sender, receiver) = HeapRb::new(slots).split();
    (Sender { ring: sender }, Receiver { ring: receiver })
}

/// `Producer::try_push`: says whether the request went in. It does not exactly if the
/// queue is full: as many requests as it has slots were not taken out yet.
#[verifier::external_body]
pub(crate) fn send_request(sender: &mut Sender<()>) -> (sent: bool)
    ensures
        requests_offered(*final(sender)) == requests_offered(*old(sender)) + 1,
        requests_gone(*old(sender)) <= requests_gone(*final(sender)),
        sent <==> requests_sent(*old(sender)) < request_slots(*old(sender)) + requests_gone(
            *final(sender),
        ),
        requests_gone(*final(sender)) <= requests_sent(*old(sender)),
        request_slots(*final(sender)) == request_slots(*old(sender)),
        request_stream(*final(sender)) == request_stream(*old(sender)),
        requests_sent(*final(sender)) <= request_stream(*final(sender)),
        sent ==> requests_sent(*final(sender)) == requests_sent(*old(sender)) + 1,
        !sent ==> requests_sent(*final(sender)) == requests_sent(*old(sender)),
{
    sender.ring.try_push(()).is_ok()
}

/// `Consumer::try_pop`: takes a request out, if there is one, and says whether there
/// was.
#[verifier::external_body]
pub(crate) fn receive_request(receiver: &mut Receiver<()>) -> (taken: bool)
    ensures
        request_looks(*final(receiver)) == request_looks(*old(receiver)) + 1,
        request_source(*final(receiver)) == request_source(*old(receiver)),
        requests_received(*final(receiver)) <= request_source(*final(receiver)),
        taken ==> requests_received(*final(receiver)) == requests_received(*old(receiver)) + 1,
        !taken ==> requests_received(*final(receiver)) == requests_received(*old(receiver)),
{
    receiver.ring.try_pop().is_some()
}

/// The events that went into the queue through this end, in order.
pub uninterp spec fn events_sent(sender: Sender<Event>) -> Seq<Event>;

/// How many events the queue holds at most.
pub uninterp spec fn event_slots(sender: Sender<Event>) -> nat;

/// The events that came out of the queue through this end, in order.
pub uninterp spec fn events_received(receiver: Receiver<Event>) -> Seq<Event>;

/// How many of the events that this end last counted it has not taken out yet. No
/// other end takes events out, so these are certainly there.
pub uninterp spec fn events_ready(receiver: Receiver<Event>) -> nat;

/// The events that this end tried to put into the queue, in order, whether or not they went
/// in.
pub uninterp spec fn events_offered(sender: Sender<Event>) -> Seq<Event>;

/// How many of the events that went in this end knows to have been taken out. No more than
/// the queue has slots are there besides.
pub uninterp spec fn events_gone(sender: Sender<Event>) -> nat;

/// All the events that ever go into the queue of this end, in order: those that went in
/// so far, and those that will.
pub uninterp spec fn event_stream(sender: Sender<Event>) -> Seq<Event>;

/// The same of the end that gives them out.
pub uninterp spec fn event_source(receiver: Receiver<Event>) -> Seq<Event>;

/// `HeapRb::new` and `Split::split`: the two ends of an empty queue for `slots`
/// events. A queue for no event at all is refused by a panic, as is one that memory
/// cannot hold.
#[verifier::external_body]
pub(crate) fn event_queue(slots: usize) -> (ends: (Sender<Event>, Receiver<Event>))
    requires
        0 < slots <= MAX_SLOTS,
    ensures
        event_counts(ends.1) == Seq::<usize>::empty(),
        events_offered(ends.0) == Seq::<Event>::empty(),
        events_gone(ends.0) == 0,
        events_sent(ends.0) == Seq::<Event>::empty(),
        event_slots(ends.0) == slots,
        events_received(ends.1) == Seq::<Event>::empty(),
        event_source(ends.1) == event_stream(ends.0),
        events_ready(ends.1) == 0,
{
    let (sender, receiver) = HeapRb::new(slots).split();
    (Sender { ring: sender }, Receiver { ring: receiver })
}

/// `Producer::try_push`: an event either goes in or is handed back. It is handed back
/// exactly if the queue is full: as many events as it has slots were not taken out yet.
#[verifier::external_body]
pub(crate) fn send_event(sender: &mut Sender<Event>, event: Event) -> (result: Result<(), Event>)
    ensures
        events_offered(*final(sender)) == events_offered(*old(sender)).push(event),
        events_gone(*old(sender)) <= events_gone(*final(sender)),
        result is Ok <==> events_sent(*old(sender)).len() < event_slots(*old(sender))
            + events_gone(*final(sender)),
        events_gone(*final(sender)) <= events_sent(*old(sender)).len(),
        event_slots(*final(sender)) == event_slots(*old(sender)),
        event_stream(*final(sender)) == event_stream(*old(sender)),
        events_sent(*final(sender)).is_prefix_of(event_stream(*final(sender))),
        result is Ok ==> events_sent(*final(sender)) == events_sent(*old(sender)).push(event),
        result matches Err(rejected) ==> {
            &&& rejected == event
            &&& events_sent(*final(sender)) == events_sent(*old(sender))
        },
{
    sender.ring.try_push(event)
}

/// `Consumer::try_pop`: takes the oldest event out, if there is one, as there is while
/// events that were counted have not all been taken out. So events come out in the
/// order in which they went in.
#[verifier::external_body]
pub(crate) fn receive_event(receiver: &mut Receiver<Event>) -> (event: Option<Event>)
    ensures
        event_counts(*final(receiver)) == event_counts(*old(receiver)),
        event_source(*final(receiver)) == event_source(*old(receiver)),
        events_received(*final(receiver)).is_prefix_of(event_source(*final(receiver))),
        event matches Some(event) ==> {
            &&& events_received(*final(receiver)) == events_received(*old(receiver)).push(event)
            &&& events_ready(*old(receiver)) > 0 ==> events_ready(*final(receiver))
                == events_ready(*old(receiver)) - 1
        },
        event is None ==> {
            &&& events_received(*final(receiver)) == events_received(*old(receiver))
            &&& events_ready(*old(receiver)) == 0
        },
{
    receiver.ring.try_pop()
}

/// What this end counted, each time that it did.
pub uninterp spec fn event_counts(receiver: Receiver<Event>) -> Seq<usize>;

/// `Observer::occupied_len`: counts the events that are waiting. None that was counted
/// before and not taken out since can be missing.
#[verifier::external_body]
pub(crate) fn count_events(receiver: &mut Receiver<Event>) -> (count: usize)
    ensures
        event_counts(*final(receiver)) == event_counts(*old(receiver)).push(count),
        event_source(*final(receiver)) == event_source(*old(receiver)),
        events_received(*final(receiver)) == events_received(*old(receiver)),
        events_ready(*final(receiver)) == count,
        count >= events_ready(*old(receiver)),
{
    receiver.ring.occupied_len()
}

} // verus!
