//! The state of the connection: what the display asks for, and how the thread that
//! owns the input answers.
use vstd::prelude::*;

use crate::model::{no_stats, AnalysisSnapshot, ChannelRoute, RuntimeStats, StatsView};
use crate::pipeline::{AnalysisReader, AnalysisTask, AnalyzerRuntime};
use crate::queue::{
    count_events, event_counts, event_queue, event_slots, event_source, event_stream, events_gone,
    events_offered, events_ready, events_received, events_sent, receive_event, receive_request,
    request_looks, request_queue, request_slots, request_source, request_stream, requests_gone,
    requests_offered, requests_received, requests_sent, send_event, send_request, Receiver,
    Sender,
};
use crate::shared::{flag, FlagWatch, Switch};
use crate::source::{AudioInfo, InputSource, OpenedSource};
use crate::text::decimal;

verus! {

#[derive(Debug, Eq)]
pub enum ConnectionState {
    Stopped,
    Starting,
    Running,
    Stopping,
    Failed(String),
}

impl Clone for ConnectionState {
    fn clone(&self) -> (copy: ConnectionState)
        ensures
            copy.same_as(*self),
    {
        match self {
            ConnectionState::Stopped => ConnectionState::Stopped,
            ConnectionState::Starting => ConnectionState::Starting,
            ConnectionState::Running => ConnectionState::Running,
            ConnectionState::Stopping => ConnectionState::Stopping,
            ConnectionState::Failed(message) => ConnectionState::Failed(message.clone()),
        }
    }
}

impl PartialEq for ConnectionState {
    fn eq(&self, other: &ConnectionState) -> (same: bool) {
        match (self, other) {
            (ConnectionState::Stopped, ConnectionState::Stopped) => true,
            (ConnectionState::Starting, ConnectionState::Starting) => true,
            (ConnectionState::Running, ConnectionState::Running) => true,
            (ConnectionState::Stopping, ConnectionState::Stopping) => true,
            (
                ConnectionState::Failed(message),
                ConnectionState::Failed(other_message),
            ) => message.eq(other_message),
            _ => false,
        }
    }
}

impl vstd::std_specs::cmp::PartialEqSpecImpl for ConnectionState {
    open spec fn obeys_eq_spec() -> bool {
        true
    }

    open spec fn eq_spec(&self, other: &ConnectionState) -> bool {
        self.same_as(*other)
    }
}

impl ConnectionState {
    /// The same state, with the same message.
    pub open spec fn same_as(self, other: ConnectionState) -> bool {
        match self {
            ConnectionState::Stopped => other is Stopped,
            ConnectionState::Starting => other is Starting,
            ConnectionState::Running => other is Running,
            ConnectionState::Stopping => other is Stopping,
            ConnectionState::Failed(message) => other matches ConnectionState::Failed(
                other_message,
            ) && message@ == other_message@,
        }
    }

    /// A start can be asked for.
    pub open spec fn startable(self) -> bool {
        self is Stopped || self is Failed
    }

    /// A stop can be asked for.
    pub open spec fn stoppable(self) -> bool {
        self is Starting || self is Running
    }

    pub fn can_start(&self) -> (result: bool)
        ensures
            result == self.startable(),
    {
        matches!(self, ConnectionState::Stopped | ConnectionState::Failed(_))
    }

    pub fn can_stop(&self) -> (result: bool)
        ensures
            result == self.stoppable(),
    {
        matches!(self, ConnectionState::Starting | ConnectionState::Running)
    }
}

/// What the display holds of a running session.
pub struct SessionView {
    pub info: AudioInfo,
    pub reader: AnalysisReader,
    pub stats: StatsView,
}

/// What the thread that owns the input has to say.
pub enum Event {
    Started(SessionView),
    Stopped,
    Failed(String),
}

/// The connection as the display knows it.
pub struct Connection {
    pub state: ConnectionState,
    pub session: Option<SessionView>,
}

impl Connection {
    /// There is a session exactly while the connection is running.
    pub open spec fn wf(self) -> bool {
        self.session is Some <==> self.state is Running
    }

    /// What an event makes of the connection. While the connection is being stopped, a
    /// session that was started before is not taken up any more, and a failure counts
    /// as the stop.
    pub open spec fn after(self, event: Event) -> Connection {
        match event {
            Event::Started(session) => if self.state is Stopping {
                self
            } else {
                Connection { state: ConnectionState::Running, session: Some(session) }
            },
            Event::Stopped => Connection { state: ConnectionState::Stopped, session: None },
            Event::Failed(error) => Connection {
                state: if self.state is Stopping {
                    ConnectionState::Stopped
                } else {
                    ConnectionState::Failed(error)
                },
                session: None,
            },
        }
    }

    /// What a run of events makes of the connection.
    pub open spec fn after_all(self, events: Seq<Event>) -> Connection
        decreases events.len(),
    {
        if events.len() == 0 {
            self
        } else {
            self.after_all(events.drop_last()).after(events.last())
        }
    }

    /// Takes one event in.
    pub fn handle(&mut self, event: Event)
        ensures
            *final(self) == old(self).after(event),
    {
        let stopping: bool = matches!(self.state, ConnectionState::Stopping);
        match event {
            Event::Started(session) => {
                if !stopping {
                    self.session = Some(session);
                    self.state = ConnectionState::Running;
                }
            },
            Event::Stopped => {
                self.session = None;
                self.state = ConnectionState::Stopped;
            },
            Event::Failed(error) => {
                self.session = None;
                self.state =
                if stopping {
                    ConnectionState::Stopped
                } else {
                    ConnectionState::Failed(error)
                };
            },
        }
    }
}

/// What two runs of events make of a connection is what both in one make of it.
proof fn after_both(connection: Connection, first: Seq<Event>, second: Seq<Event>)
    ensures
        connection.after_all(first + second) == connection.after_all(first).after_all(second),
    decreases second.len(),
{
    if second.len() == 0 {
        assert(first + second =~= first);
    } else {
        after_both(connection, first, second.drop_last());
        assert((first + second).drop_last() =~= first + second.drop_last());
    }
}

/// The sum of what was counted.
pub open spec fn total_of(counts: Seq<usize>) -> int
    decreases counts.len(),
{
    if counts.len() == 0 {
        0
    } else {
        total_of(counts.drop_last()) + counts.last()
    }
}

/// Whatever events arrive, there is a session exactly while the connection is running.
pub proof fn events_keep_the_session_with_the_state(connection: Connection, events: Seq<Event>)
    requires
        connection.wf(),
    ensures
        connection.after_all(events).wf(),
    decreases events.len(),
{
    if events.len() > 0 {
        events_keep_the_session_with_the_state(connection, events.drop_last());
    }
}

/// A connection that is being stopped is not revived: no event brings its session back
/// or makes it fail, and it stops with the first word that the session has ended.
pub proof fn no_event_revives_a_connection_that_stops(connection: Connection, event: Event)
    requires
        connection.wf(),
        connection.state is Stopping,
    ensures
        connection.after(event).session is None,
        connection.after(event).state is Stopping || connection.after(event).state is Stopped,
        connection.after(event).state is Stopped <==> !(event is Started),
{
}

/// Starts that were announced before a stop was asked for leave the connection
/// stopping, however many there are.
pub proof fn late_starts_are_ignored(connection: Connection, events: Seq<Event>)
    requires
        connection.wf(),
        connection.state is Stopping,
        forall|i: int| 0 <= i < events.len() ==> (#[trigger] events[i]) is Started,
    ensures
        connection.after_all(events) == connection,
    decreases events.len(),
{
    if events.len() > 0 {
        let earlier = events.drop_last();
        assert forall|i: int| 0 <= i < earlier.len() implies (#[trigger] earlier[i]) is Started by {
            assert(earlier[i] == events[i]);
        }
        late_starts_are_ignored(connection, earlier);
        assert(events[events.len() - 1] is Started);
    }
}

/// Events are read as they were sent: each event that the display takes in is the one
/// that the thread which owns the input sent at that place.
pub proof fn events_are_read_as_they_were_sent(
    controller: AnalyzerController,
    events: Sender<Event>,
    place: int,
)
    requires
        event_source(controller.events()) == event_stream(events),
        events_sent(events).is_prefix_of(event_stream(events)),
        events_received(controller.events()).is_prefix_of(event_source(controller.events())),
        0 <= place < events_sent(events).len(),
        place < events_received(controller.events()).len(),
    ensures
        events_received(controller.events())[place] == events_sent(events)[place],
{
    assert(events_sent(events)[place] == event_stream(events)[place]);
    assert(events_received(controller.events())[place] == event_source(
        controller.events(),
    )[place]);
}

/// Message for a start that is asked for at the wrong time.
pub open spec fn start_refused() -> Seq<char> {
    "input is already connected or changing state"@
}

/// Message for a start that is asked for while the last one was not taken up yet.
pub open spec fn start_pending() -> Seq<char> {
    "an input start request is already pending"@
}

/// Message for a route that is asked for without an input.
pub open spec fn not_connected() -> Seq<char> {
    "input is not connected"@
}

/// Message for the end of the thread that owns the input.
pub open spec fn worker_gone() -> Seq<char> {
    "control worker exited unexpectedly"@
}

/// The display's side of the connection. None of its operations waits for the input.
pub struct AnalyzerController {
    connection: Connection,
    starts: Sender<()>,
    events: Receiver<Event>,
    switch: Switch,
    asked: Ghost<Seq<ChannelRoute>>,
}

impl AnalyzerController {
    pub closed spec fn connection(self) -> Connection {
        self.connection
    }

    /// The requests to start, as far as this side knows of them.
    pub closed spec fn starts(self) -> Sender<()> {
        self.starts
    }

    /// The events, as far as this side knows of them.
    pub closed spec fn events(self) -> Receiver<Event> {
        self.events
    }

    /// All the values of the flag that tells the thread which owns the input to give up.
    pub closed spec fn flag(self) -> Seq<bool> {
        self.switch.values()
    }

    /// What this side set the flag to so far.
    pub closed spec fn told(self) -> Seq<bool> {
        self.switch.told()
    }

    /// The routes that were asked for so far, granted or not.
    pub closed spec fn asked(self) -> Seq<ChannelRoute> {
        self.asked@
    }

    /// Nothing else has changed than the connection and the events taken in.
    pub open spec fn same_links(self, before: AnalyzerController) -> bool {
        &&& self.starts() == before.starts()
        &&& self.flag() == before.flag()
        &&& self.told() == before.told()
        &&& self.asked() == before.asked()
    }

    /// The two sides of a connection to the inputs of `source`. The second is for the
    /// thread that owns the input.
    pub fn with_source<S: InputSource>(source: S) -> (sides: (AnalyzerController, ControlPort<S>))
        ensures
            sides.0.connection() == (Connection {
                state: ConnectionState::Stopped,
                session: None,
            }),
            requests_sent(sides.0.starts()) == 0,
            request_slots(sides.0.starts()) == 1,
            events_received(sides.0.events()) == Seq::<Event>::empty(),
            sides.0.asked() == Seq::<ChannelRoute>::empty(),
            sides.0.told() == Seq::<bool>::empty(),
            sides.1.watch().values() == sides.0.flag(),
            sides.1.watch().place() == 0,
            sides.0.flag().len() > 0,
            !sides.0.flag()[0],
            request_source(sides.1.requests()) == request_stream(sides.0.starts()),
            event_source(sides.0.events()) == event_stream(sides.1.events()),
            events_sent(sides.1.events()) == Seq::<Event>::empty(),
            event_slots(sides.1.events()) == 1,
            requests_received(sides.1.requests()) == 0,
            sides.1.source() == source,
    {
        let (starts, requests) = request_queue(1);
        let (events_out, events) = event_queue(1);
        let (switch, cancelled) = flag();
        let port = ControlPort {
            source,
            requests,
            events: events_out,
            cancelled,
        };
        let connection = Connection { state: ConnectionState::Stopped, session: None };
        let asked: Ghost<Seq<ChannelRoute>> = Ghost(Seq::empty());
        (AnalyzerController { connection, starts, events, switch, asked }, port)
    }

    pub fn state(&self) -> (state: &ConnectionState)
        ensures
            *state == self.connection().state,
    {
        &self.connection.state
    }

    /// What becomes of a request to start that was sent or could not be.
    pub open spec fn answers_start(
        self,
        after: AnalyzerController,
        sent: bool,
        result: Result<(), String>,
    ) -> bool {
        &&& after.same_links(self)
        &&& after.events() == self.events()
        &&& after.connection().session == self.connection().session
        &&& if sent {
            result is Ok && after.connection().state is Starting
        } else {
            &&& result matches Err(message) && message@ == start_pending()
            &&& after.connection() == self.connection()
        }
    }

    /// Takes up whether a request to start was sent.
    pub fn start_requested(&mut self, sent: bool) -> (result: Result<(), String>)
        ensures
            old(self).answers_start(*final(self), sent, result),
    {
        if !sent {
            return Err("an input start request is already pending".to_owned());
        }
        self.connection.state = ConnectionState::Starting;
        Ok(())
    }

    /// Tries to send a request to start. The flag is not to be raised any more then, or the
    /// request could be given up for an earlier stop.
    fn send_start(&mut self) -> (sent: bool)
        requires
            old(self).told().len() > 0,
            !old(self).told().last(),
        ensures
            final(self).connection() == old(self).connection(),
            final(self).events() == old(self).events(),
            final(self).flag() == old(self).flag(),
            final(self).told() == old(self).told(),
            final(self).asked() == old(self).asked(),
            request_slots(final(self).starts()) == request_slots(old(self).starts()),
            request_stream(final(self).starts()) == request_stream(old(self).starts()),
            requests_offered(final(self).starts()) == requests_offered(old(self).starts()) + 1,
            requests_gone(old(self).starts()) <= requests_gone(final(self).starts()),
            sent <==> requests_sent(old(self).starts()) < request_slots(old(self).starts())
                + requests_gone(final(self).starts()),
            requests_sent(final(self).starts()) == requests_sent(old(self).starts()) + (if sent {
                1nat
            } else {
                0nat
            }),
    {
        send_request(&mut self.starts)
    }

    /// Asks for an input. This is refused while one is connected or on its way.
    pub fn start(&mut self) -> (result: Result<(), String>)
        ensures
            final(self).events() == old(self).events(),
            final(self).flag() == old(self).flag(),
            final(self).asked() == old(self).asked(),
            final(self).connection().session == old(self).connection().session,
            request_slots(final(self).starts()) == request_slots(old(self).starts()),
            request_stream(final(self).starts()) == request_stream(old(self).starts()),
            !old(self).connection().state.startable() ==> {
                &&& result matches Err(message) && message@ == start_refused()
                &&& *final(self) == *old(self)
            },
            old(self).connection().state.startable() ==> {
                &&& final(self).told() == old(self).told().push(false)
                &&& result is Ok <==> requests_sent(old(self).starts()) < request_slots(
                    old(self).starts(),
                ) + requests_gone(final(self).starts())
                &&& requests_gone(old(self).starts()) <= requests_gone(final(self).starts())
                &&& requests_offered(final(self).starts()) == requests_offered(
                    old(self).starts(),
                ) + 1
                &&& match result {
                    Ok(_) => {
                        &&& final(self).connection().state is Starting
                        &&& requests_sent(final(self).starts()) == requests_sent(
                            old(self).starts(),
                        ) + 1
                    },
                    Err(message) => {
                        &&& message@ == start_pending()
                        &&& final(self).connection() == old(self).connection()
                        &&& requests_sent(final(self).starts()) == requests_sent(
                            old(self).starts(),
                        )
                    },
                }
            },
            old(self).connection().wf() ==> final(self).connection().wf(),
    {
        if !self.connection.state.can_start() {
            return Err("input is already connected or changing state".to_owned());
        }
        self.switch.set(false);
        let sent: bool = self.send_start();
        self.start_requested(sent)
    }

    /// Gives the input up. Its results are out of reach at once, before it has stopped.
    pub fn stop(&mut self)
        ensures
            final(self).starts() == old(self).starts(),
            final(self).events() == old(self).events(),
            final(self).flag() == old(self).flag(),
            final(self).asked() == old(self).asked(),
            final(self).told() == (if old(self).connection().state.stoppable() {
                old(self).told().push(true)
            } else {
                old(self).told()
            }),
            final(self).connection() == (if old(self).connection().state.stoppable() {
                Connection { state: ConnectionState::Stopping, session: None }
            } else {
                old(self).connection()
            }),
            old(self).connection().wf() ==> final(self).connection().wf(),
    {
        if self.connection.state.can_stop() {
            self.switch.set(true);
            self.connection.session = None;
            self.connection.state = ConnectionState::Stopping;
        }
    }

    /// Tells the thread that owns the input to give up, whatever the state, because the
    /// display is closed.
    pub fn abandon(&mut self)
        ensures
            final(self).told() == old(self).told().push(true),
            final(self).flag() == old(self).flag(),
            final(self).starts() == old(self).starts(),
            final(self).events() == old(self).events(),
            final(self).asked() == old(self).asked(),
            final(self).connection() == old(self).connection(),
    {
        self.switch.set(true);
    }

    /// What taking `batch` in does to the queue.
    pub open spec fn receives(self, after: AnalyzerController, batch: Seq<Event>) -> bool {
        &&& after.same_links(self)
        &&& event_source(after.events()) == event_source(self.events())
        &&& events_received(after.events()) == events_received(self.events()) + batch
        &&& events_received(self.events()).is_prefix_of(event_source(self.events()))
            ==> events_received(after.events()).is_prefix_of(event_source(after.events()))
    }

    /// Takes the `count` events in that were counted to wait.
    pub fn take_events(&mut self, count: usize)
        requires
            events_ready(old(self).events()) == count,
        ensures
            event_counts(final(self).events()) == event_counts(old(self).events()),
            events_ready(final(self).events()) == 0,
            count > 0 ==> events_received(final(self).events()).len() <= event_source(
                final(self).events(),
            ).len(),
            exists|batch: Seq<Event>|
                {
                    &&& #[trigger] old(self).receives(*final(self), batch)
                    &&& batch.len() == count
                    &&& final(self).connection() == old(self).connection().after_all(batch)
                },
    {
        let ghost before = self.connection;
        let ghost received = events_received(old(self).events());
        let ghost mut batch: Seq<Event> = Seq::empty();
        assert(received + batch =~= received);
        for taken in 0..count
            invariant
                batch.len() == taken,
                events_ready(self.events) == count - taken,
                events_received(self.events) == received + batch,
                event_counts(self.events) == event_counts(old(self).events()),
                event_source(self.events) == event_source(old(self).events()),
                received.is_prefix_of(event_source(old(self).events())) ==> events_received(
                    self.events,
                ).is_prefix_of(event_source(self.events)),
                taken > 0 ==> events_received(self.events).len() <= event_source(
                    self.events,
                ).len(),
                self.connection == before.after_all(batch),
                self.same_links(*old(self)),
        {
            if let Some(event) = receive_event(&mut self.events) {
                proof {
                    let longer = batch.push(event);
                    assert(received + longer =~= (received + batch).push(event));
                    assert(longer.drop_last() =~= batch);
                    batch = longer;
                }
                self.connection.handle(event);
            }
        }
        assert(old(self).receives(*self, batch));
    }

    /// What polling does: events are counted and taken in until none is left. If the thread
    /// that owns the input has ended, the connection has failed.
    pub open spec fn polls(
        before: AnalyzerController,
        worker_exited: bool,
        after: AnalyzerController,
    ) -> bool {
        &&& exists|counts: Seq<usize>, batch: Seq<Event>|
            {
                &&& event_counts(after.events()) == #[trigger] (event_counts(before.events())
                    + counts)
                &&& counts.len() > 0 && counts.last() == 0
                &&& batch.len() == total_of(counts)
                &&& #[trigger] before.receives(after, batch)
                &&& !worker_exited ==> after.connection() == before.connection().after_all(batch)
            }
        &&& worker_exited ==> {
            &&& after.connection().session is None
            &&& after.connection().state matches ConnectionState::Failed(message) && message@
                == worker_gone()
        }
    }

    /// Takes events in until none is left. If the thread that owns the input has ended, the
    /// connection has failed.
    pub fn poll(&mut self, worker_exited: bool)
        ensures
            AnalyzerController::polls(*old(self), worker_exited, *final(self)),
            old(self).connection().wf() ==> final(self).connection().wf(),
    {
        let ghost before = *old(self);
        let ghost mut batch: Seq<Event> = Seq::empty();
        let ghost mut counts: Seq<usize> = Seq::empty();
        let mut count: usize = count_events(&mut self.events);
        proof {
            counts = counts.push(count);
            assert(counts.drop_last() =~= Seq::<usize>::empty());
            assert(event_counts(before.events()) + counts =~= event_counts(before.events()).push(
                count,
            ));
            assert(events_received(before.events()) + batch =~= events_received(before.events()));
        }
        while count > 0
            invariant
                events_ready(self.events()) == count,
                event_counts(self.events()) == event_counts(before.events()) + counts,
                counts.len() > 0 && counts.last() == count,
                batch.len() == total_of(counts.drop_last()),
                before.receives(*self, batch),
                self.connection() == before.connection().after_all(batch),
            decreases event_source(self.events()).len() - events_received(self.events()).len(),
        {
            let ghost mid = *self;
            let ghost counted = count;
            self.take_events(count);
            proof {
                let taken = choose|taken: Seq<Event>|
                    {
                        &&& #[trigger] mid.receives(*self, taken)
                        &&& taken.len() == counted
                        &&& self.connection() == mid.connection().after_all(taken)
                    };
                after_both(before.connection(), batch, taken);
                assert(events_received(before.events()) + (batch + taken) =~= (events_received(
                    before.events(),
                ) + batch) + taken);
                batch = batch + taken;
            }
            count = count_events(&mut self.events);
            proof {
                let longer = counts.push(count);
                assert(longer.drop_last() =~= counts);
                assert(event_counts(before.events()) + longer =~= (event_counts(before.events())
                    + counts).push(count));
                counts = longer;
            }
        }
        proof {
            if before.connection().wf() {
                events_keep_the_session_with_the_state(before.connection(), batch);
            }
        }
        if worker_exited {
            self.connection.session = None;
            self.connection.state =
            ConnectionState::Failed("control worker exited unexpectedly".to_owned());
        }
        assert(event_counts(self.events()) == event_counts(before.events()) + counts);
        assert(before.receives(*self, batch));
    }

    /// What is known of the input, while it runs.
    pub fn info(&self) -> (info: Option<&AudioInfo>)
        ensures
            match self.connection().session {
                Some(session) => info == Some(&session.info),
                None => info is None,
            },
    {
        match &self.connection.session {
            Some(session) => Some(&session.info),
            None => None,
        }
    }

    /// The totals of the session, which are nothing without one.
    pub fn stats(&mut self) -> (stats: RuntimeStats)
        ensures
            final(self).same_links(*old(self)),
            final(self).events() == old(self).events(),
            final(self).connection().state == old(self).connection().state,
            match old(self).connection().session {
                Some(before) => final(self).connection().session matches Some(after)
                    && after.info == before.info && after.reader == before.reader
                    && before.stats.shows(after.stats, stats),
                None => stats == no_stats() && final(self).connection().session is None,
            },
    {
        match self.connection.session.as_mut() {
            Some(session) => session.stats.totals(),
            None => RuntimeStats::default(),
        }
    }

    /// There is an input, and it has the channels of the route.
    pub open spec fn accepts_route(self, route: ChannelRoute) -> bool {
        self.connection().session matches Some(session) && route.fits(session.reader.channels())
    }

    /// Why a route is refused.
    pub open spec fn route_rejection(self, route: ChannelRoute) -> Seq<char> {
        match self.connection().session {
            Some(session) => route.rejection(session.reader.channels()),
            None => not_connected(),
        }
    }

    /// What asking for a route does: if it is granted, the session's reader puts it in force,
    /// once; otherwise nothing changes.
    pub open spec fn asks(
        self,
        after: AnalyzerController,
        route: ChannelRoute,
        result: Result<(), String>,
    ) -> bool {
        &&& after.asked() == self.asked().push(route)
        &&& after.starts() == self.starts()
        &&& after.events() == self.events()
        &&& after.flag() == self.flag()
        &&& after.told() == self.told()
        &&& result is Ok <==> self.accepts_route(route)
        &&& match result {
            Ok(_) => {
                &&& after.connection().state == self.connection().state
                &&& self.connection().session matches Some(session)
                    && after.connection().session matches Some(session_after) && {
                    &&& session_after.info == session.info
                    &&& session_after.stats == session.stats
                    &&& session.reader.grants(session_after.reader, route)
                }
            },
            Err(message) => {
                &&& message@ == self.route_rejection(route)
                &&& after.connection() == self.connection()
            },
        }
    }

    /// Replaces the route, if there is an input and it has its channels.
    pub fn set_route(&mut self, route: ChannelRoute) -> (result: Result<(), String>)
        ensures
            old(self).asks(*final(self), route, result),
    {
        self.asked = Ghost(self.asked@.push(route));
        match self.connection.session.as_mut() {
            Some(session) => session.reader.set_route(route),
            None => Err("input is not connected".to_owned()),
        }
    }

    /// The newest result that waits, unless it belongs to a route that was replaced.
    pub fn take_latest(&mut self) -> (latest: Option<AnalysisSnapshot>)
        ensures
            final(self).same_links(*old(self)),
            final(self).events() == old(self).events(),
            final(self).connection().state == old(self).connection().state,
            match old(self).connection().session {
                None => latest is None && final(self).connection().session is None,
                Some(before) => final(self).connection().session matches Some(after)
                    && after.info == before.info && after.stats == before.stats
                    && before.reader.takes_latest(after.reader, latest),
            },
    {
        match self.connection.session.as_mut() {
            Some(session) => session.reader.take_latest(),
            None => None,
        }
    }
}

/// What the thread that owns the input is given. Nothing in it is bound to a thread
/// yet.
pub struct ControlPort<S: InputSource> {
    source: S,
    requests: Receiver<()>,
    events: Sender<Event>,
    cancelled: FlagWatch,
}

impl<S: InputSource> ControlPort<S> {
    pub closed spec fn source(self) -> S {
        self.source
    }

    pub closed spec fn requests(self) -> Receiver<()> {
        self.requests
    }

    pub closed spec fn events(self) -> Sender<Event> {
        self.events
    }

    /// The flag that tells to give the input up.
    pub closed spec fn watch(self) -> FlagWatch {
        self.cancelled
    }
}

/// The side of the connection that owns the input.
pub struct Supervisor<S: InputSource> {
    source: S,
    runtime: Option<AnalyzerRuntime>,
    pending: Option<Event>,
    requests: Receiver<()>,
    events: Sender<Event>,
    cancelled: FlagWatch,
}

impl<S: InputSource> Supervisor<S> {
    pub closed spec fn source(self) -> S {
        self.source
    }

    /// The session that runs.
    pub closed spec fn runtime(self) -> Option<AnalyzerRuntime> {
        self.runtime
    }

    /// The event that could not be sent yet.
    pub closed spec fn pending(self) -> Option<Event> {
        self.pending
    }

    pub closed spec fn requests(self) -> Receiver<()> {
        self.requests
    }

    pub closed spec fn events(self) -> Sender<Event> {
        self.events
    }

    /// The flag that tells to give the input up.
    pub closed spec fn watch(self) -> FlagWatch {
        self.cancelled
    }

    /// The queues and the flag are as they were.
    pub open spec fn same_queues(self, before: Supervisor<S>) -> bool {
        &&& self.requests() == before.requests()
        &&& self.events() == before.events()
        &&& self.watch() == before.watch()
    }

    /// Without a session, on the thread that is to own the input.
    pub fn new(port: ControlPort<S>) -> (supervisor: Supervisor<S>)
        ensures
            supervisor.runtime() is None,
            supervisor.pending() is None,
            supervisor.source() == port.source(),
            supervisor.requests() == port.requests(),
            supervisor.events() == port.events(),
            supervisor.watch() == port.watch(),
    {
        Supervisor {
            source: port.source,
            runtime: None,
            pending: None,
            requests: port.requests,
            events: port.events,
            cancelled: port.cancelled,
        }
    }

    /// Whether the input has been given up.
    pub fn is_cancelled(&mut self) -> (cancelled: bool)
        ensures
            old(self).watch().finds(final(self).watch(), cancelled),
            final(self).runtime() == old(self).runtime(),
            final(self).pending() == old(self).pending(),
            final(self).requests() == old(self).requests(),
            final(self).events() == old(self).events(),
            final(self).source() == old(self).source(),
    {
        self.cancelled.is_set()
    }

    /// Ends the session that runs if the input has been given up, and hands it over, for
    /// its analysis thread to be ended.
    pub fn end_cancelled(&mut self, cancelled: bool) -> (ended: Option<AnalyzerRuntime>)
        ensures
            ended is Some <==> cancelled && old(self).runtime() is Some,
            ended is None ==> *final(self) == *old(self),
            ended matches Some(ended) ==> {
                &&& (old(self).runtime()->0).ends(ended)
                &&& final(self).runtime() is None
                &&& final(self).pending() == Some(Event::Stopped)
                &&& final(self).same_queues(*old(self))
                &&& final(self).source() == old(self).source()
            },
    {
        if !cancelled {
            return None;
        }
        match self.runtime.take() {
            Some(mut runtime) => {
                runtime.stop();
                self.pending = Some(Event::Stopped);
                Some(runtime)
            },
            None => None,
        }
    }

    /// Opens an input if one is requested.
    pub fn open_when(&mut self, requested: bool) -> (opened: Option<
        Result<(AnalyzerRuntime, AnalysisTask), String>,
    >)
        ensures
            final(self).runtime() == old(self).runtime(),
            final(self).pending() == old(self).pending(),
            final(self).requests() == old(self).requests(),
            final(self).events() == old(self).events(),
            opened is Some <==> requested,
            opened is None ==> *final(self) == *old(self),
            opened matches Some(result) ==> AnalyzerRuntime::starts_with(
                old(self).source(),
                final(self).source(),
                old(self).watch(),
                final(self).watch(),
                result,
            ),
    {
        if requested {
            Some(AnalyzerRuntime::start_with(&mut self.source, &mut self.cancelled))
        } else {
            None
        }
    }

    /// Opens an input if one was asked for. What is to run on the analysis thread comes
    /// with the session. Whether one was asked for depends on the display alone.
    pub fn open_requested(&mut self) -> (opened: Option<
        Result<(AnalyzerRuntime, AnalysisTask), String>,
    >)
        ensures
            final(self).runtime() == old(self).runtime(),
            final(self).pending() == old(self).pending(),
            final(self).events() == old(self).events(),
            request_looks(final(self).requests()) == request_looks(old(self).requests()) + 1,
            request_source(final(self).requests()) == request_source(old(self).requests()),
            requests_received(final(self).requests()) <= request_source(final(self).requests()),
            requests_received(final(self).requests()) == requests_received(old(self).requests())
                + (if opened is Some {
                1nat
            } else {
                0nat
            }),
            opened is None ==> final(self).source() == old(self).source() && final(self).watch()
                == old(self).watch(),
            opened matches Some(result) ==> AnalyzerRuntime::starts_with(
                old(self).source(),
                final(self).source(),
                old(self).watch(),
                final(self).watch(),
                result,
            ),
    {
        let requested: bool = receive_request(&mut self.requests);
        self.open_when(requested)
    }

    /// Takes up what opening an input came to, and says whether a session runs now. A
    /// session that was given up meanwhile is ended at once, as is one whose results are
    /// read elsewhere, and one that still ran. It is handed over, for its analysis thread
    /// to be ended.
    pub fn finish_start(
        &mut self,
        cancelled: bool,
        result: Result<AnalyzerRuntime, String>,
    ) -> (outcome: (bool, Option<AnalyzerRuntime>))
        ensures
            final(self).same_queues(*old(self)),
            final(self).source() == old(self).source(),
            outcome.0 <==> !cancelled && result is Ok && (result->Ok_0).reader() is Some,
            !outcome.0 ==> {
                &&& final(self).runtime() == old(self).runtime()
                &&& match result {
                    Ok(started) => outcome.1 matches Some(ended) && started.audio().ends(
                        ended.audio(),
                    ),
                    Err(_) => outcome.1 is None,
                }
                &&& if cancelled {
                    final(self).pending() == Some(Event::Stopped)
                } else {
                    final(self).pending() matches Some(Event::Failed(message)) && match result {
                        Ok(_) => message@ == reader_missing(),
                        Err(error) => message == error,
                    }
                }
            },
            outcome.0 ==> {
                let started = result->Ok_0;
                &&& match old(self).runtime() {
                    Some(previous) => outcome.1 matches Some(ended) && previous.ends(ended),
                    None => outcome.1 is None,
                }
                &&& final(self).runtime() matches Some(runtime) && {
                    &&& runtime.audio() == started.audio()
                    &&& runtime.counters() == started.counters()
                    &&& runtime.reader() is None
                }
                &&& final(self).pending() matches Some(Event::Started(session)) && {
                    &&& session.reader == started.reader()->0
                    &&& session.stats.reads(started.counters())
                    &&& session.shows(started.audio())
                }
            },
    {
        let mut started = match result {
            Ok(started) => started,
            Err(error) => {
                self.pending =
                Some(
                    if cancelled {
                        Event::Stopped
                    } else {
                        Event::Failed(error)
                    },
                );
                return (false, None);
            },
        };
        if cancelled {
            started.stop();
            self.pending = Some(Event::Stopped);
            return (false, Some(started));
        }
        match started.take_reader() {
            Some(reader) => {
                let session = SessionView {
                    info: started.info().clone(),
                    reader,
                    stats: started.shared_stats(),
                };
                let ended = match self.runtime.take() {
                    Some(mut previous) => {
                        previous.stop();
                        Some(previous)
                    },
                    None => None,
                };
                self.runtime = Some(started);
                self.pending = Some(Event::Started(session));
                (true, ended)
            },
            None => {
                started.stop();
                self.pending =
                Some(Event::Failed("result reader can only be transferred once".to_owned()));
                (false, Some(started))
            },
        }
    }

    /// Tries to send the pending event. If the display has not read the last one yet,
    /// it stays pending.
    pub fn publish(&mut self)
        ensures
            final(self).runtime() == old(self).runtime(),
            final(self).requests() == old(self).requests(),
            final(self).watch() == old(self).watch(),
            final(self).source() == old(self).source(),
            event_slots(final(self).events()) == event_slots(old(self).events()),
            event_stream(final(self).events()) == event_stream(old(self).events()),
            events_sent(old(self).events()).is_prefix_of(event_stream(old(self).events()))
                ==> events_sent(final(self).events()).is_prefix_of(
                event_stream(final(self).events()),
            ),
            match old(self).pending() {
                None => final(self).pending() is None && final(self).events() == old(self).events(),
                Some(event) => if events_sent(old(self).events()).len() < event_slots(
                    old(self).events(),
                ) + events_gone(final(self).events()) {
                    &&& final(self).pending() is None
                    &&& events_sent(final(self).events()) == events_sent(old(self).events()).push(
                        event,
                    )
                } else {
                    &&& final(self).pending() == old(self).pending()
                    &&& events_sent(final(self).events()) == events_sent(old(self).events())
                },
            },
            events_gone(old(self).events()) <= events_gone(final(self).events()),
            old(self).pending() matches Some(event) ==> events_offered(final(self).events())
                == events_offered(old(self).events()).push(event),
    {
        if let Some(event) = self.pending.take() {
            self.pending =
            match send_event(&mut self.events, event) {
                Ok(_) => None,
                Err(rejected) => Some(rejected),
            };
        }
    }

    /// Ends the session that runs, and hands it over, for its analysis thread to be ended.
    pub fn shut_down(&mut self) -> (ended: Option<AnalyzerRuntime>)
        ensures
            match old(self).runtime() {
                Some(runtime) => ended matches Some(ended) && runtime.ends(ended),
                None => ended is None,
            },
            final(self).runtime() is None,
            final(self).pending() == old(self).pending(),
            final(self).same_queues(*old(self)),
            final(self).source() == old(self).source(),
    {
        match self.runtime.take() {
            Some(mut runtime) => {
                runtime.stop();
                Some(runtime)
            },
            None => None,
        }
    }
}

/// Message for a session whose results are read elsewhere.
pub open spec fn reader_missing() -> Seq<char> {
    "result reader can only be transferred once"@
}

impl SessionView {
    /// The display is told what the input says of itself.
    pub open spec fn shows(self, audio: OpenedSource) -> bool {
        let info = audio.spec_info();
        &&& self.info.host_name@ == info.host_name@
        &&& self.info.device_name@ == info.device_name@
        &&& self.info.sample_rate == info.sample_rate
        &&& self.info.channels == info.channels
        &&& self.info.initial_route == info.initial_route
    }
}

/// Each event leaves its mark: a session that starts is the one that is held, a failure is
/// shown with its reason, and a stop leaves nothing, except that nothing revives a
/// connection that is being stopped.
pub proof fn each_event_leaves_its_mark(connection: Connection, event: Event)
    ensures
        event matches Event::Started(session) ==> {
            &&& !(connection.state is Stopping) ==> {
                &&& connection.after(event).state is Running
                &&& connection.after(event).session == Some(session)
            }
            &&& connection.state is Stopping ==> connection.after(event) == connection
        },
        event is Stopped ==> {
            &&& connection.after(event).state is Stopped
            &&& connection.after(event).session is None
        },
        event matches Event::Failed(error) ==> {
            &&& connection.after(event).session is None
            &&& connection.state is Stopping ==> connection.after(event).state is Stopped
            &&& !(connection.state is Stopping) ==> connection.after(event).state
                == ConnectionState::Failed(error)
        },
{
}

/// What happened last counts: of a run of events, the state is what the last one makes of
/// the state before.
pub proof fn the_last_event_counts(connection: Connection, events: Seq<Event>, event: Event)
    ensures
        connection.after_all(events.push(event)) == connection.after_all(events).after(event),
        events.len() == 0 ==> connection.after_all(events) == connection,
{
    assert(events.push(event).drop_last() =~= events);
}

/// In each state exactly one thing can be asked for, but for a connection that is being
/// stopped, of which nothing can.
pub proof fn what_can_be_asked_for(state: ConnectionState)
    ensures
        state.startable() <==> state is Stopped || state is Failed,
        state.stoppable() <==> state is Starting || state is Running,
        !(state.startable() && state.stoppable()),
        state is Stopping <==> !state.startable() && !state.stoppable(),
{
}

/// Two states are the same exactly if they are the same variant, and of two failures also
/// the messages.
pub proof fn when_states_are_the_same(a: ConnectionState, b: ConnectionState)
    ensures
        a.same_as(a),
        a.same_as(b) <==> b.same_as(a),
        a matches ConnectionState::Failed(message) ==> (a.same_as(b) <==> (match b {
            ConnectionState::Failed(other) => message@ == other@,
            _ => false,
        })),
        a is Stopped ==> (a.same_as(b) <==> b is Stopped),
        a is Starting ==> (a.same_as(b) <==> b is Starting),
        a is Running ==> (a.same_as(b) <==> b is Running),
        a is Stopping ==> (a.same_as(b) <==> b is Stopping),
{
}

/// A route is granted exactly if there is a session whose input has its channels. A granted
/// one is put in force, once, after all those that were found so far, and a refused one
/// changes nothing of the session.
pub proof fn when_a_route_is_granted(
    before: AnalyzerController,
    after: AnalyzerController,
    route: ChannelRoute,
    result: Result<(), String>,
)
    requires
        before.asks(after, route, result),
    ensures
        result is Ok <==> {
            &&& before.connection().session is Some
            &&& {
                let channels = (before.connection().session->0).reader.control().spec_channels();
                &&& route.measurement < channels
                &&& route.reference matches Some(channel) ==> channel < channels
            }
        },
        result is Ok ==> {
            let control = (before.connection().session->0).reader.control();
            let control_after = (after.connection().session->0).reader.control();
            &&& after.connection().session is Some
            &&& control_after.put() == control.put().push(route)
            &&& control_after.place() > control.place()
            &&& control_after.routes()[control_after.place() as int] == route
        },
        result is Err ==> after.connection() == before.connection(),
        after.asked() == before.asked().push(route),
{
}

/// What polling comes to: the events that were read are taken in, one after the other, and
/// without any the connection stays as it is. If the thread that owns the input has ended,
/// the connection has failed, whatever was read, and there is no session.
pub proof fn what_polling_comes_to(
    before: AnalyzerController,
    worker_exited: bool,
    after: AnalyzerController,
) -> (batch: Seq<Event>)
    requires
        AnalyzerController::polls(before, worker_exited, after),
    ensures
        events_received(after.events()) == events_received(before.events()) + batch,
        !worker_exited ==> after.connection() == before.connection().after_all(batch),
        !worker_exited && batch.len() == 0 ==> after.connection() == before.connection(),
        !worker_exited && batch.len() == 1 ==> after.connection() == before.connection().after(
            batch[0],
        ),
        worker_exited ==> after.connection().session is None && (match after.connection().state {
            ConnectionState::Failed(message) => message@ == "control worker exited unexpectedly"@,
            _ => false,
        }),
        after.starts() == before.starts(),
        after.told() == before.told(),
        after.asked() == before.asked(),
{
    let (counts, batch) = choose|counts: Seq<usize>, batch: Seq<Event>|
        {
            &&& event_counts(after.events()) == #[trigger] (event_counts(before.events()) + counts)
            &&& counts.len() > 0 && counts.last() == 0
            &&& batch.len() == total_of(counts)
            &&& #[trigger] before.receives(after, batch)
            &&& !worker_exited ==> after.connection() == before.connection().after_all(batch)
        };
    if batch.len() == 1 {
        assert(batch.drop_last().len() == 0);
        assert(before.connection().after_all(batch.drop_last()) == before.connection());
    }
    batch
}

/// A request to start that was sent makes the connection start; one that was not changes
/// nothing and says why. The session is left alone either way.
pub proof fn what_a_request_to_start_comes_to(
    before: AnalyzerController,
    after: AnalyzerController,
    sent: bool,
    result: Result<(), String>,
)
    requires
        before.answers_start(after, sent, result),
    ensures
        result is Ok <==> sent,
        sent ==> after.connection().state is Starting,
        !sent ==> after.connection().state == before.connection().state,
        result matches Err(message) ==> message@ == "an input start request is already pending"@,
        after.connection().session == before.connection().session,
        after.events() == before.events(),
        after.told() == before.told(),
{
}

/// Why a route is refused: there is no input, or it lacks a channel of the route, of which the
/// measured one is named first.
pub proof fn why_a_route_is_refused(
    before: AnalyzerController,
    after: AnalyzerController,
    route: ChannelRoute,
    message: String,
)
    requires
        before.asks(after, route, Err(message)),
        route.measurement < usize::MAX,
    ensures
        before.connection().session is None ==> message@ == "input is not connected"@,
        before.connection().session matches Some(session) ==> ({
            let channels = session.reader.control().spec_channels();
            &&& route.measurement >= channels ==> message@ == "Measurement channel "@ + decimal(
                (route.measurement + 1) as nat,
            ) + " is outside the "@ + decimal(channels as nat) + " available channels"@
            &&& route.measurement < channels ==> message@ == "Reference channel is outside the "@
                + decimal(channels as nat) + " available channels"@
        }),
{
}

/// The display is told what the input says of itself, word for word.
pub proof fn a_session_is_shown_as_the_input_describes_itself(
    session: SessionView,
    audio: OpenedSource,
)
    requires
        session.shows(audio),
    ensures
        session.info.host_name@ == audio.spec_info().host_name@,
        session.info.device_name@ == audio.spec_info().device_name@,
        session.info.sample_rate == audio.spec_info().sample_rate,
        session.info.channels == audio.spec_info().channels,
        session.info.initial_route.measurement == audio.spec_info().initial_route.measurement,
        session.info.initial_route.reference == audio.spec_info().initial_route.reference,
{
}

} // verus!
