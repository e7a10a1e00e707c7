//! Words and flags that several threads hold.
//!
//! An atomic cell has one order in which its values follow one another, the same for
//! every thread. Each owner of a cell holds an end of its own, which is described by its
//! own past: what it put into the cell, how many times it looked, and which of the values
//! it came across last. An end never finds a value that is older than one it put or found
//! before.
//!
//! The cells are closed in: nothing but the functions here reads or writes them.
use std::sync::atomic::{AtomicBool, AtomicU64, Ordering};
use std::sync::Arc;

use vstd::prelude::*;

use crate::model::{
    packed_word, packed_word_splits, republished, word_generation, word_route, ChannelRoute,
    RouteControl,
};

verus! {

/// An end of the cell that holds the route in force, through which the route is replaced.
/// It keeps the number of channels that it was made for.
#[verifier::external_body]
#[allow(dead_code)]
pub struct RouteWriter {
    cell: Arc<AtomicU64>,
    channels: usize,
}

/// An end of that cell through which the route is only looked up.
#[verifier::external_body]
pub struct RouteReader {
    cell: Arc<AtomicU64>,
}

/// All the routes that are ever in force in the cell of this end, in order.
pub uninterp spec fn routes_written(end: RouteWriter) -> Seq<ChannelRoute>;

/// The place among them of the newest route that this end put or found.
pub uninterp spec fn place_written(end: RouteWriter) -> nat;

/// The routes that this end put in force, in order.
pub uninterp spec fn routes_put(end: RouteWriter) -> Seq<ChannelRoute>;

/// How many channels the input has whose routes the cell holds.
pub uninterp spec fn channels_written(end: RouteWriter) -> usize;

/// How many times the route was looked up through this end.
pub uninterp spec fn looks_written(end: RouteWriter) -> nat;

/// Who this end is. Of two ends neither is what the other is called with more behind it.
pub uninterp spec fn writer_name(end: RouteWriter) -> Seq<bool>;

/// Who put each of the routes of the cell in force, as it was called then.
pub uninterp spec fn writers_named(end: RouteWriter) -> Seq<Seq<bool>>;

/// There is no other end through which the route is replaced.
pub uninterp spec fn is_sole_writer(end: RouteWriter) -> bool;

/// All the routes that are ever in force in the cell of this end, in order.
pub uninterp spec fn routes_read(end: RouteReader) -> Seq<ChannelRoute>;

/// The place among them of the newest route that this end found.
pub uninterp spec fn place_read(end: RouteReader) -> nat;

/// How many times the route was looked up through this end.
pub uninterp spec fn looks_read(end: RouteReader) -> nat;

/// How many channels the input has whose routes the cell holds.
pub uninterp spec fn channels_read(end: RouteReader) -> usize;

/// The generation of the route at `place`: how many were replaced before it, modulo 2 to
/// the 32.
pub open spec fn generation_at(place: nat) -> u64 {
    (place % 0x1_0000_0000) as u64
}

/// The route at `place`.
pub open spec fn route_at(routes: Seq<ChannelRoute>, place: nat) -> ChannelRoute {
    routes[place as int]
}

/// Who put the route at `place` in force.
pub open spec fn name_at(names: Seq<Seq<bool>>, place: nat) -> Seq<bool> {
    names[place as int]
}

/// The word that stands for the route at `place`.
pub open spec fn word_at(routes: Seq<ChannelRoute>, place: nat) -> int {
    packed_word(route_at(routes, place), generation_at(place))
}

/// Such a word gives back the route and its generation.
proof fn word_at_splits(routes: Seq<ChannelRoute>, place: nat, word: u64)
    requires
        word == word_at(routes, place),
        route_at(routes, place).packable(),
    ensures
        word_route(word) == route_at(routes, place),
        word_generation(word) == generation_at(place),
{
    packed_word_splits(route_at(routes, place), generation_at(place), word);
}

/// `AtomicU64::new`: the first word of the cell is `word`, and this is the only end of it.
#[verifier::external_body]
fn new_route_cell(word: u64, channels: usize) -> (end: RouteWriter)
    requires
        word_generation(word) == 0,
        word_route(word).fits(channels),
        channels <= 0xffff,
    ensures
        looks_written(end) == 0,
        routes_written(end).len() > 0,
        routes_written(end)[0] == word_route(word),
        place_written(end) == 0,
        routes_put(end) == Seq::<ChannelRoute>::empty(),
        channels_written(end) == channels,
        writer_name(end) == Seq::<bool>::empty(),
        is_sole_writer(end),
{
    RouteWriter { cell: Arc::new(AtomicU64::new(word)), channels }
}

/// A `RouteControl` that several threads hold: the display replaces the route, the
/// capture callback and the readers of results look it up. Every route in it has
/// channels of the same input.
pub struct SharedRoute {
    end: RouteWriter,
    channels: usize,
}

/// The side of the capture callback, which only looks the route up.
pub struct RouteWatch {
    end: RouteReader,
}

/// `Arc::clone`: another end of the same cell, with the same knowledge of it. Neither is
/// the only one through which the route is replaced, and they are told apart by how they
/// are called from now on.
#[verifier::external_body]
fn share_route_cell(control: &mut SharedRoute) -> (other: RouteWriter)
    ensures
        looks_written(final(control).end) == looks_written(old(control).end),
        looks_written(other) == 0,
        final(control).channels == old(control).channels,
        routes_written(final(control).end) == routes_written(old(control).end),
        place_written(final(control).end) == place_written(old(control).end),
        routes_put(final(control).end) == routes_put(old(control).end),
        channels_written(final(control).end) == channels_written(old(control).end),
        routes_written(other) == routes_written(old(control).end),
        place_written(other) == place_written(old(control).end),
        routes_put(other) == Seq::<ChannelRoute>::empty(),
        channels_written(other) == channels_written(old(control).end),
        writers_named(final(control).end) == writers_named(old(control).end),
        writers_named(other) == writers_named(old(control).end),
        writer_name(final(control).end) == writer_name(old(control).end).push(false),
        writer_name(other) == writer_name(old(control).end).push(true),
        !is_sole_writer(final(control).end),
        !is_sole_writer(other),
{
    RouteWriter { cell: Arc::clone(&control.end.cell), channels: control.end.channels }
}

/// `Arc::clone`: an end of the same cell, with the same knowledge of it, through which
/// nothing is replaced.
#[verifier::external_body]
fn watch_route_cell(end: &RouteWriter) -> (watch: RouteReader)
    ensures
        looks_read(watch) == 0,
        routes_read(watch) == routes_written(*end),
        place_read(watch) == place_written(*end),
        channels_read(watch) == channels_written(*end),
{
    RouteReader { cell: Arc::clone(&end.cell) }
}

/// `AtomicU64::load`: the word of a route that is not older than those which this end came
/// across before. Its channels are among those of the input, since no other route is ever
/// put into the cell. If nobody else replaces the route, it is the one that this end came
/// across last.
#[verifier::external_body]
fn load_route_cell(control: &mut SharedRoute) -> (word: u64)
    ensures
        looks_written(final(control).end) == looks_written(old(control).end) + 1,
        final(control).channels == old(control).channels,
        routes_written(final(control).end) == routes_written(old(control).end),
        routes_put(final(control).end) == routes_put(old(control).end),
        channels_written(final(control).end) == channels_written(old(control).end),
        writer_name(final(control).end) == writer_name(old(control).end),
        writers_named(final(control).end) == writers_named(old(control).end),
        is_sole_writer(final(control).end) == is_sole_writer(old(control).end),
        place_written(old(control).end) <= place_written(final(control).end),
        place_written(final(control).end) < routes_written(old(control).end).len(),
        is_sole_writer(old(control).end) ==> place_written(final(control).end) == place_written(
            old(control).end,
        ),
        word == word_at(routes_written(final(control).end), place_written(final(control).end)),
        route_at(routes_written(final(control).end), place_written(final(control).end)).fits(
            channels_written(final(control).end),
        ),
{
    control.end.cell.load(Ordering::Acquire)
}

/// `AtomicU64::load`, through an end that only looks the route up: as `load_route_cell`.
#[verifier::external_body]
fn read_route_cell(watch: &mut RouteWatch) -> (word: u64)
    ensures
        looks_read(final(watch).end) == looks_read(old(watch).end) + 1,
        routes_read(final(watch).end) == routes_read(old(watch).end),
        channels_read(final(watch).end) == channels_read(old(watch).end),
        place_read(old(watch).end) <= place_read(final(watch).end),
        place_read(final(watch).end) < routes_read(old(watch).end).len(),
        word == word_at(routes_read(final(watch).end), place_read(final(watch).end)),
        route_at(routes_read(final(watch).end), place_read(final(watch).end)).fits(
            channels_read(final(watch).end),
        ),
{
    watch.end.cell.load(Ordering::Acquire)
}

/// `AtomicU64::fetch_update` with a closure that always gives a value: replaces the newest
/// word of the cell, in one step, by the one that `RouteControl::store` makes of it. So
/// `route` is in force right after the route that it replaced, under the generation after
/// its.
#[verifier::external_body]
fn put_route(control: &mut SharedRoute, route: ChannelRoute)
    requires
        route.fits(channels_written(old(control).end)),
    ensures
        looks_written(final(control).end) == looks_written(old(control).end),
        final(control).channels == old(control).channels,
        routes_written(final(control).end) == routes_written(old(control).end),
        routes_put(final(control).end) == routes_put(old(control).end).push(route),
        channels_written(final(control).end) == channels_written(old(control).end),
        writer_name(final(control).end) == writer_name(old(control).end),
        writers_named(final(control).end) == writers_named(old(control).end),
        is_sole_writer(final(control).end) == is_sole_writer(old(control).end),
        place_written(old(control).end) < place_written(final(control).end),
        place_written(final(control).end) < routes_written(old(control).end).len(),
        is_sole_writer(old(control).end) ==> place_written(final(control).end) == place_written(
            old(control).end,
        ) + 1,
        route_at(routes_written(final(control).end), place_written(final(control).end)) == route,
        name_at(writers_named(final(control).end), place_written(final(control).end))
            == writer_name(old(control).end),
{
    let _ = control.end.cell.fetch_update(
        Ordering::AcqRel,
        Ordering::Acquire,
        |word| republished(word, route),
    );
}

impl SharedRoute {
    #[verifier::type_invariant]
    spec fn inv(self) -> bool {
        &&& channels_written(self.end) == self.channels
        &&& 0 < self.channels <= 0xffff
    }

    /// All the routes that are ever in force, in order.
    pub closed spec fn routes(self) -> Seq<ChannelRoute> {
        routes_written(self.end)
    }

    /// The place among them of the newest one that was put or found here.
    pub closed spec fn place(self) -> nat {
        place_written(self.end)
    }

    /// The routes that were put in force here.
    pub closed spec fn put(self) -> Seq<ChannelRoute> {
        routes_put(self.end)
    }

    /// How many times the route was looked up here.
    pub closed spec fn looks(self) -> nat {
        looks_written(self.end)
    }

    /// Who this is, among those who replace the route.
    pub closed spec fn name(self) -> Seq<bool> {
        writer_name(self.end)
    }

    /// Who put each of the routes in force.
    pub closed spec fn names(self) -> Seq<Seq<bool>> {
        writers_named(self.end)
    }

    /// Nobody else replaces the route.
    pub closed spec fn sole(self) -> bool {
        is_sole_writer(self.end)
    }

    /// Number of channels of the input.
    pub closed spec fn spec_channels(self) -> usize {
        self.channels
    }

    /// The first route is `route`, under generation zero, and nobody has replaced it or can
    /// do so elsewhere.
    pub open spec fn starts_with(self, route: ChannelRoute) -> bool {
        &&& self.routes().len() > 0
        &&& self.routes()[0] == route
        &&& self.place() == 0
        &&& self.put() == Seq::<ChannelRoute>::empty()
        &&& self.looks() == 0
        &&& self.sole()
    }

    /// It is about the same routes.
    pub open spec fn same_routes(self, other: SharedRoute) -> bool {
        &&& self.routes() == other.routes()
        &&& self.names() == other.names()
        &&& self.spec_channels() == other.spec_channels()
    }

    /// Looking the route up gives `control`: the route at a place that is not before those
    /// come across so far, under the generation of that place.
    pub open spec fn finds(self, after: SharedRoute, control: RouteControl) -> bool {
        &&& after.same_routes(self)
        &&& after.put() == self.put()
        &&& after.looks() == self.looks() + 1
        &&& after.name() == self.name()
        &&& after.sole() == self.sole()
        &&& self.place() <= after.place() < self.routes().len()
        &&& self.sole() ==> after.place() == self.place()
        &&& control.route() == route_at(self.routes(), after.place())
        &&& control.generation() == generation_at(after.place())
        &&& control.route().fits(self.spec_channels())
    }

    /// The route is put in force, once, after all those come across so far.
    pub open spec fn puts(self, after: SharedRoute, route: ChannelRoute) -> bool {
        &&& after.same_routes(self)
        &&& after.put() == self.put().push(route)
        &&& after.looks() == self.looks()
        &&& after.name() == self.name()
        &&& name_at(self.names(), after.place()) == self.name()
        &&& after.sole() == self.sole()
        &&& self.place() < after.place() < self.routes().len()
        &&& self.sole() ==> after.place() == self.place() + 1
        &&& route_at(after.routes(), after.place()) == route
    }

    /// Shares `control`, for an input with `channels` channels.
    pub fn new(control: RouteControl, channels: usize) -> (shared: SharedRoute)
        requires
            control.route().fits(channels),
            control.generation() == 0,
            channels <= 0xffff,
        ensures
            shared.spec_channels() == channels,
            shared.starts_with(control.route()),
    {
        SharedRoute { end: new_route_cell(control.into_word(), channels), channels }
    }

    /// Number of channels of the input.
    pub fn channels(&self) -> (channels: usize)
        ensures
            channels == self.spec_channels(),
            0 < channels <= 0xffff,
    {
        proof {
            use_type_invariant(self);
        }
        self.channels
    }

    /// The control as it stands now.
    pub fn load(&mut self) -> (control: RouteControl)
        ensures
            old(self).finds(*final(self), control),
    {
        proof {
            use_type_invariant(&*self);
        }
        let word: u64 = load_route_cell(self);
        proof {
            word_at_splits(routes_written(self.end), place_written(self.end), word);
        }
        RouteControl::from_word(word)
    }

    /// Replaces the route for every thread, as `RouteControl::store` does.
    pub fn store(&mut self, route: ChannelRoute)
        requires
            route.fits(old(self).spec_channels()),
        ensures
            old(self).puts(*final(self), route),
    {
        proof {
            use_type_invariant(&*self);
        }
        put_route(self, route);
    }

    /// Lets someone else replace the route too.
    pub fn share(&mut self) -> (other: SharedRoute)
        ensures
            final(self).same_routes(*old(self)),
            final(self).place() == old(self).place(),
            final(self).put() == old(self).put(),
            final(self).looks() == old(self).looks(),
            other.looks() == 0,
            other.same_routes(*old(self)),
            other.place() == old(self).place(),
            other.put() == Seq::<ChannelRoute>::empty(),
            final(self).name() == old(self).name().push(false),
            other.name() == old(self).name().push(true),
            !final(self).sole(),
            !other.sole(),
    {
        proof {
            use_type_invariant(&*self);
        }
        let channels: usize = self.channels;
        SharedRoute { end: share_route_cell(self), channels }
    }

    /// Lets someone else look the route up.
    pub fn watch(&self) -> (watch: RouteWatch)
        ensures
            watch.routes() == self.routes(),
            watch.place() == self.place(),
            watch.looks() == 0,
            watch.spec_channels() == self.spec_channels(),
    {
        proof {
            use_type_invariant(self);
        }
        RouteWatch { end: watch_route_cell(&self.end) }
    }
}

impl RouteWatch {
    #[verifier::type_invariant]
    spec fn inv(self) -> bool {
        0 < channels_read(self.end) <= 0xffff
    }

    /// All the routes that are ever in force, in order.
    pub closed spec fn routes(self) -> Seq<ChannelRoute> {
        routes_read(self.end)
    }

    /// The place among them of the newest one that was found here.
    pub closed spec fn place(self) -> nat {
        place_read(self.end)
    }

    /// Number of channels of the input.
    pub closed spec fn spec_channels(self) -> usize {
        channels_read(self.end)
    }

    /// How many times the route was looked up here.
    pub closed spec fn looks(self) -> nat {
        looks_read(self.end)
    }

    /// As `SharedRoute::finds`.
    pub open spec fn finds(self, after: RouteWatch, control: RouteControl) -> bool {
        &&& after.routes() == self.routes()
        &&& after.spec_channels() == self.spec_channels()
        &&& after.looks() == self.looks() + 1
        &&& self.place() <= after.place() < self.routes().len()
        &&& control.route() == route_at(self.routes(), after.place())
        &&& control.generation() == generation_at(after.place())
        &&& control.route().fits(self.spec_channels())
    }

    /// The control as it stands now.
    pub fn load(&mut self) -> (control: RouteControl)
        ensures
            old(self).finds(*final(self), control),
    {
        proof {
            use_type_invariant(&*self);
        }
        let word: u64 = read_route_cell(self);
        proof {
            word_at_splits(routes_read(self.end), place_read(self.end), word);
        }
        RouteControl::from_word(word)
    }
}

/// An end of a counter.
#[verifier::external_body]
pub struct Counter {
    cell: Arc<AtomicU64>,
}

/// All the values that the counter ever holds, in order.
pub uninterp spec fn counter_values(end: Counter) -> Seq<u64>;

/// The place among them of the newest value that this end came across.
pub uninterp spec fn counter_place(end: Counter) -> nat;

/// How many times the counter was read through this end.
pub uninterp spec fn counter_looks(end: Counter) -> nat;

/// What this end added, in order.
pub uninterp spec fn amounts_added(end: Counter) -> Seq<u64>;

/// The value at `place`.
pub open spec fn value_at(values: Seq<u64>, place: nat) -> u64 {
    values[place as int]
}

/// The value at `place` is `amount` more than the one before; values wrap around.
pub open spec fn grown_at(values: Seq<u64>, place: nat, amount: u64) -> bool {
    values[place as int] == values[place - 1].wrapping_add(amount)
}

/// `AtomicU64::new`: a counter whose first value is zero.
#[verifier::external_body]
pub(crate) fn new_counter() -> (end: Counter)
    ensures
        counter_looks(end) == 0,
        counter_values(end).len() > 0,
        counter_values(end)[0] == 0,
        counter_place(end) == 0,
        amounts_added(end) == Seq::<u64>::empty(),
{
    Counter { cell: Arc::new(AtomicU64::new(0)) }
}

/// `Arc::clone`: another end of the same counter, with the same knowledge of it.
#[verifier::external_body]
pub(crate) fn share_counter(end: &Counter) -> (other: Counter)
    ensures
        counter_looks(other) == 0,
        counter_values(other) == counter_values(*end),
        counter_place(other) == counter_place(*end),
        amounts_added(other) == Seq::<u64>::empty(),
{
    Counter { cell: Arc::clone(&end.cell) }
}

/// `AtomicU64::fetch_add`: adds `amount` to the newest value.
#[verifier::external_body]
pub(crate) fn add_to_counter(end: &mut Counter, amount: u64)
    ensures
        counter_looks(*final(end)) == counter_looks(*old(end)),
        counter_values(*final(end)) == counter_values(*old(end)),
        amounts_added(*final(end)) == amounts_added(*old(end)).push(amount),
        counter_place(*old(end)) < counter_place(*final(end)) < counter_values(*old(end)).len(),
        grown_at(counter_values(*final(end)), counter_place(*final(end)), amount),
{
    end.cell.fetch_add(amount, Ordering::Relaxed);
}

/// `AtomicU64::load`: a value that is not older than those which this end came across.
#[verifier::external_body]
pub(crate) fn read_counter(end: &mut Counter) -> (value: u64)
    ensures
        counter_looks(*final(end)) == counter_looks(*old(end)) + 1,
        counter_values(*final(end)) == counter_values(*old(end)),
        amounts_added(*final(end)) == amounts_added(*old(end)),
        counter_place(*old(end)) <= counter_place(*final(end)),
        counter_place(*final(end)) < counter_values(*final(end)).len(),
        value == value_at(counter_values(*final(end)), counter_place(*final(end))),
{
    end.cell.load(Ordering::Relaxed)
}

/// The end of a flag through which it is set. There is only one.
#[verifier::external_body]
pub struct FlagWriter {
    flag: Arc<AtomicBool>,
}

/// An end of a flag through which it is only looked up.
#[verifier::external_body]
pub struct FlagReader {
    flag: Arc<AtomicBool>,
}

/// All the values that the flag of this end ever holds, in order.
pub uninterp spec fn flags_written(end: FlagWriter) -> Seq<bool>;

/// The values that this end set the flag to, in order.
pub uninterp spec fn flags_set(end: FlagWriter) -> Seq<bool>;

/// All the values that the flag of this end ever holds, in order.
pub uninterp spec fn flags_read(end: FlagReader) -> Seq<bool>;

/// The place among them of the newest value that this end found.
pub uninterp spec fn flag_place(end: FlagReader) -> nat;

/// How many times the flag was looked up through this end.
pub uninterp spec fn flag_looks(end: FlagReader) -> nat;

/// `AtomicBool::new`: the two ends of a flag whose first value is false.
#[verifier::external_body]
fn new_flag() -> (ends: (FlagWriter, FlagReader))
    ensures
        flag_looks(ends.1) == 0,
        flags_read(ends.1) == flags_written(ends.0),
        flags_written(ends.0).len() > 0,
        flags_written(ends.0)[0] == false,
        flags_set(ends.0) == Seq::<bool>::empty(),
        flag_place(ends.1) == 0,
{
    let flag = Arc::new(AtomicBool::new(false));
    (FlagWriter { flag: Arc::clone(&flag) }, FlagReader { flag })
}

/// `AtomicBool::store`: the next value of the flag is `value`.
#[verifier::external_body]
fn write_flag(end: &mut FlagWriter, value: bool)
    ensures
        flags_written(*final(end)) == flags_written(*old(end)),
        flags_set(*final(end)) == flags_set(*old(end)).push(value),
        flags_set(*final(end)).len() < flags_written(*final(end)).len(),
        value_after(flags_written(*final(end)), flags_set(*final(end))) == value,
{
    end.flag.store(value, Ordering::Release);
}

/// The value that the flag has after it was set so many times.
pub open spec fn value_after(flags: Seq<bool>, set: Seq<bool>) -> bool {
    flags[set.len() as int]
}

/// The value at `place`.
pub open spec fn flag_at(flags: Seq<bool>, place: nat) -> bool {
    flags[place as int]
}

/// `AtomicBool::load`: a value that is not older than those which this end found before.
#[verifier::external_body]
fn read_flag(end: &mut FlagReader) -> (value: bool)
    ensures
        flag_looks(*final(end)) == flag_looks(*old(end)) + 1,
        flags_read(*final(end)) == flags_read(*old(end)),
        flag_place(*old(end)) <= flag_place(*final(end)),
        flag_place(*final(end)) < flags_read(*final(end)).len(),
        value == flag_at(flags_read(*final(end)), flag_place(*final(end))),
{
    end.flag.load(Ordering::Acquire)
}

/// The side of a flag that sets it.
pub struct Switch {
    end: FlagWriter,
}

/// The side of a flag that looks it up.
pub struct FlagWatch {
    end: FlagReader,
}

/// A flag that is not raised.
pub fn flag() -> (sides: (Switch, FlagWatch))
    ensures
        sides.1.values() == sides.0.values(),
        sides.0.values().len() > 0,
        !sides.0.values()[0],
        sides.0.told() == Seq::<bool>::empty(),
        sides.1.place() == 0,
        sides.1.looks() == 0,
{
    let (writer, reader) = new_flag();
    (Switch { end: writer }, FlagWatch { end: reader })
}

impl Switch {
    /// All the values that the flag ever has, in order.
    pub closed spec fn values(self) -> Seq<bool> {
        flags_written(self.end)
    }

    /// What it was set to so far.
    pub closed spec fn told(self) -> Seq<bool> {
        flags_set(self.end)
    }

    /// Sets the flag.
    pub fn set(&mut self, value: bool)
        ensures
            final(self).values() == old(self).values(),
            final(self).told() == old(self).told().push(value),
            final(self).told().len() < final(self).values().len(),
            final(self).values()[final(self).told().len() as int] == value,
    {
        write_flag(&mut self.end, value);
    }
}

impl FlagWatch {
    /// All the values that the flag ever has, in order.
    pub closed spec fn values(self) -> Seq<bool> {
        flags_read(self.end)
    }

    /// The place among them of the newest one found.
    pub closed spec fn place(self) -> nat {
        flag_place(self.end)
    }

    /// How many times the flag was looked up here.
    pub closed spec fn looks(self) -> nat {
        flag_looks(self.end)
    }

    /// Looking the flag up gives `value`, which is not older than what was found before.
    pub open spec fn finds(self, after: FlagWatch, value: bool) -> bool {
        &&& after.values() == self.values()
        &&& after.looks() == self.looks() + 1
        &&& self.place() <= after.place() < self.values().len()
        &&& value == flag_at(self.values(), after.place())
    }

    /// Whether the flag is raised.
    pub fn is_set(&mut self) -> (value: bool)
        ensures
            old(self).finds(*final(self), value),
    {
        read_flag(&mut self.end)
    }
}

/// A generation belongs to one route: as long as fewer than 2 to the 32 routes are put in
/// force, a route and a generation that are found together are those of one place, and
/// whoever finds the same generation finds the same route.
pub proof fn a_generation_belongs_to_one_route(
    before: SharedRoute,
    after: SharedRoute,
    control: RouteControl,
    other_before: SharedRoute,
    other_after: SharedRoute,
    other: RouteControl,
)
    requires
        before.finds(after, control),
        other_before.finds(other_after, other),
        other_before.same_routes(before),
        before.routes().len() <= 0x1_0000_0000,
        control.generation() == other.generation(),
    ensures
        after.place() == other_after.place(),
        control.generation() == after.place(),
        control.route() == other.route(),
{
}

/// What one owner finds never goes back: of two looks, the second finds a route that was
/// put in force later, or the same one.
pub proof fn looks_never_go_back(
    before: SharedRoute,
    mid: SharedRoute,
    first: RouteControl,
    after: SharedRoute,
    second: RouteControl,
)
    requires
        before.finds(mid, first),
        mid.finds(after, second),
        before.routes().len() <= 0x1_0000_0000,
    ensures
        first.generation() <= second.generation(),
        first.generation() == second.generation() ==> first.route() == second.route(),
{
}

/// Who puts a route in force finds it afterwards, or one that was put in force later.
pub proof fn a_stored_route_or_a_later_one_is_found(
    before: SharedRoute,
    mid: SharedRoute,
    route: ChannelRoute,
    after: SharedRoute,
    control: RouteControl,
)
    requires
        before.puts(mid, route),
        mid.finds(after, control),
        before.routes().len() <= 0x1_0000_0000,
    ensures
        control.generation() >= mid.place() > before.place(),
        control.generation() == mid.place() ==> control.route() == route,
        before.sole() ==> control.route() == route && control.generation() == before.place() + 1,
{
}

/// The same route control over time: `ends[i]` puts `routes[i]` in force and becomes
/// `ends[i + 1]`.
pub open spec fn is_route_run(ends: Seq<SharedRoute>, routes: Seq<ChannelRoute>) -> bool {
    &&& ends.len() == routes.len() + 1
    &&& forall|i: int| 0 <= i < routes.len() ==> #[trigger] is_route_step(ends, routes, i)
}

pub open spec fn is_route_step(
    ends: Seq<SharedRoute>,
    routes: Seq<ChannelRoute>,
    i: int,
) -> bool {
    ends[i].puts(ends[i + 1], routes[i])
}

/// No store is lost: each route that one owner puts in force has a place of its own, behind
/// those of the earlier ones. If nobody else replaces the route, `count` stores end at
/// generation `count`, and the route of each generation is the one stored then.
pub proof fn no_store_is_lost(ends: Seq<SharedRoute>, routes: Seq<ChannelRoute>, count: int)
    requires
        is_route_run(ends, routes),
        0 <= count <= routes.len(),
    ensures
        ends[count].same_routes(ends[0]),
        ends[count].sole() == ends[0].sole(),
        ends[count].place() >= ends[0].place() + count,
        count > 0 ==> route_at(ends[0].routes(), ends[count].place()) == routes[count - 1],
        count > 0 ==> ends[count].place() > ends[count - 1].place(),
        ends[0].sole() ==> ends[count].place() == ends[0].place() + count,
    decreases count,
{
    if count > 0 {
        no_store_is_lost(ends, routes, count - 1);
        assert(is_route_step(ends, routes, count - 1));
    }
}

/// The sum of the first `count` amounts.
pub open spec fn sum_of(amounts: Seq<u64>, count: int) -> int
    decreases count,
{
    if count <= 0 {
        0
    } else {
        sum_of(amounts, count - 1) + amounts[count - 1]
    }
}

/// What adding to a counter does.
pub open spec fn counter_adds(before: Counter, after: Counter, amount: u64) -> bool {
    &&& counter_values(after) == counter_values(before)
    &&& counter_place(before) < counter_place(after) < counter_values(before).len()
    &&& grown_at(counter_values(after), counter_place(after), amount)
    &&& amounts_added(after) == amounts_added(before).push(amount)
}

/// The same end of a counter over time: from each to the next nothing is added, or one
/// amount is.
pub open spec fn is_counter_life(ends: Seq<Counter>) -> bool {
    &&& ends.len() > 0
    &&& forall|i: int| 0 <= i < ends.len() - 1 ==> #[trigger] is_counter_step(ends, i)
}

pub open spec fn is_counter_step(ends: Seq<Counter>, i: int) -> bool {
    ||| ends[i + 1] == ends[i]
    ||| exists|amount: u64| #[trigger] counter_adds(ends[i], ends[i + 1], amount)
}

proof fn places_grow(ends: Seq<Counter>, first: int, second: int)
    requires
        is_counter_life(ends),
        0 <= first <= second < ends.len(),
    ensures
        counter_values(ends[second]) == counter_values(ends[first]),
        amounts_added(ends[first]).len() <= amounts_added(ends[second]).len(),
        counter_place(ends[second]) - counter_place(ends[first]) >= amounts_added(
            ends[second],
        ).len() - amounts_added(ends[first]).len(),
        amounts_added(ends[first]).len() < amounts_added(ends[second]).len() ==> counter_place(
            ends[second],
        ) < counter_values(ends[second]).len(),
    decreases second,
{
    if first < second {
        places_grow(ends, first, second - 1);
        assert(is_counter_step(ends, second - 1));
    }
}

proof fn same_amounts_same_sum(amounts: Seq<u64>, longer: Seq<u64>, count: int)
    requires
        0 <= count <= amounts.len() <= longer.len(),
        amounts == longer.take(amounts.len() as int),
    ensures
        sum_of(amounts, count) == sum_of(longer, count),
    decreases count,
{
    if count > 0 {
        same_amounts_same_sum(amounts, longer, count - 1);
    }
}

/// Where nobody else adds to a counter that starts at zero, so that it holds one value more
/// than one owner added amounts, its last value is the sum of these amounts; sums wrap
/// around.
pub proof fn a_counter_holds_the_sum(ends: Seq<Counter>, count: int)
    requires
        is_counter_life(ends),
        amounts_added(ends[0]).len() == 0,
        counter_values(ends[0]).len() == amounts_added(ends.last()).len() + 1,
        counter_values(ends[0])[0] == 0,
        0 <= count < ends.len(),
    ensures
        ({
            let amounts = amounts_added(ends[count]);
            &&& amounts.len() < counter_values(ends[0]).len()
            &&& counter_values(ends[0])[amounts.len() as int] == sum_of(
                amounts,
                amounts.len() as int,
            ) % 0x1_0000_0000_0000_0000
        }),
    decreases count,
{
    let last = ends.len() - 1;
    places_grow(ends, 0, last);
    places_grow(ends, 0, count);
    places_grow(ends, count, last);
    if count > 0 {
        a_counter_holds_the_sum(ends, count - 1);
        places_grow(ends, 0, count - 1);
        assert(is_counter_step(ends, count - 1));
        let before = amounts_added(ends[count - 1]);
        let amounts = amounts_added(ends[count]);
        if ends[count] != ends[count - 1] {
            assert(before =~= amounts.take(before.len() as int));
            same_amounts_same_sum(before, amounts, before.len() as int);
            assert(counter_place(ends[count]) == amounts.len());
        }
    }
}

/// The stores of two owners have places of their own: neither hides the other, so each
/// route that anyone puts in force has its own generation, and so many stores in all end at
/// that generation. Owners are told apart by what they are called: `share` gives each of
/// the two names that go on differently.
pub proof fn stores_of_two_owners_are_apart(
    before: SharedRoute,
    after: SharedRoute,
    route: ChannelRoute,
    other_before: SharedRoute,
    other_after: SharedRoute,
    other_route: ChannelRoute,
)
    requires
        before.puts(after, route),
        other_before.puts(other_after, other_route),
        before.same_routes(other_before),
        before.name() != other_before.name(),
    ensures
        after.place() != other_after.place(),
        0 < after.place() < before.routes().len(),
        0 < other_after.place() < before.routes().len(),
{
}

/// Two owners that came of one are called differently, and so are all that come of them.
pub proof fn owners_stay_apart(first: Seq<bool>, second: Seq<bool>, name: Seq<bool>)
    requires
        name.push(false).is_prefix_of(first),
        name.push(true).is_prefix_of(second),
    ensures
        first != second,
        !first.is_prefix_of(second),
        !second.is_prefix_of(first),
{
    let place = name.len() as int;
    assert(name.push(false)[place] == first[place]);
    assert(name.push(true)[place] == second[place]);
}

/// The generation of the last route is the number of the routes that replaced the first
/// one, whoever put them in force.
pub proof fn the_last_generation_counts_the_stores(
    before: SharedRoute,
    after: SharedRoute,
    control: RouteControl,
)
    requires
        before.finds(after, control),
        after.place() == before.routes().len() - 1,
        before.routes().len() <= 0x1_0000_0000,
    ensures
        control.generation() == before.routes().len() - 1,
        control.route() == before.routes().last(),
{
}

} // verus!
