//! What the packet program does to its tables, in the order in which it does
//! it.
use vstd::prelude::*;

use crate::maps::{ConntrackValue, Event, FlowKey, RateLimitKey, RateLimitValue};

verus! {

/// What the packet program can do to its tables. Nothing is assumed of what is
/// answered.
pub trait Sink {
    /// Stores a token bucket; negative on failure.
    fn store_bucket(&self, key: RateLimitKey, value: RateLimitValue) -> i64;

    /// Sets a counter that has a slot.
    fn set_counter(&self, id: u32, value: u64);

    /// Makes room for an event of `size` bytes; false where there is none.
    fn reserve(&self, size: u64) -> bool;

    /// Publishes an event in the room made for it.
    fn submit(&self, event: Event);
}

/// What the load balancer can do besides.
pub trait LbSink: Sink {
    /// Stores the entry of a flow; negative on failure.
    fn store_connection(&self, flow: FlowKey, value: ConntrackValue) -> i64;

    /// Hands the packet to the interface of a backend.
    fn redirect(&self, backend_id: u32) -> i64;
}

/// Something that was done, and what was answered.
pub enum Deed {
    Counter { id: u32, value: u64 },
    Bucket { key: RateLimitKey, bucket: RateLimitValue, reply: i64 },
    Room { size: u64, made: bool },
    Published { event: Event },
    Connection { flow: FlowKey, entry: ConntrackValue, reply: i64 },
    Redirect { backend_id: u32, reply: i64 },
}

/// The work on the tables. All of it goes through here, and is kept.
pub struct Trail<'a, S: Sink> {
    sink: &'a S,
    deeds: Ghost<Seq<Deed>>,
}

impl<'a, S: Sink> Trail<'a, S> {
    /// All that was done so far.
    pub closed spec fn deeds(self) -> Seq<Deed> {
        self.deeds@
    }

    /// What does it.
    pub closed spec fn sink(self) -> S {
        *self.sink
    }

    pub fn new(sink: &'a S) -> (r: Self)
        ensures
            r.deeds() == Seq::<Deed>::empty(),
            r.sink() == *sink,
    {
        Trail { sink, deeds: Ghost(Seq::empty()) }
    }

    pub fn store_bucket(&mut self, key: RateLimitKey, value: RateLimitValue) -> (r: i64)
        ensures
            call_ensures(S::store_bucket, (&old(self).sink(), key, value), r),
            final(self).sink() == old(self).sink(),
            final(self).deeds() == old(self).deeds().push(
                Deed::Bucket { key, bucket: value, reply: r },
            ),
    {
        let r: i64 = self.sink.store_bucket(key, value);
        self.deeds = Ghost(self.deeds@.push(Deed::Bucket { key, bucket: value, reply: r }));
        r
    }

    pub fn set_counter(&mut self, id: u32, value: u64)
        ensures
            call_ensures(S::set_counter, (&old(self).sink(), id, value), ()),
            final(self).sink() == old(self).sink(),
            final(self).deeds() == old(self).deeds().push(Deed::Counter { id, value }),
    {
        self.sink.set_counter(id, value);
        self.deeds = Ghost(self.deeds@.push(Deed::Counter { id, value }));
    }

    pub fn reserve(&mut self, size: u64) -> (r: bool)
        ensures
            call_ensures(S::reserve, (&old(self).sink(), size), r),
            final(self).sink() == old(self).sink(),
            final(self).deeds() == old(self).deeds().push(Deed::Room { size, made: r }),
    {
        let r = self.sink.reserve(size);
        self.deeds = Ghost(self.deeds@.push(Deed::Room { size, made: r }));
        r
    }

    pub fn submit(&mut self, event: Event)
        ensures
            call_ensures(S::submit, (&old(self).sink(), event), ()),
            final(self).sink() == old(self).sink(),
            final(self).deeds() == old(self).deeds().push(Deed::Published { event }),
    {
        self.sink.submit(event);
        self.deeds = Ghost(self.deeds@.push(Deed::Published { event }));
    }
}

impl<'a, S: LbSink> Trail<'a, S> {
    pub fn store_connection(&mut self, flow: FlowKey, value: ConntrackValue) -> (r: i64)
        ensures
            call_ensures(S::store_connection, (&old(self).sink(), flow, value), r),
            final(self).sink() == old(self).sink(),
            final(self).deeds() == old(self).deeds().push(
                Deed::Connection { flow, entry: value, reply: r },
            ),
    {
        let r: i64 = self.sink.store_connection(flow, value);
        self.deeds = Ghost(self.deeds@.push(Deed::Connection { flow, entry: value, reply: r }));
        r
    }

    pub fn redirect(&mut self, backend_id: u32) -> (r: i64)
        ensures
            call_ensures(S::redirect, (&old(self).sink(), backend_id), r),
            final(self).sink() == old(self).sink(),
            final(self).deeds() == old(self).deeds().push(Deed::Redirect { backend_id, reply: r }),
    {
        let r: i64 = self.sink.redirect(backend_id);
        self.deeds = Ghost(self.deeds@.push(Deed::Redirect { backend_id, reply: r }));
        r
    }
}

} // verus!
