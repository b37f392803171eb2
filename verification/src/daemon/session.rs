//! The changes that are made to the kernel's maps, in the order in which they
//! are made.
use vstd::prelude::*;

use crate::daemon::kernel::{
    open_map_by_name, opened, seen, ErrorView, Kernel, MapError, WriteView,
};

verus! {

/// What changes the kernel's maps. Nothing is assumed of what it answers.
pub trait Writer {
    fn update(&self, id: u32, key: Vec<u8>, value: Vec<u8>) -> Result<(), MapError>;

    fn delete(&self, id: u32, key: Vec<u8>) -> Result<(), MapError>;
}

/// A change that was tried: the number of the map, the change, and what the
/// kernel answered.
#[verifier::ext_equal]
pub struct Attempt {
    pub map: u32,
    pub write: WriteView,
    pub reply: Result<(), ErrorView>,
}

/// A map that was opened by its name.
pub struct Handle {
    id: u32,
    name: Ghost<Seq<char>>,
}

impl Handle {
    pub closed spec fn id(self) -> u32 {
        self.id
    }

    pub closed spec fn name(self) -> Seq<char> {
        self.name@
    }

    /// The number of the map.
    pub fn number(&self) -> (r: u32)
        ensures
            r == self.id(),
    {
        self.id
    }
}

/// Finds a loaded map by name.
pub fn open<K: Kernel>(k: &K, name: &str) -> (r: Result<Handle, MapError>)
    ensures
        match r {
            Ok(h) => opened(k, name@, Ok(h.id())) && h.name() == name@,
            Err(e) => opened(k, name@, Err(e@)),
        },
{
    let r = open_map_by_name(k, name);
    assert(opened(k, name@, seen(r)));
    match r {
        Ok(id) => Ok(Handle { id, name: Ghost(name@) }),
        Err(e) => Err(e),
    }
}

/// A stretch of work on the maps. All changes go through it, and it keeps what
/// was tried.
pub struct Session<'a, W: Writer> {
    writer: &'a W,
    trace: Ghost<Seq<Attempt>>,
}

impl<'a, W: Writer> Session<'a, W> {
    /// All that was tried so far.
    pub closed spec fn trace(self) -> Seq<Attempt> {
        self.trace@
    }

    /// What makes the changes.
    pub closed spec fn writer(self) -> W {
        *self.writer
    }

    pub fn new(writer: &'a W) -> (r: Self)
        ensures
            r.trace() == Seq::<Attempt>::empty(),
            r.writer() == *writer,
    {
        Session { writer, trace: Ghost(Seq::empty()) }
    }

    /// Sets the value of a key.
    pub fn update(&mut self, map: &Handle, key: Vec<u8>, value: Vec<u8>) -> (r: Result<
        (),
        MapError,
    >)
        ensures
            call_ensures(W::update, (&old(self).writer(), map.id(), key, value), r),
            final(self).writer() == old(self).writer(),
            final(self).trace() == old(self).trace().push(
                Attempt {
                    map: map.id(),
                    write: WriteView::Update { map: map.name(), key: key@, value: value@ },
                    reply: seen(r),
                },
            ),
    {
        let ghost write = WriteView::Update { map: map.name(), key: key@, value: value@ };
        let r = self.writer.update(map.id, key, value);
        self.trace = Ghost(self.trace@.push(Attempt { map: map.id, write, reply: seen(r) }));
        r
    }

    /// Deletes a key.
    pub fn delete(&mut self, map: &Handle, key: Vec<u8>) -> (r: Result<(), MapError>)
        ensures
            call_ensures(W::delete, (&old(self).writer(), map.id(), key), r),
            final(self).writer() == old(self).writer(),
            final(self).trace() == old(self).trace().push(
                Attempt {
                    map: map.id(),
                    write: WriteView::Delete { map: map.name(), key: key@ },
                    reply: seen(r),
                },
            ),
    {
        let ghost write = WriteView::Delete { map: map.name(), key: key@ };
        let r = self.writer.delete(map.id, key);
        self.trace = Ghost(self.trace@.push(Attempt { map: map.id, write, reply: seen(r) }));
        r
    }
}

} // verus!
