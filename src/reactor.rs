use vstd::prelude::*;

use std::collections::HashMap;

use crate::error::TransportFault;
use crate::request::{parse_request, request_scan, Request};

verus! {

broadcast use vstd::std_specs::hash::group_hash_axioms;

/// Size of the buffer that each connection reads into.
pub const BUFFER_SIZE: usize = 1024;

/// The lifecycle of an event: `Ready` until its request has been handled,
/// then `Shutdown` for good.
#[derive(Clone, Copy, Debug, PartialEq, Eq)]
pub enum EventState {
    Ready,
    Shutdown,
}

/// The strategies that can be bound to an event when it is created.
#[derive(Clone, Copy, Debug, PartialEq, Eq)]
pub enum Handler {
    Http,
}

/// One accepted socket: its descriptor and the buffer it reads into.
pub struct Connection {
    pub fd: i32,
    pub buf: Vec<u8>,
}

impl Connection {
    pub open spec fn is_fresh(&self, fd: i32) -> bool {
        &&& self.fd == fd
        &&& self.buf@ == Seq::new(BUFFER_SIZE as nat, |i: int| 0u8)
    }

    pub fn new(fd: i32) -> (r: Connection)
        ensures
            r.is_fresh(fd),
    {
        let mut buf: Vec<u8> = Vec::new();
        let mut i: usize = 0;
        while i < BUFFER_SIZE
            invariant
                i <= BUFFER_SIZE,
                buf@ == Seq::new(i as nat, |j: int| 0u8),
            decreases BUFFER_SIZE - i,
        {
            buf.push(0);
            i = i + 1;
            assert(buf@ =~= Seq::new(i as nat, |j: int| 0u8));
        }
        Connection { fd, buf }
    }
}

/// A connection with its readiness flags, its lifecycle state and its
/// handler.
pub struct Event {
    pub readable: bool,
    pub writable: bool,
    pub state: EventState,
    pub handler: Handler,
    pub connection: Option<Connection>,
}

impl Event {
    /// The event as it is created for a connection just accepted on `fd`.
    pub open spec fn is_fresh(&self, fd: i32) -> bool {
        &&& !self.readable
        &&& !self.writable
        &&& self.state == EventState::Ready
        &&& self.handler == Handler::Http
        &&& self.connection matches Some(c) && c.is_fresh(fd)
    }

    pub fn is_ready(&self) -> (r: bool)
        ensures
            r == (self.state == EventState::Ready),
    {
        match self.state {
            EventState::Ready => true,
            EventState::Shutdown => false,
        }
    }

    /// Records a readiness notification; an event that is shut down keeps its
    /// flags.
    pub fn mark_readiness(&mut self, readable: bool, writable: bool)
        ensures
            final(self).readable == (old(self).readable || (readable && old(self).state
                == EventState::Ready)),
            final(self).writable == (old(self).writable || (writable && old(self).state
                == EventState::Ready)),
            final(self).state == old(self).state,
            final(self).handler == old(self).handler,
            final(self).connection == old(self).connection,
    {
        if readable && self.is_ready() {
            self.readable = true;
        }
        if writable && self.is_ready() {
            self.writable = true;
        }
    }

    /// Whether the handler has work to do: the event is ready, both
    /// directions are ready, and it has a connection.
    pub open spec fn spec_can_handle(&self) -> bool {
        &&& self.state == EventState::Ready
        &&& self.readable
        &&& self.writable
        &&& self.connection is Some
    }

    pub fn can_handle(&self) -> (r: bool)
        ensures
            r == self.spec_can_handle(),
    {
        self.is_ready() && self.readable && self.writable && self.connection.is_some()
    }
}

pub fn init_http_event(connection: Connection) -> (r: Event)
    ensures
        !r.readable,
        !r.writable,
        r.state == EventState::Ready,
        r.handler == Handler::Http,
        r.connection == Some(connection),
{
    Event {
        readable: false,
        writable: false,
        state: EventState::Ready,
        handler: Handler::Http,
        connection: Some(connection),
    }
}

/// What the caller has to do after the handler ran.
pub enum HandlerAction {
    /// Nothing, for now.
    Idle,
    /// Write the fixed response; the request read is attached.
    Respond(Request),
    /// Nothing is written; the connection is to be shut down.
    Abort,
}

/// The response that every recognised connection gets:
/// `HTTP/1.1 204 No Content` and an empty header section.
pub open spec fn response_bytes() -> Seq<u8> {
    seq![
        0x48u8, 0x54u8, 0x54u8, 0x50u8, 0x2fu8, 0x31u8, 0x2eu8, 0x31u8, 0x20u8,
        0x32u8, 0x30u8, 0x34u8, 0x20u8,
        0x4eu8, 0x6fu8, 0x20u8, 0x43u8, 0x6fu8, 0x6eu8, 0x74u8, 0x65u8, 0x6eu8, 0x74u8,
        0x0du8, 0x0au8, 0x0du8, 0x0au8,
    ]
}

pub fn response() -> (r: Vec<u8>)
    ensures
        r@ == response_bytes(),
{
    let r: Vec<u8> = vec![
        0x48, 0x54, 0x54, 0x50, 0x2f, 0x31, 0x2e, 0x31, 0x20,
        0x32, 0x30, 0x34, 0x20,
        0x4e, 0x6f, 0x20, 0x43, 0x6f, 0x6e, 0x74, 0x65, 0x6e, 0x74,
        0x0d, 0x0a, 0x0d, 0x0a,
    ];
    assert(r@ =~= response_bytes());
    r
}

/// The HTTP handler, given what reading the connection gave.
///
/// An event that is not ready for both directions, or has no connection, is
/// left as it is. Where no data was there yet, the event stops being
/// readable and stays ready. Where the read failed otherwise, the event is
/// shut down and nothing is to be written. Where `n` bytes were read, the
/// request is read from those bytes, the event is shut down, and the fixed
/// response is to be written, whatever the request held.
///
/// Each connection is served from one read: bytes do not accumulate across
/// reads, and a request cut short is answered as it stands, its status then
/// being `Incomplete`.
pub fn http_handler(event: &mut Event, read: Result<usize, TransportFault>) -> (r: HandlerAction)
    requires
        read matches Ok(n) ==> old(event).connection matches Some(c) ==> n <= c.buf@.len(),
    ensures
        final(event).handler == old(event).handler,
        final(event).connection == old(event).connection,
        final(event).writable == old(event).writable,
        !old(event).spec_can_handle() ==> *final(event) == *old(event) && r is Idle,
        old(event).spec_can_handle() ==> match read {
            Ok(n) => {
                &&& final(event).state == EventState::Shutdown
                &&& final(event).readable == old(event).readable
                &&& r matches HandlerAction::Respond(req) && old(event).connection matches Some(c)
                    && {
                    let scan = request_scan(c.buf@.subrange(0, n as int));
                    &&& req.status == scan.status
                    &&& req.header.wf()
                    &&& req.header.spans() == scan.spans
                    &&& req.header.field_views() == scan.fields
                }
            },
            Err(TransportFault::Transient) => {
                &&& final(event).state == EventState::Ready
                &&& !final(event).readable
                &&& r is Idle
            },
            Err(_) => {
                &&& final(event).state == EventState::Shutdown
                &&& final(event).readable == old(event).readable
                &&& r is Abort
            },
        },
{
    if !event.can_handle() {
        return HandlerAction::Idle;
    }
    match read {
        Ok(n) => {
            let request = match &event.connection {
                Some(c) => parse_request(vstd::slice::slice_subrange(c.buf.as_slice(), 0, n)),
                None => {
                    return HandlerAction::Idle;
                },
            };
            event.state = EventState::Shutdown;
            HandlerAction::Respond(request)
        },
        Err(TransportFault::Transient) => {
            event.readable = false;
            HandlerAction::Idle
        },
        Err(_) => {
            event.state = EventState::Shutdown;
            HandlerAction::Abort
        },
    }
}

/// Where a readiness notification for a descriptor goes.
#[derive(Clone, Copy, Debug, PartialEq, Eq)]
pub enum Dispatch {
    /// The listening socket: accept the pending connections.
    Accept,
    /// A registered connection: run its handler.
    Handle,
    /// A descriptor that nothing is registered for: drop its interest.
    Unknown,
}

/// What becomes of a descriptor after its handler ran.
#[derive(Clone, Copy, Debug, PartialEq, Eq)]
pub enum Disposal {
    /// It stays registered.
    Keep,
    /// It is shut down: stop writes, drop its interest, close it.
    Teardown,
}

/// The listening socket and the registry of live events, keyed by
/// descriptor.
pub struct Reactor {
    pub listener: i32,
    pub events: HashMap<i32, Event>,
}

impl Reactor {
    pub fn new(listener: i32) -> (r: Reactor)
        ensures
            r.listener == listener,
            r.events@ == Map::<i32, Event>::empty(),
    {
        Reactor { listener, events: HashMap::new() }
    }

    pub open spec fn spec_dispatch(&self, fd: i32) -> Dispatch {
        if fd == self.listener {
            Dispatch::Accept
        } else if self.events@.contains_key(fd) {
            Dispatch::Handle
        } else {
            Dispatch::Unknown
        }
    }

    pub fn dispatch(&self, fd: i32) -> (r: Dispatch)
        ensures
            r == self.spec_dispatch(fd),
    {
        if fd == self.listener {
            Dispatch::Accept
        } else if self.events.contains_key(&fd) {
            Dispatch::Handle
        } else {
            Dispatch::Unknown
        }
    }

    /// Registers a connection just accepted on `fd`, with a fresh event.
    pub fn register(&mut self, fd: i32)
        ensures
            final(self).listener == old(self).listener,
            final(self).events@.dom() == old(self).events@.dom().insert(fd),
            final(self).events@[fd].is_fresh(fd),
            forall|k: i32| k != fd && old(self).events@.contains_key(k) ==> final(self).events@[k]
                == old(self).events@[k],
    {
        let event = init_http_event(Connection::new(fd));
        self.events.insert(fd, event);
    }

    /// Takes the event of `fd` out of the registry, to run its handler.
    pub fn take(&mut self, fd: i32) -> (r: Option<Event>)
        ensures
            final(self).listener == old(self).listener,
            final(self).events@ == old(self).events@.remove(fd),
            match r {
                Some(e) => old(self).events@.contains_key(fd) && e == old(self).events@[fd],
                None => !old(self).events@.contains_key(fd),
            },
    {
        self.events.remove(&fd)
    }

    /// Puts an event back after its handler ran, unless it is shut down, in
    /// which case it leaves the registry and its descriptor is torn down.
    pub fn settle(&mut self, fd: i32, event: Event) -> (r: Disposal)
        ensures
            final(self).listener == old(self).listener,
            event.state == EventState::Shutdown ==> r == Disposal::Teardown && final(self).events@
                == old(self).events@.remove(fd),
            event.state == EventState::Ready ==> r == Disposal::Keep && final(self).events@
                == old(self).events@.insert(fd, event),
    {
        if event.is_ready() {
            self.events.insert(fd, event);
            Disposal::Keep
        } else {
            self.events.remove(&fd);
            Disposal::Teardown
        }
    }
}

} // verus!
