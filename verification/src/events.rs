//! The event queue surfaced to the application: an insertion-ordered,
//! deduplicated set of protocol-level events. Multiple identical signals
//! (say, two readable notices for one stream) coalesce into one event.

use vstd::prelude::*;

use crate::err::Http3Error;

verus! {

/// A protocol-level event surfaced to the application.
#[derive(Debug, Clone, Copy, PartialEq, Eq, Structural)]
pub enum Http3Event {
    /// The response headers for this stream have been decoded.
    HeaderReady { stream_id: u64 },
    /// New body bytes are available for reading.
    DataReadable { stream_id: u64 },
    /// The request was torn down before completing.
    RequestClosed { stream_id: u64, error: Http3Error },
    /// A new push stream arrived (reserved; push is refused).
    NewPushStream { stream_id: u64 },
    /// The peer closed the connection.
    ConnectionClosed { error_code: u16 },
}

/// What inserting into a deduplicated ordered set does.
pub open spec fn event_insert(s: Seq<Http3Event>, e: Http3Event) -> Seq<Http3Event> {
    if s.contains(e) {
        s
    } else {
        s.push(e)
    }
}

/// Whether an event may still be delivered after a GOAWAY with the given
/// cutoff: request-scoped events survive only below the cutoff.
pub open spec fn event_survives_goaway(e: Http3Event, cutoff: u64) -> bool {
    match e {
        Http3Event::HeaderReady { stream_id } => stream_id < cutoff,
        Http3Event::DataReadable { stream_id } => stream_id < cutoff,
        Http3Event::NewPushStream { stream_id } => stream_id < cutoff,
        Http3Event::RequestClosed { .. } => true,
        Http3Event::ConnectionClosed { .. } => true,
    }
}

/// The deduplicated, insertion-ordered event set.
#[derive(Debug)]
pub struct Http3Events {
    events: Vec<Http3Event>,
}

impl View for Http3Events {
    type V = Seq<Http3Event>;

    closed spec fn view(&self) -> Seq<Http3Event> {
        self.events@
    }
}

impl Http3Events {
    pub fn new() -> (r: Self)
        ensures
            r@ == Seq::<Http3Event>::empty(),
    {
        Http3Events { events: Vec::new() }
    }

    /// Appends `e` unless it is already queued.
    fn insert(&mut self, e: Http3Event)
        ensures
            final(self)@ == event_insert(old(self)@, e),
    {
        let mut i: usize = 0;
        while i < self.events.len()
            invariant
                i <= self.events@.len(),
                forall|j: int| 0 <= j < i ==> self.events@[j] != e,
                self.events@ == old(self)@,
            decreases self.events@.len() - i,
        {
            if self.events[i] == e {
                return ;
            }
            i = i + 1;
        }
        assert(!self.events@.contains(e));
        self.events.push(e);
    }

    pub fn header_ready(&mut self, stream_id: u64)
        ensures
            final(self)@ == event_insert(old(self)@, Http3Event::HeaderReady { stream_id }),
    {
        self.insert(Http3Event::HeaderReady { stream_id });
    }

    pub fn data_readable(&mut self, stream_id: u64)
        ensures
            final(self)@ == event_insert(old(self)@, Http3Event::DataReadable { stream_id }),
    {
        self.insert(Http3Event::DataReadable { stream_id });
    }

    pub fn request_closed(&mut self, stream_id: u64, error: Http3Error)
        ensures
            final(self)@ == event_insert(
                old(self)@,
                Http3Event::RequestClosed { stream_id, error },
            ),
    {
        self.insert(Http3Event::RequestClosed { stream_id, error });
    }

    pub fn new_push_stream(&mut self, stream_id: u64)
        ensures
            final(self)@ == event_insert(old(self)@, Http3Event::NewPushStream { stream_id }),
    {
        self.insert(Http3Event::NewPushStream { stream_id });
    }

    /// Clears everything else: once the connection is gone, the closure is
    /// the only event the application still sees.
    pub fn connection_closed(&mut self, error_code: u16)
        ensures
            final(self)@ == seq![Http3Event::ConnectionClosed { error_code }],
    {
        self.events = Vec::new();
        self.events.push(Http3Event::ConnectionClosed { error_code });
        proof {
            assert(self.events@ =~= seq![Http3Event::ConnectionClosed { error_code }]);
        }
    }

    /// Drains the queued events, in their insertion order.
    pub fn events(&mut self) -> (r: Vec<Http3Event>)
        ensures
            r@ == old(self)@,
            final(self)@ == Seq::<Http3Event>::empty(),
    {
        let mut out: Vec<Http3Event> = Vec::new();
        core::mem::swap(&mut out, &mut self.events);
        out
    }

    /// Drops every queued event that a GOAWAY at `cutoff` invalidates,
    /// keeping the rest in order.
    pub fn filter_goaway(&mut self, cutoff: u64)
        ensures
            forall|j: int|
                0 <= j < final(self)@.len() ==> event_survives_goaway(
                    #[trigger] final(self)@[j],
                    cutoff,
                ) && old(self)@.contains(final(self)@[j]),
            forall|j: int|
                0 <= j < old(self)@.len() ==> (event_survives_goaway(
                    #[trigger] old(self)@[j],
                    cutoff,
                ) ==> final(self)@.contains(old(self)@[j])),
    {
        let mut kept: Vec<Http3Event> = Vec::new();
        let mut i: usize = 0;
        while i < self.events.len()
            invariant
                i <= self.events@.len(),
                self.events@ == old(self)@,
                forall|j: int|
                    0 <= j < kept@.len() ==> event_survives_goaway(#[trigger] kept@[j], cutoff)
                        && old(self)@.contains(kept@[j]),
                forall|j: int|
                    0 <= j < i ==> (event_survives_goaway(#[trigger] old(self)@[j], cutoff)
                        ==> kept@.contains(old(self)@[j])),
            decreases self.events@.len() - i,
        {
            let e = self.events[i];
            let keep = match e {
                Http3Event::HeaderReady { stream_id } => stream_id < cutoff,
                Http3Event::DataReadable { stream_id } => stream_id < cutoff,
                Http3Event::NewPushStream { stream_id } => stream_id < cutoff,
                Http3Event::RequestClosed { .. } => true,
                Http3Event::ConnectionClosed { .. } => true,
            };
            proof {
                assert(keep == event_survives_goaway(e, cutoff));
            }
            let ghost kept0 = kept@;
            if keep {
                kept.push(e);
                proof {
                    assert(old(self)@.contains(e)) by {
                        assert(old(self)@[i as int] == e);
                    }
                    assert(kept@.last() == e);
                }
            }
            proof {
                assert forall|j: int|
                    0 <= j < i + 1 && event_survives_goaway(
                        #[trigger] old(self)@[j],
                        cutoff,
                    ) implies kept@.contains(old(self)@[j]) by {
                    if j < i {
                        let x = old(self)@[j];
                        let k = choose|k: int| 0 <= k < kept0.len() && kept0[k] == x;
                        assert(kept@[k] == x);
                    } else {
                        assert(kept@.last() == e);
                    }
                }
            }
            i = i + 1;
        }
        self.events = kept;
    }
}

} // verus!
