//! The two control streams. The local one owns the single outbound
//! unidirectional control stream: frames are encoded into a buffer and
//! drained against transport backpressure, monotonically and in order. The
//! remote one holds the single inbound control stream and its frame reader;
//! binding a second inbound control stream is a protocol error, and its FIN
//! is always fatal.

use vstd::prelude::*;

use crate::err::Error;
use crate::frame::{frame_valid, frame_wire, HFrame, HFrameReader};
use crate::sendbuf::SendBuf;
use crate::varint::vi_enc;

verus! {

/// The outbound control stream: an id once bound, and the bytes queued but
/// not yet accepted by the transport.
pub struct ControlStreamLocal {
    stream_id: Option<u64>,
    buf: SendBuf,
}

impl ControlStreamLocal {
    /// Every byte ever queued on this stream, drained or not.
    pub closed spec fn history(self) -> Seq<u8> {
        self.buf.history()
    }

    /// The queued bytes the transport has not yet accepted.
    pub closed spec fn buffered(self) -> Seq<u8> {
        self.buf.buffered()
    }

    pub closed spec fn spec_stream_id(self) -> Option<u64> {
        self.stream_id
    }

    pub closed spec fn wf(self) -> bool {
        self.buf.wf()
    }

    pub fn new() -> (r: Self)
        ensures
            r.wf(),
            r.spec_stream_id() is None,
            r.history() == Seq::<u8>::empty(),
            r.buffered() == Seq::<u8>::empty(),
    {
        ControlStreamLocal { stream_id: None, buf: SendBuf::new() }
    }

    pub fn stream_id(&self) -> (r: Option<u64>)
        ensures
            r == self.spec_stream_id(),
    {
        self.stream_id
    }

    /// Binds the freshly created outbound stream and queues the
    /// control-stream-type varint (0x00) as its first byte.
    pub fn bind_stream(&mut self, stream_id: u64)
        requires
            old(self).wf(),
        ensures
            final(self).wf(),
            final(self).spec_stream_id() == Some(stream_id),
            final(self).history() == old(self).history() + vi_enc(0),
            final(self).buffered() == old(self).buffered() + vi_enc(0),
    {
        self.stream_id = Some(stream_id);
        self.buf.queue_byte(0);
        proof {
            assert(seq![0u8] =~= vi_enc(0));
        }
    }

    /// Appends the encoded frame to the outbound buffer.
    pub fn send_frame(&mut self, f: &HFrame)
        requires
            old(self).wf(),
            frame_valid(f@),
        ensures
            final(self).wf(),
            final(self).spec_stream_id() == old(self).spec_stream_id(),
            final(self).history() == old(self).history() + frame_wire(f@),
            final(self).buffered() == old(self).buffered() + frame_wire(f@),
    {
        self.buf.queue_frame(f);
    }

    pub fn has_data_to_send(&self) -> (r: bool)
        ensures
            r == (self.buffered().len() > 0),
    {
        self.buf.has_data()
    }

    /// Drains everything queued, for a transport that takes it all.
    pub fn send_all(&mut self) -> (out: Vec<u8>)
        requires
            old(self).wf(),
        ensures
            final(self).wf(),
            final(self).spec_stream_id() == old(self).spec_stream_id(),
            final(self).history() == old(self).history(),
            out@ == old(self).buffered(),
            final(self).buffered() == Seq::<u8>::empty(),
    {
        self.buf.drain_all()
    }

    /// Hands the transport as much of the buffer as it will take: the first
    /// `cap` queued bytes leave, in order; the rest stay queued.
    pub fn send(&mut self, cap: usize) -> (out: Vec<u8>)
        requires
            old(self).wf(),
        ensures
            final(self).wf(),
            final(self).spec_stream_id() == old(self).spec_stream_id(),
            final(self).history() == old(self).history(),
            ({
                let n = if cap < old(self).buffered().len() {
                    cap as int
                } else {
                    old(self).buffered().len() as int
                };
                &&& out@ == old(self).buffered().take(n)
                &&& final(self).buffered() == old(self).buffered().skip(n)
            }),
    {
        self.buf.drain(cap)
    }
}

/// The inbound control stream: at most one may ever be bound, and its
/// end is fatal to the connection the moment it is seen (the FIN itself is
/// reported by the transport with the bytes and handled right there).
pub struct ControlStreamRemote {
    pub(crate) stream_id: Option<u64>,
    pub(crate) frame_reader: HFrameReader,
}

impl ControlStreamRemote {
    pub closed spec fn spec_stream_id(self) -> Option<u64> {
        self.stream_id
    }

    pub closed spec fn wf(self) -> bool {
        &&& self.frame_reader.wf()
        &&& !self.frame_reader.spec_done()
        &&& self.stream_id is None ==> self.frame_reader.fed() == Seq::<u8>::empty()
    }

    pub fn new() -> (r: Self)
        ensures
            r.wf(),
            r.spec_stream_id() is None,
    {
        ControlStreamRemote { stream_id: None, frame_reader: HFrameReader::new() }
    }

    /// Binds the peer's control stream. A second one is `WrongStreamCount`.
    pub fn add_remote_stream(&mut self, stream_id: u64) -> (r: Result<(), Error>)
        requires
            old(self).wf(),
        ensures
            final(self).wf(),
            old(self).spec_stream_id() is Some ==> r == Err::<(), Error>(Error::WrongStreamCount)
                && *final(self) == *old(self),
            old(self).spec_stream_id() is None ==> r == Ok::<(), Error>(())
                && final(self).spec_stream_id() == Some(stream_id),
    {
        if self.stream_id.is_some() {
            Err(Error::WrongStreamCount)
        } else {
            self.stream_id = Some(stream_id);
            Ok(())
        }
    }

    /// Ties the spec accessors to the fields, for this crate's other
    /// modules.
    pub(crate) proof fn lemma_fields(&self)
        ensures
            self.spec_stream_id() == self.stream_id,
    {
    }

    /// What well-formedness provides, spelled out for this crate's other
    /// modules: the frame reader is usable and not parked on a frame.
    pub(crate) proof fn lemma_wf_parts(&self)
        requires
            self.wf(),
        ensures
            self.frame_reader.wf(),
            !self.frame_reader.spec_done(),
            self.spec_stream_id() is None ==> self.frame_reader.fed() == Seq::<u8>::empty(),
    {
    }

    /// The converse: these parts make the stream well formed again.
    pub(crate) proof fn lemma_wf_make(&self)
        requires
            self.frame_reader.wf(),
            !self.frame_reader.spec_done(),
            self.stream_id is None ==> self.frame_reader.fed() == Seq::<u8>::empty(),
        ensures
            self.wf(),
    {
    }

    /// Whether `stream_id` is the bound inbound control stream.
    pub fn is_this_stream(&self, stream_id: u64) -> (r: bool)
        ensures
            r == (self.spec_stream_id() == Some(stream_id)),
    {
        match self.stream_id {
            Some(id) => id == stream_id,
            None => false,
        }
    }
}

} // verus!
