//! An outbound stream buffer. Frames and raw bytes are queued at the back;
//! the transport drains from the front as much as it will take, so what goes
//! on the wire is always a prefix of what was queued, in order. The ghost
//! history records every byte ever queued, drained or not.

use vstd::prelude::*;

use crate::frame::{frame_valid, frame_wire, HFrame};

verus! {

pub struct SendBuf {
    buf: Vec<u8>,
    history: Ghost<Seq<u8>>,
}

impl SendBuf {
    /// Every byte ever queued, drained or not.
    pub closed spec fn history(self) -> Seq<u8> {
        self.history@
    }

    /// The queued bytes the transport has not yet accepted.
    pub closed spec fn buffered(self) -> Seq<u8> {
        self.buf@
    }

    /// The buffer is always the undrained suffix of the history: what was
    /// handed to the transport is exactly the prefix before it, in order.
    pub closed spec fn wf(self) -> bool {
        &&& self.buf@.len() <= self.history@.len()
        &&& self.buf@ == self.history@.skip((self.history@.len() - self.buf@.len()) as int)
    }

    pub fn new() -> (r: Self)
        ensures
            r.wf(),
            r.history() == Seq::<u8>::empty(),
            r.buffered() == Seq::<u8>::empty(),
    {
        let r = SendBuf { buf: Vec::new(), history: Ghost(Seq::empty()) };
        proof {
            assert(r.buf@ =~= r.history@.skip(0));
        }
        r
    }

    /// Queues one raw byte (a stream-type prefix).
    pub fn queue_byte(&mut self, b: u8)
        requires
            old(self).wf(),
        ensures
            final(self).wf(),
            final(self).history() == old(self).history() + seq![b],
            final(self).buffered() == old(self).buffered() + seq![b],
    {
        let ghost h0 = self.history@;
        self.buf.push(b);
        proof {
            self.history = Ghost(h0 + seq![b]);
            assert(self.buf@ =~= old(self).buffered() + seq![b]);
            assert(self.buf@ =~= self.history@.skip(
                (self.history@.len() - self.buf@.len()) as int,
            ));
        }
    }

    /// Queues raw bytes handed in from outside (QPACK instructions).
    pub fn queue_bytes(&mut self, data: &Vec<u8>)
        requires
            old(self).wf(),
        ensures
            final(self).wf(),
            final(self).history() == old(self).history() + data@,
            final(self).buffered() == old(self).buffered() + data@,
    {
        let ghost h0 = self.history@;
        crate::frame::append_bytes(&mut self.buf, data);
        proof {
            self.history = Ghost(h0 + data@);
            assert(self.buf@ =~= self.history@.skip(
                (self.history@.len() - self.buf@.len()) as int,
            ));
        }
    }

    /// Queues the encoded frame.
    pub fn queue_frame(&mut self, f: &HFrame)
        requires
            old(self).wf(),
            frame_valid(f@),
        ensures
            final(self).wf(),
            final(self).history() == old(self).history() + frame_wire(f@),
            final(self).buffered() == old(self).buffered() + frame_wire(f@),
    {
        let ghost h0 = self.history@;
        f.encode(&mut self.buf);
        proof {
            self.history = Ghost(h0 + frame_wire(f@));
            assert(self.buf@ =~= self.history@.skip(
                (self.history@.len() - self.buf@.len()) as int,
            ));
        }
    }

    pub fn has_data(&self) -> (r: bool)
        ensures
            r == (self.buffered().len() > 0),
    {
        self.buf.len() > 0
    }

    /// Drains the whole buffer.
    pub fn drain_all(&mut self) -> (out: Vec<u8>)
        requires
            old(self).wf(),
        ensures
            final(self).wf(),
            final(self).history() == old(self).history(),
            out@ == old(self).buffered(),
            final(self).buffered() == Seq::<u8>::empty(),
    {
        let mut out: Vec<u8> = Vec::new();
        core::mem::swap(&mut out, &mut self.buf);
        proof {
            assert(self.buf@ =~= self.history@.skip(
                (self.history@.len() - self.buf@.len()) as int,
            ));
        }
        out
    }

    /// Hands the transport as much of the buffer as it will take: the first
    /// `cap` queued bytes leave, in order; the rest stay queued.
    pub fn drain(&mut self, cap: usize) -> (out: Vec<u8>)
        requires
            old(self).wf(),
        ensures
            final(self).wf(),
            final(self).history() == old(self).history(),
            ({
                let n = if cap < old(self).buffered().len() {
                    cap as int
                } else {
                    old(self).buffered().len() as int
                };
                &&& out@ == old(self).buffered().take(n)
                &&& final(self).buffered() == old(self).buffered().skip(n)
            }),
    {
        if cap >= self.buf.len() {
            let mut out: Vec<u8> = Vec::new();
            core::mem::swap(&mut out, &mut self.buf);
            proof {
                assert(out@ =~= old(self).buffered().take(old(self).buffered().len() as int));
                assert(self.buf@ =~= old(self).buffered().skip(old(self).buffered().len() as int));
                assert(self.buf@ =~= self.history@.skip(
                    (self.history@.len() - self.buf@.len()) as int,
                ));
            }
            out
        } else {
            let tail = self.buf.split_off(cap);
            let mut out = tail;
            core::mem::swap(&mut out, &mut self.buf);
            proof {
                assert(out@ =~= old(self).buffered().take(cap as int));
                assert(self.buf@ =~= old(self).buffered().skip(cap as int));
                assert(self.buf@ =~= self.history@.skip(
                    (self.history@.len() - self.buf@.len()) as int,
                ));
            }
            out
        }
    }
}

} // verus!
