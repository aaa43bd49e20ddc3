//! The reader for the single leading varint that types every new inbound
//! unidirectional stream (control, push, QPACK encoder, QPACK decoder,
//! unknown). It tolerates the varint arriving one byte at a time; a FIN
//! before the varint completes drops the stream silently.

use vstd::prelude::*;

use crate::frame::take_varint;
use crate::varint::VarintDecoder;

verus! {

/// Reads exactly one leading varint from a fresh unidirectional stream.
pub struct NewStreamTypeReader {
    reader: VarintDecoder,
}

impl NewStreamTypeReader {
    /// The type-varint bytes consumed so far.
    pub closed spec fn pending(self) -> Seq<u8> {
        self.reader.fed()
    }

    pub closed spec fn wf(self) -> bool {
        &&& self.reader.wf()
        &&& take_varint(self.reader.fed()) is None
    }

    pub fn new() -> (r: Self)
        ensures
            r.wf(),
            r.pending() == Seq::<u8>::empty(),
    {
        NewStreamTypeReader { reader: VarintDecoder::new() }
    }

    /// Consumes bytes of `data` from `start` on, until the type varint
    /// completes or the bytes run out. Returns the stream type once whole,
    /// and how many bytes it took.
    pub fn get_type(&mut self, data: &Vec<u8>, start: usize) -> (r: (Option<u64>, usize))
        requires
            old(self).wf(),
            start <= data.len(),
        ensures
            final(self).wf(),
            start + r.1 <= data.len(),
            ({
                let all = old(self).pending() + data@.subrange(start as int, (start + r.1) as int);
                match r.0 {
                    Some(t) => {
                        &&& take_varint(all) == Some((t, all.len() as nat))
                        &&& final(self).pending() == Seq::<u8>::empty()
                    },
                    None => {
                        &&& take_varint(all) is None
                        &&& start + r.1 == data.len()
                        &&& final(self).pending() == all
                    },
                }
            }),
    {
        let mut i: usize = start;
        while i < data.len()
            invariant
                old(self).wf(),
                self.wf(),
                start <= i <= data.len(),
                self.pending() == old(self).pending() + data@.subrange(start as int, i as int),
                take_varint(self.pending()) is None,
            decreases data.len() - i,
        {
            let ghost pre = self.reader.fed();
            let r = self.reader.consume(data[i]);
            proof {
                assert(pre.push(data@[i as int]) =~= old(self).pending() + data@.subrange(
                    start as int,
                    i + 1,
                ));
                if pre.push(data@[i as int]).len() == crate::varint::vi_size_of_first(
                    pre.push(data@[i as int])[0],
                ) {
                    let all = pre.push(data@[i as int]);
                    assert(all.take(all.len() as int) =~= all);
                }
            }
            if let Some(t) = r {
                return (Some(t), i + 1 - start);
            }
            i = i + 1;
        }
        (None, data.len() - start)
    }
}

} // verus!
