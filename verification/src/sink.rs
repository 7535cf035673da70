use vstd::prelude::*;

use crate::bytes::append_bytes;

verus! {

/// The output sink a conversion writes to: either a real buffer that keeps
/// the bytes for the caller to persist, or a discarding sink for dry runs.
/// Both accept every write in full, so a conversion's outcome never depends
/// on which one it was given.
pub enum ShrodingerOutput {
    Buffer(Vec<u8>),
    Nothing,
}

impl ShrodingerOutput {
    /// Whether this sink discards what is written to it.
    pub open spec fn is_discard(&self) -> bool {
        self is Nothing
    }

    /// The bytes the sink has kept.
    pub open spec fn bytes(&self) -> Seq<u8> {
        match self {
            ShrodingerOutput::Buffer(b) => b@,
            ShrodingerOutput::Nothing => Seq::empty(),
        }
    }

    /// An empty sink: discarding when `discard` is set, keeping otherwise.
    pub fn new(discard: bool) -> (r: ShrodingerOutput)
        ensures
            r.is_discard() == discard,
            r.bytes() == Seq::<u8>::empty(),
    {
        if discard {
            ShrodingerOutput::Nothing
        } else {
            let v: Vec<u8> = Vec::new();
            proof {
                assert(v@ =~= Seq::<u8>::empty());
            }
            ShrodingerOutput::Buffer(v)
        }
    }

    /// Accepts the whole buffer: a keeping sink appends it, a discarding sink
    /// drops it; both report all bytes written.
    pub fn write(&mut self, buf: &Vec<u8>) -> (r: usize)
        ensures
            r == buf@.len(),
            final(self).is_discard() == old(self).is_discard(),
            final(self).bytes() == if old(self).is_discard() {
                old(self).bytes()
            } else {
                old(self).bytes() + buf@
            },
    {
        match self {
            ShrodingerOutput::Buffer(b) => {
                append_bytes(b, buf);
            },
            ShrodingerOutput::Nothing => {},
        }
        buf.len()
    }

    /// Flushing changes nothing for either variant.
    pub fn flush(&mut self)
        ensures
            *final(self) == *old(self),
    {
    }

    /// Hands out what the sink kept: nothing, for a discarding sink.
    pub fn into_bytes(self) -> (r: Vec<u8>)
        ensures
            r@ == self.bytes(),
    {
        match self {
            ShrodingerOutput::Buffer(b) => b,
            ShrodingerOutput::Nothing => {
                let v: Vec<u8> = Vec::new();
                proof {
                    assert(v@ =~= Seq::<u8>::empty());
                }
                v
            },
        }
    }
}

} // verus!
