//! The sink that a response is written to: a chain of buffers of fixed size,
//! filled in order, with a new one added whenever a write does not fit.

use vstd::prelude::*;

verus! {

/// The least size of a buffer that the sink adds: 64 KiB.
pub const MIN_BUF_SIZE: usize = 0x10000;

/// One buffer of the chain: the bytes written to it so far, and the number
/// of bytes it has room for.
#[derive(Debug)]
pub struct Segment {
    data: Vec<u8>,
    size: usize,
}

impl Segment {
    #[verifier::type_invariant]
    spec fn within_size(self) -> bool {
        self.data@.len() <= self.size
    }

    /// The bytes written to this buffer.
    pub closed spec fn bytes(&self) -> Seq<u8> {
        self.data@
    }

    /// The number of bytes this buffer has room for.
    pub closed spec fn capacity(&self) -> nat {
        self.size as nat
    }

    /// The bytes written to this buffer.
    pub fn as_slice(&self) -> (r: &[u8])
        ensures
            r@ == self.bytes(),
            r@.len() <= self.capacity(),
    {
        proof {
            use_type_invariant(self);
        }
        self.data.as_slice()
    }

    /// The number of bytes this buffer has room for.
    pub fn size(&self) -> (r: usize)
        ensures
            r == self.capacity(),
            self.bytes().len() <= r,
    {
        proof {
            use_type_invariant(self);
        }
        self.size
    }
}

/// The bytes of each buffer of a chain, in order.
pub open spec fn chain_bytes(chain: Seq<Segment>) -> Seq<Seq<u8>> {
    Seq::new(chain.len(), |i: int| chain[i].bytes())
}

/// An append-only sink of bytes over a chain of buffers.
#[derive(Debug)]
pub struct NginxBuffer {
    chain: Vec<Segment>,
}

impl View for NginxBuffer {
    type V = Seq<u8>;

    /// All bytes written, in order: those of the buffers, one after another.
    closed spec fn view(&self) -> Seq<u8> {
        chain_bytes(self.chain@).flatten()
    }
}

impl NginxBuffer {
    /// The chain of buffers, first to last.
    pub closed spec fn segments(&self) -> Seq<Segment> {
        self.chain@
    }

    /// Whether a write of `len` bytes goes into the last buffer: there is one,
    /// and the room left in it is at least `len`.
    pub open spec fn fits(&self, len: nat) -> bool {
        self.segments().len() > 0 && self.segments().last().capacity()
            - self.segments().last().bytes().len() >= len
    }

    /// A sink with nothing written and no buffer yet.
    pub fn new() -> (r: NginxBuffer)
        ensures
            r@ == Seq::<u8>::empty(),
            r.segments().len() == 0,
    {
        let r = NginxBuffer { chain: Vec::new() };
        assert(chain_bytes(r.chain@) =~= Seq::empty());
        r
    }

    /// Appends `buf`, whole, and returns its length. The bytes go into the
    /// last buffer where they fit; otherwise a buffer is added that has room
    /// for `MIN_BUF_SIZE` bytes, or for `buf` if that is longer.
    pub fn write(&mut self, buf: &[u8]) -> (n: usize)
        ensures
            n == buf@.len(),
            final(self)@ == old(self)@ + buf@,
            old(self).fits(buf@.len()) ==> {
                &&& final(self).segments().len() == old(self).segments().len()
                &&& final(self).segments().drop_last() == old(self).segments().drop_last()
                &&& final(self).segments().last().bytes() == old(self).segments().last().bytes()
                    + buf@
                &&& final(self).segments().last().capacity() == old(
                    self,
                ).segments().last().capacity()
            },
            !old(self).fits(buf@.len()) ==> {
                &&& final(self).segments().drop_last() == old(self).segments()
                &&& final(self).segments().last().bytes() == buf@
                &&& final(self).segments().last().capacity() == if buf@.len() > MIN_BUF_SIZE {
                    buf@.len()
                } else {
                    MIN_BUF_SIZE as nat
                }
            },
    {
        let ghost before = self.chain@;
        let len = buf.len();
        let mut needs_allocation = true;
        if self.chain.len() > 0 {
            let last = &self.chain[self.chain.len() - 1];
            proof {
                use_type_invariant(last);
            }
            needs_allocation = last.size - last.data.len() < len;
        }
        if needs_allocation {
            let size = if len > MIN_BUF_SIZE {
                len
            } else {
                MIN_BUF_SIZE
            };
            let mut data: Vec<u8> = Vec::with_capacity(size);
            data.extend_from_slice(buf);
            assert(data@ =~= buf@);
            let segment = Segment { data, size };
            self.chain.push(segment);
            proof {
                assert(chain_bytes(self.chain@) =~= chain_bytes(before).push(buf@));
                chain_bytes(before).lemma_flatten_push(buf@);
                assert(self.chain@.drop_last() =~= before);
            }
        } else {
            let mut last = self.chain.pop().unwrap();
            let ghost rest = self.chain@;
            let ghost held = last.data@;
            proof {
                use_type_invariant(&last);
                assert(chain_bytes(before) =~= chain_bytes(rest).push(held));
                chain_bytes(rest).lemma_flatten_push(held);
            }
            let mut data = last.data;
            data.extend_from_slice(buf);
            assert(data@ =~= held + buf@);
            let segment = Segment { data, size: last.size };
            self.chain.push(segment);
            proof {
                assert(chain_bytes(self.chain@) =~= chain_bytes(rest).push(held + buf@));
                chain_bytes(rest).lemma_flatten_push(held + buf@);
                assert(chain_bytes(rest).flatten() + (held + buf@) =~= chain_bytes(
                    rest,
                ).flatten() + held + buf@);
                assert(self.chain@.drop_last() =~= rest);
                assert(before.drop_last() =~= rest);
            }
        }
        len
    }

    /// Does nothing: every write is in the chain when `write` returns.
    pub fn flush(&mut self)
        ensures
            *final(self) == *old(self),
    {
    }

    /// The chain of buffers, first to last. Their bytes, one buffer after
    /// another, are what the sink holds.
    pub fn chain(&self) -> (r: &Vec<Segment>)
        ensures
            r@ == self.segments(),
            chain_bytes(r@).flatten() == self@,
    {
        &self.chain
    }
}

} // verus!
