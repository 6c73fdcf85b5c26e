//! A growable buffer of `u32` values with explicit capacity: slots beyond
//! the length are reserved, and a full buffer grows to twice its capacity
//! plus one.

use vstd::prelude::*;
use vstd::slice::slice_subrange;

verus! {

pub struct GrowBuf {
    buf: Vec<u32>,
    len: usize,
}

impl GrowBuf {
    /// The length never exceeds the reserved slots.
    pub closed spec fn wf(&self) -> bool {
        self.len <= self.buf.len()
    }

    /// The number of slots reserved.
    pub closed spec fn capacity(&self) -> nat {
        self.buf.len() as nat
    }
}

impl View for GrowBuf {
    type V = Seq<u32>;

    /// The values pushed so far, in order.
    closed spec fn view(&self) -> Seq<u32> {
        self.buf@.take(self.len as int)
    }
}

impl GrowBuf {
    /// An empty buffer with `cap` reserved slots.
    pub fn with_capacity(cap: usize) -> (r: GrowBuf)
        ensures
            r.wf(),
            r@ == Seq::<u32>::empty(),
            r.capacity() == cap,
    {
        let mut buf: Vec<u32> = Vec::with_capacity(cap);
        buf.resize(cap, 0);
        GrowBuf { buf, len: 0 }
    }

    /// Appends `value`; a full buffer first grows to twice its capacity
    /// plus one.
    pub fn push(&mut self, value: u32)
        requires
            old(self).wf(),
            old(self)@.len() == old(self).capacity() ==> old(self).capacity() * 2 + 1 <= usize::MAX,
        ensures
            final(self).wf(),
            final(self)@ == old(self)@.push(value),
            final(self).capacity() == if old(self)@.len() == old(self).capacity() {
                old(self).capacity() * 2 + 1
            } else {
                old(self).capacity()
            },
    {
        let ghost before = self@;
        if self.len == self.buf.len() {
            let grown = self.buf.len() * 2 + 1;
            self.buf.resize(grown, 0);
            assert(self.buf@.take(self.len as int) =~= before);
        }
        let i = self.len;
        self.buf.set(i, value);
        self.len = i + 1;
        assert(self@ =~= before.push(value));
    }

    /// The number of values pushed so far.
    pub fn len(&self) -> (r: usize)
        requires
            self.wf(),
        ensures
            r == self@.len(),
    {
        self.len
    }

    /// The number of slots reserved.
    pub fn reserved(&self) -> (r: usize)
        ensures
            r == self.capacity(),
    {
        self.buf.len()
    }

    /// The values pushed so far.
    pub fn as_slice(&self) -> (r: &[u32])
        requires
            self.wf(),
        ensures
            r@ == self@,
    {
        let r = slice_subrange(self.buf.as_slice(), 0, self.len);
        assert(r@ =~= self@);
        r
    }
}

} // verus!
