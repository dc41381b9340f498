use vstd::prelude::*;

verus! {

/// `post` is `pre` with more bytes appended: an append-only sink only ever
/// grows this way.
pub open spec fn extends(pre: Seq<u8>, post: Seq<u8>) -> bool {
    &&& post.len() >= pre.len()
    &&& forall|i: int| 0 <= i < pre.len() ==> post[i] == #[trigger] pre[i]
}

/// A byte sink that knows its absolute position.  The writer uses position
/// snapshots before and after each region to delimit index, data, footer and
/// postscript sections.
pub struct CountWrite {
    inner: Vec<u8>,
}

impl CountWrite {
    /// The bytes written so far.
    pub closed spec fn view(&self) -> Seq<u8> {
        self.inner@
    }

    pub fn new() -> (r: CountWrite)
        ensures
            r@ == Seq::<u8>::empty(),
    {
        CountWrite { inner: Vec::new() }
    }

    /// Absolute byte offset: everything ever written counts.
    pub fn pos(&self) -> (r: usize)
        ensures
            r == self@.len(),
    {
        self.inner.len()
    }

    pub fn write_u8(&mut self, b: u8)
        ensures
            final(self)@ == old(self)@.push(b),
    {
        self.inner.push(b);
    }

    pub fn write_bytes(&mut self, bytes: &[u8])
        ensures
            final(self)@ == old(self)@ + bytes@,
    {
        let mut i: usize = 0;
        while i < bytes.len()
            invariant
                i <= bytes@.len(),
                self.inner@ == old(self).inner@ + bytes@.take(i as int),
            decreases bytes@.len() - i,
        {
            self.inner.push(bytes[i]);
            i += 1;
            proof {
                assert(bytes@.take(i as int) == bytes@.take(i - 1).push(bytes@[i - 1]));
            }
        }
        proof {
            assert(bytes@.take(bytes@.len() as int) == bytes@);
        }
    }

    /// Hand back the accumulated bytes.
    pub fn into_inner(self) -> (r: Vec<u8>)
        ensures
            r@ == self@,
    {
        self.inner
    }
}

} // verus!
