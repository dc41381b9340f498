use vstd::prelude::*;

verus! {

/// Growable byte container; all sizeable allocations of the writer route
/// through it so that a different allocation strategy stays easy to swap in.
pub struct Buffer {
    data: Vec<u8>,
}

impl Buffer {
    /// The bytes held, oldest first.
    pub closed spec fn view(&self) -> Seq<u8> {
        self.data@
    }

    pub fn new() -> (r: Buffer)
        ensures
            r@ == Seq::<u8>::empty(),
    {
        Buffer { data: Vec::new() }
    }

    pub fn with_capacity(capacity: usize) -> (r: Buffer)
        ensures
            r@ == Seq::<u8>::empty(),
    {
        Buffer { data: Vec::with_capacity(capacity) }
    }

    pub fn len(&self) -> (r: usize)
        ensures
            r == self@.len(),
    {
        self.data.len()
    }

    /// How many bytes fit before the next reallocation.
    pub fn capacity(&self) -> (r: usize)
        ensures
            r >= self@.len(),
    {
        vec_capacity(&self.data)
    }

    /// Grow or shrink to `new_len`, filling new positions with zero.
    pub fn resize(&mut self, new_len: usize)
        ensures
            final(self)@.len() == new_len,
            forall|i: int|
                0 <= i < new_len ==> final(self)@[i] == (if i < old(self)@.len() {
                    old(self)@[i]
                } else {
                    0u8
                }),
    {
        self.data.resize(new_len, 0);
    }

    /// Grow to at least `size` bytes, keeping the current contents.
    pub fn ensure_size(&mut self, size: usize)
        ensures
            final(self)@.len() >= size,
            final(self)@.len() >= old(self)@.len(),
            forall|i: int|
                0 <= i < final(self)@.len() ==> final(self)@[i] == (if i < old(self)@.len() {
                    old(self)@[i]
                } else {
                    0u8
                }),
    {
        if self.data.len() < size {
            self.resize(size);
        }
    }

    pub fn write_u8(&mut self, b: u8)
        ensures
            final(self)@ == old(self)@.push(b),
    {
        self.data.push(b);
    }

    pub fn write_bytes(&mut self, bytes: &[u8])
        ensures
            final(self)@ == old(self)@ + bytes@,
    {
        let mut i: usize = 0;
        while i < bytes.len()
            invariant
                i <= bytes@.len(),
                self.data@ == old(self).data@ + bytes@.take(i as int),
            decreases bytes@.len() - i,
        {
            self.data.push(bytes[i]);
            i += 1;
            proof {
                assert(bytes@.take(i as int) == bytes@.take(i - 1).push(bytes@[i - 1]));
            }
        }
        proof {
            assert(bytes@.take(bytes@.len() as int) == bytes@);
        }
    }

    /// Read back one byte; used when patching already-buffered output.
    pub fn get(&self, i: usize) -> (r: u8)
        requires
            i < self@.len(),
        ensures
            r == self@[i as int],
    {
        self.data[i]
    }

    /// Borrow the bytes as a slice.
    pub fn as_slice(&self) -> (r: &[u8])
        ensures
            r@ == self@,
    {
        self.data.as_slice()
    }
}

/// Relies on `Vec::capacity`: the number of elements the vector can hold
/// without reallocating, documented to be at least its length.
#[verifier::external_body]
fn vec_capacity(v: &Vec<u8>) -> (r: usize)
    ensures
        r >= v@.len(),
{
    v.capacity()
}

} // verus!
