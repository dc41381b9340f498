use vstd::prelude::*;
use crate::compression::{Compression, CompressionKind, CompressionStream, CompressionStreamPosition, stream_emits};
use crate::count_write::{CountWrite, extends};

verus! {

/// `n` copies of the byte `b`.
pub open spec fn run_seq(b: u8, n: nat) -> Seq<u8> {
    Seq::new(n, |i| b)
}

/// Decode a byte-RLE stream: a header under 128 announces a run of
/// `header + 3` copies of the next byte; a header of 128..=255 announces
/// `256 - header` literal bytes.
pub open spec fn byte_rle_dec(s: Seq<u8>) -> Option<Seq<u8>>
    decreases s.len(),
{
    if s.len() == 0 {
        Some(Seq::empty())
    } else if s[0] < 128 {
        if s.len() < 2 {
            None
        } else {
            match byte_rle_dec(s.skip(2)) {
                Some(rest) => Some(run_seq(s[1], (s[0] + 3) as nat) + rest),
                None => None,
            }
        }
    } else {
        let n = (256 - s[0]) as int;
        if s.len() < 1 + n {
            None
        } else {
            match byte_rle_dec(s.skip(1 + n)) {
                Some(rest) => Some(s.subrange(1, 1 + n) + rest),
                None => None,
            }
        }
    }
}

/// `g` is exactly one well-formed group.
pub open spec fn is_byte_rle_group(g: Seq<u8>) -> bool {
    if g.len() == 0 {
        false
    } else if g[0] < 128 {
        g.len() == 2
    } else {
        g.len() == 1 + (256 - g[0])
    }
}

/// The values one group stands for.
pub open spec fn byte_rle_group_vals(g: Seq<u8>) -> Seq<u8>
    recommends
        is_byte_rle_group(g),
{
    if g[0] < 128 {
        run_seq(g[1], (g[0] + 3) as nat)
    } else {
        g.subrange(1, g.len() as int)
    }
}

/// Appending one whole group to a decodable stream appends that group's
/// values to the decoded result.
pub proof fn lemma_byte_rle_dec_append(a: Seq<u8>, vals: Seq<u8>, g: Seq<u8>)
    requires
        byte_rle_dec(a) == Some(vals),
        is_byte_rle_group(g),
    ensures
        byte_rle_dec(a + g) == Some(vals + byte_rle_group_vals(g)),
    decreases a.len(),
{
    if a.len() == 0 {
        assert(a + g =~= g);
        if g[0] < 128 {
            assert(g.skip(2) =~= Seq::<u8>::empty());
            assert(byte_rle_dec(Seq::<u8>::empty()) == Some(Seq::<u8>::empty()));
            assert(byte_rle_dec(g) == Some(run_seq(g[1], (g[0] + 3) as nat) + Seq::<u8>::empty()));
        } else {
            let n = (256 - g[0]) as int;
            assert(g.skip(1 + n) =~= Seq::<u8>::empty());
        }
        assert(byte_rle_group_vals(g) + Seq::<u8>::empty() =~= byte_rle_group_vals(g));
        assert(Seq::<u8>::empty() + byte_rle_group_vals(g) =~= byte_rle_group_vals(g));
    } else {
        let s = a + g;
        assert(s[0] == a[0]);
        if a[0] < 128 {
            // a starts with a run group of 2 bytes
            assert(a.len() >= 2) by {
                if a.len() < 2 {
                    assert(byte_rle_dec(a) is None);
                }
            }
            assert(s.len() >= 2);
            assert(s[1] == a[1]);
            let tail_vals = byte_rle_dec(a.skip(2)).unwrap();
            assert(byte_rle_dec(a.skip(2)) is Some);
            lemma_byte_rle_dec_append(a.skip(2), tail_vals, g);
            assert(s.skip(2) =~= a.skip(2) + g);
            assert(vals == run_seq(a[1], (a[0] + 3) as nat) + tail_vals);
            assert(run_seq(a[1], (a[0] + 3) as nat) + (tail_vals + byte_rle_group_vals(g)) =~= vals
                + byte_rle_group_vals(g));
        } else {
            let n = (256 - a[0]) as int;
            assert(a.len() >= 1 + n) by {
                if a.len() < 1 + n {
                    assert(byte_rle_dec(a) is None);
                }
            }
            assert(s.len() >= 1 + n);
            assert(s.subrange(1, 1 + n) =~= a.subrange(1, 1 + n));
            let tail_vals = byte_rle_dec(a.skip(1 + n)).unwrap();
            assert(byte_rle_dec(a.skip(1 + n)) is Some);
            lemma_byte_rle_dec_append(a.skip(1 + n), tail_vals, g);
            assert(s.skip(1 + n) =~= a.skip(1 + n) + g);
            assert(vals == a.subrange(1, 1 + n) + tail_vals);
            assert(a.subrange(1, 1 + n) + (tail_vals + byte_rle_group_vals(g)) =~= vals
                + byte_rle_group_vals(g));
        }
    }
}

/// Byte-level run-length encoder: collects literals (up to 128) and runs of
/// a repeated byte (3..=130), emitting groups into a compression stream.
pub struct ByteRLE {
    sink: CompressionStream,
    buf: Vec<u8>,
    run_len: usize,
    vals: Ghost<Seq<u8>>,
    done: Ghost<Seq<u8>>,
}

/// A seekable position in a byte-RLE stream: the compression-stream
/// position plus the number of values currently pending in the encoder.
#[derive(Clone, Copy)]
pub struct ByteRLEPosition {
    pub inner: CompressionStreamPosition,
    pub rle_offset: u64,
}

impl ByteRLEPosition {
    pub open spec fn spec_entries(&self) -> Seq<u64> {
        self.inner.spec_entries().push(self.rle_offset)
    }

    pub fn record(&self, out: &mut Vec<u64>)
        ensures
            final(out)@ == old(out)@ + self.spec_entries(),
    {
        self.inner.record(out);
        out.push(self.rle_offset);
        proof {
            assert(out@ =~= old(out)@ + self.spec_entries());
        }
    }
}

impl ByteRLE {
    /// Every value written since creation (or the last `finish`).
    pub closed spec fn vals(&self) -> Seq<u8> {
        self.vals@
    }

    pub closed spec fn spec_kind(&self) -> CompressionKind {
        self.sink.spec_kind()
    }

    pub closed spec fn spec_level(&self) -> int {
        self.sink.spec_level()
    }

    pub closed spec fn spec_block_size(&self) -> int {
        self.sink.spec_block_size()
    }

    /// Values buffered but not yet encoded into the sink.
    closed spec fn pending(&self) -> Seq<u8> {
        if self.run_len > 0 {
            run_seq(self.buf@[0], self.run_len as nat)
        } else {
            self.buf@
        }
    }

    /// Shape of the encoder state, without the value accounting.
    closed spec fn shape_ok(&self) -> bool {
        &&& self.sink.wf()
        &&& byte_rle_dec(self.sink.content()) == Some(self.done@)
        &&& (self.run_len == 0 ==> self.buf@.len() <= 128)
        &&& (self.run_len > 0 ==> self.buf@.len() == 1 && 3 <= self.run_len <= 130)
    }

    pub closed spec fn wf(&self) -> bool {
        &&& self.shape_ok()
        &&& self.vals@ == self.done@ + self.pending()
    }

    pub fn new(compression: &Compression) -> (r: ByteRLE)
        requires
            compression.wf(),
        ensures
            r.wf(),
            r.vals() == Seq::<u8>::empty(),
            r.spec_kind() == compression.spec_kind(),
            r.spec_level() == compression.spec_level() as int,
            r.spec_block_size() == compression.spec_block_size() as int,
    {
        let r = ByteRLE {
            sink: CompressionStream::new(compression),
            buf: Vec::new(),
            run_len: 0,
            vals: Ghost(Seq::empty()),
            done: Ghost(Seq::empty()),
        };
        proof {
            assert(r.vals@ =~= r.done@ + r.pending());
        }
        r
    }

    /// Number of values pending in the encoder (the RLE component of a
    /// recorded position).
    pub closed spec fn pending_count(&self) -> nat {
        self.pending().len()
    }

    pub fn position(&self) -> (r: ByteRLEPosition)
        requires
            self.wf(),
        ensures
            r.rle_offset == self.pending_count(),
    {
        ByteRLEPosition {
            inner: self.sink.position(),
            rle_offset: if self.run_len > 0 {
                self.run_len as u64
            } else {
                self.buf.len() as u64
            },
        }
    }

    /// Emit the pending group, if any, into the sink.
    fn finish_group(&mut self)
        requires
            old(self).shape_ok(),
        ensures
            final(self).shape_ok(),
            final(self).done@ == old(self).done@ + old(self).pending(),
            final(self).pending() == Seq::<u8>::empty(),
            final(self).run_len == 0,
            final(self).buf@.len() == 0,
            final(self).vals@ == old(self).vals@,
            final(self).spec_kind() == old(self).spec_kind(),
            final(self).spec_level() == old(self).spec_level(),
            final(self).spec_block_size() == old(self).spec_block_size(),
    {
        if self.run_len > 0 {
            let ghost c0 = self.sink.content();
            let header = (self.run_len - 3) as u8;
            let b = self.buf[0];
            self.sink.write_u8(header);
            self.sink.write_u8(b);
            proof {
                let g = seq![header, b];
                assert(self.sink.content() =~= c0 + g);
                assert(is_byte_rle_group(g));
                assert(byte_rle_group_vals(g) =~= old(self).pending());
                lemma_byte_rle_dec_append(c0, self.done@, g);
                self.done@ = self.done@ + old(self).pending();
            }
            self.buf.clear();
            self.run_len = 0;
            proof {
                assert(self.pending() =~= Seq::<u8>::empty());
            }
        } else if self.buf.len() > 0 {
            let ghost c0 = self.sink.content();
            let header = (256 - self.buf.len()) as u8;
            self.sink.write_u8(header);
            self.sink.write_bytes(self.buf.as_slice());
            proof {
                let g = seq![header] + old(self).buf@;
                assert(self.sink.content() =~= c0 + g);
                assert(g[0] == header);
                assert(header >= 128);
                assert(is_byte_rle_group(g));
                assert(byte_rle_group_vals(g) =~= old(self).pending());
                lemma_byte_rle_dec_append(c0, self.done@, g);
                self.done@ = self.done@ + old(self).pending();
            }
            self.buf.clear();
            proof {
                assert(self.pending() =~= Seq::<u8>::empty());
            }
        } else {
            proof {
                assert(old(self).pending() =~= Seq::<u8>::empty());
                assert(self.done@ =~= old(self).done@ + old(self).pending());
            }
        }
    }

    pub fn write(&mut self, x: u8)
        requires
            old(self).wf(),
        ensures
            final(self).wf(),
            final(self).vals() == old(self).vals().push(x),
            final(self).spec_kind() == old(self).spec_kind(),
            final(self).spec_level() == old(self).spec_level(),
            final(self).spec_block_size() == old(self).spec_block_size(),
    {
        if self.buf.len() == 128 || self.run_len == 130 {
            self.finish_group();
        }
        if self.run_len > 0 {
            if x == self.buf[0] {
                self.run_len += 1;
                proof {
                    self.vals@ = self.vals@.push(x);
                    assert(self.pending() =~= run_seq(x, (self.run_len - 1) as nat).push(x));
                    assert(self.vals@ =~= self.done@ + self.pending());
                }
            } else {
                self.finish_group();
                self.buf.push(x);
                proof {
                    self.vals@ = self.vals@.push(x);
                    assert(self.pending() =~= seq![x]);
                    assert(self.vals@ =~= self.done@ + self.pending());
                }
            }
        } else {
            let n = self.buf.len();
            if n >= 2 && x == self.buf[n - 1] && x == self.buf[n - 2] {
                let ghost lit0 = self.buf@;
                self.buf.truncate(n - 2);
                proof {
                    assert(self.buf@ =~= lit0.take(n - 2));
                }
                self.finish_group();
                self.run_len = 3;
                self.buf.push(x);
                proof {
                    self.vals@ = self.vals@.push(x);
                    assert(lit0[n - 1] == x && lit0[n - 2] == x);
                    assert(self.pending() =~= run_seq(x, 3));
                    assert(old(self).done@ + lit0.take(n - 2) + run_seq(x, 3) =~= old(
                        self,
                    ).done@ + lit0 + seq![x]);
                    assert(self.vals@ =~= self.done@ + self.pending());
                }
            } else {
                self.buf.push(x);
                proof {
                    self.vals@ = self.vals@.push(x);
                    assert(self.vals@ =~= self.done@ + self.pending());
                }
            }
        }
    }

    /// Flush the pending group and hand the encoded stream to `out`.
    /// Afterwards the encoder is empty again.
    pub fn finish(&mut self, out: &mut CountWrite)
        requires
            old(self).wf(),
        ensures
            final(self).wf(),
            final(self).vals() == Seq::<u8>::empty(),
            final(self).spec_kind() == old(self).spec_kind(),
            final(self).spec_level() == old(self).spec_level(),
            final(self).spec_block_size() == old(self).spec_block_size(),
            final(out)@.len() >= old(out)@.len(),
            extends(old(out)@, final(out)@),
            exists|enc: Seq<u8>|
                byte_rle_dec(enc) == Some(old(self).vals()) && stream_emits(
                    old(out)@,
                    final(out)@,
                    enc,
                    old(self).spec_kind(),
                    old(self).spec_level(),
                    old(self).spec_block_size(),
                ),
    {
        self.finish_group();
        let ghost enc = self.sink.content();
        proof {
            assert(byte_rle_dec(enc) == Some(old(self).vals()));
        }
        self.sink.finish(out);
        proof {
            self.vals@ = Seq::empty();
            self.done@ = Seq::empty();
            assert(self.pending() =~= Seq::<u8>::empty());
            assert(self.vals@ =~= self.done@ + self.pending());
        }
    }

    /// Bytes buffered downstream; used for stripe-size rolling.
    pub fn estimated_size(&self) -> (r: usize) {
        self.sink.estimated_size()
    }
}

} // verus!
