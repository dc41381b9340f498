use vstd::prelude::*;
use crate::compression::{Compression, CompressionKind, stream_emits};
use crate::count_write::{CountWrite, extends};
use crate::encoder::byte_rle::{ByteRLE, ByteRLEPosition, byte_rle_dec};

verus! {

/// The value of a bit string read MSB-first.
pub open spec fn bit_val(p: Seq<bool>) -> nat
    decreases p.len(),
{
    if p.len() == 0 {
        0
    } else {
        2 * bit_val(p.drop_last()) + (if p.last() {
            1nat
        } else {
            0nat
        })
    }
}

/// The eight bits of a byte, MSB first.
pub open spec fn byte_bits(b: u8) -> Seq<bool> {
    seq![
        b & 128 != 0,
        b & 64 != 0,
        b & 32 != 0,
        b & 16 != 0,
        b & 8 != 0,
        b & 4 != 0,
        b & 2 != 0,
        b & 1 != 0,
    ]
}

/// All bits of a byte string, MSB first within each byte.
pub open spec fn bytes_bits(bs: Seq<u8>) -> Seq<bool>
    decreases bs.len(),
{
    if bs.len() == 0 {
        Seq::empty()
    } else {
        bytes_bits(bs.drop_last()) + byte_bits(bs.last())
    }
}

pub proof fn lemma_bit_val_bound(p: Seq<bool>)
    ensures
        bit_val(p) < vstd::arithmetic::power2::pow2(p.len()),
    decreases p.len(),
{
    if p.len() == 0 {
        vstd::arithmetic::power2::lemma2_to64();
    } else {
        vstd::arithmetic::power2::lemma_pow2_unfold(p.len());
        lemma_bit_val_bound(p.drop_last());
    }
}

/// Packing eight bits MSB-first and reading them back is the identity.
pub proof fn lemma_byte_bits_val(p: Seq<bool>)
    requires
        p.len() == 8,
    ensures
        bit_val(p) < 256,
        byte_bits(bit_val(p) as u8) =~= p,
{
    lemma_bit_val_bound(p);
    vstd::arithmetic::power2::lemma2_to64();
    let p7 = p.drop_last();
    let p6 = p7.drop_last();
    let p5 = p6.drop_last();
    let p4 = p5.drop_last();
    let p3 = p4.drop_last();
    let p2 = p3.drop_last();
    let p1 = p2.drop_last();
    let p0 = p1.drop_last();
    assert(p0.len() == 0);
    let c0: u8 = if p[0] { 1 } else { 0 };
    let c1: u8 = if p[1] { 1 } else { 0 };
    let c2: u8 = if p[2] { 1 } else { 0 };
    let c3: u8 = if p[3] { 1 } else { 0 };
    let c4: u8 = if p[4] { 1 } else { 0 };
    let c5: u8 = if p[5] { 1 } else { 0 };
    let c6: u8 = if p[6] { 1 } else { 0 };
    let c7: u8 = if p[7] { 1 } else { 0 };
    assert(bit_val(p0) == 0);
    assert(p1.last() == p[0] && bit_val(p1) == 2 * bit_val(p0) + c0);
    assert(p2.last() == p[1] && bit_val(p2) == 2 * bit_val(p1) + c1);
    assert(p3.last() == p[2] && bit_val(p3) == 2 * bit_val(p2) + c2);
    assert(p4.last() == p[3] && bit_val(p4) == 2 * bit_val(p3) + c3);
    assert(p5.last() == p[4] && bit_val(p5) == 2 * bit_val(p4) + c4);
    assert(p6.last() == p[5] && bit_val(p6) == 2 * bit_val(p5) + c5);
    assert(p7.last() == p[6] && bit_val(p7) == 2 * bit_val(p6) + c6);
    assert(p.last() == p[7] && bit_val(p) == 2 * bit_val(p7) + c7);
    assert(bit_val(p) == 128 * c0 + 64 * c1 + 32 * c2 + 16 * c3 + 8 * c4 + 4 * c5 + 2 * c6 + c7);
    let v = bit_val(p) as u8;
    assert((v & 128 != 0) == (c0 == 1) && (v & 64 != 0) == (c1 == 1) && (v & 32 != 0) == (c2 == 1)
        && (v & 16 != 0) == (c3 == 1) && (v & 8 != 0) == (c4 == 1) && (v & 4 != 0) == (c5 == 1) && (
    v & 2 != 0) == (c6 == 1) && (v & 1 != 0) == (c7 == 1)) by (bit_vector)
        requires
            v == 128 * c0 + 64 * c1 + 32 * c2 + 16 * c3 + 8 * c4 + 4 * c5 + 2 * c6 + c7,
            c0 <= 1 && c1 <= 1 && c2 <= 1 && c3 <= 1 && c4 <= 1 && c5 <= 1 && c6 <= 1 && c7 <= 1,
    ;
}

/// Appending trailing false bits multiplies the packed value by the matching
/// power of two.
pub proof fn lemma_bit_val_pad(p: Seq<bool>, k: nat)
    ensures
        bit_val(p + Seq::new(k, |i| false)) == bit_val(p) * vstd::arithmetic::power2::pow2(k),
    decreases k,
{
    let padded = p + Seq::new(k, |i| false);
    if k == 0 {
        assert(padded =~= p);
        vstd::arithmetic::power2::lemma2_to64();
    } else {
        lemma_bit_val_pad(p, (k - 1) as nat);
        assert(padded.drop_last() =~= p + Seq::new((k - 1) as nat, |i| false));
        assert(padded.last() == false);
        assert(bit_val(padded) == 2 * bit_val(padded.drop_last()));
        vstd::arithmetic::power2::lemma_pow2_unfold(k);
        assert(bit_val(p) * vstd::arithmetic::power2::pow2(k) == 2 * (bit_val(p)
            * vstd::arithmetic::power2::pow2((k - 1) as nat))) by (nonlinear_arith)
            requires
                vstd::arithmetic::power2::pow2(k) == 2 * vstd::arithmetic::power2::pow2(
                    (k - 1) as nat,
                ),
        ;
    }
}

/// `enc` is a byte-RLE stream of packed bytes whose first `bits.len()` bits
/// are `bits` and whose trailing padding bits are all clear.
pub open spec fn bool_rle_decodes(enc: Seq<u8>, bits: Seq<bool>) -> bool {
    exists|bytes: Seq<u8>|
        {
            &&& byte_rle_dec(enc) == Some(bytes)
            &&& bits.len() <= bytes_bits(bytes).len() < bits.len() + 8
            &&& bytes_bits(bytes).take(bits.len() as int) == bits
            &&& forall|i: int|
                bits.len() <= i < bytes_bits(bytes).len() ==> !#[trigger] bytes_bits(bytes)[i]
        }
}

/// The packed bytes carry exactly `bits` followed by clear padding.
pub open spec fn bool_rle_decodes_pending(bytes: Seq<u8>, bits: Seq<bool>) -> bool {
    &&& bits.len() <= bytes_bits(bytes).len() < bits.len() + 8
    &&& bytes_bits(bytes).take(bits.len() as int) == bits
    &&& forall|i: int| bits.len() <= i < bytes_bits(bytes).len() ==> !#[trigger] bytes_bits(bytes)[i]
}

/// Boolean run-length encoder: packs incoming booleans MSB-first into bytes
/// and feeds them to a byte-RLE encoder.
pub struct BooleanRLE {
    byte_rle: ByteRLE,
    buf: u8,
    cnt: u8,
    bits: Ghost<Seq<bool>>,
    pending: Ghost<Seq<bool>>,
}

/// A seekable position in a boolean stream: the byte-RLE position plus the
/// bit offset (0..=7) within the byte being packed.
#[derive(Clone, Copy)]
pub struct BooleanRLEPosition {
    pub inner: ByteRLEPosition,
    pub bits: u8,
}

impl BooleanRLEPosition {
    pub open spec fn spec_entries(&self) -> Seq<u64> {
        self.inner.spec_entries().push(self.bits as u64)
    }

    pub fn record(&self, out: &mut Vec<u64>)
        ensures
            final(out)@ == old(out)@ + self.spec_entries(),
    {
        self.inner.record(out);
        out.push(self.bits as u64);
        proof {
            assert(out@ =~= old(out)@ + self.spec_entries());
        }
    }
}

impl BooleanRLE {
    /// Every boolean written since creation (or the last `finish`).
    pub closed spec fn vals(&self) -> Seq<bool> {
        self.bits@
    }

    pub closed spec fn spec_kind(&self) -> CompressionKind {
        self.byte_rle.spec_kind()
    }

    pub closed spec fn spec_level(&self) -> int {
        self.byte_rle.spec_level()
    }

    pub closed spec fn spec_block_size(&self) -> int {
        self.byte_rle.spec_block_size()
    }

    pub closed spec fn wf(&self) -> bool {
        &&& self.byte_rle.wf()
        &&& self.cnt == self.pending@.len() <= 7
        &&& self.buf == bit_val(self.pending@)
        &&& self.bits@ == bytes_bits(self.byte_rle.vals()) + self.pending@
    }

    pub fn new(compression: &Compression) -> (r: BooleanRLE)
        requires
            compression.wf(),
        ensures
            r.wf(),
            r.vals() == Seq::<bool>::empty(),
            r.spec_kind() == compression.spec_kind(),
            r.spec_level() == compression.spec_level() as int,
            r.spec_block_size() == compression.spec_block_size() as int,
    {
        let r = BooleanRLE {
            byte_rle: ByteRLE::new(compression),
            buf: 0,
            cnt: 0,
            bits: Ghost(Seq::empty()),
            pending: Ghost(Seq::empty()),
        };
        proof {
            assert(r.bits@ =~= bytes_bits(r.byte_rle.vals()) + r.pending@);
        }
        r
    }

    pub fn position(&self) -> (r: BooleanRLEPosition)
        requires
            self.wf(),
        ensures
            r.bits == self.vals().len() % 8,
    {
        proof {
            lemma_bytes_bits_len(self.byte_rle.vals());
        }
        BooleanRLEPosition { inner: self.byte_rle.position(), bits: self.cnt }
    }

    pub fn write(&mut self, x: bool)
        requires
            old(self).wf(),
        ensures
            final(self).wf(),
            final(self).vals() == old(self).vals().push(x),
            final(self).spec_kind() == old(self).spec_kind(),
            final(self).spec_level() == old(self).spec_level(),
            final(self).spec_block_size() == old(self).spec_block_size(),
    {
        proof {
            lemma_bit_val_bound(self.pending@);
            vstd::arithmetic::power2::lemma2_to64();
        }
        self.buf = self.buf * 2 + (if x {
            1
        } else {
            0
        });
        proof {
            self.pending@ = self.pending@.push(x);
            self.bits@ = self.bits@.push(x);
            assert(self.pending@.drop_last() =~= old(self).pending@);
            assert(self.bits@ =~= bytes_bits(self.byte_rle.vals()) + self.pending@);
        }
        if self.cnt == 7 {
            self.cnt = 0;
            let b = self.buf;
            self.buf = 0;
            proof {
                lemma_byte_bits_val(self.pending@);
            }
            self.byte_rle.write(b);
            proof {
                let bytes = self.byte_rle.vals();
                assert(bytes.drop_last() =~= old(self).byte_rle.vals());
                assert(bytes_bits(bytes) == bytes_bits(bytes.drop_last()) + byte_bits(b));
                assert(byte_bits(b) =~= self.pending@);
                self.pending@ = Seq::empty();
                assert(self.bits@ =~= bytes_bits(bytes) + self.pending@);
            }
        } else {
            self.cnt = self.cnt + 1;
        }
    }

    /// Pad the trailing partial byte with clear bits, flush, and hand the
    /// encoded stream to `out`.
    #[verifier::loop_isolation(false)]
    pub fn finish(&mut self, out: &mut CountWrite)
        requires
            old(self).wf(),
        ensures
            final(self).wf(),
            final(self).vals() == Seq::<bool>::empty(),
            final(self).spec_kind() == old(self).spec_kind(),
            final(self).spec_level() == old(self).spec_level(),
            final(self).spec_block_size() == old(self).spec_block_size(),
            final(out)@.len() >= old(out)@.len(),
            extends(old(out)@, final(out)@),
            exists|enc: Seq<u8>|
                bool_rle_decodes(enc, old(self).vals()) && stream_emits(
                    old(out)@,
                    final(out)@,
                    enc,
                    old(self).spec_kind(),
                    old(self).spec_level(),
                    old(self).spec_block_size(),
                ),
    {
        let ghost pad: nat = if self.cnt > 0 {
            (8 - self.cnt) as nat
        } else {
            0
        };
        let ghost zeros = Seq::new(pad, |i: int| false);
        if self.cnt > 0 {
            let mut padded = self.buf;
            let mut k = self.cnt;
            proof {
                lemma_bit_val_pad(self.pending@, 0);
                lemma_bit_val_bound(self.pending@);
                vstd::arithmetic::power2::lemma2_to64();
                assert(self.pending@ + Seq::new(0, |i| false) =~= self.pending@);
            }
            while k < 8
                invariant
                    self.cnt <= k <= 8,
                    padded == bit_val(self.pending@ + Seq::new((k - self.cnt) as nat, |i| false)),
                    bit_val(self.pending@ + Seq::new((k - self.cnt) as nat, |i| false)) < vstd::arithmetic::power2::pow2(k as nat),
                decreases 8 - k,
            {
                proof {
                    let q = self.pending@ + Seq::new((k - self.cnt) as nat, |i| false);
                    let q2 = self.pending@ + Seq::new((k + 1 - self.cnt) as nat, |i| false);
                    assert(q2.drop_last() =~= q);
                    assert(q2.last() == false);
                    assert(bit_val(q2) == 2 * bit_val(q));
                    vstd::arithmetic::power2::lemma_pow2_unfold((k + 1) as nat);
                    vstd::arithmetic::power2::lemma2_to64();
                }
                padded = padded * 2;
                k = k + 1;
            }
            let ghost full = self.pending@ + zeros;
            proof {
                vstd::arithmetic::power2::lemma2_to64();
                lemma_byte_bits_val(full);
            }
            self.byte_rle.write(padded);
            self.cnt = 0;
            self.buf = 0;
            proof {
                let bytes = self.byte_rle.vals();
                assert(bytes.drop_last() =~= old(self).byte_rle.vals());
                assert(bytes_bits(bytes) == bytes_bits(bytes.drop_last()) + byte_bits(padded));
                assert(byte_bits(padded) =~= full);
                assert(bytes_bits(bytes) =~= old(self).bits@ + zeros);
                self.pending@ = Seq::empty();
            }
        }
        let ghost bytes = self.byte_rle.vals();
        let ghost n = old(self).bits@.len() as int;
        proof {
            lemma_bytes_bits_len(bytes);
            if old(self).cnt == 0 {
                assert(zeros =~= Seq::<bool>::empty());
                assert(bytes_bits(bytes) =~= old(self).bits@ + zeros);
            }
            assert(bytes_bits(bytes) == old(self).bits@ + zeros);
            assert(bytes_bits(bytes).take(n) =~= old(self).bits@);
            assert(forall|i: int|
                n <= i < bytes_bits(bytes).len() ==> !#[trigger] bytes_bits(bytes)[i]);
            assert(bool_rle_decodes_pending(bytes, old(self).bits@));
        }
        self.byte_rle.finish(out);
        proof {
            let k = old(self).spec_kind();
            let lv = old(self).spec_level();
            let bs = old(self).spec_block_size();
            let enc = choose|enc: Seq<u8>|
                byte_rle_dec(enc) == Some(bytes) && stream_emits(old(out)@, out@, enc, k, lv, bs);
            assert(byte_rle_dec(enc) == Some(bytes));
            assert(bool_rle_decodes(enc, old(self).bits@));
            assert(stream_emits(old(out)@, out@, enc, k, lv, bs));
            assert(bool_rle_decodes(enc, old(self).vals()) && stream_emits(
                old(out)@,
                out@,
                enc,
                k,
                lv,
                bs,
            ));
            self.bits@ = Seq::empty();
            self.pending@ = Seq::empty();
            assert(self.bits@ =~= bytes_bits(self.byte_rle.vals()) + self.pending@);
        }
    }

    /// Bytes buffered downstream; used for stripe-size rolling.
    pub fn estimated_size(&self) -> (r: usize) {
        self.byte_rle.estimated_size()
    }
}

/// Eight bits per byte.
pub proof fn lemma_bytes_bits_len(bs: Seq<u8>)
    ensures
        bytes_bits(bs).len() == 8 * bs.len(),
    decreases bs.len(),
{
    if bs.len() > 0 {
        lemma_bytes_bits_len(bs.drop_last());
    }
}

} // verus!
