use vstd::prelude::*;
use crate::compression::{Compression, CompressionKind, CompressionStream, CompressionStreamPosition, stream_emits};
use crate::count_write::{CountWrite, extends};
use crate::encoder::varint::{varint_enc, varint_dec, lemma_varint_round_trip, lemma_varint_dec_len, lemma_varint_dec_extend, zigzag64, unzigzag64, lemma_zigzag64_round_trip, zigzag64_exec, write_varu64, VarInt};

verus! {

/// Signed and unsigned 64-bit values share one encoder over their two's
/// complement bit patterns; only the varint serialization differs.  These
/// helpers move between patterns and mathematical values.
pub open spec fn pat_of_int(i: int) -> u64
    recommends
        -0x8000_0000_0000_0000 <= i < 0x8000_0000_0000_0000,
{
    if i >= 0 {
        i as u64
    } else {
        (i + 0x1_0000_0000_0000_0000) as u64
    }
}

/// The signed value a pattern stands for.
pub open spec fn pat_to_i64(v: u64) -> i64 {
    if v < 0x8000_0000_0000_0000 {
        v as i64
    } else {
        (v - 0x1_0000_0000_0000_0000) as i64
    }
}

/// The signed images of a pattern sequence.
pub open spec fn pats_to_i64(s: Seq<u64>) -> Seq<i64> {
    s.map_values(|v: u64| pat_to_i64(v))
}

/// Sign extension of a delta byte to a 64-bit pattern.
pub open spec fn sext8(b: u8) -> u64 {
    if b < 128 {
        b as u64
    } else {
        (b + 0xFFFF_FFFF_FFFF_FF00u64) as u64
    }
}

/// The pattern stands for a signed value in -128..=127.
pub open spec fn fits_i8_pat(v: u64) -> bool {
    v < 128 || v >= 0xFFFF_FFFF_FFFF_FF80u64
}

pub open spec fn wadd(a: u64, d: u64) -> u64 {
    if a + d > u64::MAX {
        (a + d - 0x1_0000_0000_0000_0000) as u64
    } else {
        (a + d) as u64
    }
}

pub open spec fn wsub(a: u64, d: u64) -> u64 {
    if a - d < 0 {
        (a - d + 0x1_0000_0000_0000_0000) as u64
    } else {
        (a - d) as u64
    }
}

/// The `i`-th value of a run: the base stepped `i` times by the delta.
pub open spec fn run_nth(base: u64, delta: u64, i: nat) -> u64
    decreases i,
{
    if i == 0 {
        base
    } else {
        wadd(run_nth(base, delta, (i - 1) as nat), delta)
    }
}

/// The `n` values of a run.
pub open spec fn run_vals(base: u64, delta: u64, n: nat) -> Seq<u64> {
    Seq::new(n, |i| run_nth(base, delta, i as nat))
}

/// The varint image a value is serialized as: zig-zag of the signed value
/// for signed streams, the pattern itself for unsigned ones.
pub open spec fn wire_of(v: u64, signed: bool) -> nat {
    if signed {
        zigzag64(pat_to_i64(v))
    } else {
        v as nat
    }
}

/// The pattern a varint image stands for.
pub open spec fn val_of_wire(w: nat, signed: bool) -> u64
    recommends
        w < 0x1_0000_0000_0000_0000,
{
    if signed {
        pat_of_int(unzigzag64(w))
    } else {
        w as u64
    }
}

pub proof fn lemma_wire_round_trip(v: u64, signed: bool)
    ensures
        wire_of(v, signed) < 0x1_0000_0000_0000_0000,
        val_of_wire(wire_of(v, signed), signed) == v,
{
    if signed {
        lemma_zigzag64_round_trip(pat_to_i64(v));
    }
}

/// Decode `n` varint values from the front of `s`: the patterns and the
/// bytes consumed.
pub open spec fn varints_dec(s: Seq<u8>, n: nat, signed: bool) -> Option<(Seq<u64>, int)>
    decreases n,
{
    if n == 0 {
        Some((Seq::empty(), 0))
    } else {
        match varint_dec(s) {
            Some((w, k)) => {
                if w < 0x1_0000_0000_0000_0000 {
                    match varints_dec(s.skip(k), (n - 1) as nat, signed) {
                        Some((vs, m)) => Some((seq![val_of_wire(w, signed)] + vs, k + m)),
                        None => None,
                    }
                } else {
                    None
                }
            },
            None => None,
        }
    }
}

pub proof fn lemma_varints_dec_len(s: Seq<u8>, n: nat, signed: bool)
    requires
        varints_dec(s, n, signed) is Some,
    ensures
        ({
            let (vs, m) = varints_dec(s, n, signed).unwrap();
            vs.len() == n && n <= m <= s.len()
        }),
    decreases n,
{
    if n > 0 {
        let (w, k) = varint_dec(s).unwrap();
        lemma_varint_dec_len(s);
        lemma_varints_dec_len(s.skip(k), (n - 1) as nat, signed);
    }
}

/// What a varint list decodes to does not depend on the bytes after it.
pub proof fn lemma_varints_dec_extend(s: Seq<u8>, t: Seq<u8>, n: nat, signed: bool)
    requires
        varints_dec(s, n, signed) is Some,
    ensures
        varints_dec(s + t, n, signed) == varints_dec(s, n, signed),
    decreases n,
{
    if n > 0 {
        let (w, k) = varint_dec(s).unwrap();
        lemma_varint_dec_len(s);
        lemma_varint_dec_extend(s, t);
        assert((s + t).skip(k) =~= s.skip(k) + t);
        lemma_varints_dec_extend(s.skip(k), t, (n - 1) as nat, signed);
    }
}

/// The concatenated varint encodings of `vals` (in wire form).
pub open spec fn varints_enc(vals: Seq<u64>, signed: bool) -> Seq<u8>
    decreases vals.len(),
{
    if vals.len() == 0 {
        Seq::empty()
    } else {
        varint_enc(wire_of(vals[0], signed)) + varints_enc(vals.skip(1), signed)
    }
}

/// Decoding undoes the list encoding, regardless of what follows.
pub proof fn lemma_varints_round_trip(vals: Seq<u64>, signed: bool, rest: Seq<u8>)
    ensures
        varints_dec(varints_enc(vals, signed) + rest, vals.len(), signed) == Some(
            (vals, varints_enc(vals, signed).len() as int),
        ),
    decreases vals.len(),
{
    if vals.len() == 0 {
        assert(varints_enc(vals, signed) + rest =~= rest);
    } else {
        let w = wire_of(vals[0], signed);
        let e0 = varint_enc(w);
        let etail = varints_enc(vals.skip(1), signed);
        let s = varints_enc(vals, signed) + rest;
        assert(s =~= e0 + (etail + rest));
        lemma_varint_round_trip(w, etail + rest);
        lemma_wire_round_trip(vals[0], signed);
        lemma_varints_round_trip(vals.skip(1), signed, rest);
        assert(s.skip(e0.len() as int) =~= etail + rest);
        assert(seq![vals[0]] + vals.skip(1) =~= vals);
    }
}

/// Decode an integer RLE v1 stream into 64-bit patterns: a header under 128
/// announces a run of `header + 3` values stepping by the sign-extended
/// delta byte from a varint base; a header of 128..=255 announces
/// `256 - header` literal varints.
pub open spec fn int_rle_dec(s: Seq<u8>, signed: bool) -> Option<Seq<u64>>
    decreases s.len(),
{
    if s.len() == 0 {
        Some(Seq::empty())
    } else if s[0] < 128 {
        if s.len() < 2 {
            None
        } else {
            match varint_dec(s.skip(2)) {
                Some((w, k)) => {
                    if 1 <= k && w < 0x1_0000_0000_0000_0000 && 2 + k <= s.len() {
                        match int_rle_dec(s.skip(2 + k), signed) {
                            Some(rest) => Some(
                                run_vals(val_of_wire(w, signed), sext8(s[1]), (s[0] + 3) as nat)
                                    + rest,
                            ),
                            None => None,
                        }
                    } else {
                        None
                    }
                },
                None => None,
            }
        }
    } else {
        let n = (256 - s[0]) as nat;
        match varints_dec(s.skip(1), n, signed) {
            Some((vs, m)) => {
                if 1 <= m && 1 + m <= s.len() {
                    match int_rle_dec(s.skip(1 + m), signed) {
                        Some(rest) => Some(vs + rest),
                        None => None,
                    }
                } else {
                    None
                }
            },
            None => None,
        }
    }
}

/// `g` is exactly one well-formed group, decoding to `vals`.
pub open spec fn is_int_group(g: Seq<u8>, signed: bool, vals: Seq<u64>) -> bool {
    if g.len() == 0 {
        false
    } else if g[0] < 128 {
        &&& g.len() >= 2
        &&& match varint_dec(g.skip(2)) {
            Some((w, k)) => {
                &&& w < 0x1_0000_0000_0000_0000
                &&& g.len() == 2 + k
                &&& vals == run_vals(val_of_wire(w, signed), sext8(g[1]), (g[0] + 3) as nat)
            },
            None => false,
        }
    } else {
        match varints_dec(g.skip(1), (256 - g[0]) as nat, signed) {
            Some((vs, m)) => g.len() == 1 + m && vals == vs,
            None => false,
        }
    }
}

/// One well-formed group decodes on its own to its values.
#[verifier::rlimit(100)]
pub proof fn lemma_int_rle_dec_single_group(g: Seq<u8>, ys: Seq<u64>, signed: bool)
    requires
        is_int_group(g, signed, ys),
    ensures
        int_rle_dec(g, signed) == Some(ys),
{
    if g[0] < 128 {
        let (w, k) = varint_dec(g.skip(2)).unwrap();
        lemma_varint_dec_len(g.skip(2));
        assert(g.skip(2 + k) =~= Seq::<u8>::empty());
        assert(int_rle_dec(Seq::<u8>::empty(), signed) == Some(Seq::<u64>::empty()));
        assert(int_rle_dec(g, signed) == Some(ys + Seq::<u64>::empty()));
    } else {
        let n = (256 - g[0]) as nat;
        let (vs, m) = varints_dec(g.skip(1), n, signed).unwrap();
        lemma_varints_dec_len(g.skip(1), n, signed);
        assert(g.skip(1 + m) =~= Seq::<u8>::empty());
        assert(int_rle_dec(Seq::<u8>::empty(), signed) == Some(Seq::<u64>::empty()));
        assert(int_rle_dec(g, signed) == Some(ys + Seq::<u64>::empty()));
    }
    assert(ys + Seq::<u64>::empty() =~= ys);
}

/// Appending one whole group to a decodable stream appends that group's
/// values to the decoded result.
#[verifier::rlimit(100)]
pub proof fn lemma_int_rle_dec_append(a: Seq<u8>, xs: Seq<u64>, g: Seq<u8>, ys: Seq<u64>, signed: bool)
    requires
        int_rle_dec(a, signed) == Some(xs),
        is_int_group(g, signed, ys),
    ensures
        int_rle_dec(a + g, signed) == Some(xs + ys),
    decreases a.len(),
{
    if a.len() == 0 {
        assert(a + g =~= g);
        lemma_int_rle_dec_single_group(g, ys, signed);
        assert(Seq::<u64>::empty() + ys =~= ys);
    } else {
        let s = a + g;
        assert(s[0] == a[0]);
        if a[0] < 128 {
            assert(a.len() >= 2 && varint_dec(a.skip(2)) is Some) by {
                if a.len() < 2 || varint_dec(a.skip(2)) is None {
                    assert(int_rle_dec(a, signed) is None);
                }
            }
            let (w, k) = varint_dec(a.skip(2)).unwrap();
            lemma_varint_dec_len(a.skip(2));
            assert(1 <= k && w < 0x1_0000_0000_0000_0000 && 2 + k <= a.len()) by {
                if !(1 <= k && w < 0x1_0000_0000_0000_0000 && 2 + k <= a.len()) {
                    assert(int_rle_dec(a, signed) is None);
                }
            }
            lemma_varint_dec_extend(a.skip(2), g);
            assert(s.skip(2) =~= a.skip(2) + g);
            assert(s[1] == a[1]);
            let head = run_vals(val_of_wire(w, signed), sext8(a[1]), (a[0] + 3) as nat);
            let tail = int_rle_dec(a.skip(2 + k), signed).unwrap();
            assert(int_rle_dec(a.skip(2 + k), signed) is Some);
            lemma_int_rle_dec_append(a.skip(2 + k), tail, g, ys, signed);
            assert(s.skip(2 + k) =~= a.skip(2 + k) + g);
            assert(xs == head + tail);
            assert(head + (tail + ys) =~= xs + ys);
        } else {
            let n = (256 - a[0]) as nat;
            assert(varints_dec(a.skip(1), n, signed) is Some) by {
                if varints_dec(a.skip(1), n, signed) is None {
                    assert(int_rle_dec(a, signed) is None);
                }
            }
            let (vs, m) = varints_dec(a.skip(1), n, signed).unwrap();
            lemma_varints_dec_len(a.skip(1), n, signed);
            assert(1 <= m && 1 + m <= a.len()) by {
                if !(1 <= m && 1 + m <= a.len()) {
                    assert(int_rle_dec(a, signed) is None);
                }
            }
            lemma_varints_dec_extend(a.skip(1), g, n, signed);
            assert(s.skip(1) =~= a.skip(1) + g);
            let tail = int_rle_dec(a.skip(1 + m), signed).unwrap();
            assert(int_rle_dec(a.skip(1 + m), signed) is Some);
            lemma_int_rle_dec_append(a.skip(1 + m), tail, g, ys, signed);
            assert(s.skip(1 + m) =~= a.skip(1 + m) + g);
            assert(xs == vs + tail);
            assert(vs + (tail + ys) =~= xs + ys);
        }
    }
}

/// Stepping by the difference lands on the stepped value.
pub proof fn lemma_wadd_wsub(l: u64, x: u64)
    ensures
        wadd(l, wsub(x, l)) == x,
{
}

/// A three-value run is the base stepped twice.
pub proof fn lemma_run_vals_3(b: u64, d: u64)
    ensures
        run_vals(b, d, 3) =~= seq![b, wadd(b, d), wadd(wadd(b, d), d)],
{
    assert(run_nth(b, d, 0) == b);
    assert(run_nth(b, d, 1) == wadd(b, d));
    assert(run_nth(b, d, 2) == wadd(wadd(b, d), d));
}

/// Extending a run appends one stepped value.
pub proof fn lemma_run_vals_push(b: u64, d: u64, n: nat)
    requires
        n >= 1,
    ensures
        run_vals(b, d, n + 1) =~= run_vals(b, d, n).push(wadd(run_vals(b, d, n).last(), d)),
{
    assert(run_nth(b, d, n) == wadd(run_nth(b, d, (n - 1) as nat), d));
}

/// Encoding one more value appends its varint.
pub proof fn lemma_varints_enc_push(vals: Seq<u64>, v: u64, signed: bool)
    ensures
        varints_enc(vals.push(v), signed) =~= varints_enc(vals, signed) + varint_enc(
            wire_of(v, signed),
        ),
    decreases vals.len(),
{
    if vals.len() == 0 {
        assert(vals.push(v).skip(1) =~= Seq::<u64>::empty());
        assert(varints_enc(vals.push(v), signed) == varint_enc(wire_of(v, signed)) + varints_enc(
            Seq::empty(),
            signed,
        ));
    } else {
        lemma_varints_enc_push(vals.skip(1), v, signed);
        assert(vals.push(v).skip(1) =~= vals.skip(1).push(v));
        assert(vals.push(v)[0] == vals[0]);
    }
}

/// Run-length encoder for 64-bit integers, working on two's complement
/// patterns: literal groups of up to 128 varints, or runs of 3..=130 values
/// with a constant signed byte delta.
pub struct IntRLEv1 {
    sink: CompressionStream,
    signed: bool,
    buf: Vec<u64>,
    run_len: u8,
    last_val: u64,
    delta: u64,
    vals: Ghost<Seq<u64>>,
    done: Ghost<Seq<u64>>,
}

/// A seekable position in an integer RLE stream: the compression-stream
/// position plus the number of values currently pending in the encoder.
#[derive(Clone, Copy)]
pub struct IntRLEv1Position {
    pub inner: CompressionStreamPosition,
    pub rle_offset: u64,
}

impl IntRLEv1Position {
    pub open spec fn spec_entries(&self) -> Seq<u64> {
        self.inner.spec_entries().push(self.rle_offset)
    }

    pub fn record(&self, out: &mut Vec<u64>)
        ensures
            final(out)@ == old(out)@ + self.spec_entries(),
    {
        self.inner.record(out);
        out.push(self.rle_offset);
        proof {
            assert(out@ =~= old(out)@ + self.spec_entries());
        }
    }
}

impl IntRLEv1 {
    /// Every pattern written since creation (or the last `finish`).
    pub closed spec fn vals(&self) -> Seq<u64> {
        self.vals@
    }

    pub closed spec fn is_signed(&self) -> bool {
        self.signed
    }

    pub closed spec fn spec_kind(&self) -> CompressionKind {
        self.sink.spec_kind()
    }

    pub closed spec fn spec_level(&self) -> int {
        self.sink.spec_level()
    }

    pub closed spec fn spec_block_size(&self) -> int {
        self.sink.spec_block_size()
    }

    /// Values buffered but not yet encoded into the sink.
    closed spec fn pending(&self) -> Seq<u64> {
        if self.run_len > 0 {
            run_vals(self.buf@[0], self.delta, self.run_len as nat)
        } else {
            self.buf@
        }
    }

    /// Enough structure to emit the pending group.
    closed spec fn emit_ok(&self) -> bool {
        &&& self.sink.wf()
        &&& int_rle_dec(self.sink.content(), self.signed) == Some(self.done@)
        &&& (self.run_len == 0 ==> self.buf@.len() <= 128)
        &&& (self.run_len > 0 ==> {
            &&& self.buf@.len() == 1
            &&& 3 <= self.run_len <= 130
            &&& fits_i8_pat(self.delta)
        })
    }

    closed spec fn shape_ok(&self) -> bool {
        &&& self.emit_ok()
        &&& (self.run_len == 0 ==> {
            &&& (self.buf@.len() >= 1 ==> self.last_val == self.buf@.last())
            &&& (self.buf@.len() >= 2 ==> self.delta == wsub(
                self.buf@[self.buf@.len() - 1],
                self.buf@[self.buf@.len() - 2],
            ))
        })
        &&& (self.run_len > 0 ==> self.last_val == self.pending().last())
    }

    pub closed spec fn wf(&self) -> bool {
        &&& self.shape_ok()
        &&& self.vals@ == self.done@ + self.pending()
    }

    pub fn new(compression: &Compression, signed: bool) -> (r: IntRLEv1)
        requires
            compression.wf(),
        ensures
            r.wf(),
            r.vals() == Seq::<u64>::empty(),
            r.is_signed() == signed,
            r.spec_kind() == compression.spec_kind(),
            r.spec_level() == compression.spec_level() as int,
            r.spec_block_size() == compression.spec_block_size() as int,
    {
        let r = IntRLEv1 {
            sink: CompressionStream::new(compression),
            signed,
            buf: Vec::new(),
            run_len: 0,
            last_val: 0,
            delta: 0,
            vals: Ghost(Seq::empty()),
            done: Ghost(Seq::empty()),
        };
        proof {
            assert(r.vals@ =~= r.done@ + r.pending());
        }
        r
    }

    /// Number of values pending in the encoder.
    pub closed spec fn pending_count(&self) -> nat {
        self.pending().len()
    }

    pub fn position(&self) -> (r: IntRLEv1Position)
        requires
            self.wf(),
        ensures
            r.rle_offset == self.pending_count(),
    {
        IntRLEv1Position {
            inner: self.sink.position(),
            rle_offset: if self.run_len > 0 {
                self.run_len as u64
            } else {
                self.buf.len() as u64
            },
        }
    }

    /// Write the varint image of one pattern into the sink.
    fn write_varint_pat(&mut self, v: u64)
        requires
            old(self).sink.wf(),
        ensures
            final(self).sink.wf(),
            final(self).sink.content() == old(self).sink.content() + varint_enc(
                wire_of(v, final(self).signed),
            ),
            final(self).sink.spec_kind() == old(self).sink.spec_kind(),
            final(self).sink.spec_level() == old(self).sink.spec_level(),
            final(self).sink.spec_block_size() == old(self).sink.spec_block_size(),
            final(self).signed == old(self).signed,
            final(self).buf == old(self).buf,
            final(self).run_len == old(self).run_len,
            final(self).last_val == old(self).last_val,
            final(self).delta == old(self).delta,
            final(self).vals == old(self).vals,
            final(self).done == old(self).done,
    {
        if self.signed {
            let xv: i64 = if v < 0x8000_0000_0000_0000 {
                v as i64
            } else {
                -((u64::MAX - v) as i64) - 1
            };
            proof {
                assert(xv == pat_to_i64(v));
            }
            let w = zigzag64_exec(xv);
            write_varu64(w, &mut self.sink);
        } else {
            write_varu64(v, &mut self.sink);
        }
    }

    /// Emit the pending group, if any, into the sink.
    #[verifier::rlimit(100)]
    fn finish_group(&mut self)
        requires
            old(self).emit_ok(),
        ensures
            final(self).shape_ok(),
            final(self).last_val == old(self).last_val,
            final(self).done@ == old(self).done@ + old(self).pending(),
            final(self).pending() == Seq::<u64>::empty(),
            final(self).run_len == 0,
            final(self).buf@.len() == 0,
            final(self).vals@ == old(self).vals@,
            final(self).signed == old(self).signed,
            final(self).spec_kind() == old(self).spec_kind(),
            final(self).spec_level() == old(self).spec_level(),
            final(self).spec_block_size() == old(self).spec_block_size(),
    {
        if self.run_len > 0 {
            let ghost c0 = self.sink.content();
            let header = (self.run_len - 3) as u8;
            let delta_byte: u8 = if self.delta < 128 {
                self.delta as u8
            } else {
                (self.delta - 0xFFFF_FFFF_FFFF_FF00u64) as u8
            };
            proof {
                assert(sext8(delta_byte) == self.delta);
            }
            let base = self.buf[0];
            self.sink.write_u8(header);
            self.sink.write_u8(delta_byte);
            self.write_varint_pat(base);
            proof {
                let wire = wire_of(base, self.signed);
                let enc = varint_enc(wire);
                let g = seq![header, delta_byte] + enc;
                assert(self.sink.content() =~= c0 + g);
                lemma_varint_round_trip(wire, Seq::empty());
                assert(varint_enc(wire) + Seq::<u8>::empty() =~= varint_enc(wire));
                assert(g.skip(2) =~= enc);
                lemma_wire_round_trip(base, self.signed);
                assert(g[0] == header && g[1] == delta_byte);
                assert(is_int_group(g, self.signed, old(self).pending()));
                lemma_int_rle_dec_append(c0, self.done@, g, old(self).pending(), self.signed);
                self.done@ = self.done@ + old(self).pending();
            }
            self.buf.clear();
            self.run_len = 0;
            proof {
                assert(self.pending() =~= Seq::<u64>::empty());
            }
        } else if self.buf.len() > 0 {
            let ghost c0 = self.sink.content();
            let header = (256 - self.buf.len()) as u8;
            self.sink.write_u8(header);
            let ghost lit = self.buf@;
            let mut i: usize = 0;
            while i < self.buf.len()
                invariant
                    i <= self.buf@.len(),
                    self.sink.wf(),
                    self.sink.content() == c0 + seq![header] + varints_enc(
                        self.buf@.take(i as int),
                        self.signed,
                    ),
                    self.sink.spec_kind() == old(self).sink.spec_kind(),
                    self.sink.spec_level() == old(self).sink.spec_level(),
                    self.sink.spec_block_size() == old(self).sink.spec_block_size(),
                    self.signed == old(self).signed,
                    self.buf == old(self).buf,
                    self.run_len == old(self).run_len,
                    self.last_val == old(self).last_val,
                    self.delta == old(self).delta,
                    self.vals == old(self).vals,
                    self.done == old(self).done,
                decreases self.buf@.len() - i,
            {
                let v = self.buf[i];
                self.write_varint_pat(v);
                i += 1;
                proof {
                    lemma_varints_enc_push(self.buf@.take(i - 1), v, self.signed);
                    assert(self.buf@.take(i as int) =~= self.buf@.take(i - 1).push(v));
                    assert(self.sink.content() =~= c0 + seq![header] + varints_enc(
                        self.buf@.take(i as int),
                        self.signed,
                    ));
                }
            }
            proof {
                assert(self.buf@.take(self.buf@.len() as int) =~= self.buf@);
                let enc = varints_enc(lit, self.signed);
                let g = seq![header] + enc;
                assert(self.sink.content() =~= c0 + g);
                lemma_varints_round_trip(lit, self.signed, Seq::empty());
                assert(enc + Seq::<u8>::empty() =~= enc);
                assert(g.skip(1) =~= enc);
                assert(g[0] == header && header >= 128);
                assert((256 - g[0]) as nat == lit.len());
                assert(is_int_group(g, self.signed, lit));
                lemma_int_rle_dec_append(c0, self.done@, g, lit, self.signed);
                self.done@ = self.done@ + lit;
            }
            self.buf.clear();
            proof {
                assert(self.pending() =~= Seq::<u64>::empty());
            }
        } else {
            proof {
                assert(old(self).pending() =~= Seq::<u64>::empty());
                assert(self.done@ =~= old(self).done@ + old(self).pending());
            }
        }
    }

    #[verifier::rlimit(60)]
    pub fn write(&mut self, x: u64)
        requires
            old(self).wf(),
        ensures
            final(self).wf(),
            final(self).vals() == old(self).vals().push(x),
            final(self).is_signed() == old(self).is_signed(),
            final(self).spec_kind() == old(self).spec_kind(),
            final(self).spec_level() == old(self).spec_level(),
            final(self).spec_block_size() == old(self).spec_block_size(),
    {
        if self.buf.len() == 128 || self.run_len == 130 {
            self.finish_group();
        }
        if self.run_len > 0 {
            if x.wrapping_sub(self.last_val) == self.delta {
                proof {
                    lemma_wadd_wsub(self.last_val, x);
                    lemma_run_vals_push(self.buf@[0], self.delta, self.run_len as nat);
                }
                self.run_len = self.run_len + 1;
                proof {
                    self.vals@ = self.vals@.push(x);
                    assert(self.pending() =~= old(self).pending().push(x));
                    assert(self.vals@ =~= self.done@ + self.pending());
                }
            } else {
                self.finish_group();
                self.buf.push(x);
                proof {
                    self.vals@ = self.vals@.push(x);
                    assert(self.pending() =~= seq![x]);
                    assert(self.vals@ =~= self.done@ + self.pending());
                }
            }
        } else if self.buf.len() == 0 {
            self.buf.push(x);
            proof {
                self.vals@ = self.vals@.push(x);
                assert(self.vals@ =~= self.done@ + self.pending());
            }
        } else {
            let n = self.buf.len();
            let prev = self.buf[n - 1];
            let d = x.wrapping_sub(prev);
            let fits = self.delta < 128 || self.delta >= 0xFFFF_FFFF_FFFF_FF80u64;
            if n >= 2 && d == self.delta && fits {
                let y = self.buf[n - 2];
                let ghost lit0 = self.buf@;
                self.buf.truncate(n - 2);
                proof {
                    assert(self.buf@ =~= lit0.take(n - 2));
                }
                self.finish_group();
                self.run_len = 3;
                self.delta = d;
                self.buf.push(y);
                proof {
                    self.vals@ = self.vals@.push(x);
                    lemma_run_vals_3(y, d);
                    lemma_wadd_wsub(y, prev);
                    lemma_wadd_wsub(prev, x);
                    assert(wsub(prev, y) == d);
                    assert(self.pending() =~= seq![y, prev, x]);
                    assert(old(self).done@ + lit0.take(n - 2) + seq![y, prev, x] =~= old(
                        self,
                    ).done@ + lit0 + seq![x]);
                    assert(self.vals@ =~= self.done@ + self.pending());
                }
            } else {
                self.buf.push(x);
                self.delta = d;
                proof {
                    self.vals@ = self.vals@.push(x);
                    assert(self.vals@ =~= self.done@ + self.pending());
                }
            }
        }
        self.last_val = x;
        proof {
            if self.run_len > 0 {
                assert(self.last_val == self.pending().last());
            }
        }
    }

    /// Flush the pending group and hand the encoded stream to `out`.
    #[verifier::rlimit(60)]
    pub fn finish(&mut self, out: &mut CountWrite)
        requires
            old(self).wf(),
        ensures
            final(self).wf(),
            final(self).vals() == Seq::<u64>::empty(),
            final(self).is_signed() == old(self).is_signed(),
            final(self).spec_kind() == old(self).spec_kind(),
            final(self).spec_level() == old(self).spec_level(),
            final(self).spec_block_size() == old(self).spec_block_size(),
            final(out)@.len() >= old(out)@.len(),
            extends(old(out)@, final(out)@),
            exists|enc: Seq<u8>|
                int_rle_dec(enc, old(self).is_signed()) == Some(old(self).vals()) && stream_emits(
                    old(out)@,
                    final(out)@,
                    enc,
                    old(self).spec_kind(),
                    old(self).spec_level(),
                    old(self).spec_block_size(),
                ),
    {
        self.finish_group();
        let ghost enc = self.sink.content();
        proof {
            assert(int_rle_dec(enc, self.signed) == Some(old(self).vals()));
        }
        self.sink.finish(out);
        proof {
            assert(int_rle_dec(enc, old(self).is_signed()) == Some(old(self).vals())
                && stream_emits(
                old(out)@,
                out@,
                enc,
                old(self).spec_kind(),
                old(self).spec_level(),
                old(self).spec_block_size(),
            ));
            self.vals@ = Seq::empty();
            self.done@ = Seq::empty();
            assert(self.pending() =~= Seq::<u64>::empty());
            assert(self.vals@ =~= self.done@ + self.pending());
        }
    }

    /// Bytes buffered downstream; used for stripe-size rolling.
    pub fn estimated_size(&self) -> (r: usize) {
        self.sink.estimated_size()
    }
}

/// Integer RLE v1 over signed 64-bit values (zig-zag varints on the wire).
pub struct SignedIntRLEv1 {
    inner: IntRLEv1,
}

impl SignedIntRLEv1 {
    pub closed spec fn vals(&self) -> Seq<i64> {
        pats_to_i64(self.inner.vals())
    }

    pub closed spec fn spec_kind(&self) -> CompressionKind {
        self.inner.spec_kind()
    }

    pub closed spec fn spec_level(&self) -> int {
        self.inner.spec_level()
    }

    pub closed spec fn spec_block_size(&self) -> int {
        self.inner.spec_block_size()
    }

    pub closed spec fn wf(&self) -> bool {
        self.inner.wf() && self.inner.is_signed()
    }

    /// Number of values pending in the encoder.
    pub closed spec fn pending_count(&self) -> nat {
        self.inner.pending_count()
    }

    pub fn new(compression: &Compression) -> (r: SignedIntRLEv1)
        requires
            compression.wf(),
        ensures
            r.wf(),
            r.vals() == Seq::<i64>::empty(),
            r.spec_kind() == compression.spec_kind(),
            r.spec_level() == compression.spec_level() as int,
            r.spec_block_size() == compression.spec_block_size() as int,
    {
        let r = SignedIntRLEv1 { inner: IntRLEv1::new(compression, true) };
        proof {
            assert(r.vals() =~= Seq::<i64>::empty());
        }
        r
    }

    pub fn write(&mut self, x: i64)
        requires
            old(self).wf(),
        ensures
            final(self).wf(),
            final(self).vals() == old(self).vals().push(x),
            final(self).spec_kind() == old(self).spec_kind(),
            final(self).spec_level() == old(self).spec_level(),
            final(self).spec_block_size() == old(self).spec_block_size(),
    {
        let pat: u64 = if x >= 0 {
            x as u64
        } else {
            ((x as i128) + 0x1_0000_0000_0000_0000i128) as u64
        };
        proof {
            assert(pat_to_i64(pat) == x);
        }
        self.inner.write(pat);
        proof {
            assert(self.vals() =~= old(self).vals().push(x));
        }
    }

    pub fn position(&self) -> (r: IntRLEv1Position)
        requires
            self.wf(),
        ensures
            r.rle_offset == self.pending_count(),
    {
        self.inner.position()
    }

    pub fn finish(&mut self, out: &mut CountWrite)
        requires
            old(self).wf(),
        ensures
            final(self).wf(),
            final(self).vals() == Seq::<i64>::empty(),
            final(self).spec_kind() == old(self).spec_kind(),
            final(self).spec_level() == old(self).spec_level(),
            final(self).spec_block_size() == old(self).spec_block_size(),
            final(out)@.len() >= old(out)@.len(),
            extends(old(out)@, final(out)@),
            exists|enc: Seq<u8>|
                {
                    &&& int_rle_dec(enc, true) is Some
                    &&& pats_to_i64(int_rle_dec(enc, true).unwrap()) == old(self).vals()
                    &&& stream_emits(
                        old(out)@,
                        final(out)@,
                        enc,
                        old(self).spec_kind(),
                        old(self).spec_level(),
                        old(self).spec_block_size(),
                    )
                },
    {
        let ghost pats0 = self.inner.vals();
        let ghost k = self.spec_kind();
        let ghost lv = self.spec_level();
        let ghost bs = self.spec_block_size();
        self.inner.finish(out);
        proof {
            let enc = choose|enc: Seq<u8>|
                int_rle_dec(enc, true) == Some(pats0) && stream_emits(
                    old(out)@,
                    out@,
                    enc,
                    k,
                    lv,
                    bs,
                );
            assert(int_rle_dec(enc, true) == Some(pats0));
            assert(int_rle_dec(enc, true) is Some && pats_to_i64(
                int_rle_dec(enc, true).unwrap(),
            ) == old(self).vals() && stream_emits(old(out)@, out@, enc, k, lv, bs));
            assert(self.vals() =~= Seq::<i64>::empty());
        }
    }

    pub fn estimated_size(&self) -> (r: usize) {
        self.inner.estimated_size()
    }
}

/// Integer RLE v1 over unsigned 64-bit values (plain varints on the wire).
pub struct UnsignedIntRLEv1 {
    inner: IntRLEv1,
}

impl UnsignedIntRLEv1 {
    pub closed spec fn vals(&self) -> Seq<u64> {
        self.inner.vals()
    }

    pub closed spec fn spec_kind(&self) -> CompressionKind {
        self.inner.spec_kind()
    }

    pub closed spec fn spec_level(&self) -> int {
        self.inner.spec_level()
    }

    pub closed spec fn spec_block_size(&self) -> int {
        self.inner.spec_block_size()
    }

    pub closed spec fn wf(&self) -> bool {
        self.inner.wf() && !self.inner.is_signed()
    }

    /// Number of values pending in the encoder.
    pub closed spec fn pending_count(&self) -> nat {
        self.inner.pending_count()
    }

    pub fn new(compression: &Compression) -> (r: UnsignedIntRLEv1)
        requires
            compression.wf(),
        ensures
            r.wf(),
            r.vals() == Seq::<u64>::empty(),
            r.spec_kind() == compression.spec_kind(),
            r.spec_level() == compression.spec_level() as int,
            r.spec_block_size() == compression.spec_block_size() as int,
    {
        UnsignedIntRLEv1 { inner: IntRLEv1::new(compression, false) }
    }

    #[verifier::rlimit(60)]
    pub fn write(&mut self, x: u64)
        requires
            old(self).wf(),
        ensures
            final(self).wf(),
            final(self).vals() == old(self).vals().push(x),
            final(self).spec_kind() == old(self).spec_kind(),
            final(self).spec_level() == old(self).spec_level(),
            final(self).spec_block_size() == old(self).spec_block_size(),
    {
        self.inner.write(x);
    }

    pub fn position(&self) -> (r: IntRLEv1Position)
        requires
            self.wf(),
        ensures
            r.rle_offset == self.pending_count(),
    {
        self.inner.position()
    }

    pub fn finish(&mut self, out: &mut CountWrite)
        requires
            old(self).wf(),
        ensures
            final(self).wf(),
            final(self).vals() == Seq::<u64>::empty(),
            final(self).spec_kind() == old(self).spec_kind(),
            final(self).spec_level() == old(self).spec_level(),
            final(self).spec_block_size() == old(self).spec_block_size(),
            final(out)@.len() >= old(out)@.len(),
            extends(old(out)@, final(out)@),
            exists|enc: Seq<u8>|
                int_rle_dec(enc, false) == Some(old(self).vals()) && stream_emits(
                    old(out)@,
                    final(out)@,
                    enc,
                    old(self).spec_kind(),
                    old(self).spec_level(),
                    old(self).spec_block_size(),
                ),
    {
        self.inner.finish(out);
    }

    pub fn estimated_size(&self) -> (r: usize) {
        self.inner.estimated_size()
    }
}


} // verus!
