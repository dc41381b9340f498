use vstd::prelude::*;
use crate::compression::CompressionStream;

verus! {

/// Base-128 little-endian continuation-bit encoding of an unsigned value.
pub open spec fn varint_enc(x: nat) -> Seq<u8>
    decreases x,
{
    if x < 128 {
        seq![x as u8]
    } else {
        seq![(128 + (x % 128)) as u8] + varint_enc(x / 128)
    }
}

/// Decode a varint from the front of `s`: the value and the number of bytes
/// consumed, or `None` when `s` ends inside the varint.
pub open spec fn varint_dec(s: Seq<u8>) -> Option<(nat, int)>
    decreases s.len(),
{
    if s.len() == 0 {
        None
    } else if s[0] < 128 {
        Some((s[0] as nat, 1))
    } else {
        match varint_dec(s.skip(1)) {
            Some((v, n)) => Some(((s[0] - 128) as nat + 128 * v, n + 1)),
            None => None,
        }
    }
}

/// Decoding undoes encoding, regardless of what follows the varint.
pub proof fn lemma_varint_round_trip(x: nat, rest: Seq<u8>)
    ensures
        varint_dec(varint_enc(x) + rest) == Some((x, varint_enc(x).len() as int)),
    decreases x,
{
    let s = varint_enc(x) + rest;
    if x < 128 {
        assert(s[0] == x as u8);
    } else {
        lemma_varint_round_trip(x / 128, rest);
        assert(s.skip(1) =~= varint_enc(x / 128) + rest);
        assert(s[0] == (128 + (x % 128)) as u8);
        assert((s[0] - 128) as nat + 128 * (x / 128) == x % 128 + 128 * (x / 128));
    }
}

/// Powers of 128, the varint radix.
pub open spec fn pow128(k: nat) -> nat
    decreases k,
{
    if k == 0 {
        1
    } else {
        128 * pow128((k - 1) as nat)
    }
}

/// A value under `128^k` encodes in at most `k` bytes.
pub proof fn lemma_varint_enc_len(x: nat, k: nat)
    requires
        1 <= k,
        x < pow128(k),
    ensures
        1 <= varint_enc(x).len() <= k,
    decreases x,
{
    if x < 128 {
    } else {
        let m = pow128((k - 1) as nat);
        assert(pow128(k) == 128 * m);
        assert(m >= 1) by {
            lemma_pow128_pos((k - 1) as nat);
        }
        vstd::arithmetic::div_mod::lemma_div_is_ordered(x as int, 128 * m - 1, 128);
        vstd::arithmetic::div_mod::lemma_div_multiples_vanish_fancy(m as int - 1, 127, 128);
        assert((128 * m - 1) as int / 128 == m - 1);
        assert(x / 128 < m);
        assert(k >= 2) by {
            if k == 1 {
                assert(pow128(1) == 128);
            }
        }
        lemma_varint_enc_len(x / 128, (k - 1) as nat);
    }
}

pub proof fn lemma_pow128_pos(k: nat)
    ensures
        pow128(k) >= 1,
    decreases k,
{
    if k > 0 {
        lemma_pow128_pos((k - 1) as nat);
    }
}

/// A successful decode consumes at least one and at most all of the bytes.
pub proof fn lemma_varint_dec_len(s: Seq<u8>)
    requires
        varint_dec(s) is Some,
    ensures
        1 <= varint_dec(s).unwrap().1 <= s.len(),
    decreases s.len(),
{
    if s.len() > 0 && s[0] >= 128 {
        lemma_varint_dec_len(s.skip(1));
    }
}

/// What a varint decodes to does not depend on the bytes after it.
pub proof fn lemma_varint_dec_extend(s: Seq<u8>, t: Seq<u8>)
    requires
        varint_dec(s) is Some,
    ensures
        varint_dec(s + t) == varint_dec(s),
    decreases s.len(),
{
    let u = s + t;
    assert(u[0] == s[0]);
    if s[0] >= 128 {
        lemma_varint_dec_extend(s.skip(1), t);
        assert(u.skip(1) =~= s.skip(1) + t);
    }
}

/// The zig-zag image of a signed 64-bit value: non-negative numbers map to
/// the evens, negative ones to the odds.
pub open spec fn zigzag64(x: i64) -> nat {
    if x >= 0 {
        (2 * (x as int)) as nat
    } else {
        (-2 * (x as int) - 1) as nat
    }
}

pub open spec fn unzigzag64(v: nat) -> int {
    if v % 2 == 0 {
        (v / 2) as int
    } else {
        -(((v + 1) / 2) as int)
    }
}

pub proof fn lemma_zigzag64_round_trip(x: i64)
    ensures
        zigzag64(x) < 0x1_0000_0000_0000_0000,
        unzigzag64(zigzag64(x)) == x as int,
{
}

/// The zig-zag image of a signed 128-bit value.
pub open spec fn zigzag128(x: i128) -> nat {
    if x >= 0 {
        (2 * (x as int)) as nat
    } else {
        (-2 * (x as int) - 1) as nat
    }
}

pub open spec fn unzigzag128(v: nat) -> int {
    if v % 2 == 0 {
        (v / 2) as int
    } else {
        -(((v + 1) / 2) as int)
    }
}

pub proof fn lemma_zigzag128_round_trip(x: i128)
    ensures
        zigzag128(x) < 0x1_0000_0000_0000_0000_0000_0000_0000_0000,
        unzigzag128(zigzag128(x)) == x as int,
{
}

/// Write `x` as an unsigned varint.
pub fn write_varu64(x: u64, out: &mut CompressionStream)
    requires
        old(out).wf(),
    ensures
        final(out).wf(),
        final(out).content() == old(out).content() + varint_enc(x as nat),
        final(out).spec_kind() == old(out).spec_kind(),
        final(out).spec_level() == old(out).spec_level(),
        final(out).spec_block_size() == old(out).spec_block_size(),
{
    let mut v = x;
    while v >= 128
        invariant
            out.wf(),
            out.spec_kind() == old(out).spec_kind(),
            out.spec_level() == old(out).spec_level(),
            out.spec_block_size() == old(out).spec_block_size(),
            out.content() + varint_enc(v as nat) == old(out).content() + varint_enc(x as nat),
        decreases v,
    {
        let ghost v0 = v as nat;
        let ghost c0 = out.content();
        out.write_u8((128 + (v % 128)) as u8);
        proof {
            assert(varint_enc(v0) == seq![(128 + (v0 % 128)) as u8] + varint_enc(v0 / 128));
            assert(c0.push((128 + (v % 128)) as u8) + varint_enc(v0 / 128) =~= c0 + varint_enc(
                v0,
            ));
        }
        v = v / 128;
    }
    let ghost c0 = out.content();
    out.write_u8(v as u8);
    proof {
        assert(varint_enc(v as nat) =~= seq![v as u8]);
        assert(c0.push(v as u8) =~= c0 + varint_enc(v as nat));
        assert(out.content() =~= old(out).content() + varint_enc(x as nat));
    }
}

/// Write `x` as an unsigned varint (128-bit).
pub fn write_varu128(x: u128, out: &mut CompressionStream)
    requires
        old(out).wf(),
    ensures
        final(out).wf(),
        final(out).content() == old(out).content() + varint_enc(x as nat),
        final(out).spec_kind() == old(out).spec_kind(),
        final(out).spec_level() == old(out).spec_level(),
        final(out).spec_block_size() == old(out).spec_block_size(),
{
    let mut v = x;
    while v >= 128
        invariant
            out.wf(),
            out.spec_kind() == old(out).spec_kind(),
            out.spec_level() == old(out).spec_level(),
            out.spec_block_size() == old(out).spec_block_size(),
            out.content() + varint_enc(v as nat) == old(out).content() + varint_enc(x as nat),
        decreases v,
    {
        let ghost v0 = v as nat;
        let ghost c0 = out.content();
        out.write_u8((128 + (v % 128)) as u8);
        proof {
            assert(varint_enc(v0) == seq![(128 + (v0 % 128)) as u8] + varint_enc(v0 / 128));
            assert(c0.push((128 + (v % 128)) as u8) + varint_enc(v0 / 128) =~= c0 + varint_enc(
                v0,
            ));
        }
        v = v / 128;
    }
    let ghost c0 = out.content();
    out.write_u8(v as u8);
    proof {
        assert(varint_enc(v as nat) =~= seq![v as u8]);
        assert(c0.push(v as u8) =~= c0 + varint_enc(v as nat));
        assert(out.content() =~= old(out).content() + varint_enc(x as nat));
    }
}

/// Compute the zig-zag image of `x` in executable code.
pub fn zigzag64_exec(x: i64) -> (r: u64)
    ensures
        r as nat == zigzag64(x),
{
    if x >= 0 {
        (x as u64) * 2
    } else {
        ((-(x + 1)) as u64) * 2 + 1
    }
}

pub fn zigzag128_exec(x: i128) -> (r: u128)
    ensures
        r as nat == zigzag128(x),
{
    if x >= 0 {
        (x as u128) * 2
    } else {
        ((-(x + 1)) as u128) * 2 + 1
    }
}

/// A value that can be written as a varint: unsigned values directly, signed
/// values through the zig-zag mapping.  `wire` is the unsigned image that
/// goes on the wire.
pub trait VarInt: Copy {
    spec fn wire(self) -> nat;

    fn write_varint(self, out: &mut CompressionStream)
        requires
            old(out).wf(),
        ensures
            final(out).wf(),
            final(out).content() == old(out).content() + varint_enc(self.wire()),
            final(out).spec_kind() == old(out).spec_kind(),
            final(out).spec_level() == old(out).spec_level(),
            final(out).spec_block_size() == old(out).spec_block_size(),
    ;
}

impl VarInt for u64 {
    open spec fn wire(self) -> nat {
        self as nat
    }

    fn write_varint(self, out: &mut CompressionStream) {
        write_varu64(self, out);
    }
}

impl VarInt for i64 {
    open spec fn wire(self) -> nat {
        zigzag64(self)
    }

    fn write_varint(self, out: &mut CompressionStream) {
        write_varu64(zigzag64_exec(self), out);
    }
}

impl VarInt for u128 {
    open spec fn wire(self) -> nat {
        self as nat
    }

    fn write_varint(self, out: &mut CompressionStream) {
        write_varu128(self, out);
    }
}

impl VarInt for i128 {
    open spec fn wire(self) -> nat {
        zigzag128(self)
    }

    fn write_varint(self, out: &mut CompressionStream) {
        write_varu128(zigzag128_exec(self), out);
    }
}

} // verus!
