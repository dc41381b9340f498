use vstd::prelude::*;
use crate::buffer::Buffer;
use crate::count_write::{CountWrite, extends};

verus! {

/// Largest compression block the 3-byte ORC block header can describe.
pub const MAX_BLOCK_SIZE: usize = 0x7fffff;

/// The block codecs this writer supports; the tag value recorded in the
/// PostScript comes from `code`.
#[derive(Clone, Copy, PartialEq, Eq, Structural)]
pub enum CompressionKind {
    Uncompressed,
    Snappy,
    Zstd,
}

impl CompressionKind {
    /// The `CompressionKind` tag of the ORC PostScript message.
    pub open spec fn spec_code(&self) -> u64 {
        match self {
            CompressionKind::Uncompressed => 0,
            CompressionKind::Snappy => 2,
            CompressionKind::Zstd => 5,
        }
    }

    pub fn code(&self) -> (r: u64)
        ensures
            r == self.spec_code(),
    {
        match self {
            CompressionKind::Uncompressed => 0,
            CompressionKind::Snappy => 2,
            CompressionKind::Zstd => 5,
        }
    }
}

/// Chosen codec together with its block size and (for Zstd) level.
#[derive(Clone, Copy)]
pub struct Compression {
    kind: CompressionKind,
    block_size: usize,
    level: i32,
}

impl Compression {
    pub closed spec fn wf(&self) -> bool {
        &&& (self.kind matches CompressionKind::Uncompressed <==> self.block_size == 0)
        &&& self.block_size <= MAX_BLOCK_SIZE
        &&& 1 <= self.level <= 22
    }

    pub closed spec fn spec_kind(&self) -> CompressionKind {
        self.kind
    }

    pub closed spec fn spec_block_size(&self) -> usize {
        self.block_size
    }

    pub closed spec fn spec_level(&self) -> i32 {
        self.level
    }

    pub fn kind(&self) -> (r: CompressionKind)
        ensures
            r == self.spec_kind(),
    {
        self.kind
    }

    pub fn block_size(&self) -> (r: usize)
        ensures
            r == self.spec_block_size(),
    {
        self.block_size
    }
}

/// Builder for the uncompressed configuration.
#[derive(Clone, Copy)]
pub struct NoCompression {
    _dummy: bool,
}

impl NoCompression {
    pub fn new() -> (r: NoCompression) {
        NoCompression { _dummy: false }
    }

    pub fn build(self) -> (r: Compression)
        ensures
            r.wf(),
            r.spec_kind() == CompressionKind::Uncompressed,
    {
        Compression { kind: CompressionKind::Uncompressed, block_size: 0, level: 3 }
    }
}

/// Builder for the Snappy configuration.
#[derive(Clone, Copy)]
pub struct SnappyCompression {
    pub block_size: usize,
}

impl SnappyCompression {
    pub fn new() -> (r: SnappyCompression)
        ensures
            r.wf(),
    {
        SnappyCompression { block_size: 262144 }
    }

    pub open spec fn wf(&self) -> bool {
        1 <= self.block_size <= MAX_BLOCK_SIZE
    }

    pub fn with_block_size(self, block_size: usize) -> (r: SnappyCompression)
        requires
            1 <= block_size <= MAX_BLOCK_SIZE,
        ensures
            r.wf(),
            r.block_size == block_size,
    {
        SnappyCompression { block_size }
    }

    pub fn build(self) -> (r: Compression)
        requires
            self.wf(),
        ensures
            r.wf(),
            r.spec_kind() == CompressionKind::Snappy,
            r.spec_block_size() == self.block_size,
    {
        Compression { kind: CompressionKind::Snappy, block_size: self.block_size, level: 3 }
    }
}

/// Builder for the Zstd configuration.
#[derive(Clone, Copy)]
pub struct ZstdCompression {
    pub block_size: usize,
    pub compression_level: i32,
}

impl ZstdCompression {
    pub fn new() -> (r: ZstdCompression)
        ensures
            r.wf(),
    {
        ZstdCompression { block_size: 262144, compression_level: 3 }
    }

    pub open spec fn wf(&self) -> bool {
        &&& 1 <= self.block_size <= MAX_BLOCK_SIZE
        &&& 1 <= self.compression_level <= 22
    }

    pub fn with_block_size(self, block_size: usize) -> (r: ZstdCompression)
        requires
            1 <= block_size <= MAX_BLOCK_SIZE,
            self.wf(),
        ensures
            r.wf(),
            r.block_size == block_size,
    {
        ZstdCompression { block_size, compression_level: self.compression_level }
    }

    pub fn with_compression_level(self, compression_level: i32) -> (r: ZstdCompression)
        requires
            1 <= compression_level <= 22,
            self.wf(),
        ensures
            r.wf(),
            r.compression_level == compression_level,
    {
        ZstdCompression { block_size: self.block_size, compression_level }
    }

    pub fn build(self) -> (r: Compression)
        requires
            self.wf(),
        ensures
            r.wf(),
            r.spec_kind() == CompressionKind::Zstd,
            r.spec_block_size() == self.block_size,
            r.spec_level() == self.compression_level,
    {
        Compression {
            kind: CompressionKind::Zstd,
            block_size: self.block_size,
            level: self.compression_level,
        }
    }
}

pub uninterp spec fn snappy_compressed(input: Seq<u8>) -> Seq<u8>;

pub uninterp spec fn zstd_compressed(level: int, input: Seq<u8>) -> Seq<u8>;

/// Relies on `snap::raw::Encoder::compress_vec`: Snappy block compression, a
/// function of the input bytes alone; it fails only for inputs over 2^32 - 1
/// bytes, and its output always starts with the uncompressed-length preamble,
/// so it is never empty.
#[verifier::external_body]
fn snappy_compress(input: &[u8]) -> (r: Vec<u8>)
    requires
        input@.len() <= MAX_BLOCK_SIZE,
    ensures
        r@ == snappy_compressed(input@),
        r@.len() >= 1,
{
    snap::raw::Encoder::new().compress_vec(input).unwrap()
}

/// Relies on `zstd::bulk::compress`: Zstd block compression at the given
/// level, a function of the level and input bytes alone; its output is a
/// whole zstd frame, which always carries a magic number, so it is never
/// empty.  A failure (for instance, allocation) is surfaced as `None`.
#[verifier::external_body]
fn zstd_compress(input: &[u8], level: i32) -> (r: Option<Vec<u8>>)
    ensures
        r matches Some(v) ==> v@ == zstd_compressed(level as int, input@) && v@.len() >= 1,
{
    match zstd::bulk::compress(input, level) {
        Ok(v) => Some(v),
        Err(_) => None,
    }
}

/// What the configured codec makes of one block's bytes.
pub open spec fn compressed_of(kind: CompressionKind, level: int, input: Seq<u8>) -> Seq<u8> {
    match kind {
        CompressionKind::Snappy => snappy_compressed(input),
        CompressionKind::Zstd => zstd_compressed(level, input),
        CompressionKind::Uncompressed => input,
    }
}

/// The 3-byte little-endian ORC block header: `(length << 1) | is_original`.
pub open spec fn header3(len: nat, orig: bool) -> Seq<u8> {
    let h = 2 * len + (if orig {
        1nat
    } else {
        0nat
    });
    seq![(h % 256) as u8, ((h / 256) % 256) as u8, ((h / 65536) % 256) as u8]
}

/// The on-wire form of a sequence of finished blocks: each payload preceded
/// by its header.
pub open spec fn framed(payloads: Seq<Seq<u8>>, origs: Seq<bool>) -> Seq<u8>
    decreases payloads.len(),
    when payloads.len() == origs.len()
{
    if payloads.len() == 0 {
        Seq::empty()
    } else {
        framed(payloads.drop_last(), origs.drop_last()) + header3(
            payloads.last().len(),
            origs.last(),
        ) + payloads.last()
    }
}

/// One block of the framing is sound: an original payload is the chunk
/// itself, a compressed one is what the codec made of the chunk, kept only
/// when strictly shorter.
pub open spec fn block_ok(
    kind: CompressionKind,
    level: int,
    block_size: int,
    chunk: Seq<u8>,
    payload: Seq<u8>,
    orig: bool,
) -> bool {
    &&& 1 <= chunk.len() <= block_size
    &&& if orig {
        payload == chunk
    } else {
        &&& payload == compressed_of(kind, level, chunk)
        &&& 1 <= payload.len() < chunk.len()
    }
}

/// `bytes` is a well-formed ORC block stream whose original contents
/// concatenate to `content`.
pub open spec fn valid_framing(
    bytes: Seq<u8>,
    content: Seq<u8>,
    kind: CompressionKind,
    level: int,
    block_size: int,
) -> bool {
    exists|chunks: Seq<Seq<u8>>, payloads: Seq<Seq<u8>>, origs: Seq<bool>|
        {
            &&& chunks.len() == payloads.len()
            &&& chunks.len() == origs.len()
            &&& forall|i: int|
                0 <= i < chunks.len() ==> block_ok(
                    kind,
                    level,
                    block_size,
                    #[trigger] chunks[i],
                    payloads[i],
                    origs[i],
                )
            &&& bytes == framed(payloads, origs)
            &&& content == chunks.flatten()
        }
}

/// How a `finish` call relates the sink before and after: with compression
/// off the content itself is appended; otherwise a well-formed block stream
/// carrying the content is.
pub open spec fn stream_emits(
    old_out: Seq<u8>,
    new_out: Seq<u8>,
    content: Seq<u8>,
    kind: CompressionKind,
    level: int,
    block_size: int,
) -> bool {
    if (kind matches CompressionKind::Uncompressed) {
        new_out == old_out + content
    } else {
        exists|emitted: Seq<u8>|
            new_out == old_out + emitted && valid_framing(
                emitted,
                content,
                kind,
                level,
                block_size,
            )
    }
}

/// Transforms a stream of encoder bytes into the ORC on-wire block format:
/// bytes are staged into blocks of `block_size`, each block is compressed
/// (or kept as-is when compression does not shrink it) and framed with the
/// 3-byte header.  Uncompressed configurations pass bytes through unchanged.
pub struct CompressionStream {
    kind: CompressionKind,
    level: i32,
    block_size: usize,
    buf: Buffer,
    output: Buffer,
    chunks: Ghost<Seq<Seq<u8>>>,
    payloads: Ghost<Seq<Seq<u8>>>,
    origs: Ghost<Seq<bool>>,
}

/// A seekable position in a compression stream: the offset of the current
/// block in the compressed output (absent when compression is off) and the
/// offset within the current uncompressed block.
#[derive(Clone, Copy)]
pub struct CompressionStreamPosition {
    pub block_start: Option<u64>,
    pub offset: u64,
}

impl CompressionStreamPosition {
    /// What this position contributes to a row-index `positions` array.
    pub open spec fn spec_entries(&self) -> Seq<u64> {
        match self.block_start {
            Some(x) => seq![x, self.offset],
            None => seq![self.offset],
        }
    }

    pub fn record(&self, out: &mut Vec<u64>)
        ensures
            final(out)@ == old(out)@ + self.spec_entries(),
    {
        if let Some(x) = self.block_start {
            out.push(x);
        }
        out.push(self.offset);
        proof {
            assert(out@ =~= old(out)@ + self.spec_entries());
        }
    }
}

impl CompressionStream {
    pub closed spec fn spec_kind(&self) -> CompressionKind {
        self.kind
    }

    pub closed spec fn spec_level(&self) -> int {
        self.level as int
    }

    pub closed spec fn spec_block_size(&self) -> int {
        self.block_size as int
    }

    pub open spec fn is_compressed(&self) -> bool {
        !(self.spec_kind() matches CompressionKind::Uncompressed)
    }

    /// All bytes written since creation (or the last `finish`), before
    /// compression.
    pub closed spec fn content(&self) -> Seq<u8> {
        self.chunks@.flatten() + self.buf@
    }

    pub closed spec fn wf(&self) -> bool {
        &&& self.chunks@.len() == self.payloads@.len()
        &&& self.chunks@.len() == self.origs@.len()
        &&& 1 <= self.level <= 22
        &&& if (self.kind matches CompressionKind::Uncompressed) {
            &&& self.block_size == 0
            &&& self.chunks@.len() == 0
            &&& self.output@.len() == 0
        } else {
            &&& 1 <= self.block_size <= MAX_BLOCK_SIZE
            &&& self.buf@.len() <= self.block_size
            &&& forall|i: int|
                0 <= i < self.chunks@.len() ==> block_ok(
                    self.kind,
                    self.level as int,
                    self.block_size as int,
                    #[trigger] self.chunks@[i],
                    self.payloads@[i],
                    self.origs@[i],
                )
            &&& self.output@ == framed(self.payloads@, self.origs@)
        }
    }

    pub fn new(compression: &Compression) -> (r: CompressionStream)
        requires
            compression.wf(),
        ensures
            r.wf(),
            r.content() == Seq::<u8>::empty(),
            r.spec_kind() == compression.spec_kind(),
            r.spec_level() == compression.spec_level() as int,
            r.spec_block_size() == compression.spec_block_size() as int,
    {
        let r = CompressionStream {
            kind: compression.kind(),
            level: compression.level,
            block_size: compression.block_size(),
            buf: Buffer::with_capacity(compression.block_size()),
            output: Buffer::new(),
            chunks: Ghost(Seq::empty()),
            payloads: Ghost(Seq::empty()),
            origs: Ghost(Seq::empty()),
        };
        proof {
            assert(r.content() =~= Seq::<u8>::empty());
        }
        r
    }

    /// The current seekable position: block start (compressed only) and
    /// offset within the staged block.
    pub fn position(&self) -> (r: CompressionStreamPosition)
        requires
            self.wf(),
        ensures
            r.block_start matches Some(x) ==> self.is_compressed() && x == self.compressed_len(),
            r.block_start matches None ==> !self.is_compressed(),
            r.offset == self.staged_len(),
    {
        CompressionStreamPosition {
            block_start: match self.kind {
                CompressionKind::Uncompressed => None,
                _ => Some(self.output.len() as u64),
            },
            offset: self.buf.len() as u64,
        }
    }

    /// Length of the finished (framed) part of the stream.
    pub closed spec fn compressed_len(&self) -> u64 {
        self.output@.len() as u64
    }

    /// Length of the staged, not yet finished bytes.
    pub closed spec fn staged_len(&self) -> u64 {
        self.buf@.len() as u64
    }

    /// Finalize the staged block: compress it, keep the original when
    /// compression does not shrink it, and frame the result.
    fn finish_block(&mut self)
        requires
            old(self).wf(),
            old(self).is_compressed(),
        ensures
            final(self).wf(),
            final(self).content() == old(self).content(),
            final(self).staged_len() == 0,
            final(self).spec_kind() == old(self).spec_kind(),
            final(self).spec_level() == old(self).spec_level(),
            final(self).spec_block_size() == old(self).spec_block_size(),
    {
        if self.buf.len() == 0 {
            return ;
        }
        let compressed: Option<Vec<u8>> = match self.kind {
            CompressionKind::Snappy => Some(snappy_compress(self.buf.as_slice())),
            CompressionKind::Zstd => zstd_compress(self.buf.as_slice(), self.level),
            CompressionKind::Uncompressed => None,
        };
        let use_compressed: bool = match &compressed {
            Some(v) => v.len() < self.buf.len(),
            None => false,
        };
        let ghost chunk = self.buf@;
        let (payload_len, orig): (usize, bool) = if use_compressed {
            match &compressed {
                Some(v) => (v.len(), false),
                None => (0, false),  // unreachable: use_compressed implies Some
            }
        } else {
            (self.buf.len(), true)
        };
        let header: u32 = (payload_len as u32) * 2 + (if orig {
            1
        } else {
            0
        });
        self.output.write_u8((header % 256) as u8);
        self.output.write_u8(((header / 256) % 256) as u8);
        self.output.write_u8(((header / 65536) % 256) as u8);
        if use_compressed {
            match &compressed {
                Some(v) => self.output.write_bytes(v.as_slice()),
                None => (),
            }
        } else {
            self.output.write_bytes(self.buf.as_slice());
        }
        let ghost payload = if orig {
            chunk
        } else {
            compressed_of(self.kind, self.level as int, chunk)
        };
        proof {
            let p0 = self.payloads@;
            let o0 = self.origs@;
            self.chunks@ = self.chunks@.push(chunk);
            self.payloads@ = p0.push(payload);
            self.origs@ = o0.push(orig);
            assert(self.payloads@.drop_last() =~= p0);
            assert(self.origs@.drop_last() =~= o0);
            assert(header3(payload.len(), orig) =~= seq![
                (header % 256) as u8,
                ((header / 256) % 256) as u8,
                ((header / 65536) % 256) as u8,
            ]);
            assert(self.output@ =~= framed(self.payloads@, self.origs@));
        }
        self.buf.resize(0);
        proof {
            let chunks0 = old(self).chunks@;
            chunks0.lemma_flatten_push(chunk);
            assert(self.chunks@ == chunks0.push(chunk));
            assert(self.buf@ =~= Seq::<u8>::empty());
            assert(self.content() =~= old(self).content());
            assert(self.wf());
        }
    }

    pub fn write_u8(&mut self, b: u8)
        requires
            old(self).wf(),
        ensures
            final(self).wf(),
            final(self).content() == old(self).content().push(b),
            final(self).spec_kind() == old(self).spec_kind(),
            final(self).spec_level() == old(self).spec_level(),
            final(self).spec_block_size() == old(self).spec_block_size(),
    {
        match self.kind {
            CompressionKind::Uncompressed => (),
            _ => {
                if self.buf.len() == self.block_size {
                    self.finish_block();
                }
            },
        }
        self.buf.write_u8(b);
        proof {
            assert(self.content() =~= old(self).content().push(b));
        }
    }

    pub fn write_bytes(&mut self, bytes: &[u8])
        requires
            old(self).wf(),
        ensures
            final(self).wf(),
            final(self).content() == old(self).content() + bytes@,
            final(self).spec_kind() == old(self).spec_kind(),
            final(self).spec_level() == old(self).spec_level(),
            final(self).spec_block_size() == old(self).spec_block_size(),
    {
        let mut i: usize = 0;
        while i < bytes.len()
            invariant
                i <= bytes@.len(),
                self.wf(),
                self.content() == old(self).content() + bytes@.take(i as int),
                self.spec_kind() == old(self).spec_kind(),
                self.spec_level() == old(self).spec_level(),
                self.spec_block_size() == old(self).spec_block_size(),
            decreases bytes@.len() - i,
        {
            self.write_u8(bytes[i]);
            i += 1;
            proof {
                assert(bytes@.take(i as int) == bytes@.take(i - 1).push(bytes@[i - 1]));
                assert(self.content() =~= old(self).content() + bytes@.take(i as int));
            }
        }
        proof {
            assert(bytes@.take(bytes@.len() as int) == bytes@);
            assert(self.content() =~= old(self).content() + bytes@);
        }
    }

    /// Finalize a partial last block, then append all accumulated
    /// headers and blocks to `out`.  Afterwards the stream is empty again.
    pub fn finish(&mut self, out: &mut CountWrite)
        requires
            old(self).wf(),
        ensures
            final(self).wf(),
            final(self).content() == Seq::<u8>::empty(),
            final(self).spec_kind() == old(self).spec_kind(),
            final(self).spec_level() == old(self).spec_level(),
            final(self).spec_block_size() == old(self).spec_block_size(),
            final(out)@.len() >= old(out)@.len(),
            extends(old(out)@, final(out)@),
            stream_emits(
                old(out)@,
                final(out)@,
                old(self).content(),
                old(self).spec_kind(),
                old(self).spec_level(),
                old(self).spec_block_size(),
            ),
    {
        match self.kind {
            CompressionKind::Uncompressed => {
                out.write_bytes(self.buf.as_slice());
                self.buf.resize(0);
                proof {
                    assert(self.buf@ =~= Seq::<u8>::empty());
                    assert(self.content() =~= Seq::<u8>::empty());
                    assert(self.wf());
                }
            },
            _ => {
                self.finish_block();
                out.write_bytes(self.output.as_slice());
                self.output.resize(0);
                proof {
                    let emitted = framed(self.payloads@, self.origs@);
                    assert(valid_framing(
                        emitted,
                        old(self).content(),
                        old(self).spec_kind(),
                        old(self).spec_level(),
                        old(self).spec_block_size(),
                    )) by {
                        assert(old(self).content() == self.chunks@.flatten() + self.buf@);
                        assert(self.buf@ =~= Seq::<u8>::empty());
                        assert(self.chunks@.flatten() + self.buf@ =~= self.chunks@.flatten());
                    }
                    self.chunks@ = Seq::empty();
                    self.payloads@ = Seq::empty();
                    self.origs@ = Seq::empty();
                    assert(self.output@ =~= Seq::<u8>::empty());
                    assert(self.content() =~= Seq::<u8>::empty());
                    assert(self.wf());
                }
            },
        }
    }

    /// Bytes already finalized plus bytes staged; used for stripe-size
    /// rolling.  Saturates at `usize::MAX`.
    pub fn estimated_size(&self) -> (r: usize)
        ensures
            r == if self.compressed_len() + self.staged_len() <= usize::MAX {
                self.compressed_len() + self.staged_len()
            } else {
                usize::MAX as int
            },
    {
        let a = self.output.len();
        let b = self.buf.len();
        if a <= usize::MAX - b {
            a + b
        } else {
            usize::MAX
        }
    }
}

} // verus!
