use vstd::prelude::*;
use crate::compression::{CompressionKind, CompressionStream, CompressionStreamPosition, stream_emits};
use crate::count_write::{CountWrite, extends};
use crate::data::{presence, some_vals, lemma_some_vals_push, lemma_some_vals_concat, sat_add_usize};
use crate::encoder::boolean_rle::{BooleanRLE, BooleanRLEPosition, bool_rle_decodes};
use crate::encoder::int_rle_v1::{SignedIntRLEv1, IntRLEv1Position, int_rle_dec, pats_to_i64};
use crate::encoder::varint::{varint_enc, zigzag128, VarInt};
use crate::proto::{encode_row_index_entry, enc_row_index_entry};
use crate::statistics::{DecimalStatistics, Statistics, pow10, opt_min128, opt_max128, opt_sum128, seq_min128, seq_max128, seq_sum128, lemma_opt_min128_merge_laws, lemma_seq_sum128_concat};
use crate::stripe::{StreamInfo, StreamKind};
use crate::writer::Config;

verus! {

/// The concatenated zig-zag varint encodings of decimal values.
pub open spec fn dec_varints(s: Seq<i128>) -> Seq<u8>
    decreases s.len(),
{
    if s.len() == 0 {
        Seq::empty()
    } else {
        dec_varints(s.drop_last()) + varint_enc(zigzag128(s.last()))
    }
}

/// A constant run of the column's scale, one per non-null value.
pub open spec fn scale_run(scale: u32, n: nat) -> Seq<i64> {
    Seq::new(n, |i| scale as i64)
}

/// The streams of a decimal column: null bitmap, zig-zag varint values,
/// and the constant scale demanded by ORC v1.
pub struct DecimalDataStreams {
    pub present: BooleanRLE,
    pub data: CompressionStream,
    pub secondary_scale: SignedIntRLEv1,
}

/// A seekable position in a string column.
#[derive(Clone, Copy)]
pub struct DecimalDataPosition {
    pub present: BooleanRLEPosition,
    pub data: CompressionStreamPosition,
    pub secondary_scale: IntRLEv1Position,
}

impl DecimalDataPosition {
    pub open spec fn spec_entries(&self, include_present: bool) -> Seq<u64> {
        (if include_present {
            self.present.spec_entries()
        } else {
            Seq::empty()
        }) + self.data.spec_entries() + self.secondary_scale.spec_entries()
    }

    pub fn record(&self, include_present: bool, out: &mut Vec<u64>)
        ensures
            final(out)@ == old(out)@ + self.spec_entries(include_present),
    {
        if include_present {
            self.present.record(out);
        }
        self.data.record(out);
        self.secondary_scale.record(out);
        proof {
            assert(out@ =~= old(out)@ + self.spec_entries(include_present));
        }
    }
}

impl DecimalDataStreams {
    pub fn position(&self) -> (r: DecimalDataPosition)
        requires
            self.present.wf(),
            self.data.wf(),
            self.secondary_scale.wf(),
    {
        DecimalDataPosition {
            present: self.present.position(),
            data: self.data.position(),
            secondary_scale: self.secondary_scale.position(),
        }
    }
}

pub struct DecimalRowIndexEntry {
    position: DecimalDataPosition,
    stats: DecimalStatistics,
}

/// The `RowIndex` message payload for the recorded row groups.
pub closed spec fn enc_decimal_index(entries: Seq<DecimalRowIndexEntry>, include_present: bool) -> Seq<u8>
    decreases entries.len(),
{
    if entries.len() == 0 {
        Seq::empty()
    } else {
        enc_decimal_index(entries.drop_last(), include_present) + enc_row_index_entry(
            entries.last().position.spec_entries(include_present),
            Statistics::Decimal(entries.last().stats),
        )
    }
}

/// Column writer for Decimal values: a PRESENT stream, a DATA stream of
/// zig-zag varints (up to 128 bits), and a constant-scale SECONDARY stream.
pub struct DecimalData {
    column_id: u32,
    precision: u32,
    scale: u32,
    streams: DecimalDataStreams,
    stripe_stats: DecimalStatistics,
    row_group_stats: DecimalStatistics,
    row_group_position: DecimalDataPosition,
    row_index_entries: Vec<DecimalRowIndexEntry>,
    config: Config,
    written: Ghost<Seq<Option<i128>>>,
    flushed: Ghost<nat>,
}

impl DecimalData {
    /// Every value (or null) written to this column in the current stripe.
    pub closed spec fn written(&self) -> Seq<Option<i128>> {
        self.written@
    }

    pub closed spec fn spec_precision(&self) -> u32 {
        self.precision
    }

    pub closed spec fn spec_scale(&self) -> u32 {
        self.scale
    }

    pub closed spec fn spec_column_id(&self) -> u32 {
        self.column_id
    }

    pub closed spec fn spec_kind(&self) -> CompressionKind {
        self.streams.data.spec_kind()
    }

    pub closed spec fn spec_level(&self) -> int {
        self.streams.data.spec_level()
    }

    pub closed spec fn spec_block_size(&self) -> int {
        self.streams.data.spec_block_size()
    }

    pub closed spec fn spec_stride(&self) -> u32 {
        self.config.row_index_stride
    }

    pub closed spec fn spec_stripe_stats(&self) -> DecimalStatistics {
        self.stripe_stats
    }

    pub closed spec fn group_flushed(&self) -> bool {
        self.row_group_stats.num_values == 0
    }

    /// The row groups recorded so far.
    pub closed spec fn spec_index_entries(&self) -> Seq<DecimalRowIndexEntry> {
        self.row_index_entries@
    }

    pub closed spec fn spec_has_null(&self) -> bool {
        self.stripe_stats.num_values != self.stripe_stats.num_present
            || self.row_group_stats.num_values != self.row_group_stats.num_present
    }

    pub closed spec fn wf(&self) -> bool {
        &&& self.config.wf()
        &&& self.streams.present.wf()
        &&& self.streams.data.wf()
        &&& self.streams.secondary_scale.wf()
        &&& self.streams.present.spec_kind() == self.streams.data.spec_kind()
        &&& self.streams.present.spec_level() == self.streams.data.spec_level()
        &&& self.streams.present.spec_block_size() == self.streams.data.spec_block_size()
        &&& self.streams.data.spec_kind() == self.config.compression.spec_kind()
        &&& self.streams.data.spec_level() == self.config.compression.spec_level() as int
        &&& self.streams.data.spec_block_size() == self.config.compression.spec_block_size() as int
        &&& self.streams.secondary_scale.spec_kind() == self.streams.data.spec_kind()
        &&& self.streams.secondary_scale.spec_level() == self.streams.data.spec_level()
        &&& self.streams.secondary_scale.spec_block_size() == self.streams.data.spec_block_size()
        &&& self.streams.present.vals() == presence(self.written@)
        &&& self.streams.data.content() == dec_varints(some_vals(self.written@))
        &&& self.streams.secondary_scale.vals() == scale_run(
            self.scale,
            some_vals(self.written@).len(),
        )
        &&& self.scale <= self.precision <= 38
        &&& self.stripe_stats.scale == self.scale
        &&& self.stripe_stats.wf()
        &&& self.row_group_stats.wf()
        &&& self.stripe_stats.num_values + self.row_group_stats.num_values == self.written@.len()
        &&& self.stripe_stats.num_present + self.row_group_stats.num_present == some_vals(
            self.written@,
        ).len()
        &&& opt_min128(self.stripe_stats.min, self.row_group_stats.min) == seq_min128(
            some_vals(self.written@),
        )
        &&& opt_max128(self.stripe_stats.max, self.row_group_stats.max) == seq_max128(
            some_vals(self.written@),
        )
        &&& self.flushed@ <= self.written@.len()
        &&& self.stripe_stats.num_values == self.flushed@
        &&& (self.stripe_stats.sum matches Some(t) ==> t == seq_sum128(
            some_vals(self.written@.take(self.flushed@ as int)),
        ))
        &&& (self.row_group_stats.sum matches Some(t) ==> t == seq_sum128(
            some_vals(self.written@.skip(self.flushed@ as int)),
        ))
        &&& (opt_sum128(self.stripe_stats.sum, self.row_group_stats.sum) matches Some(t) ==> t
            == seq_sum128(some_vals(self.written@)))
        &&& (self.row_group_stats.num_values == 0 ==> self.row_group_stats == (DecimalStatistics {
            scale: self.scale,
            num_values: 0,
            num_present: 0,
            min: None,
            max: None,
            sum: Some(0),
        }))
        &&& self.spec_has_null() == (some_vals(self.written@).len() != self.written@.len())
        &&& self.written@.len() <= u64::MAX
        &&& forall|i: int|
            0 <= i < self.row_index_entries@.len()
                ==> (#[trigger] self.row_index_entries@[i].stats).wf()
    }

    pub fn new(precision: u32, scale: u32, config: &Config, column_id: &mut u32) -> (r: DecimalData)
        requires
            config.wf(),
            *old(column_id) < u32::MAX,
            scale <= precision <= 38,
        ensures
            r.wf(),
            r.written() == Seq::<Option<i128>>::empty(),
            r.spec_column_id() == *old(column_id),
            *final(column_id) == *old(column_id) + 1,
            r.spec_stride() == config.row_index_stride,
            r.spec_precision() == precision,
            r.spec_scale() == scale,
    {
        let cid = *column_id;
        *column_id = *column_id + 1;
        let streams = DecimalDataStreams {
            present: BooleanRLE::new(&config.compression),
            data: CompressionStream::new(&config.compression),
            secondary_scale: SignedIntRLEv1::new(&config.compression),
        };
        let row_group_position = streams.position();
        let r = DecimalData {
            column_id: cid,
            precision,
            scale,
            streams,
            stripe_stats: DecimalStatistics::new(scale),
            row_group_stats: DecimalStatistics::new(scale),
            row_group_position,
            row_index_entries: Vec::new(),
            config: config.clone(),
            written: Ghost(Seq::empty()),
            flushed: Ghost(0),
        };
        proof {
            assert(presence(r.written@) =~= Seq::<bool>::empty());
            assert(some_vals(r.written@) =~= Seq::<i128>::empty());
            assert(dec_varints(some_vals(r.written@)) =~= Seq::<u8>::empty());
            assert(scale_run(scale, some_vals(r.written@).len()) =~= Seq::<i64>::empty());
            assert(seq_min128(some_vals(r.written@)) is None);
            assert(seq_max128(some_vals(r.written@)) is None);
            assert(seq_sum128(some_vals(r.written@)) == 0);
            assert(r.written@.take(0) =~= r.written@);
            assert(r.written@.skip(0) =~= r.written@);
        }
        r
    }

    pub fn precision(&self) -> (r: u32)
        ensures
            r == self.spec_precision(),
    {
        self.precision
    }

    pub fn scale(&self) -> (r: u32)
        ensures
            r == self.spec_scale(),
    {
        self.scale
    }

    pub fn column_id(&self) -> (r: u32)
        ensures
            r == self.spec_column_id(),
    {
        self.column_id
    }

    fn check_row_group(&mut self)
        requires
            old(self).wf(),
        ensures
            final(self).wf(),
            final(self).written() == old(self).written(),
            final(self).spec_column_id() == old(self).spec_column_id(),
            final(self).spec_kind() == old(self).spec_kind(),
            final(self).spec_level() == old(self).spec_level(),
            final(self).spec_block_size() == old(self).spec_block_size(),
            final(self).spec_stride() == old(self).spec_stride(),
            final(self).spec_precision() == old(self).spec_precision(),
            final(self).spec_scale() == old(self).spec_scale(),
    {
        if self.row_group_stats.num_values == self.config.row_index_stride as u64 {
            self.finish_row_group();
        }
    }

    fn finish_row_group(&mut self)
        requires
            old(self).wf(),
        ensures
            final(self).wf(),
            final(self).written() == old(self).written(),
            final(self).spec_column_id() == old(self).spec_column_id(),
            final(self).spec_kind() == old(self).spec_kind(),
            final(self).spec_level() == old(self).spec_level(),
            final(self).spec_block_size() == old(self).spec_block_size(),
            final(self).spec_stride() == old(self).spec_stride(),
            final(self).spec_precision() == old(self).spec_precision(),
            final(self).spec_scale() == old(self).spec_scale(),
            final(self).group_flushed(),
    {
        if self.row_group_stats.num_values > 0 {
            let group = self.row_group_stats;
            self.row_group_stats = DecimalStatistics::new(self.scale);
            self.stripe_stats.merge(&group);
            self.row_index_entries.push(
                DecimalRowIndexEntry { position: self.row_group_position, stats: group },
            );
            self.row_group_position = self.streams.position();
            proof {
                let w = self.written@;
                let k = self.flushed@ as int;
                assert(w.take(k) + w.skip(k) =~= w);
                lemma_some_vals_concat(w.take(k), w.skip(k));
                lemma_seq_sum128_concat(some_vals(w.take(k)), some_vals(w.skip(k)));
                self.flushed@ = w.len();
                assert(w.take(w.len() as int) =~= w);
                assert(w.skip(w.len() as int) =~= Seq::<Option<i128>>::empty());
                assert(some_vals(w.skip(w.len() as int)) =~= Seq::<i128>::empty());
            }
        }
    }

    /// Write one value; it must fit the declared precision.
    pub fn write_i128(&mut self, x: i128)
        requires
            old(self).wf(),
            old(self).written().len() < u64::MAX,
            -(pow10(old(self).spec_precision() as nat) as int) < x < pow10(
                old(self).spec_precision() as nat,
            ) as int,
        ensures
            final(self).wf(),
            final(self).written() == old(self).written().push(Some(x)),
            final(self).spec_column_id() == old(self).spec_column_id(),
            final(self).spec_kind() == old(self).spec_kind(),
            final(self).spec_level() == old(self).spec_level(),
            final(self).spec_block_size() == old(self).spec_block_size(),
            final(self).spec_stride() == old(self).spec_stride(),
            final(self).spec_precision() == old(self).spec_precision(),
            final(self).spec_scale() == old(self).spec_scale(),
    {
        self.streams.present.write(true);
        x.write_varint(&mut self.streams.data);
        let sc: i64 = self.scale as i64;
        self.streams.secondary_scale.write(sc);
        self.row_group_stats.update(x);
        proof {
            lemma_some_vals_push(self.written@, Some(x));
            self.written@ = self.written@.push(Some(x));
            let sv0 = some_vals(old(self).written@);
            assert(presence(self.written@) =~= presence(old(self).written@).push(true));
            assert(some_vals(self.written@) =~= sv0.push(x));
            assert(sv0.push(x).drop_last() =~= sv0);
            assert(sv0.push(x).last() == x);
            assert(dec_varints(sv0.push(x)) == dec_varints(sv0) + varint_enc(zigzag128(x)));
            assert(scale_run(self.scale, some_vals(self.written@).len()) =~= scale_run(
                self.scale,
                sv0.len(),
            ).push(sc));
            let sv = some_vals(self.written@);
            assert(sv.drop_last() =~= sv0);
            assert(sv.last() == x);
            assert(seq_min128(sv) == opt_min128(seq_min128(sv0), Some(x)));
            assert(seq_max128(sv) == opt_max128(seq_max128(sv0), Some(x)));
            lemma_opt_min128_merge_laws(
                self.stripe_stats.min,
                old(self).row_group_stats.min,
                Some(x),
            );
            lemma_opt_min128_merge_laws(
                self.stripe_stats.max,
                old(self).row_group_stats.max,
                Some(x),
            );
            let k = self.flushed@ as int;
            assert(self.written@.take(k) =~= old(self).written@.take(k));
            assert(self.written@.skip(k) =~= old(self).written@.skip(k).push(Some(x)));
            lemma_some_vals_push(old(self).written@.skip(k), Some(x));
            let gv0 = some_vals(old(self).written@.skip(k));
            let gv = some_vals(self.written@.skip(k));
            assert(gv.drop_last() =~= gv0);
            assert(gv.last() == x);
            assert(seq_sum128(gv) == seq_sum128(gv0) + x);
            assert(self.written@.take(k) + self.written@.skip(k) =~= self.written@);
            lemma_some_vals_concat(self.written@.take(k), self.written@.skip(k));
            lemma_seq_sum128_concat(
                some_vals(self.written@.take(k)),
                some_vals(self.written@.skip(k)),
            );
        }
        self.check_row_group();
    }

    /// Write one value; it must fit the declared precision.
    pub fn write_i64(&mut self, x: i64)
        requires
            old(self).wf(),
            old(self).written().len() < u64::MAX,
            -(pow10(old(self).spec_precision() as nat) as int) < x < pow10(
                old(self).spec_precision() as nat,
            ) as int,
        ensures
            final(self).wf(),
            final(self).written() == old(self).written().push(Some(x as i128)),
            final(self).spec_column_id() == old(self).spec_column_id(),
            final(self).spec_kind() == old(self).spec_kind(),
            final(self).spec_level() == old(self).spec_level(),
            final(self).spec_block_size() == old(self).spec_block_size(),
            final(self).spec_stride() == old(self).spec_stride(),
            final(self).spec_precision() == old(self).spec_precision(),
            final(self).spec_scale() == old(self).spec_scale(),
    {
        self.write_i128(x as i128);
    }

    pub fn write_null(&mut self)
        requires
            old(self).wf(),
            old(self).written().len() < u64::MAX,
        ensures
            final(self).wf(),
            final(self).written() == old(self).written().push(None),
            final(self).spec_column_id() == old(self).spec_column_id(),
            final(self).spec_kind() == old(self).spec_kind(),
            final(self).spec_level() == old(self).spec_level(),
            final(self).spec_block_size() == old(self).spec_block_size(),
            final(self).spec_stride() == old(self).spec_stride(),
    {
        self.streams.present.write(false);
        self.row_group_stats.update_null();
        proof {
            lemma_some_vals_push(self.written@, None);
            self.written@ = self.written@.push(None);
            assert(presence(self.written@) =~= presence(old(self).written@).push(false));
            assert(some_vals(self.written@) =~= some_vals(old(self).written@));
            let k = self.flushed@ as int;
            assert(self.written@.take(k) =~= old(self).written@.take(k));
            assert(self.written@.skip(k) =~= old(self).written@.skip(k).push(None));
            lemma_some_vals_push(old(self).written@.skip(k), None);
            assert(some_vals(self.written@.skip(k)) =~= some_vals(old(self).written@.skip(k)));
            assert(self.written@.take(k) + self.written@.skip(k) =~= self.written@);
            lemma_some_vals_concat(self.written@.take(k), self.written@.skip(k));
            lemma_seq_sum128_concat(
                some_vals(self.written@.take(k)),
                some_vals(self.written@.skip(k)),
            );
        }
        self.check_row_group();
    }

    /// Encode the accumulated row-group index entries as a ROW_INDEX stream,
    /// unless row indexes are disabled.
    pub fn write_index_streams(&mut self, out: &mut CountWrite, stream_infos: &mut Vec<StreamInfo>)
        requires
            old(self).wf(),
        ensures
            final(self).wf(),
            final(self).written() == old(self).written(),
            final(self).spec_column_id() == old(self).spec_column_id(),
            final(self).spec_kind() == old(self).spec_kind(),
            final(self).spec_level() == old(self).spec_level(),
            final(self).spec_block_size() == old(self).spec_block_size(),
            final(self).spec_stride() == old(self).spec_stride(),
            final(self).group_flushed(),
            final(out)@.len() >= old(out)@.len(),
            extends(old(out)@, final(out)@),
            old(self).spec_stride() > 0 ==> final(stream_infos)@ == old(stream_infos)@.push(
                (StreamInfo {
                    kind: StreamKind::RowIndex,
                    column_id: old(self).spec_column_id(),
                    length: (final(out)@.len() - old(out)@.len()) as u64,
                }),
            ),
            old(self).spec_stride() > 0 ==> stream_emits(
                old(out)@,
                final(out)@,
                enc_decimal_index(final(self).spec_index_entries(), final(self).spec_has_null()),
                old(self).spec_kind(),
                old(self).spec_level(),
                old(self).spec_block_size(),
            ),
            old(self).spec_stride() == 0 ==> final(stream_infos)@ == old(stream_infos)@
                && final(out)@ == old(out)@,
    {
        self.finish_row_group();
        if self.config.row_index_stride == 0 {
            return ;
        }
        let has_null = self.stripe_stats.num_values != self.stripe_stats.num_present;
        let mut msg: Vec<u8> = Vec::new();
        let mut i: usize = 0;
        while i < self.row_index_entries.len()
            invariant
                self.wf(),
                i <= self.row_index_entries@.len(),
                has_null == self.spec_has_null(),
                self.group_flushed(),
                msg@ == enc_decimal_index(self.row_index_entries@.take(i as int), has_null),
            decreases self.row_index_entries@.len() - i,
        {
            let mut positions: Vec<u64> = Vec::new();
            self.row_index_entries[i].position.record(has_null, &mut positions);
            let stat = Statistics::Decimal(self.row_index_entries[i].stats);
            encode_row_index_entry(&positions, &stat, &mut msg);
            i += 1;
            proof {
                assert(self.row_index_entries@.take(i as int).drop_last()
                    =~= self.row_index_entries@.take(i - 1));
                assert(self.row_index_entries@.take(i as int).last()
                    == self.row_index_entries@[i - 1]);
                assert(msg@ =~= enc_decimal_index(
                    self.row_index_entries@.take(i as int),
                    has_null,
                ));
            }
        }
        proof {
            assert(self.row_index_entries@.take(self.row_index_entries@.len() as int)
                =~= self.row_index_entries@);
        }
        let start = out.pos();
        let mut cs = CompressionStream::new(&self.config.compression);
        cs.write_bytes(msg.as_slice());
        proof {
            assert(cs.content() =~= msg@);
        }
        cs.finish(out);
        let len = (out.pos() - start) as u64;
        stream_infos.push(
            StreamInfo { kind: StreamKind::RowIndex, column_id: self.column_id, length: len },
        );
        proof {
            assert(stream_infos@ =~= old(stream_infos)@.push(
                (StreamInfo {
                    kind: StreamKind::RowIndex,
                    column_id: old(self).spec_column_id(),
                    length: (out@.len() - old(out)@.len()) as u64,
                }),
            ));
        }
    }

    /// Emit the PRESENT stream (only when a null was seen), the DATA stream
    /// of concatenated bytes, and the LENGTH stream of byte lengths.
    pub fn write_data_streams(&mut self, out: &mut CountWrite, stream_infos: &mut Vec<StreamInfo>) -> (mids: Ghost<(Seq<u8>, Seq<u8>)>)
        requires
            old(self).wf(),
        ensures
            final(self).wf(),
            final(self).written() == Seq::<Option<i128>>::empty(),
            final(self).spec_column_id() == old(self).spec_column_id(),
            final(out)@.len() >= old(out)@.len(),
            extends(old(out)@, final(out)@),
            ({
                let mid = mids@.0;
                let mid2 = mids@.1;
                exists|p_enc: Seq<u8>, l_enc: Seq<u8>|
                    #![trigger p_enc.len(), l_enc.len()]
                {
                    &&& (if old(self).spec_has_null() {
                        &&& bool_rle_decodes(p_enc, presence(old(self).written()))
                        &&& stream_emits(
                            old(out)@,
                            mid,
                            p_enc,
                            old(self).spec_kind(),
                            old(self).spec_level(),
                            old(self).spec_block_size(),
                        )
                    } else {
                        mid == old(out)@
                    })
                    &&& stream_emits(
                        mid,
                        mid2,
                        dec_varints(some_vals(old(self).written())),
                        old(self).spec_kind(),
                        old(self).spec_level(),
                        old(self).spec_block_size(),
                    )
                    &&& int_rle_dec(l_enc, true) is Some
                    &&& pats_to_i64(int_rle_dec(l_enc, true).unwrap()) == scale_run(
                        old(self).spec_scale(),
                        some_vals(old(self).written()).len(),
                    )
                    &&& stream_emits(
                        mid2,
                        final(out)@,
                        l_enc,
                        old(self).spec_kind(),
                        old(self).spec_level(),
                        old(self).spec_block_size(),
                    )
                    &&& old(out)@.len() <= mid.len() <= mid2.len() <= final(out)@.len()
                    &&& final(stream_infos)@ == (if old(self).spec_has_null() {
                        old(stream_infos)@.push(
                            (StreamInfo {
                                kind: StreamKind::Present,
                                column_id: old(self).spec_column_id(),
                                length: (mid.len() - old(out)@.len()) as u64,
                            }),
                        )
                    } else {
                        old(stream_infos)@
                    }).push(
                        (StreamInfo {
                            kind: StreamKind::Data,
                            column_id: old(self).spec_column_id(),
                            length: (mid2.len() - mid.len()) as u64,
                        }),
                    ).push(
                        (StreamInfo {
                            kind: StreamKind::Secondary,
                            column_id: old(self).spec_column_id(),
                            length: (final(out)@.len() - mid2.len()) as u64,
                        }),
                    )
                }
            }),
    {
        let has_null = {
            let a = self.stripe_stats.num_values != self.stripe_stats.num_present;
            let b = self.row_group_stats.num_values != self.row_group_stats.num_present;
            a || b
        };
        let ghost mid0: Seq<u8> = old(out)@;
        if has_null {
            let start = out.pos();
            self.streams.present.finish(out);
            let plen = (out.pos() - start) as u64;
            stream_infos.push(
                StreamInfo { kind: StreamKind::Present, column_id: self.column_id, length: plen },
            );
            proof {
                mid0 = out@;
            }
        } else {
            let mut scratch = CountWrite::new();
            self.streams.present.finish(&mut scratch);
        }
        let start = out.pos();
        self.streams.data.finish(out);
        let dlen = (out.pos() - start) as u64;
        stream_infos.push(
            StreamInfo { kind: StreamKind::Data, column_id: self.column_id, length: dlen },
        );
        let ghost mid2: Seq<u8> = out@;
        let start2 = out.pos();
        self.streams.secondary_scale.finish(out);
        let llen = (out.pos() - start2) as u64;
        stream_infos.push(
            StreamInfo { kind: StreamKind::Secondary, column_id: self.column_id, length: llen },
        );
        self.stripe_stats = DecimalStatistics::new(self.scale);
        self.row_group_stats = DecimalStatistics::new(self.scale);
        self.row_index_entries.clear();
        self.row_group_position = self.streams.position();
        proof {
            self.written@ = Seq::empty();
            self.flushed@ = 0;
            assert(presence(self.written@) =~= Seq::<bool>::empty());
            assert(some_vals(self.written@) =~= Seq::<i128>::empty());
            assert(self.written@.take(0) =~= self.written@);
            assert(self.written@.skip(0) =~= self.written@);
            assert(dec_varints(some_vals(self.written@)) =~= Seq::<u8>::empty());
            assert(scale_run(self.scale, some_vals(self.written@).len()) =~= Seq::<i64>::empty());
            let k = old(self).spec_kind();
            let lv = old(self).spec_level();
            let bs = old(self).spec_block_size();
            let pbits = presence(old(self).written());
            let lens = scale_run(old(self).spec_scale(), some_vals(old(self).written()).len());
            let l_enc = choose|l_enc: Seq<u8>|
                {
                    &&& int_rle_dec(l_enc, true) is Some
                    &&& pats_to_i64(int_rle_dec(l_enc, true).unwrap()) == lens
                    &&& stream_emits(mid2, out@, l_enc, k, lv, bs)
                };
            assert(int_rle_dec(l_enc, true) is Some && pats_to_i64(
                int_rle_dec(l_enc, true).unwrap(),
            ) == lens && stream_emits(mid2, out@, l_enc, k, lv, bs));
            let p_enc: Seq<u8> = if old(self).spec_has_null() {
                choose|p_enc: Seq<u8>|
                    bool_rle_decodes(p_enc, pbits) && stream_emits(
                        old(out)@,
                        mid0,
                        p_enc,
                        k,
                        lv,
                        bs,
                    )
            } else {
                Seq::empty()
            };
            if old(self).spec_has_null() {
                assert(bool_rle_decodes(p_enc, pbits) && stream_emits(
                    old(out)@,
                    mid0,
                    p_enc,
                    k,
                    lv,
                    bs,
                ));
            }
            assert({
                &&& (if old(self).spec_has_null() {
                    &&& bool_rle_decodes(p_enc, presence(old(self).written()))
                    &&& stream_emits(old(out)@, mid0, p_enc, k, lv, bs)
                } else {
                    mid0 == old(out)@
                })
                &&& stream_emits(
                    mid0,
                    mid2,
                    dec_varints(some_vals(old(self).written())),
                    k,
                    lv,
                    bs,
                )
                &&& int_rle_dec(l_enc, true) is Some
                &&& pats_to_i64(int_rle_dec(l_enc, true).unwrap()) == lens
                &&& stream_emits(mid2, out@, l_enc, k, lv, bs)
                &&& old(out)@.len() <= mid0.len() <= mid2.len() <= out@.len()
            });
            assert(p_enc.len() >= 0 && l_enc.len() >= 0);
            assert(stream_infos@ =~= (if old(self).spec_has_null() {
                old(stream_infos)@.push(
                    (StreamInfo {
                        kind: StreamKind::Present,
                        column_id: old(self).spec_column_id(),
                        length: (mid0.len() - old(out)@.len()) as u64,
                    }),
                )
            } else {
                old(stream_infos)@
            }).push(
                (StreamInfo {
                    kind: StreamKind::Data,
                    column_id: old(self).spec_column_id(),
                    length: (mid2.len() - mid0.len()) as u64,
                }),
            ).push(
                (StreamInfo {
                    kind: StreamKind::Secondary,
                    column_id: old(self).spec_column_id(),
                    length: (out@.len() - mid2.len()) as u64,
                }),
            ));
        }
        Ghost((mid0, mid2))
    }

    /// Append this column's stripe statistics.
    pub fn statistics(&self, out: &mut Vec<Statistics>)
        requires
            self.wf(),
        ensures
            final(out)@ == old(out)@.push(Statistics::Decimal(self.spec_stripe_stats())),
            Statistics::Decimal(self.spec_stripe_stats()).wf(),
    {
        out.push(Statistics::Decimal(self.stripe_stats));
    }

    /// Whether this column received exactly `expected` values.
    pub fn verify_row_count(&self, expected: u64) -> (r: bool)
        requires
            self.wf(),
        ensures
            r == (self.written().len() == expected),
    {
        self.stripe_stats.num_values + self.row_group_stats.num_values == expected
    }

    /// Bytes buffered; used for stripe-size rolling.
    pub fn estimated_size(&self) -> (r: usize) {
        sat_add_usize(
            sat_add_usize(
                self.streams.present.estimated_size(),
                self.streams.data.estimated_size(),
            ),
            self.streams.secondary_scale.estimated_size(),
        )
    }

    /// Once every row group is folded in, the stripe statistics describe
    /// exactly the values written.
    pub proof fn lemma_stats_reflect_written(&self)
        requires
            self.wf(),
            self.group_flushed(),
        ensures
            self.spec_stripe_stats().num_values == self.written().len(),
            self.spec_stripe_stats().num_present == some_vals(self.written()).len(),
            self.spec_stripe_stats().min == seq_min128(some_vals(self.written())),
            self.spec_stripe_stats().max == seq_max128(some_vals(self.written())),
            self.spec_stripe_stats().sum matches Some(t) ==> t == seq_sum128(
                some_vals(self.written()),
            ),
    {
        let w = self.written@;
        assert(self.flushed@ == w.len());
        assert(w.take(w.len() as int) =~= w);
    }
}

} // verus!
