use vstd::prelude::*;
use crate::compression::{CompressionKind, CompressionStream, CompressionStreamPosition, stream_emits};
use crate::count_write::{CountWrite, extends};
use crate::data::{presence, some_vals, lemma_some_vals_push, sat_add_usize};
use crate::encoder::boolean_rle::{BooleanRLE, BooleanRLEPosition, bool_rle_decodes};
use crate::proto::{encode_row_index_entry, enc_row_index_entry};
use crate::statistics::{GenericStatistics, Statistics};
use crate::stripe::{StreamInfo, StreamKind};
use crate::writer::Config;

verus! {

/// The 4 little-endian bytes of a 32-bit pattern.
pub open spec fn le32(v: u32) -> Seq<u8> {
    seq![
        (v % 256) as u8,
        ((v / 0x100) % 256) as u8,
        ((v / 0x10000) % 256) as u8,
        ((v / 0x1000000) % 256) as u8,
    ]
}

/// The concatenated little-endian bytes of a pattern sequence.
pub open spec fn le32_concat(s: Seq<u32>) -> Seq<u8>
    decreases s.len(),
{
    if s.len() == 0 {
        Seq::empty()
    } else {
        le32_concat(s.drop_last()) + le32(s.last())
    }
}

/// A seekable position in a float column.
#[derive(Clone, Copy)]
pub struct FloatDataPosition {
    pub present: BooleanRLEPosition,
    pub data: CompressionStreamPosition,
}

impl FloatDataPosition {
    pub open spec fn spec_entries(&self, include_present: bool) -> Seq<u64> {
        (if include_present {
            self.present.spec_entries()
        } else {
            Seq::empty()
        }) + self.data.spec_entries()
    }

    pub fn record(&self, include_present: bool, out: &mut Vec<u64>)
        ensures
            final(out)@ == old(out)@ + self.spec_entries(include_present),
    {
        if include_present {
            self.present.record(out);
        }
        self.data.record(out);
        proof {
            assert(out@ =~= old(out)@ + self.spec_entries(include_present));
        }
    }
}

pub struct FloatRowIndexEntry {
    position: FloatDataPosition,
    stats: GenericStatistics,
}

/// The `RowIndex` message payload for the recorded row groups.
pub closed spec fn enc_float_index(entries: Seq<FloatRowIndexEntry>, include_present: bool) -> Seq<u8>
    decreases entries.len(),
{
    if entries.len() == 0 {
        Seq::empty()
    } else {
        enc_float_index(entries.drop_last(), include_present) + enc_row_index_entry(
            entries.last().position.spec_entries(include_present),
            Statistics::Generic(entries.last().stats),
        )
    }
}

/// Column writer for Float values, taken as their IEEE 754 bit patterns: a
/// PRESENT stream and a raw little-endian DATA stream.  Statistics keep
/// counts only; floating-point min/max/sum stay outside this core.
pub struct FloatData {
    column_id: u32,
    present: BooleanRLE,
    data: CompressionStream,
    stripe_stats: GenericStatistics,
    row_group_stats: GenericStatistics,
    row_group_position: FloatDataPosition,
    row_index_entries: Vec<FloatRowIndexEntry>,
    config: Config,
    written: Ghost<Seq<Option<u32>>>,
}

impl FloatData {
    /// Every value (or null) written in the current stripe, as bit patterns.
    pub closed spec fn written(&self) -> Seq<Option<u32>> {
        self.written@
    }

    pub closed spec fn spec_column_id(&self) -> u32 {
        self.column_id
    }

    pub closed spec fn spec_kind(&self) -> CompressionKind {
        self.data.spec_kind()
    }

    pub closed spec fn spec_level(&self) -> int {
        self.data.spec_level()
    }

    pub closed spec fn spec_block_size(&self) -> int {
        self.data.spec_block_size()
    }

    pub closed spec fn spec_stride(&self) -> u32 {
        self.config.row_index_stride
    }

    pub closed spec fn spec_stripe_stats(&self) -> GenericStatistics {
        self.stripe_stats
    }

    pub closed spec fn group_flushed(&self) -> bool {
        self.row_group_stats.num_values == 0
    }

    /// The row groups recorded so far.
    pub closed spec fn spec_index_entries(&self) -> Seq<FloatRowIndexEntry> {
        self.row_index_entries@
    }

    pub closed spec fn spec_has_null(&self) -> bool {
        self.stripe_stats.num_values != self.stripe_stats.num_present
            || self.row_group_stats.num_values != self.row_group_stats.num_present
    }

    pub closed spec fn wf(&self) -> bool {
        &&& self.config.wf()
        &&& self.present.wf()
        &&& self.data.wf()
        &&& self.present.spec_kind() == self.data.spec_kind()
        &&& self.present.spec_level() == self.data.spec_level()
        &&& self.present.spec_block_size() == self.data.spec_block_size()
        &&& self.data.spec_kind() == self.config.compression.spec_kind()
        &&& self.data.spec_level() == self.config.compression.spec_level() as int
        &&& self.data.spec_block_size() == self.config.compression.spec_block_size() as int
        &&& self.present.vals() == presence(self.written@)
        &&& self.data.content() == le32_concat(some_vals(self.written@))
        &&& self.stripe_stats.wf()
        &&& self.row_group_stats.wf()
        &&& self.stripe_stats.num_values + self.row_group_stats.num_values == self.written@.len()
        &&& self.stripe_stats.num_present + self.row_group_stats.num_present == some_vals(
            self.written@,
        ).len()
        &&& (self.row_group_stats.num_values == 0 ==> self.row_group_stats == (GenericStatistics {
            num_values: 0,
            num_present: 0,
        }))
        &&& self.spec_has_null() == (some_vals(self.written@).len() != self.written@.len())
        &&& self.written@.len() <= u64::MAX
        &&& forall|i: int|
            0 <= i < self.row_index_entries@.len()
                ==> (#[trigger] self.row_index_entries@[i].stats).wf()
    }

    pub fn new(config: &Config, column_id: &mut u32) -> (r: FloatData)
        requires
            config.wf(),
            *old(column_id) < u32::MAX,
        ensures
            r.wf(),
            r.written() == Seq::<Option<u32>>::empty(),
            r.spec_column_id() == *old(column_id),
            *final(column_id) == *old(column_id) + 1,
            r.spec_stride() == config.row_index_stride,
    {
        let cid = *column_id;
        *column_id = *column_id + 1;
        let present = BooleanRLE::new(&config.compression);
        let data = CompressionStream::new(&config.compression);
        let row_group_position = FloatDataPosition {
            present: present.position(),
            data: data.position(),
        };
        let r = FloatData {
            column_id: cid,
            present,
            data,
            stripe_stats: GenericStatistics::new(),
            row_group_stats: GenericStatistics::new(),
            row_group_position,
            row_index_entries: Vec::new(),
            config: config.clone(),
            written: Ghost(Seq::empty()),
        };
        proof {
            assert(presence(r.written@) =~= Seq::<bool>::empty());
            assert(some_vals(r.written@) =~= Seq::<u32>::empty());
            assert(le32_concat(some_vals(r.written@)) =~= Seq::<u8>::empty());
        }
        r
    }

    pub fn column_id(&self) -> (r: u32)
        ensures
            r == self.spec_column_id(),
    {
        self.column_id
    }

    fn check_row_group(&mut self)
        requires
            old(self).wf(),
        ensures
            final(self).wf(),
            final(self).written() == old(self).written(),
            final(self).spec_column_id() == old(self).spec_column_id(),
            final(self).spec_kind() == old(self).spec_kind(),
            final(self).spec_level() == old(self).spec_level(),
            final(self).spec_block_size() == old(self).spec_block_size(),
            final(self).spec_stride() == old(self).spec_stride(),
    {
        if self.row_group_stats.num_values == self.config.row_index_stride as u64 {
            self.finish_row_group();
        }
    }

    fn finish_row_group(&mut self)
        requires
            old(self).wf(),
        ensures
            final(self).wf(),
            final(self).written() == old(self).written(),
            final(self).spec_column_id() == old(self).spec_column_id(),
            final(self).spec_kind() == old(self).spec_kind(),
            final(self).spec_level() == old(self).spec_level(),
            final(self).spec_block_size() == old(self).spec_block_size(),
            final(self).spec_stride() == old(self).spec_stride(),
            final(self).group_flushed(),
    {
        if self.row_group_stats.num_values > 0 {
            let group = self.row_group_stats;
            self.row_group_stats = GenericStatistics::new();
            self.stripe_stats.merge(&group);
            self.row_index_entries.push(
                FloatRowIndexEntry { position: self.row_group_position, stats: group },
            );
            self.row_group_position = FloatDataPosition {
                present: self.present.position(),
                data: self.data.position(),
            };
        }
    }

    /// Write one value given as its IEEE 754 bit pattern.
    pub fn write_bits(&mut self, x: u32)
        requires
            old(self).wf(),
            old(self).written().len() < u64::MAX,
        ensures
            final(self).wf(),
            final(self).written() == old(self).written().push(Some(x)),
            final(self).spec_column_id() == old(self).spec_column_id(),
            final(self).spec_kind() == old(self).spec_kind(),
            final(self).spec_level() == old(self).spec_level(),
            final(self).spec_block_size() == old(self).spec_block_size(),
            final(self).spec_stride() == old(self).spec_stride(),
    {
        self.present.write(true);
        let b0 = (x % 256) as u8;
        let b1 = ((x / 0x100) % 256) as u8;
        let b2 = ((x / 0x10000) % 256) as u8;
        let b3 = ((x / 0x1000000) % 256) as u8;
        self.data.write_u8(b0);
        self.data.write_u8(b1);
        self.data.write_u8(b2);
        self.data.write_u8(b3);
        self.row_group_stats.update(true);
        proof {
            lemma_some_vals_push(self.written@, Some(x));
            self.written@ = self.written@.push(Some(x));
            let sv0 = some_vals(old(self).written@);
            assert(presence(self.written@) =~= presence(old(self).written@).push(true));
            assert(some_vals(self.written@) =~= sv0.push(x));
            assert(sv0.push(x).drop_last() =~= sv0);
            assert(self.data.content() =~= le32_concat(sv0) + le32(x));
            assert(self.data.content() =~= le32_concat(some_vals(self.written@)));
        }
        self.check_row_group();
    }

    pub fn write_null(&mut self)
        requires
            old(self).wf(),
            old(self).written().len() < u64::MAX,
        ensures
            final(self).wf(),
            final(self).written() == old(self).written().push(None),
            final(self).spec_column_id() == old(self).spec_column_id(),
            final(self).spec_kind() == old(self).spec_kind(),
            final(self).spec_level() == old(self).spec_level(),
            final(self).spec_block_size() == old(self).spec_block_size(),
            final(self).spec_stride() == old(self).spec_stride(),
    {
        self.present.write(false);
        self.row_group_stats.update(false);
        proof {
            lemma_some_vals_push(self.written@, None);
            self.written@ = self.written@.push(None);
            assert(presence(self.written@) =~= presence(old(self).written@).push(false));
            assert(some_vals(self.written@) =~= some_vals(old(self).written@));
        }
        self.check_row_group();
    }

    /// Encode the accumulated row-group index entries as a ROW_INDEX stream,
    /// unless row indexes are disabled.
    #[verifier::rlimit(100)]
    #[verifier::loop_isolation(false)]
    pub fn write_index_streams(&mut self, out: &mut CountWrite, stream_infos: &mut Vec<StreamInfo>)
        requires
            old(self).wf(),
        ensures
            final(self).wf(),
            final(self).written() == old(self).written(),
            final(self).spec_column_id() == old(self).spec_column_id(),
            final(self).spec_kind() == old(self).spec_kind(),
            final(self).spec_level() == old(self).spec_level(),
            final(self).spec_block_size() == old(self).spec_block_size(),
            final(self).spec_stride() == old(self).spec_stride(),
            final(self).group_flushed(),
            final(out)@.len() >= old(out)@.len(),
            extends(old(out)@, final(out)@),
            old(self).spec_stride() > 0 ==> final(stream_infos)@ == old(stream_infos)@.push(
                (StreamInfo {
                    kind: StreamKind::RowIndex,
                    column_id: old(self).spec_column_id(),
                    length: (final(out)@.len() - old(out)@.len()) as u64,
                }),
            ),
            old(self).spec_stride() > 0 ==> stream_emits(
                old(out)@,
                final(out)@,
                enc_float_index(final(self).spec_index_entries(), final(self).spec_has_null()),
                old(self).spec_kind(),
                old(self).spec_level(),
                old(self).spec_block_size(),
            ),
            old(self).spec_stride() == 0 ==> final(stream_infos)@ == old(stream_infos)@
                && final(out)@ == old(out)@,
    {
        self.finish_row_group();
        if self.config.row_index_stride == 0 {
            return ;
        }
        let has_null = self.stripe_stats.num_values != self.stripe_stats.num_present;
        let mut msg: Vec<u8> = Vec::new();
        let mut i: usize = 0;
        while i < self.row_index_entries.len()
            invariant
                self.wf(),
                i <= self.row_index_entries@.len(),
                has_null == self.spec_has_null(),
                self.group_flushed(),
                msg@ == enc_float_index(self.row_index_entries@.take(i as int), has_null),
            decreases self.row_index_entries@.len() - i,
        {
            let mut positions: Vec<u64> = Vec::new();
            self.row_index_entries[i].position.record(has_null, &mut positions);
            let stat = Statistics::Generic(self.row_index_entries[i].stats);
            encode_row_index_entry(&positions, &stat, &mut msg);
            i += 1;
            proof {
                assert(self.row_index_entries@.take(i as int).drop_last()
                    =~= self.row_index_entries@.take(i - 1));
                assert(self.row_index_entries@.take(i as int).last()
                    == self.row_index_entries@[i - 1]);
                assert(msg@ =~= enc_float_index(
                    self.row_index_entries@.take(i as int),
                    has_null,
                ));
            }
        }
        proof {
            assert(self.row_index_entries@.take(self.row_index_entries@.len() as int)
                =~= self.row_index_entries@);
        }
        let start = out.pos();
        let mut cs = CompressionStream::new(&self.config.compression);
        cs.write_bytes(msg.as_slice());
        proof {
            assert(cs.content() =~= msg@);
        }
        cs.finish(out);
        let len = (out.pos() - start) as u64;
        stream_infos.push(
            StreamInfo { kind: StreamKind::RowIndex, column_id: self.column_id, length: len },
        );
        proof {
            assert(stream_infos@ =~= old(stream_infos)@.push(
                (StreamInfo {
                    kind: StreamKind::RowIndex,
                    column_id: old(self).spec_column_id(),
                    length: (out@.len() - old(out)@.len()) as u64,
                }),
            ));
        }
    }

    /// Emit the PRESENT stream (only when a null was seen) and the raw
    /// little-endian DATA stream.
    pub fn write_data_streams(&mut self, out: &mut CountWrite, stream_infos: &mut Vec<StreamInfo>) -> (mids: Ghost<Seq<u8>>)
        requires
            old(self).wf(),
        ensures
            final(self).wf(),
            final(self).written() == Seq::<Option<u32>>::empty(),
            final(self).spec_column_id() == old(self).spec_column_id(),
            final(out)@.len() >= old(out)@.len(),
            extends(old(out)@, final(out)@),
            ({
                let mid = mids@;
                exists|p_enc: Seq<u8>|
                    #![trigger p_enc.len()]
                    {
                        &&& (if old(self).spec_has_null() {
                            &&& bool_rle_decodes(p_enc, presence(old(self).written()))
                            &&& stream_emits(
                                old(out)@,
                                mid,
                                p_enc,
                                old(self).spec_kind(),
                                old(self).spec_level(),
                                old(self).spec_block_size(),
                            )
                        } else {
                            mid == old(out)@
                        })
                        &&& stream_emits(
                            mid,
                            final(out)@,
                            le32_concat(some_vals(old(self).written())),
                            old(self).spec_kind(),
                            old(self).spec_level(),
                            old(self).spec_block_size(),
                        )
                        &&& old(out)@.len() <= mid.len() <= final(out)@.len()
                        &&& final(stream_infos)@ == (if old(self).spec_has_null() {
                            old(stream_infos)@.push(
                                (StreamInfo {
                                    kind: StreamKind::Present,
                                    column_id: old(self).spec_column_id(),
                                    length: (mid.len() - old(out)@.len()) as u64,
                                }),
                            )
                        } else {
                            old(stream_infos)@
                        }).push(
                            (StreamInfo {
                                kind: StreamKind::Data,
                                column_id: old(self).spec_column_id(),
                                length: (final(out)@.len() - mid.len()) as u64,
                            }),
                        )
                    }
            }),
    {
        let has_null = {
            let a = self.stripe_stats.num_values != self.stripe_stats.num_present;
            let b = self.row_group_stats.num_values != self.row_group_stats.num_present;
            a || b
        };
        let ghost mid0: Seq<u8> = old(out)@;
        if has_null {
            let start = out.pos();
            self.present.finish(out);
            let plen = (out.pos() - start) as u64;
            stream_infos.push(
                StreamInfo { kind: StreamKind::Present, column_id: self.column_id, length: plen },
            );
            proof {
                mid0 = out@;
            }
        } else {
            let mut scratch = CountWrite::new();
            self.present.finish(&mut scratch);
        }
        let start = out.pos();
        self.data.finish(out);
        let dlen = (out.pos() - start) as u64;
        stream_infos.push(
            StreamInfo { kind: StreamKind::Data, column_id: self.column_id, length: dlen },
        );
        self.stripe_stats = GenericStatistics::new();
        self.row_group_stats = GenericStatistics::new();
        self.row_index_entries.clear();
        self.row_group_position = FloatDataPosition {
            present: self.present.position(),
            data: self.data.position(),
        };
        proof {
            self.written@ = Seq::empty();
            assert(presence(self.written@) =~= Seq::<bool>::empty());
            assert(some_vals(self.written@) =~= Seq::<u32>::empty());
            assert(le32_concat(some_vals(self.written@)) =~= Seq::<u8>::empty());
            let k = old(self).spec_kind();
            let lv = old(self).spec_level();
            let bs = old(self).spec_block_size();
            let pbits = presence(old(self).written());
            let p_enc: Seq<u8> = if old(self).spec_has_null() {
                choose|p_enc: Seq<u8>|
                    bool_rle_decodes(p_enc, pbits) && stream_emits(
                        old(out)@,
                        mid0,
                        p_enc,
                        k,
                        lv,
                        bs,
                    )
            } else {
                Seq::empty()
            };
            if old(self).spec_has_null() {
                assert(bool_rle_decodes(p_enc, pbits) && stream_emits(
                    old(out)@,
                    mid0,
                    p_enc,
                    k,
                    lv,
                    bs,
                ));
            }
            assert(p_enc.len() >= 0);
            assert(stream_emits(
                mid0,
                out@,
                le32_concat(some_vals(old(self).written())),
                k,
                lv,
                bs,
            ));
            assert(stream_infos@ =~= (if old(self).spec_has_null() {
                old(stream_infos)@.push(
                    (StreamInfo {
                        kind: StreamKind::Present,
                        column_id: old(self).spec_column_id(),
                        length: (mid0.len() - old(out)@.len()) as u64,
                    }),
                )
            } else {
                old(stream_infos)@
            }).push(
                (StreamInfo {
                    kind: StreamKind::Data,
                    column_id: old(self).spec_column_id(),
                    length: (out@.len() - mid0.len()) as u64,
                }),
            ));
        }
        Ghost(mid0)
    }

    /// Append this column's stripe statistics.
    pub fn statistics(&self, out: &mut Vec<Statistics>)
        requires
            self.wf(),
        ensures
            final(out)@ == old(out)@.push(Statistics::Generic(self.spec_stripe_stats())),
            Statistics::Generic(self.spec_stripe_stats()).wf(),
    {
        out.push(Statistics::Generic(self.stripe_stats));
    }

    /// Once every row group is folded in, the stripe statistics count
    /// exactly the values written.
    pub proof fn lemma_stats_reflect_written(&self)
        requires
            self.wf(),
            self.group_flushed(),
        ensures
            self.spec_stripe_stats().num_values == self.written().len(),
            self.spec_stripe_stats().num_present == some_vals(self.written()).len(),
    {
    }

    /// Whether this column received exactly `expected` values.
    pub fn verify_row_count(&self, expected: u64) -> (r: bool)
        requires
            self.wf(),
        ensures
            r == (self.written().len() == expected),
    {
        self.stripe_stats.num_values + self.row_group_stats.num_values == expected
    }

    /// Bytes buffered; used for stripe-size rolling.
    pub fn estimated_size(&self) -> (r: usize) {
        sat_add_usize(self.present.estimated_size(), self.data.estimated_size())
    }
}

} // verus!
