use vstd::prelude::*;
use crate::compression::{CompressionKind, CompressionStream, CompressionStreamPosition, stream_emits};
use crate::count_write::{CountWrite, extends};
use crate::data::{presence, some_vals, lemma_some_vals_push, sat_add_usize};
use crate::encoder::boolean_rle::{BooleanRLE, BooleanRLEPosition, bool_rle_decodes};
use crate::encoder::int_rle_v1::{UnsignedIntRLEv1, IntRLEv1Position, int_rle_dec};
use crate::proto::{encode_row_index_entry, enc_row_index_entry};
use crate::statistics::{BinaryStatistics, Statistics, sat_add64, sat_len_sum, lemma_sat_add64_assoc};
use crate::stripe::{StreamInfo, StreamKind};
use crate::writer::Config;

verus! {

/// The byte lengths of a sequence of byte strings.
pub open spec fn byte_lengths(s: Seq<Seq<u8>>) -> Seq<u64> {
    s.map_values(|v: Seq<u8>| v.len() as u64)
}

/// The streams of a binary column: null bitmap, raw UTF-8 bytes, lengths.
pub struct BinaryDataStreams {
    pub present: BooleanRLE,
    pub data: CompressionStream,
    pub lengths: UnsignedIntRLEv1,
}

/// A seekable position in a binary column.
#[derive(Clone, Copy)]
pub struct BinaryDataPosition {
    pub present: BooleanRLEPosition,
    pub data: CompressionStreamPosition,
    pub lengths: IntRLEv1Position,
}

impl BinaryDataPosition {
    pub open spec fn spec_entries(&self, include_present: bool) -> Seq<u64> {
        (if include_present {
            self.present.spec_entries()
        } else {
            Seq::empty()
        }) + self.data.spec_entries() + self.lengths.spec_entries()
    }

    pub fn record(&self, include_present: bool, out: &mut Vec<u64>)
        ensures
            final(out)@ == old(out)@ + self.spec_entries(include_present),
    {
        if include_present {
            self.present.record(out);
        }
        self.data.record(out);
        self.lengths.record(out);
        proof {
            assert(out@ =~= old(out)@ + self.spec_entries(include_present));
        }
    }
}

impl BinaryDataStreams {
    pub fn position(&self) -> (r: BinaryDataPosition)
        requires
            self.present.wf(),
            self.data.wf(),
            self.lengths.wf(),
    {
        BinaryDataPosition {
            present: self.present.position(),
            data: self.data.position(),
            lengths: self.lengths.position(),
        }
    }
}

pub struct BinaryRowIndexEntry {
    position: BinaryDataPosition,
    stats: BinaryStatistics,
}

/// The `RowIndex` message payload for the recorded row groups.
pub closed spec fn enc_binary_index(entries: Seq<BinaryRowIndexEntry>, include_present: bool) -> Seq<u8>
    decreases entries.len(),
{
    if entries.len() == 0 {
        Seq::empty()
    } else {
        enc_binary_index(entries.drop_last(), include_present) + enc_row_index_entry(
            entries.last().position.spec_entries(include_present),
            Statistics::Binary(entries.last().stats),
        )
    }
}

/// Column writer for Binary values: a PRESENT stream, a raw DATA
/// stream of concatenated bytes, and a LENGTH stream.
pub struct BinaryData {
    column_id: u32,
    streams: BinaryDataStreams,
    stripe_stats: BinaryStatistics,
    row_group_stats: BinaryStatistics,
    row_group_position: BinaryDataPosition,
    row_index_entries: Vec<BinaryRowIndexEntry>,
    config: Config,
    written: Ghost<Seq<Option<Seq<u8>>>>,
}

impl BinaryData {
    /// Every value (or null) written to this column in the current stripe,
    /// as UTF-8 bytes.
    pub closed spec fn written(&self) -> Seq<Option<Seq<u8>>> {
        self.written@
    }

    pub closed spec fn spec_column_id(&self) -> u32 {
        self.column_id
    }

    pub closed spec fn spec_kind(&self) -> CompressionKind {
        self.streams.data.spec_kind()
    }

    pub closed spec fn spec_level(&self) -> int {
        self.streams.data.spec_level()
    }

    pub closed spec fn spec_block_size(&self) -> int {
        self.streams.data.spec_block_size()
    }

    pub closed spec fn spec_stride(&self) -> u32 {
        self.config.row_index_stride
    }

    pub closed spec fn spec_stripe_stats(&self) -> BinaryStatistics {
        self.stripe_stats
    }

    pub closed spec fn group_flushed(&self) -> bool {
        self.row_group_stats.num_values == 0
    }

    /// The row groups recorded so far.
    pub closed spec fn spec_index_entries(&self) -> Seq<BinaryRowIndexEntry> {
        self.row_index_entries@
    }

    pub closed spec fn spec_has_null(&self) -> bool {
        self.stripe_stats.num_values != self.stripe_stats.num_present
            || self.row_group_stats.num_values != self.row_group_stats.num_present
    }

    pub closed spec fn wf(&self) -> bool {
        &&& self.config.wf()
        &&& self.streams.present.wf()
        &&& self.streams.data.wf()
        &&& self.streams.lengths.wf()
        &&& self.streams.present.spec_kind() == self.streams.data.spec_kind()
        &&& self.streams.present.spec_level() == self.streams.data.spec_level()
        &&& self.streams.present.spec_block_size() == self.streams.data.spec_block_size()
        &&& self.streams.data.spec_kind() == self.config.compression.spec_kind()
        &&& self.streams.data.spec_level() == self.config.compression.spec_level() as int
        &&& self.streams.data.spec_block_size() == self.config.compression.spec_block_size() as int
        &&& self.streams.lengths.spec_kind() == self.streams.data.spec_kind()
        &&& self.streams.lengths.spec_level() == self.streams.data.spec_level()
        &&& self.streams.lengths.spec_block_size() == self.streams.data.spec_block_size()
        &&& self.streams.present.vals() == presence(self.written@)
        &&& self.streams.data.content() == some_vals(self.written@).flatten()
        &&& self.streams.lengths.vals() == byte_lengths(some_vals(self.written@))
        &&& self.stripe_stats.wf()
        &&& self.row_group_stats.wf()
        &&& self.stripe_stats.num_values + self.row_group_stats.num_values == self.written@.len()
        &&& self.stripe_stats.num_present + self.row_group_stats.num_present == some_vals(
            self.written@,
        ).len()
        &&& sat_add64(
            self.stripe_stats.sum_lengths as nat,
            self.row_group_stats.sum_lengths as nat,
        ) == sat_len_sum(some_vals(self.written@))
        &&& (self.row_group_stats.num_values == 0 ==> self.row_group_stats == (BinaryStatistics {
            num_values: 0,
            num_present: 0,
            sum_lengths: 0,
        }))
        &&& self.spec_has_null() == (some_vals(self.written@).len() != self.written@.len())
        &&& self.written@.len() <= u64::MAX
        &&& forall|i: int|
            0 <= i < self.row_index_entries@.len()
                ==> (#[trigger] self.row_index_entries@[i].stats).wf()
    }

    pub fn new(config: &Config, column_id: &mut u32) -> (r: BinaryData)
        requires
            config.wf(),
            *old(column_id) < u32::MAX,
        ensures
            r.wf(),
            r.written() == Seq::<Option<Seq<u8>>>::empty(),
            r.spec_column_id() == *old(column_id),
            *final(column_id) == *old(column_id) + 1,
            r.spec_stride() == config.row_index_stride,
    {
        let cid = *column_id;
        *column_id = *column_id + 1;
        let streams = BinaryDataStreams {
            present: BooleanRLE::new(&config.compression),
            data: CompressionStream::new(&config.compression),
            lengths: UnsignedIntRLEv1::new(&config.compression),
        };
        let row_group_position = streams.position();
        let r = BinaryData {
            column_id: cid,
            streams,
            stripe_stats: BinaryStatistics::new(),
            row_group_stats: BinaryStatistics::new(),
            row_group_position,
            row_index_entries: Vec::new(),
            config: config.clone(),
            written: Ghost(Seq::empty()),
        };
        proof {
            assert(presence(r.written@) =~= Seq::<bool>::empty());
            assert(some_vals(r.written@) =~= Seq::<Seq<u8>>::empty());
            assert(some_vals(r.written@).flatten() =~= Seq::<u8>::empty());
            assert(byte_lengths(some_vals(r.written@)) =~= Seq::<u64>::empty());
            assert(sat_len_sum(some_vals(r.written@)) == 0);
        }
        r
    }

    pub fn column_id(&self) -> (r: u32)
        ensures
            r == self.spec_column_id(),
    {
        self.column_id
    }

    fn check_row_group(&mut self)
        requires
            old(self).wf(),
        ensures
            final(self).wf(),
            final(self).written() == old(self).written(),
            final(self).spec_column_id() == old(self).spec_column_id(),
            final(self).spec_kind() == old(self).spec_kind(),
            final(self).spec_level() == old(self).spec_level(),
            final(self).spec_block_size() == old(self).spec_block_size(),
            final(self).spec_stride() == old(self).spec_stride(),
    {
        if self.row_group_stats.num_values == self.config.row_index_stride as u64 {
            self.finish_row_group();
        }
    }

    fn finish_row_group(&mut self)
        requires
            old(self).wf(),
        ensures
            final(self).wf(),
            final(self).written() == old(self).written(),
            final(self).spec_column_id() == old(self).spec_column_id(),
            final(self).spec_kind() == old(self).spec_kind(),
            final(self).spec_level() == old(self).spec_level(),
            final(self).spec_block_size() == old(self).spec_block_size(),
            final(self).spec_stride() == old(self).spec_stride(),
            final(self).group_flushed(),
    {
        if self.row_group_stats.num_values > 0 {
            let group = self.row_group_stats;
            self.row_group_stats = BinaryStatistics::new();
            self.stripe_stats.merge(&group);
            self.row_index_entries.push(
                BinaryRowIndexEntry { position: self.row_group_position, stats: group },
            );
            self.row_group_position = self.streams.position();
        }
    }

    pub fn write(&mut self, x: &[u8])
        requires
            old(self).wf(),
            old(self).written().len() < u64::MAX,
        ensures
            final(self).wf(),
            final(self).written() == old(self).written().push(Some(x@)),
            final(self).spec_column_id() == old(self).spec_column_id(),
            final(self).spec_kind() == old(self).spec_kind(),
            final(self).spec_level() == old(self).spec_level(),
            final(self).spec_block_size() == old(self).spec_block_size(),
            final(self).spec_stride() == old(self).spec_stride(),
    {
        self.streams.present.write(true);
        self.streams.data.write_bytes(x);
        self.streams.lengths.write(x.len() as u64);
        self.row_group_stats.update(x);
        proof {
            lemma_some_vals_push(self.written@, Some(x@));
            self.written@ = self.written@.push(Some(x@));
            let sv0 = some_vals(old(self).written@);
            assert(presence(self.written@) =~= presence(old(self).written@).push(true));
            assert(some_vals(self.written@) =~= sv0.push(x@));
            sv0.lemma_flatten_push(x@);
            assert(byte_lengths(some_vals(self.written@)) =~= byte_lengths(sv0).push(
                x@.len() as u64,
            ));
            let sv = some_vals(self.written@);
            assert(sv.drop_last() =~= sv0);
            assert(sv.last() == x@);
            assert(sat_len_sum(sv) == sat_add64(sat_len_sum(sv0) as nat, x@.len()));
            lemma_sat_add64_assoc(
                self.stripe_stats.sum_lengths,
                old(self).row_group_stats.sum_lengths as nat,
                x@.len(),
            );
        }
        self.check_row_group();
    }

    pub fn write_null(&mut self)
        requires
            old(self).wf(),
            old(self).written().len() < u64::MAX,
        ensures
            final(self).wf(),
            final(self).written() == old(self).written().push(None),
            final(self).spec_column_id() == old(self).spec_column_id(),
            final(self).spec_kind() == old(self).spec_kind(),
            final(self).spec_level() == old(self).spec_level(),
            final(self).spec_block_size() == old(self).spec_block_size(),
            final(self).spec_stride() == old(self).spec_stride(),
    {
        self.streams.present.write(false);
        self.row_group_stats.update_null();
        proof {
            lemma_some_vals_push(self.written@, None);
            self.written@ = self.written@.push(None);
            assert(presence(self.written@) =~= presence(old(self).written@).push(false));
            assert(some_vals(self.written@) =~= some_vals(old(self).written@));
        }
        self.check_row_group();
    }

    /// Encode the accumulated row-group index entries as a ROW_INDEX stream,
    /// unless row indexes are disabled.
    pub fn write_index_streams(&mut self, out: &mut CountWrite, stream_infos: &mut Vec<StreamInfo>)
        requires
            old(self).wf(),
        ensures
            final(self).wf(),
            final(self).written() == old(self).written(),
            final(self).spec_column_id() == old(self).spec_column_id(),
            final(self).spec_kind() == old(self).spec_kind(),
            final(self).spec_level() == old(self).spec_level(),
            final(self).spec_block_size() == old(self).spec_block_size(),
            final(self).spec_stride() == old(self).spec_stride(),
            final(self).group_flushed(),
            final(out)@.len() >= old(out)@.len(),
            extends(old(out)@, final(out)@),
            old(self).spec_stride() > 0 ==> final(stream_infos)@ == old(stream_infos)@.push(
                (StreamInfo {
                    kind: StreamKind::RowIndex,
                    column_id: old(self).spec_column_id(),
                    length: (final(out)@.len() - old(out)@.len()) as u64,
                }),
            ),
            old(self).spec_stride() > 0 ==> stream_emits(
                old(out)@,
                final(out)@,
                enc_binary_index(final(self).spec_index_entries(), final(self).spec_has_null()),
                old(self).spec_kind(),
                old(self).spec_level(),
                old(self).spec_block_size(),
            ),
            old(self).spec_stride() == 0 ==> final(stream_infos)@ == old(stream_infos)@
                && final(out)@ == old(out)@,
    {
        self.finish_row_group();
        if self.config.row_index_stride == 0 {
            return ;
        }
        let has_null = self.stripe_stats.num_values != self.stripe_stats.num_present;
        let mut msg: Vec<u8> = Vec::new();
        let mut i: usize = 0;
        while i < self.row_index_entries.len()
            invariant
                self.wf(),
                i <= self.row_index_entries@.len(),
                has_null == self.spec_has_null(),
                self.group_flushed(),
                msg@ == enc_binary_index(self.row_index_entries@.take(i as int), has_null),
            decreases self.row_index_entries@.len() - i,
        {
            let mut positions: Vec<u64> = Vec::new();
            self.row_index_entries[i].position.record(has_null, &mut positions);
            let stat = Statistics::Binary(self.row_index_entries[i].stats);
            encode_row_index_entry(&positions, &stat, &mut msg);
            i += 1;
            proof {
                assert(self.row_index_entries@.take(i as int).drop_last()
                    =~= self.row_index_entries@.take(i - 1));
                assert(self.row_index_entries@.take(i as int).last()
                    == self.row_index_entries@[i - 1]);
                assert(msg@ =~= enc_binary_index(
                    self.row_index_entries@.take(i as int),
                    has_null,
                ));
            }
        }
        proof {
            assert(self.row_index_entries@.take(self.row_index_entries@.len() as int)
                =~= self.row_index_entries@);
        }
        let start = out.pos();
        let mut cs = CompressionStream::new(&self.config.compression);
        cs.write_bytes(msg.as_slice());
        proof {
            assert(cs.content() =~= msg@);
        }
        cs.finish(out);
        let len = (out.pos() - start) as u64;
        stream_infos.push(
            StreamInfo { kind: StreamKind::RowIndex, column_id: self.column_id, length: len },
        );
        proof {
            assert(stream_infos@ =~= old(stream_infos)@.push(
                (StreamInfo {
                    kind: StreamKind::RowIndex,
                    column_id: old(self).spec_column_id(),
                    length: (out@.len() - old(out)@.len()) as u64,
                }),
            ));
        }
    }

    /// Emit the PRESENT stream (only when a null was seen), the DATA stream
    /// of concatenated bytes, and the LENGTH stream of byte lengths.
    pub fn write_data_streams(&mut self, out: &mut CountWrite, stream_infos: &mut Vec<StreamInfo>) -> (mids: Ghost<(Seq<u8>, Seq<u8>)>)
        requires
            old(self).wf(),
        ensures
            final(self).wf(),
            final(self).written() == Seq::<Option<Seq<u8>>>::empty(),
            final(self).spec_column_id() == old(self).spec_column_id(),
            final(out)@.len() >= old(out)@.len(),
            extends(old(out)@, final(out)@),
            ({
                let mid = mids@.0;
                let mid2 = mids@.1;
                exists|p_enc: Seq<u8>, l_enc: Seq<u8>|
                {
                    &&& (if old(self).spec_has_null() {
                        &&& bool_rle_decodes(p_enc, presence(old(self).written()))
                        &&& stream_emits(
                            old(out)@,
                            mid,
                            p_enc,
                            old(self).spec_kind(),
                            old(self).spec_level(),
                            old(self).spec_block_size(),
                        )
                    } else {
                        mid == old(out)@
                    })
                    &&& stream_emits(
                        mid,
                        mid2,
                        some_vals(old(self).written()).flatten(),
                        old(self).spec_kind(),
                        old(self).spec_level(),
                        old(self).spec_block_size(),
                    )
                    &&& int_rle_dec(l_enc, false) == Some(byte_lengths(some_vals(old(self).written())))
                    &&& stream_emits(
                        mid2,
                        final(out)@,
                        l_enc,
                        old(self).spec_kind(),
                        old(self).spec_level(),
                        old(self).spec_block_size(),
                    )
                    &&& old(out)@.len() <= mid.len() <= mid2.len() <= final(out)@.len()
                    &&& final(stream_infos)@ == (if old(self).spec_has_null() {
                        old(stream_infos)@.push(
                            (StreamInfo {
                                kind: StreamKind::Present,
                                column_id: old(self).spec_column_id(),
                                length: (mid.len() - old(out)@.len()) as u64,
                            }),
                        )
                    } else {
                        old(stream_infos)@
                    }).push(
                        (StreamInfo {
                            kind: StreamKind::Data,
                            column_id: old(self).spec_column_id(),
                            length: (mid2.len() - mid.len()) as u64,
                        }),
                    ).push(
                        (StreamInfo {
                            kind: StreamKind::Length,
                            column_id: old(self).spec_column_id(),
                            length: (final(out)@.len() - mid2.len()) as u64,
                        }),
                    )
                }
            }),
    {
        let has_null = {
            let a = self.stripe_stats.num_values != self.stripe_stats.num_present;
            let b = self.row_group_stats.num_values != self.row_group_stats.num_present;
            a || b
        };
        let ghost mid0: Seq<u8> = old(out)@;
        if has_null {
            let start = out.pos();
            self.streams.present.finish(out);
            let plen = (out.pos() - start) as u64;
            stream_infos.push(
                StreamInfo { kind: StreamKind::Present, column_id: self.column_id, length: plen },
            );
            proof {
                mid0 = out@;
            }
        } else {
            let mut scratch = CountWrite::new();
            self.streams.present.finish(&mut scratch);
        }
        let start = out.pos();
        self.streams.data.finish(out);
        let dlen = (out.pos() - start) as u64;
        stream_infos.push(
            StreamInfo { kind: StreamKind::Data, column_id: self.column_id, length: dlen },
        );
        let ghost mid2: Seq<u8> = out@;
        let start2 = out.pos();
        self.streams.lengths.finish(out);
        let llen = (out.pos() - start2) as u64;
        stream_infos.push(
            StreamInfo { kind: StreamKind::Length, column_id: self.column_id, length: llen },
        );
        self.stripe_stats = BinaryStatistics::new();
        self.row_group_stats = BinaryStatistics::new();
        self.row_index_entries.clear();
        self.row_group_position = self.streams.position();
        proof {
            self.written@ = Seq::empty();
            assert(presence(self.written@) =~= Seq::<bool>::empty());
            assert(some_vals(self.written@) =~= Seq::<Seq<u8>>::empty());
            assert(some_vals(self.written@).flatten() =~= Seq::<u8>::empty());
            assert(byte_lengths(some_vals(self.written@)) =~= Seq::<u64>::empty());
            assert(sat_len_sum(some_vals(self.written@)) == 0);
            let k = old(self).spec_kind();
            let lv = old(self).spec_level();
            let bs = old(self).spec_block_size();
            let pbits = presence(old(self).written());
            let lens = byte_lengths(some_vals(old(self).written()));
            let l_enc = choose|l_enc: Seq<u8>|
                int_rle_dec(l_enc, false) == Some(lens) && stream_emits(
                    mid2,
                    out@,
                    l_enc,
                    k,
                    lv,
                    bs,
                );
            assert(int_rle_dec(l_enc, false) == Some(lens) && stream_emits(
                mid2,
                out@,
                l_enc,
                k,
                lv,
                bs,
            ));
            let p_enc: Seq<u8> = if old(self).spec_has_null() {
                choose|p_enc: Seq<u8>|
                    bool_rle_decodes(p_enc, pbits) && stream_emits(
                        old(out)@,
                        mid0,
                        p_enc,
                        k,
                        lv,
                        bs,
                    )
            } else {
                Seq::empty()
            };
            if old(self).spec_has_null() {
                assert(bool_rle_decodes(p_enc, pbits) && stream_emits(
                    old(out)@,
                    mid0,
                    p_enc,
                    k,
                    lv,
                    bs,
                ));
            }
            assert({
                &&& (if old(self).spec_has_null() {
                    &&& bool_rle_decodes(p_enc, presence(old(self).written()))
                    &&& stream_emits(old(out)@, mid0, p_enc, k, lv, bs)
                } else {
                    mid0 == old(out)@
                })
                &&& stream_emits(
                    mid0,
                    mid2,
                    some_vals(old(self).written()).flatten(),
                    k,
                    lv,
                    bs,
                )
                &&& int_rle_dec(l_enc, false) == Some(byte_lengths(some_vals(old(self).written())))
                &&& stream_emits(mid2, out@, l_enc, k, lv, bs)
                &&& old(out)@.len() <= mid0.len() <= mid2.len() <= out@.len()
            });
            assert(stream_infos@ =~= (if old(self).spec_has_null() {
                old(stream_infos)@.push(
                    (StreamInfo {
                        kind: StreamKind::Present,
                        column_id: old(self).spec_column_id(),
                        length: (mid0.len() - old(out)@.len()) as u64,
                    }),
                )
            } else {
                old(stream_infos)@
            }).push(
                (StreamInfo {
                    kind: StreamKind::Data,
                    column_id: old(self).spec_column_id(),
                    length: (mid2.len() - mid0.len()) as u64,
                }),
            ).push(
                (StreamInfo {
                    kind: StreamKind::Length,
                    column_id: old(self).spec_column_id(),
                    length: (out@.len() - mid2.len()) as u64,
                }),
            ));
        }
        Ghost((mid0, mid2))
    }

    /// Append this column's stripe statistics.
    pub fn statistics(&self, out: &mut Vec<Statistics>)
        requires
            self.wf(),
        ensures
            final(out)@ == old(out)@.push(Statistics::Binary(self.spec_stripe_stats())),
            Statistics::Binary(self.spec_stripe_stats()).wf(),
    {
        out.push(Statistics::Binary(self.stripe_stats));
    }

    /// Once every row group is folded in, the stripe statistics describe
    /// exactly the values written.
    pub proof fn lemma_stats_reflect_written(&self)
        requires
            self.wf(),
            self.group_flushed(),
        ensures
            self.spec_stripe_stats().num_values == self.written().len(),
            self.spec_stripe_stats().num_present == some_vals(self.written()).len(),
            self.spec_stripe_stats().sum_lengths == sat_len_sum(some_vals(self.written())),
    {
        assert(sat_add64(self.stripe_stats.sum_lengths as nat, 0) == self.stripe_stats.sum_lengths);
    }

    /// Whether this column received exactly `expected` values.
    pub fn verify_row_count(&self, expected: u64) -> (r: bool)
        requires
            self.wf(),
        ensures
            r == (self.written().len() == expected),
    {
        self.stripe_stats.num_values + self.row_group_stats.num_values == expected
    }

    /// Bytes buffered; used for stripe-size rolling.
    pub fn estimated_size(&self) -> (r: usize) {
        sat_add_usize(
            sat_add_usize(
                self.streams.present.estimated_size(),
                self.streams.data.estimated_size(),
            ),
            self.streams.lengths.estimated_size(),
        )
    }
}

} // verus!
