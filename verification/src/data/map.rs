use vstd::prelude::*;
use crate::compression::{CompressionKind, CompressionStream, stream_emits};
use crate::count_write::{CountWrite, extends};
use crate::data::Data;
use crate::data::{presence, some_vals, lemma_some_vals_push, sat_add_usize};
use crate::encoder::boolean_rle::{BooleanRLE, BooleanRLEPosition, bool_rle_decodes};
use crate::encoder::int_rle_v1::{UnsignedIntRLEv1, IntRLEv1Position, int_rle_dec};
use crate::proto::{encode_row_index_entry, enc_row_index_entry};
use crate::statistics::{GenericStatistics, Statistics};
use crate::stripe::{StreamInfo, StreamKind};
use crate::writer::Config;

verus! {

/// A seekable position in a list column.
#[derive(Clone, Copy)]
pub struct MapDataPosition {
    pub present: BooleanRLEPosition,
    pub lengths: IntRLEv1Position,
}

impl MapDataPosition {
    pub open spec fn spec_entries(&self, include_present: bool) -> Seq<u64> {
        (if include_present {
            self.present.spec_entries()
        } else {
            Seq::empty()
        }) + self.lengths.spec_entries()
    }

    pub fn record(&self, include_present: bool, out: &mut Vec<u64>)
        ensures
            final(out)@ == old(out)@ + self.spec_entries(include_present),
    {
        if include_present {
            self.present.record(out);
        }
        self.lengths.record(out);
        proof {
            assert(out@ =~= old(out)@ + self.spec_entries(include_present));
        }
    }
}

pub struct MapRowIndexEntry {
    position: MapDataPosition,
    stats: GenericStatistics,
}

/// The `RowIndex` message payload for the recorded row groups.
pub closed spec fn enc_map_index(entries: Seq<MapRowIndexEntry>, include_present: bool) -> Seq<u8>
    decreases entries.len(),
{
    if entries.len() == 0 {
        Seq::empty()
    } else {
        enc_map_index(entries.drop_last(), include_present) + enc_row_index_entry(
            entries.last().position.spec_entries(include_present),
            Statistics::Generic(entries.last().stats),
        )
    }
}

/// Column writer for Map values: a PRESENT stream and a LENGTH stream of
/// entry counts; the key and value columns are the two children.
pub struct MapData {
    pub(crate) column_id: u32,
    pub(crate) keys: Box<Data>,
    pub(crate) values: Box<Data>,
    pub(crate) present: BooleanRLE,
    pub(crate) lengths: UnsignedIntRLEv1,
    pub(crate) stripe_stats: GenericStatistics,
    pub(crate) row_group_stats: GenericStatistics,
    pub(crate) num_child_values: u64,
    pub(crate) row_group_position: MapDataPosition,
    pub(crate) row_index_entries: Vec<MapRowIndexEntry>,
    pub(crate) config: Config,
    pub(crate) written: Ghost<Seq<Option<u64>>>,
}

impl MapData {
    /// The element counts (or nulls) written in the current stripe.
    pub open(crate) spec fn written(&self) -> Seq<Option<u64>> {
        self.written@
    }

    pub closed spec fn spec_column_id(&self) -> u32 {
        self.column_id
    }

    pub closed spec fn spec_kind(&self) -> CompressionKind {
        self.present.spec_kind()
    }

    pub closed spec fn spec_level(&self) -> int {
        self.present.spec_level()
    }

    pub closed spec fn spec_block_size(&self) -> int {
        self.present.spec_block_size()
    }

    pub closed spec fn spec_stride(&self) -> u32 {
        self.config.row_index_stride
    }

    pub open(crate) spec fn spec_keys(&self) -> Data {
        *self.keys
    }

    pub open(crate) spec fn spec_values(&self) -> Data {
        *self.values
    }

    pub closed spec fn spec_stripe_stats(&self) -> GenericStatistics {
        self.stripe_stats
    }

    /// Total elements announced; the child must receive exactly this many.
    pub open(crate) spec fn spec_child_count(&self) -> u64 {
        self.num_child_values
    }

    pub closed spec fn group_flushed(&self) -> bool {
        self.row_group_stats.num_values == 0
    }

    /// The row groups recorded so far.
    pub closed spec fn spec_index_entries(&self) -> Seq<MapRowIndexEntry> {
        self.row_index_entries@
    }

    pub closed spec fn spec_has_null(&self) -> bool {
        self.stripe_stats.num_values != self.stripe_stats.num_present
            || self.row_group_stats.num_values != self.row_group_stats.num_present
    }

    pub closed spec fn own_wf(&self) -> bool {
        &&& self.config.wf()
        &&& self.present.wf()
        &&& self.present.spec_kind() == self.config.compression.spec_kind()
        &&& self.present.spec_level() == self.config.compression.spec_level() as int
        &&& self.present.spec_block_size() == self.config.compression.spec_block_size() as int
        &&& self.lengths.wf()
        &&& self.present.spec_kind() == self.lengths.spec_kind()
        &&& self.present.spec_level() == self.lengths.spec_level()
        &&& self.present.spec_block_size() == self.lengths.spec_block_size()
        &&& self.present.vals() == presence(self.written@)
        &&& self.lengths.vals() == some_vals(self.written@)
        &&& self.stripe_stats.wf()
        &&& self.row_group_stats.wf()
        &&& self.stripe_stats.num_values + self.row_group_stats.num_values == self.written@.len()
        &&& self.stripe_stats.num_present + self.row_group_stats.num_present == some_vals(
            self.written@,
        ).len()
        &&& (self.row_group_stats.num_values == 0 ==> self.row_group_stats == (GenericStatistics {
            num_values: 0,
            num_present: 0,
        }))
        &&& self.spec_has_null() == (some_vals(self.written@).len() != self.written@.len())
        &&& self.written@.len() <= u64::MAX
        &&& forall|i: int|
            0 <= i < self.row_index_entries@.len()
                ==> (#[trigger] self.row_index_entries@[i].stats).wf()
    }

    /// Build the node itself; `Data::new` fills in the children.
    pub(crate) fn new_node(config: &Config, column_id: &mut u32, keys: Data, values: Data) -> (r: MapData)
        requires
            config.wf(),
            *old(column_id) < u32::MAX,
        ensures
            r.own_wf(),
            r.written() == Seq::<Option<u64>>::empty(),
            r.spec_column_id() == *old(column_id),
            *final(column_id) == *old(column_id) + 1,
            r.spec_stride() == config.row_index_stride,
            r.spec_keys() == keys,
            r.spec_values() == values,
            r.spec_child_count() == 0,
    {
        let cid = *column_id;
        *column_id = *column_id + 1;
        let present = BooleanRLE::new(&config.compression);
        let lengths = UnsignedIntRLEv1::new(&config.compression);
        let row_group_position = MapDataPosition {
            present: present.position(),
            lengths: lengths.position(),
        };
        let r = MapData {
            column_id: cid,
            keys: Box::new(keys),
            values: Box::new(values),
            present,
            lengths,
            stripe_stats: GenericStatistics::new(),
            row_group_stats: GenericStatistics::new(),
            num_child_values: 0,
            row_group_position,
            row_index_entries: Vec::new(),
            config: config.clone(),
            written: Ghost(Seq::empty()),
        };
        proof {
            assert(presence(r.written@) =~= Seq::<bool>::empty());
            assert(some_vals(r.written@) =~= Seq::<u64>::empty());
        }
        r
    }

    pub fn column_id(&self) -> (r: u32)
        ensures
            r == self.spec_column_id(),
    {
        self.column_id
    }

    /// Borrow the key column mutably.
    pub fn keys(&mut self) -> (r: &mut Data)
        ensures
            *r == old(self).spec_keys(),
            final(self).spec_keys() == *final(r),
            final(self).spec_values() == old(self).spec_values(),
            final(self).own_wf() == old(self).own_wf(),
            final(self).group_flushed() == old(self).group_flushed(),
            final(self).written() == old(self).written(),
            final(self).spec_column_id() == old(self).spec_column_id(),
            final(self).spec_child_count() == old(self).spec_child_count(),
            final(self).spec_stride() == old(self).spec_stride(),
    {
        &mut self.keys
    }

    /// Borrow the value column mutably.
    pub fn values(&mut self) -> (r: &mut Data)
        ensures
            *r == old(self).spec_values(),
            final(self).spec_values() == *final(r),
            final(self).spec_keys() == old(self).spec_keys(),
            final(self).own_wf() == old(self).own_wf(),
            final(self).group_flushed() == old(self).group_flushed(),
            final(self).written() == old(self).written(),
            final(self).spec_column_id() == old(self).spec_column_id(),
            final(self).spec_child_count() == old(self).spec_child_count(),
            final(self).spec_stride() == old(self).spec_stride(),
    {
        &mut self.values
    }

    /// Borrow both children mutably.
    pub fn children(&mut self) -> (r: (&mut Data, &mut Data))
        ensures
            *r.0 == old(self).spec_keys(),
            *r.1 == old(self).spec_values(),
            final(self).spec_keys() == *final(r.0),
            final(self).spec_values() == *final(r.1),
            final(self).own_wf() == old(self).own_wf(),
            final(self).group_flushed() == old(self).group_flushed(),
            final(self).written() == old(self).written(),
            final(self).spec_column_id() == old(self).spec_column_id(),
            final(self).spec_child_count() == old(self).spec_child_count(),
            final(self).spec_stride() == old(self).spec_stride(),
    {
        (&mut self.keys, &mut self.values)
    }

    fn check_row_group(&mut self)
        requires
            old(self).own_wf(),
        ensures
            final(self).own_wf(),
            final(self).spec_kind() == old(self).spec_kind(),
            final(self).spec_level() == old(self).spec_level(),
            final(self).spec_block_size() == old(self).spec_block_size(),
            final(self).written() == old(self).written(),
            final(self).spec_column_id() == old(self).spec_column_id(),
            final(self).spec_keys() == old(self).spec_keys(),
            final(self).spec_values() == old(self).spec_values(),
            final(self).spec_child_count() == old(self).spec_child_count(),
            final(self).spec_stride() == old(self).spec_stride(),
    {
        if self.row_group_stats.num_values == self.config.row_index_stride as u64 {
            self.finish_row_group();
        }
    }

    fn finish_row_group(&mut self)
        requires
            old(self).own_wf(),
        ensures
            final(self).own_wf(),
            final(self).spec_kind() == old(self).spec_kind(),
            final(self).spec_level() == old(self).spec_level(),
            final(self).spec_block_size() == old(self).spec_block_size(),
            final(self).written() == old(self).written(),
            final(self).spec_column_id() == old(self).spec_column_id(),
            final(self).spec_keys() == old(self).spec_keys(),
            final(self).spec_values() == old(self).spec_values(),
            final(self).spec_child_count() == old(self).spec_child_count(),
            final(self).spec_stride() == old(self).spec_stride(),
            final(self).group_flushed(),
    {
        if self.row_group_stats.num_values > 0 {
            let group = self.row_group_stats;
            self.row_group_stats = GenericStatistics::new();
            self.stripe_stats.merge(&group);
            self.row_index_entries.push(
                MapRowIndexEntry { position: self.row_group_position, stats: group },
            );
            self.row_group_position = MapDataPosition {
                present: self.present.position(),
                lengths: self.lengths.position(),
            };
        }
    }

    /// Announce one non-null map of `len` entries; the caller writes the
    /// matching keys and values into the children.
    pub fn write(&mut self, len: u64)
        requires
            old(self).own_wf(),
            old(self).written().len() < u64::MAX,
            old(self).spec_child_count() + len <= u64::MAX,
        ensures
            final(self).own_wf(),
            final(self).written() == old(self).written().push(Some(len)),
            final(self).spec_column_id() == old(self).spec_column_id(),
            final(self).spec_keys() == old(self).spec_keys(),
            final(self).spec_values() == old(self).spec_values(),
            final(self).spec_child_count() == old(self).spec_child_count() + len,
            final(self).spec_stride() == old(self).spec_stride(),
    {
        self.present.write(true);
        self.lengths.write(len);
        self.num_child_values = self.num_child_values + len;
        self.row_group_stats.update(true);
        proof {
            lemma_some_vals_push(self.written@, Some(len));
            self.written@ = self.written@.push(Some(len));
            assert(presence(self.written@) =~= presence(old(self).written@).push(true));
            assert(some_vals(old(self).written@) + seq![len] =~= some_vals(
                old(self).written@,
            ).push(len));
        }
        self.check_row_group();
    }

    /// Write one null row.
    pub fn write_null(&mut self)
        requires
            old(self).own_wf(),
            old(self).written().len() < u64::MAX,
        ensures
            final(self).own_wf(),
            final(self).written() == old(self).written().push(None),
            final(self).spec_column_id() == old(self).spec_column_id(),
            final(self).spec_keys() == old(self).spec_keys(),
            final(self).spec_values() == old(self).spec_values(),
            final(self).spec_child_count() == old(self).spec_child_count(),
            final(self).spec_stride() == old(self).spec_stride(),
    {
        self.present.write(false);
        self.row_group_stats.update(false);
        proof {
            lemma_some_vals_push(self.written@, None);
            self.written@ = self.written@.push(None);
            assert(presence(self.written@) =~= presence(old(self).written@).push(false));
            assert(some_vals(self.written@) =~= some_vals(old(self).written@));
        }
        self.check_row_group();
    }

    /// Whether this node itself received exactly `expected` values.
    pub fn verify_own_row_count(&self, expected: u64) -> (r: bool)
        requires
            self.own_wf(),
        ensures
            r == (self.written().len() == expected),
    {
        self.stripe_stats.num_values + self.row_group_stats.num_values == expected
    }

    /// Total elements announced so far.
    pub fn child_count(&self) -> (r: u64)
        ensures
            r == self.spec_child_count(),
    {
        self.num_child_values
    }

    /// Emit this node's ROW_INDEX stream, unless row indexes are disabled.
    pub(crate) fn write_own_index(&mut self, out: &mut CountWrite, stream_infos: &mut Vec<StreamInfo>)
        requires
            old(self).own_wf(),
        ensures
            final(self).own_wf(),
            final(self).written() == old(self).written(),
            final(self).spec_column_id() == old(self).spec_column_id(),
            final(self).spec_keys() == old(self).spec_keys(),
            final(self).spec_values() == old(self).spec_values(),
            final(self).spec_child_count() == old(self).spec_child_count(),
            final(self).spec_stride() == old(self).spec_stride(),
            final(self).group_flushed(),
            final(out)@.len() >= old(out)@.len(),
            extends(old(out)@, final(out)@),
            old(self).spec_stride() > 0 ==> final(stream_infos)@ == old(stream_infos)@.push(
                (StreamInfo {
                    kind: StreamKind::RowIndex,
                    column_id: old(self).spec_column_id(),
                    length: (final(out)@.len() - old(out)@.len()) as u64,
                }),
            ),
            old(self).spec_stride() > 0 ==> stream_emits(
                old(out)@,
                final(out)@,
                enc_map_index(final(self).spec_index_entries(), final(self).spec_has_null()),
                old(self).spec_kind(),
                old(self).spec_level(),
                old(self).spec_block_size(),
            ),
            old(self).spec_stride() == 0 ==> final(stream_infos)@ == old(stream_infos)@
                && final(out)@ == old(out)@,
    {
        self.finish_row_group();
        if self.config.row_index_stride == 0 {
            return ;
        }
        let has_null = self.stripe_stats.num_values != self.stripe_stats.num_present;
        let mut msg: Vec<u8> = Vec::new();
        let mut i: usize = 0;
        while i < self.row_index_entries.len()
            invariant
                self.own_wf(),
                i <= self.row_index_entries@.len(),
                has_null == self.spec_has_null(),
                self.group_flushed(),
                msg@ == enc_map_index(self.row_index_entries@.take(i as int), has_null),
            decreases self.row_index_entries@.len() - i,
        {
            let mut positions: Vec<u64> = Vec::new();
            self.row_index_entries[i].position.record(has_null, &mut positions);
            let stat = Statistics::Generic(self.row_index_entries[i].stats);
            encode_row_index_entry(&positions, &stat, &mut msg);
            i += 1;
            proof {
                assert(self.row_index_entries@.take(i as int).drop_last()
                    =~= self.row_index_entries@.take(i - 1));
                assert(self.row_index_entries@.take(i as int).last()
                    == self.row_index_entries@[i - 1]);
                assert(msg@ =~= enc_map_index(
                    self.row_index_entries@.take(i as int),
                    has_null,
                ));
            }
        }
        proof {
            assert(self.row_index_entries@.take(self.row_index_entries@.len() as int)
                =~= self.row_index_entries@);
        }
        let start = out.pos();
        let mut cs = CompressionStream::new(&self.config.compression);
        cs.write_bytes(msg.as_slice());
        proof {
            assert(cs.content() =~= msg@);
        }
        cs.finish(out);
        let len = (out.pos() - start) as u64;
        stream_infos.push(
            StreamInfo { kind: StreamKind::RowIndex, column_id: self.column_id, length: len },
        );
        proof {
            assert(stream_infos@ =~= old(stream_infos)@.push(
                (StreamInfo {
                    kind: StreamKind::RowIndex,
                    column_id: old(self).spec_column_id(),
                    length: (out@.len() - old(out)@.len()) as u64,
                }),
            ));
        }
    }

    /// Emit this node's PRESENT stream (when a null was seen) and LENGTH
    /// stream, and reset the node's own per-stripe state.  The LENGTH
    /// stream carries exactly the non-null entry counts written.
    pub(crate) fn write_own_data(&mut self, out: &mut CountWrite, stream_infos: &mut Vec<StreamInfo>) -> (mids: Ghost<Seq<u8>>)
        requires
            old(self).own_wf(),
        ensures
            final(self).own_wf(),
            final(self).written() == Seq::<Option<u64>>::empty(),
            final(self).spec_column_id() == old(self).spec_column_id(),
            final(self).spec_keys() == old(self).spec_keys(),
            final(self).spec_values() == old(self).spec_values(),
            final(self).spec_child_count() == 0,
            final(self).spec_stride() == old(self).spec_stride(),
            final(out)@.len() >= old(out)@.len(),
            extends(old(out)@, final(out)@),
            ({
                let mid = mids@;
                exists|p_enc: Seq<u8>, l_enc: Seq<u8>|
                    #![trigger p_enc.len(), l_enc.len()]
                    {
                        &&& (if old(self).spec_has_null() {
                            &&& bool_rle_decodes(p_enc, presence(old(self).written()))
                            &&& stream_emits(
                                old(out)@,
                                mid,
                                p_enc,
                                old(self).spec_kind(),
                                old(self).spec_level(),
                                old(self).spec_block_size(),
                            )
                        } else {
                            mid == old(out)@
                        })
                        &&& int_rle_dec(l_enc, false) == Some(some_vals(old(self).written()))
                        &&& stream_emits(
                            mid,
                            final(out)@,
                            l_enc,
                            old(self).spec_kind(),
                            old(self).spec_level(),
                            old(self).spec_block_size(),
                        )
                        &&& old(out)@.len() <= mid.len() <= final(out)@.len()
                        &&& final(stream_infos)@ == (if old(self).spec_has_null() {
                            old(stream_infos)@.push(
                                (StreamInfo {
                                    kind: StreamKind::Present,
                                    column_id: old(self).spec_column_id(),
                                    length: (mid.len() - old(out)@.len()) as u64,
                                }),
                            )
                        } else {
                            old(stream_infos)@
                        }).push(
                            (StreamInfo {
                                kind: StreamKind::Length,
                                column_id: old(self).spec_column_id(),
                                length: (final(out)@.len() - mid.len()) as u64,
                            }),
                        )
                    }
            }),
    {
        let has_null = {
            let a = self.stripe_stats.num_values != self.stripe_stats.num_present;
            let b = self.row_group_stats.num_values != self.row_group_stats.num_present;
            a || b
        };
        let ghost mid0: Seq<u8> = old(out)@;
        if has_null {
            let start = out.pos();
            self.present.finish(out);
            let plen = (out.pos() - start) as u64;
            stream_infos.push(
                StreamInfo { kind: StreamKind::Present, column_id: self.column_id, length: plen },
            );
            proof {
                mid0 = out@;
            }
        } else {
            let mut scratch = CountWrite::new();
            self.present.finish(&mut scratch);
        }
        let start = out.pos();
        self.lengths.finish(out);
        let llen = (out.pos() - start) as u64;
        stream_infos.push(
            StreamInfo { kind: StreamKind::Length, column_id: self.column_id, length: llen },
        );
        self.stripe_stats = GenericStatistics::new();
        self.row_group_stats = GenericStatistics::new();
        self.num_child_values = 0;
        self.row_index_entries.clear();
        self.row_group_position = MapDataPosition {
            present: self.present.position(),
            lengths: self.lengths.position(),
        };
        proof {
            self.written@ = Seq::empty();
            assert(presence(self.written@) =~= Seq::<bool>::empty());
            assert(some_vals(self.written@) =~= Seq::<u64>::empty());
            let k = old(self).spec_kind();
            let lv = old(self).spec_level();
            let bs = old(self).spec_block_size();
            let pbits = presence(old(self).written());
            let lens = some_vals(old(self).written());
            let l_enc = choose|l_enc: Seq<u8>|
                int_rle_dec(l_enc, false) == Some(lens) && stream_emits(
                    mid0,
                    out@,
                    l_enc,
                    k,
                    lv,
                    bs,
                );
            assert(int_rle_dec(l_enc, false) == Some(lens) && stream_emits(
                mid0,
                out@,
                l_enc,
                k,
                lv,
                bs,
            ));
            let p_enc: Seq<u8> = if old(self).spec_has_null() {
                choose|p_enc: Seq<u8>|
                    bool_rle_decodes(p_enc, pbits) && stream_emits(
                        old(out)@,
                        mid0,
                        p_enc,
                        k,
                        lv,
                        bs,
                    )
            } else {
                Seq::empty()
            };
            if old(self).spec_has_null() {
                assert(bool_rle_decodes(p_enc, pbits) && stream_emits(
                    old(out)@,
                    mid0,
                    p_enc,
                    k,
                    lv,
                    bs,
                ));
            }
            assert(p_enc.len() >= 0 && l_enc.len() >= 0);
        }
        Ghost(mid0)
    }

    /// Append this node's stripe statistics.
    pub(crate) fn statistics_own(&self, out: &mut Vec<Statistics>)
        requires
            self.own_wf(),
        ensures
            final(out)@ == old(out)@.push(Statistics::Generic(self.spec_stripe_stats())),
            Statistics::Generic(self.spec_stripe_stats()).wf(),
    {
        out.push(Statistics::Generic(self.stripe_stats));
    }

    /// Once every row group is folded in, the stripe statistics count
    /// exactly the values written.
    pub proof fn lemma_stats_reflect_written(&self)
        requires
            self.own_wf(),
            self.group_flushed(),
        ensures
            self.spec_stripe_stats().num_values == self.written().len(),
            self.spec_stripe_stats().num_present == some_vals(self.written()).len(),
    {
    }

    /// Bytes buffered by this node itself.
    pub(crate) fn own_estimated_size(&self) -> (r: usize) {
        sat_add_usize(self.present.estimated_size(), self.lengths.estimated_size())
    }
}

} // verus!
