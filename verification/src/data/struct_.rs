use vstd::prelude::*;
use crate::compression::{CompressionKind, CompressionStream, stream_emits};
use crate::count_write::{CountWrite, extends};
use crate::data::Data;
use crate::encoder::boolean_rle::{BooleanRLE, BooleanRLEPosition, bool_rle_decodes};
use crate::proto::{encode_row_index_entry, enc_row_index_entry};
use crate::statistics::{GenericStatistics, Statistics, count_true};
use crate::stripe::{StreamInfo, StreamKind};
use crate::writer::Config;

verus! {

pub struct StructRowIndexEntry {
    position: BooleanRLEPosition,
    stats: GenericStatistics,
}

/// The `RowIndex` message payload for the recorded row groups.
pub closed spec fn enc_struct_index(entries: Seq<StructRowIndexEntry>, include_present: bool) -> Seq<u8>
    decreases entries.len(),
{
    if entries.len() == 0 {
        Seq::empty()
    } else {
        enc_struct_index(entries.drop_last(), include_present) + enc_row_index_entry(
            (if include_present {
            entries.last().position.spec_entries()
        } else {
            Seq::empty()
        }),
            Statistics::Generic(entries.last().stats),
        )
    }
}

/// Column writer for Struct values: a PRESENT stream of row markers; the
/// children are driven through the column tree.
pub struct StructData {
    pub(crate) column_id: u32,
    pub(crate) children: Vec<Data>,
    pub(crate) present: BooleanRLE,
    pub(crate) stripe_stats: GenericStatistics,
    pub(crate) row_group_stats: GenericStatistics,
    pub(crate) row_group_position: BooleanRLEPosition,
    pub(crate) row_index_entries: Vec<StructRowIndexEntry>,
    pub(crate) config: Config,
    pub(crate) written: Ghost<Seq<bool>>,
}

impl StructData {
    /// The row markers written in the current stripe: true for a non-null
    /// row, false for a null.
    pub open(crate) spec fn written(&self) -> Seq<bool> {
        self.written@
    }

    pub closed spec fn spec_column_id(&self) -> u32 {
        self.column_id
    }

    pub closed spec fn spec_kind(&self) -> CompressionKind {
        self.present.spec_kind()
    }

    pub closed spec fn spec_level(&self) -> int {
        self.present.spec_level()
    }

    pub closed spec fn spec_block_size(&self) -> int {
        self.present.spec_block_size()
    }

    pub closed spec fn spec_stride(&self) -> u32 {
        self.config.row_index_stride
    }

    pub open(crate) spec fn spec_children(&self) -> Seq<Data> {
        self.children@
    }

    pub closed spec fn spec_stripe_stats(&self) -> GenericStatistics {
        self.stripe_stats
    }

    /// How many non-null rows this stripe holds; each child must receive
    /// exactly this many values.
    pub open(crate) spec fn spec_num_present(&self) -> int {
        self.stripe_stats.num_present + self.row_group_stats.num_present
    }

    pub closed spec fn group_flushed(&self) -> bool {
        self.row_group_stats.num_values == 0
    }

    /// The row groups recorded so far.
    pub closed spec fn spec_index_entries(&self) -> Seq<StructRowIndexEntry> {
        self.row_index_entries@
    }

    pub closed spec fn spec_has_null(&self) -> bool {
        self.stripe_stats.num_values != self.stripe_stats.num_present
            || self.row_group_stats.num_values != self.row_group_stats.num_present
    }

    /// Well-formedness of this node's own state; the children are covered
    /// by the tree predicate.
    pub closed spec fn own_wf(&self) -> bool {
        &&& self.config.wf()
        &&& self.present.wf()
        &&& self.present.spec_kind() == self.config.compression.spec_kind()
        &&& self.present.spec_level() == self.config.compression.spec_level() as int
        &&& self.present.spec_block_size() == self.config.compression.spec_block_size() as int
        &&& self.present.vals() == self.written@
        &&& self.stripe_stats.wf()
        &&& self.row_group_stats.wf()
        &&& self.stripe_stats.num_values + self.row_group_stats.num_values == self.written@.len()
        &&& self.stripe_stats.num_present + self.row_group_stats.num_present == count_true(
            self.written@,
        )
        &&& (self.row_group_stats.num_values == 0 ==> self.row_group_stats == (GenericStatistics {
            num_values: 0,
            num_present: 0,
        }))
        &&& self.spec_has_null() == (count_true(self.written@) != self.written@.len())
        &&& self.written@.len() <= u64::MAX
        &&& forall|i: int|
            0 <= i < self.row_index_entries@.len()
                ==> (#[trigger] self.row_index_entries@[i].stats).wf()
    }

    /// Build the node itself; `Data::new` fills in the children.
    pub(crate) fn new_node(config: &Config, column_id: &mut u32) -> (r: StructData)
        requires
            config.wf(),
            *old(column_id) < u32::MAX,
        ensures
            r.own_wf(),
            r.written() == Seq::<bool>::empty(),
            r.spec_column_id() == *old(column_id),
            *final(column_id) == *old(column_id) + 1,
            r.spec_stride() == config.row_index_stride,
            r.spec_children() == Seq::<Data>::empty(),
    {
        let cid = *column_id;
        *column_id = *column_id + 1;
        let present = BooleanRLE::new(&config.compression);
        let row_group_position = present.position();
        StructData {
            column_id: cid,
            children: Vec::new(),
            present,
            stripe_stats: GenericStatistics::new(),
            row_group_stats: GenericStatistics::new(),
            row_group_position,
            row_index_entries: Vec::new(),
            config: config.clone(),
            written: Ghost(Seq::empty()),
        }
    }

    pub(crate) fn push_child(&mut self, child: Data)
        ensures
            final(self).spec_children() == old(self).spec_children().push(child),
            final(self).own_wf() == old(self).own_wf(),
            final(self).group_flushed() == old(self).group_flushed(),
            final(self).written() == old(self).written(),
            final(self).spec_column_id() == old(self).spec_column_id(),
            final(self).spec_stride() == old(self).spec_stride(),
    {
        self.children.push(child);
    }

    pub fn column_id(&self) -> (r: u32)
        ensures
            r == self.spec_column_id(),
    {
        self.column_id
    }

    /// How many children this struct has.
    pub fn num_children(&self) -> (r: usize)
        ensures
            r == self.spec_children().len(),
    {
        self.children.len()
    }

    /// Borrow one child column mutably.
    pub fn child(&mut self, i: usize) -> (r: &mut Data)
        requires
            i < old(self).spec_children().len(),
        ensures
            *r == old(self).spec_children()[i as int],
            final(self).spec_children() == old(self).spec_children().update(i as int, *final(r)),
            final(self).own_wf() == old(self).own_wf(),
            final(self).group_flushed() == old(self).group_flushed(),
            final(self).written() == old(self).written(),
            final(self).spec_column_id() == old(self).spec_column_id(),
            final(self).spec_num_present() == old(self).spec_num_present(),
            final(self).spec_stride() == old(self).spec_stride(),
    {
        &mut self.children[i]
    }

    fn check_row_group(&mut self)
        requires
            old(self).own_wf(),
        ensures
            final(self).own_wf(),
            final(self).spec_kind() == old(self).spec_kind(),
            final(self).spec_level() == old(self).spec_level(),
            final(self).spec_block_size() == old(self).spec_block_size(),
            final(self).written() == old(self).written(),
            final(self).spec_column_id() == old(self).spec_column_id(),
            final(self).spec_children() == old(self).spec_children(),
            final(self).spec_num_present() == old(self).spec_num_present(),
            final(self).spec_stride() == old(self).spec_stride(),
    {
        if self.row_group_stats.num_values == self.config.row_index_stride as u64 {
            self.finish_row_group();
        }
    }

    fn finish_row_group(&mut self)
        requires
            old(self).own_wf(),
        ensures
            final(self).own_wf(),
            final(self).spec_kind() == old(self).spec_kind(),
            final(self).spec_level() == old(self).spec_level(),
            final(self).spec_block_size() == old(self).spec_block_size(),
            final(self).written() == old(self).written(),
            final(self).spec_column_id() == old(self).spec_column_id(),
            final(self).spec_children() == old(self).spec_children(),
            final(self).spec_num_present() == old(self).spec_num_present(),
            final(self).spec_stride() == old(self).spec_stride(),
            final(self).group_flushed(),
    {
        if self.row_group_stats.num_values > 0 {
            let group = self.row_group_stats;
            self.row_group_stats = GenericStatistics::new();
            self.stripe_stats.merge(&group);
            self.row_index_entries.push(
                StructRowIndexEntry { position: self.row_group_position, stats: group },
            );
            self.row_group_position = self.present.position();
        }
    }

    /// Mark one non-null row; the children receive their values separately.
    pub fn write(&mut self)
        requires
            old(self).own_wf(),
            old(self).written().len() < u64::MAX,
        ensures
            final(self).own_wf(),
            final(self).written() == old(self).written().push(true),
            final(self).spec_column_id() == old(self).spec_column_id(),
            final(self).spec_children() == old(self).spec_children(),
            final(self).spec_num_present() == old(self).spec_num_present() + 1,
            final(self).spec_stride() == old(self).spec_stride(),
    {
        self.present.write(true);
        self.row_group_stats.update(true);
        proof {
            self.written@ = self.written@.push(true);
            assert(self.written@.drop_last() =~= old(self).written@);
            assert(count_true(self.written@) == count_true(old(self).written@) + 1);
        }
        self.check_row_group();
    }

    /// Mark one null row.
    pub fn write_null(&mut self)
        requires
            old(self).own_wf(),
            old(self).written().len() < u64::MAX,
        ensures
            final(self).own_wf(),
            final(self).written() == old(self).written().push(false),
            final(self).spec_column_id() == old(self).spec_column_id(),
            final(self).spec_children() == old(self).spec_children(),
            final(self).spec_num_present() == old(self).spec_num_present(),
            final(self).spec_stride() == old(self).spec_stride(),
    {
        self.present.write(false);
        self.row_group_stats.update(false);
        proof {
            self.written@ = self.written@.push(false);
            assert(self.written@.drop_last() =~= old(self).written@);
            assert(count_true(self.written@) == count_true(old(self).written@));
        }
        self.check_row_group();
    }

    /// Whether this node itself received exactly `expected` row markers.
    pub fn verify_own_row_count(&self, expected: u64) -> (r: bool)
        requires
            self.own_wf(),
        ensures
            r == (self.written().len() == expected),
    {
        self.stripe_stats.num_values + self.row_group_stats.num_values == expected
    }

    /// Number of non-null rows so far; each child owes this many values.
    pub fn num_present(&self) -> (r: u64)
        requires
            self.own_wf(),
        ensures
            r == self.spec_num_present(),
    {
        self.stripe_stats.num_present + self.row_group_stats.num_present
    }

    /// Emit this node's ROW_INDEX stream, unless row indexes are disabled.
    pub(crate) fn write_own_index(&mut self, out: &mut CountWrite, stream_infos: &mut Vec<StreamInfo>)
        requires
            old(self).own_wf(),
        ensures
            final(self).own_wf(),
            final(self).written() == old(self).written(),
            final(self).spec_column_id() == old(self).spec_column_id(),
            final(self).spec_children() == old(self).spec_children(),
            final(self).spec_num_present() == old(self).spec_num_present(),
            final(self).spec_stride() == old(self).spec_stride(),
            final(self).group_flushed(),
            final(out)@.len() >= old(out)@.len(),
            extends(old(out)@, final(out)@),
            old(self).spec_stride() > 0 ==> final(stream_infos)@ == old(stream_infos)@.push(
                (StreamInfo {
                    kind: StreamKind::RowIndex,
                    column_id: old(self).spec_column_id(),
                    length: (final(out)@.len() - old(out)@.len()) as u64,
                }),
            ),
            old(self).spec_stride() > 0 ==> stream_emits(
                old(out)@,
                final(out)@,
                enc_struct_index(final(self).spec_index_entries(), final(self).spec_has_null()),
                old(self).spec_kind(),
                old(self).spec_level(),
                old(self).spec_block_size(),
            ),
            old(self).spec_stride() == 0 ==> final(stream_infos)@ == old(stream_infos)@
                && final(out)@ == old(out)@,
    {
        self.finish_row_group();
        if self.config.row_index_stride == 0 {
            return ;
        }
        let has_null = self.stripe_stats.num_values != self.stripe_stats.num_present;
        let mut msg: Vec<u8> = Vec::new();
        let mut i: usize = 0;
        while i < self.row_index_entries.len()
            invariant
                self.own_wf(),
                i <= self.row_index_entries@.len(),
                has_null == self.spec_has_null(),
                self.group_flushed(),
                msg@ == enc_struct_index(self.row_index_entries@.take(i as int), has_null),
            decreases self.row_index_entries@.len() - i,
        {
            let mut positions: Vec<u64> = Vec::new();
            if has_null {
                self.row_index_entries[i].position.record(&mut positions);
            }
            let stat = Statistics::Generic(self.row_index_entries[i].stats);
            encode_row_index_entry(&positions, &stat, &mut msg);
            i += 1;
            proof {
                assert(self.row_index_entries@.take(i as int).drop_last()
                    =~= self.row_index_entries@.take(i - 1));
                assert(self.row_index_entries@.take(i as int).last()
                    == self.row_index_entries@[i - 1]);
                assert(msg@ =~= enc_struct_index(
                    self.row_index_entries@.take(i as int),
                    has_null,
                ));
            }
        }
        proof {
            assert(self.row_index_entries@.take(self.row_index_entries@.len() as int)
                =~= self.row_index_entries@);
        }
        let start = out.pos();
        let mut cs = CompressionStream::new(&self.config.compression);
        cs.write_bytes(msg.as_slice());
        proof {
            assert(cs.content() =~= msg@);
        }
        cs.finish(out);
        let len = (out.pos() - start) as u64;
        stream_infos.push(
            StreamInfo { kind: StreamKind::RowIndex, column_id: self.column_id, length: len },
        );
        proof {
            assert(stream_infos@ =~= old(stream_infos)@.push(
                (StreamInfo {
                    kind: StreamKind::RowIndex,
                    column_id: old(self).spec_column_id(),
                    length: (out@.len() - old(out)@.len()) as u64,
                }),
            ));
        }
    }

    /// Emit this node's PRESENT stream when a null was seen, and reset the
    /// node's own per-stripe state.
    pub(crate) fn write_own_data(&mut self, out: &mut CountWrite, stream_infos: &mut Vec<StreamInfo>)
        requires
            old(self).own_wf(),
        ensures
            final(self).own_wf(),
            final(self).written() == Seq::<bool>::empty(),
            final(self).spec_column_id() == old(self).spec_column_id(),
            final(self).spec_children() == old(self).spec_children(),
            final(self).spec_stride() == old(self).spec_stride(),
            final(out)@.len() >= old(out)@.len(),
            extends(old(out)@, final(out)@),
            exists|p_enc: Seq<u8>|
                #![trigger p_enc.len()]
                {
                    &&& (if old(self).spec_has_null() {
                        &&& bool_rle_decodes(p_enc, old(self).written())
                        &&& stream_emits(
                            old(out)@,
                            final(out)@,
                            p_enc,
                            old(self).spec_kind(),
                            old(self).spec_level(),
                            old(self).spec_block_size(),
                        )
                        &&& final(stream_infos)@ == old(stream_infos)@.push(
                            (StreamInfo {
                                kind: StreamKind::Present,
                                column_id: old(self).spec_column_id(),
                                length: (final(out)@.len() - old(out)@.len()) as u64,
                            }),
                        )
                    } else {
                        final(out)@ == old(out)@ && final(stream_infos)@ == old(stream_infos)@
                    })
                },
    {
        let has_null = {
            let a = self.stripe_stats.num_values != self.stripe_stats.num_present;
            let b = self.row_group_stats.num_values != self.row_group_stats.num_present;
            a || b
        };
        if has_null {
            let start = out.pos();
            self.present.finish(out);
            let plen = (out.pos() - start) as u64;
            stream_infos.push(
                StreamInfo { kind: StreamKind::Present, column_id: self.column_id, length: plen },
            );
        } else {
            let mut scratch = CountWrite::new();
            self.present.finish(&mut scratch);
        }
        self.stripe_stats = GenericStatistics::new();
        self.row_group_stats = GenericStatistics::new();
        self.row_index_entries.clear();
        self.row_group_position = self.present.position();
        proof {
            self.written@ = Seq::empty();
            assert(count_true(self.written@) == 0);
            let k = old(self).spec_kind();
            let lv = old(self).spec_level();
            let bs = old(self).spec_block_size();
            let pbits = old(self).written();
            let p_enc: Seq<u8> = if old(self).spec_has_null() {
                choose|p_enc: Seq<u8>|
                    bool_rle_decodes(p_enc, pbits) && stream_emits(
                        old(out)@,
                        out@,
                        p_enc,
                        k,
                        lv,
                        bs,
                    )
            } else {
                Seq::empty()
            };
            if old(self).spec_has_null() {
                assert(bool_rle_decodes(p_enc, pbits) && stream_emits(
                    old(out)@,
                    out@,
                    p_enc,
                    k,
                    lv,
                    bs,
                ));
            }
            assert(p_enc.len() >= 0);
        }
    }

    /// Append this node's stripe statistics.
    pub(crate) fn statistics_own(&self, out: &mut Vec<Statistics>)
        requires
            self.own_wf(),
        ensures
            final(out)@ == old(out)@.push(Statistics::Generic(self.spec_stripe_stats())),
            Statistics::Generic(self.spec_stripe_stats()).wf(),
    {
        out.push(Statistics::Generic(self.stripe_stats));
    }

    /// Bytes buffered by this node itself.
    pub(crate) fn own_estimated_size(&self) -> (r: usize) {
        self.present.estimated_size()
    }

    /// Once every row group is folded in, the stripe statistics count
    /// exactly the row markers written.
    pub proof fn lemma_stats_reflect_written(&self)
        requires
            self.own_wf(),
            self.group_flushed(),
        ensures
            self.spec_stripe_stats().num_values == self.written().len(),
            self.spec_stripe_stats().num_present == count_true(self.written()),
    {
    }
}

} // verus!
